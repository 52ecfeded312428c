//! Meanings: what names come to, by what other names come to.

use vstd::prelude::*;

use crate::ccl::apart::law_keys;
use crate::ccl::exec::{begun, ended, law_mark_lifted, module_start, plus, ExecErrorKind, Failure, Next, State, Waiting};
use crate::ccl::runs::{
    answered, asked, comes_to, done, driven, law_one_answer, lemma_answered, lemma_answered_in, lemma_ask, lemma_done,
    lemma_passes_above, lemma_passes_on, lemma_passes_start, lemma_reaches_end, lemma_reaches_on, lemma_step, passes,
    reaches, run, Driver, Question,
};
use crate::ccl::scope::{
    empty_inner, has_key, inner_of, keys_of, override_links, walked, with_bindings, Bound, Inner, Meaning, Module,
};
use crate::digest::utf8;
use crate::reach::{depends, leads, waits_for};
use crate::table::{
    ascending, found, law_with_row, law_with_row_names, lemma_found_name, lemma_placed, lemma_rows_unique,
    names, with_row,
};
use crate::text::{cut, has_char, lemma_cut};
use crate::value::Node;

verus! {

/// Whether an answer says that a name cannot be resolved.
pub open spec fn unresolvable(answer: Result<Meaning, Failure>) -> bool {
    answer matches Err(e) && e.kind == ExecErrorKind::CannotResolveSymbol
}

/// Whether the scopes `list`, asked in turn for the value of `name` from where the
/// scopes are `a`, all say that it cannot be resolved, and leave the scopes as `b`.
pub open spec fn passed_over(
    w: Driver,
    a: Seq<Inner>,
    list: Seq<usize>,
    name: Seq<char>,
    offset: usize,
    b: Seq<Inner>,
) -> bool
    decreases list.len(),
{
    if list.len() == 0 {
        a == b
    } else {
        exists|m: Seq<Inner>, x: Result<Meaning, Failure>, c: Seq<Inner>, y: Result<Meaning, Failure>|
            {
                &&& #[trigger] comes_to(w, a, Question::Meaning { scope: list[0], specifier: name, offset }, m, x)
                &&& #[trigger] comes_to(w, m, Question::Value { scope: list[0], specifier: name, offset }, c, y)
                &&& unresolvable(y)
                &&& passed_over(w, c, list.skip(1), name, offset, b)
            }
    }
}

/// Asking one of the scopes that override a scope.
proof fn lemma_ask_override(
    w: Driver,
    a: Seq<Inner>,
    stack: Seq<Waiting>,
    scope: usize,
    name: Seq<char>,
    offset: usize,
    rest: Seq<usize>,
    m: Seq<Inner>,
    x: Result<Meaning, Failure>,
    c: Seq<Inner>,
    y: Result<Meaning, Failure>,
)
    requires
        rest.len() > 0,
        comes_to(w, a, Question::Meaning { scope: rest[0], specifier: name, offset }, m, x),
        comes_to(w, m, Question::Value { scope: rest[0], specifier: name, offset }, c, y),
    ensures
        reaches(
            w,
            State { arena: a, stack, next: Next::Overrides { scope, specifier: name, offset, rest } },
            if unresolvable(y) {
                State { arena: c, stack, next: Next::Overrides { scope, specifier: name, offset, rest: rest.skip(1) } }
            } else {
                answered(ended(c, scope, name), stack, x)
            },
        ),
{
    let s = State { arena: a, stack, next: Next::Overrides { scope, specifier: name, offset, rest } };
    let o = rest[0];
    let first = stack.push(
        Waiting::Override { scope, specifier: name, offset, current: o, rest: rest.skip(1) },
    );
    let second = stack.push(
        Waiting::OverrideValue { scope, specifier: name, offset, rest: rest.skip(1), result: x },
    );
    let q = Question::Meaning { scope: o, specifier: name, offset };
    let v = Question::Value { scope: o, specifier: name, offset };
    lemma_step(w, s);
    assert(driven(w, s) == asked(a, first, q));
    lemma_ask(w, a, first, q, m, x);
    lemma_reaches_on(w, s, asked(a, first, q), answered(m, first, x));
    lemma_step(w, answered(m, first, x));
    assert(first.drop_last() =~= stack);
    assert(driven(w, answered(m, first, x)) == asked(m, second, v));
    lemma_reaches_on(w, s, answered(m, first, x), asked(m, second, v));
    lemma_ask(w, m, second, v, c, y);
    lemma_reaches_on(w, s, asked(m, second, v), answered(c, second, y));
    lemma_step(w, answered(c, second, y));
    assert(second.drop_last() =~= stack);
    lemma_reaches_on(w, s, answered(c, second, y), driven(w, answered(c, second, y)));
}

/// Asking scopes that override a scope, none of which knows the name.
proof fn lemma_pass_over(
    w: Driver,
    a: Seq<Inner>,
    stack: Seq<Waiting>,
    scope: usize,
    name: Seq<char>,
    offset: usize,
    list: Seq<usize>,
    more: Seq<usize>,
    b: Seq<Inner>,
)
    requires
        passed_over(w, a, list, name, offset, b),
    ensures
        reaches(
            w,
            State { arena: a, stack, next: Next::Overrides { scope, specifier: name, offset, rest: list + more } },
            State { arena: b, stack, next: Next::Overrides { scope, specifier: name, offset, rest: more } },
        ),
    decreases list.len(),
{
    let s = State { arena: a, stack, next: Next::Overrides { scope, specifier: name, offset, rest: list + more } };
    if list.len() == 0 {
        assert(list + more =~= more);
        assert(run(w, s, 0) == s);
    } else {
        let (m, x, c, y) = choose|
            m: Seq<Inner>,
            x: Result<Meaning, Failure>,
            c: Seq<Inner>,
            y: Result<Meaning, Failure>,
        |
            {
                &&& #[trigger] comes_to(w, a, Question::Meaning { scope: list[0], specifier: name, offset }, m, x)
                &&& #[trigger] comes_to(w, m, Question::Value { scope: list[0], specifier: name, offset }, c, y)
                &&& unresolvable(y)
                &&& passed_over(w, c, list.skip(1), name, offset, b)
            };
        assert((list + more)[0] == list[0]);
        assert((list + more).skip(1) =~= list.skip(1) + more);
        lemma_ask_override(w, a, stack, scope, name, offset, list + more, m, x, c, y);
        lemma_pass_over(w, c, stack, scope, name, offset, list.skip(1), more, b);
        lemma_reaches_on(
            w,
            s,
            State {
                arena: c,
                stack,
                next: Next::Overrides { scope, specifier: name, offset, rest: list.skip(1) + more },
            },
            State { arena: b, stack, next: Next::Overrides { scope, specifier: name, offset, rest: more } },
        );
    }
}

/// Making a value of what a name stands for is the same in all scopes that do not
/// override names deep inside of it.
proof fn lemma_same_value(
    w: Driver,
    a: Seq<Inner>,
    one: usize,
    first: Seq<char>,
    other: usize,
    second: Seq<char>,
    answer: Result<Meaning, Failure>,
    b: Seq<Inner>,
    value: Result<Meaning, Failure>,
)
    requires
        found(inner_of(a, one).deep_overrides, first) is None,
        found(inner_of(a, other).deep_overrides, second) is None,
        comes_to(w, a, Question::ValueOf { scope: one, specifier: first, answer }, b, value),
    ensures
        comes_to(w, a, Question::ValueOf { scope: other, specifier: second, answer }, b, value),
{
    let s = asked(a, Seq::empty(), Question::ValueOf { scope: one, specifier: first, answer });
    let t = asked(a, Seq::empty(), Question::ValueOf { scope: other, specifier: second, answer });
    let end = answered(b, Seq::empty(), value);
    assert(s.stack.drop_last() =~= Seq::<Waiting>::empty());
    assert(t.stack.drop_last() =~= Seq::<Waiting>::empty());
    assert(driven(w, s) == driven(w, t));
    lemma_step(w, s);
    lemma_step(w, t);
    lemma_reaches_end(w, s, driven(w, s), end);
    lemma_reaches_on(w, t, driven(w, t), end);
}

/// A value is what is made of the meaning.
pub proof fn lemma_value_of_meaning(
    w: Driver,
    a: Seq<Inner>,
    scope: usize,
    name: Seq<char>,
    offset: usize,
    b: Seq<Inner>,
    meaning: Result<Meaning, Failure>,
    c: Seq<Inner>,
    value: Result<Meaning, Failure>,
)
    requires
        comes_to(w, a, Question::Meaning { scope, specifier: name, offset }, b, meaning),
        comes_to(w, b, Question::ValueOf { scope, specifier: name, answer: meaning }, c, value),
    ensures
        comes_to(w, a, Question::Value { scope, specifier: name, offset }, c, value),
{
    let none = Seq::<Waiting>::empty();
    let stack = none.push(Waiting::Value { scope, specifier: name });
    lemma_ask(w, a, stack, Question::Meaning { scope, specifier: name, offset }, b, meaning);
    lemma_reaches_on(
        w,
        asked(a, none, Question::Value { scope, specifier: name, offset }),
        answered(b, stack, meaning),
        answered(c, none, value),
    );
}

/// Whether a name is free to be resolved in a scope that nothing overrides.
pub open spec fn free(a: Seq<Inner>, scope: usize, name: Seq<char>) -> bool {
    let inner = inner_of(a, scope);
    &&& scope < a.len()
    &&& cut(name, '.') is None
    &&& !inner.in_progress.contains(name)
    &&& inner.overrides.len() == 0
    &&& inner.deep_overrides.len() == 0
}

/// A name that is free to be resolved is looked up among the scope's own names.
pub proof fn lemma_looked_up(w: Driver, a: Seq<Inner>, scope: usize, name: Seq<char>, offset: usize)
    requires
        free(a, scope, name),
    ensures
        reaches(
            w,
            asked(a, Seq::empty(), Question::Meaning { scope, specifier: name, offset }),
            State { arena: a, stack: Seq::empty(), next: Next::Own { scope, specifier: name, offset } },
        ),
{
    let none = Seq::<Waiting>::empty();
    let s = asked(a, none, Question::Meaning { scope, specifier: name, offset });
    let marked = State {
        arena: begun(a, scope, name),
        stack: none,
        next: Next::Overrides { scope, specifier: name, offset, rest: inner_of(a, scope).overrides },
    };
    let own = State { arena: a, stack: none, next: Next::Own { scope, specifier: name, offset } };
    assert(found(inner_of(a, scope).deep_overrides, name) is None);
    lemma_step(w, s);
    assert(driven(w, s) == marked);
    lemma_step(w, marked);
    law_mark_lifted(a, scope, name);
    assert(driven(w, marked) == own);
    lemma_reaches_on(w, s, marked, own);
}

/// What is no scope is its own value.
pub proof fn lemma_made(w: Driver, a: Seq<Inner>, scope: usize, name: Seq<char>, answer: Result<Meaning, Failure>)
    requires
        !(answer matches Ok(Meaning::Scope(_))),
    ensures
        comes_to(w, a, Question::ValueOf { scope, specifier: name, answer }, a, answer),
{
    let none = Seq::<Waiting>::empty();
    let t = asked(a, none, Question::ValueOf { scope, specifier: name, answer });
    lemma_step(w, t);
    assert(t.stack.drop_last() =~= none);
    assert(driven(w, t) == answered(a, none, answer));
}

/// After a scope was overridden by `over`, a name that the scopes that overrode it
/// before cannot resolve and `over` can stands for what it stands for in `over`,
/// and has the value that is made of that, whether the scope itself binds the name
/// or not. The name is no path, is not being resolved already, and names deep
/// inside of it are not overridden.
pub proof fn law_override_decides(
    w: Driver,
    a: Seq<Inner>,
    scope: usize,
    name: Seq<char>,
    offset: usize,
    before: Seq<usize>,
    over: usize,
    b: Seq<Inner>,
    c: Seq<Inner>,
    meaning: Result<Meaning, Failure>,
    d: Seq<Inner>,
    known: Result<Meaning, Failure>,
    e: Seq<Inner>,
    value: Result<Meaning, Failure>,
)
    requires
        cut(name, '.') is None,
        inner_of(a, scope).overrides == before.push(over),
        !inner_of(a, scope).in_progress.contains(name),
        found(inner_of(a, scope).deep_overrides, name) is None,
        passed_over(w, begun(a, scope, name), before, name, offset, b),
        comes_to(w, b, Question::Meaning { scope: over, specifier: name, offset }, c, meaning),
        comes_to(w, c, Question::Value { scope: over, specifier: name, offset }, d, known),
        !unresolvable(known),
        found(inner_of(ended(d, scope, name), scope).deep_overrides, name) is None,
        found(inner_of(ended(d, scope, name), over).deep_overrides, name) is None,
        comes_to(
            w,
            ended(d, scope, name),
            Question::ValueOf { scope: over, specifier: name, answer: meaning },
            e,
            value,
        ),
    ensures
        comes_to(w, a, Question::Meaning { scope, specifier: name, offset }, ended(d, scope, name), meaning),
        comes_to(w, a, Question::Value { scope, specifier: name, offset }, e, value),
{
    let none = Seq::<Waiting>::empty();
    let s = asked(a, none, Question::Meaning { scope, specifier: name, offset });
    let marked = begun(a, scope, name);
    let rest = before + seq![over];
    assert(rest =~= before.push(over));
    let t = State { arena: marked, stack: none, next: Next::Overrides { scope, specifier: name, offset, rest } };
    let u = State {
        arena: b,
        stack: none,
        next: Next::Overrides { scope, specifier: name, offset, rest: seq![over] },
    };
    lemma_step(w, s);
    assert(driven(w, s) == t);
    lemma_pass_over(w, marked, none, scope, name, offset, before, seq![over], b);
    lemma_reaches_on(w, s, t, u);
    lemma_ask_override(w, b, none, scope, name, offset, seq![over], c, meaning, d, known);
    lemma_reaches_on(w, s, u, answered(ended(d, scope, name), none, meaning));
    lemma_same_value(w, ended(d, scope, name), over, name, scope, name, meaning, e, value);
    lemma_value_of_meaning(w, a, scope, name, offset, ended(d, scope, name), meaning, e, value);
}

/// A path of names stands for what its last part stands for in the scope that its
/// first name stands for.
pub proof fn law_path_goes_inside(
    w: Driver,
    a: Seq<Inner>,
    scope: usize,
    first: Seq<char>,
    rest: Seq<char>,
    offset: usize,
    b: Seq<Inner>,
    inside: usize,
    c: Seq<Inner>,
    meaning: Result<Meaning, Failure>,
)
    requires
        !has_char(first, '.'),
        found(inner_of(a, scope).scopes, first) is None,
        comes_to(w, a, Question::Meaning { scope, specifier: first, offset }, b, Ok(Meaning::Scope(inside))),
        comes_to(
            w,
            b,
            Question::Meaning {
                scope: inside,
                specifier: rest,
                offset: plus(offset as int, utf8(first).len() as int),
            },
            c,
            meaning,
        ),
    ensures
        comes_to(w, a, Question::Meaning { scope, specifier: first + seq!['.'] + rest, offset }, c, meaning),
{
    let none = Seq::<Waiting>::empty();
    let path = first + seq!['.'] + rest;
    let further = plus(offset as int, utf8(first).len() as int);
    let outer = none.push(Waiting::Member { offset: further, suffix: rest });
    let stack = outer.push(Waiting::Inside { ident: first, offset });
    let s = asked(a, none, Question::Meaning { scope, specifier: path, offset });
    let q = Question::Meaning { scope, specifier: first, offset };
    let answer: Result<Meaning, Failure> = Ok(Meaning::Scope(inside));
    lemma_cut(first, '.', rest);
    lemma_step(w, s);
    assert(driven(w, s) == asked(a, stack, q));
    lemma_ask(w, a, stack, q, b, answer);
    lemma_reaches_on(w, s, asked(a, stack, q), answered(b, stack, answer));
    assert(stack.drop_last() =~= outer);
    lemma_step(w, answered(b, stack, answer));
    assert(driven(w, answered(b, stack, answer)) == answered(b, outer, answer));
    lemma_reaches_on(w, s, answered(b, stack, answer), answered(b, outer, answer));
    assert(outer.drop_last() =~= none);
    lemma_step(w, answered(b, outer, answer));
    let inner = Question::Meaning { scope: inside, specifier: rest, offset: further };
    assert(driven(w, answered(b, outer, answer)) == asked(b, none, inner));
    lemma_reaches_on(w, s, answered(b, outer, answer), asked(b, none, inner));
    lemma_reaches_on(w, s, asked(b, none, inner), answered(c, none, meaning));
}

/// Whether the value of `name` in a scope does not depend on when it is asked for
/// in the course of the evaluations in the states `one` and `other`: wherever it is
/// asked for while the scopes are as one of the two passes them, and comes to a
/// value, it comes to the same one.
pub open spec fn steady(w: Driver, one: State, other: State, scope: usize, name: Seq<char>) -> bool {
    forall|
        a: Seq<Inner>,
        i: usize,
        b: Seq<Inner>,
        x: Result<Meaning, Failure>,
        c: Seq<Inner>,
        j: usize,
        d: Seq<Inner>,
        y: Result<Meaning, Failure>,
    |
        {
            &&& passes(w, one, a) || passes(w, other, a)
            &&& passes(w, one, c) || passes(w, other, c)
            &&& #[trigger] comes_to(w, a, Question::Value { scope, specifier: name, offset: i }, b, x)
            &&& #[trigger] comes_to(w, c, Question::Value { scope, specifier: name, offset: j }, d, y)
            &&& x is Ok
            &&& y is Ok
        } ==> x == y
}

/// A dictionary has the values that its names came to when they were asked for.
proof fn lemma_dictionary(
    w: Driver,
    a: Seq<Inner>,
    scope: usize,
    keys: Seq<Seq<char>>,
    out: Seq<(Seq<char>, Node)>,
    b: Seq<Inner>,
    value: Node,
    name: Seq<char>,
)
    requires
        comes_to(w, a, Question::Dictionary { scope, keys, out }, b, Ok(Meaning::Value(value))),
        ascending(names(out)),
    ensures
        value is Table,
        ascending(names(value->Table_0)),
        found(value->Table_0, name) is Some <==> keys.contains(name) || found(out, name) is Some,
        !keys.contains(name) ==> found(value->Table_0, name) == found(out, name),
        keys.contains(name) ==> exists|c: Seq<Inner>, d: Seq<Inner>|
            passes(w, asked(a, Seq::empty(), Question::Dictionary { scope, keys, out }), c) && #[trigger] comes_to(
                w,
                c,
                Question::Value { scope, specifier: name, offset: 0 },
                d,
                Ok(Meaning::Value(found(value->Table_0, name)->0)),
            ),
    decreases keys.len(),
{
    let rows = value->Table_0;
    let none = Seq::<Waiting>::empty();
    let s = asked(a, none, Question::Dictionary { scope, keys, out });
    let end = answered(b, none, Ok(Meaning::Value(value)));
    lemma_step(w, s);
    lemma_reaches_end(w, s, driven(w, s), end);
    if keys.len() == 0 {
        let t = answered(a, none, Ok(Meaning::Value(Node::Table(out))));
        assert(driven(w, s) == t);
        assert(run(w, s, 0) == s);
        assert(comes_to(w, a, Question::Dictionary { scope, keys, out }, a, t.next->Answer_0));
        law_one_answer(w, a, Question::Dictionary { scope, keys, out }, b, end.next->Answer_0, a, t.next->Answer_0);
    } else {
        let stack = none.push(Waiting::Entry { scope, key: keys[0], keys: keys.skip(1), out });
        let q = Question::Value { scope, specifier: keys[0], offset: 0 };
        assert(driven(w, s) == asked(a, stack, q));
        let (c, x) = lemma_answered(w, a, stack, q, end);
        let t = answered(c, stack, x);
        lemma_step(w, t);
        lemma_reaches_end(w, t, driven(w, t), end);
        assert(stack.drop_last() =~= none);
        match x {
            Ok(Meaning::Value(entry)) => {
                let next = with_row(out, keys[0], entry);
                let rest = keys.skip(1);
                assert(driven(w, t) == asked(c, none, Question::Dictionary { scope, keys: rest, out: next }));
                law_with_row_names(out, keys[0], entry);
                lemma_placed(names(out), keys[0]);
                lemma_dictionary(w, c, scope, rest, next, b, value, name);
                law_with_row(out, keys[0], entry, name);
                if keys.contains(name) {
                    let k = choose|k: int| 0 <= k < keys.len() && keys[k] == name;
                    if k > 0 {
                        assert(rest[k - 1] == name);
                    }
                }
                if rest.contains(name) {
                    let k = choose|k: int| 0 <= k < rest.len() && rest[k] == name;
                    assert(keys[k + 1] == name);
                }
                if keys[0] == name {
                    assert(keys.contains(name));
                    if !rest.contains(name) {
                        assert(found(rows, name) == Some(entry));
                        lemma_passes_start(w, s);
                        assert(comes_to(w, a, q, c, Ok(Meaning::Value(found(rows, name)->0))));
                    }
                }
                if rest.contains(name) {
                    let further = Question::Dictionary { scope, keys: rest, out: next };
                    let (f, g) = choose|f: Seq<Inner>, g: Seq<Inner>|
                        passes(w, asked(c, none, further), f) && #[trigger] comes_to(
                            w,
                            f,
                            Question::Value { scope, specifier: name, offset: 0 },
                            g,
                            Ok(Meaning::Value(found(rows, name)->0)),
                        );
                    lemma_ask(w, a, stack, q, c, x);
                    lemma_reaches_on(w, s, asked(a, stack, q), t);
                    lemma_reaches_on(w, s, t, driven(w, t));
                    lemma_passes_on(w, s, asked(c, none, further), f);
                }
            },
            _ => {
                assert(driven(w, t) == answered(c, none, x));
                assert(done(answered(c, none, x)));
                lemma_end_stays(w, answered(c, none, x), end);
            },
        }
    }
}

/// An evaluation that has come to its end comes to no other.
proof fn lemma_end_stays(w: Driver, s: State, t: State)
    requires
        done(s),
        reaches(w, s, t),
    ensures
        s == t,
{
    let n = choose|n: nat| #[trigger] run(w, s, n) == t;
    lemma_done(w, s, n);
}

/// What asks for a value is never answered with a scope.
proof fn lemma_is_no_scope(w: Driver, a: Seq<Inner>, q: Question, n: nat)
    requires
        !(q is Meaning),
        done(run(w, asked(a, Seq::empty(), q), n)),
    ensures
        !(run(w, asked(a, Seq::empty(), q), n).next->Answer_0 matches Ok(Meaning::Scope(_))),
    decreases n,
{
    let none = Seq::<Waiting>::empty();
    let s = asked(a, none, q);
    match q {
        Question::Meaning { .. } => {},
        Question::Value { scope, specifier, offset } => {
            let stack = none.push(Waiting::Value { scope, specifier });
            let ask = Question::Meaning { scope, specifier, offset };
            assert(s == asked(a, stack, ask));
            let (m, b, x) = lemma_answered_in(w, a, stack, ask, n);
            assert(m > 0);
            let further = Question::ValueOf { scope, specifier, answer: x };
            assert(answered(b, stack, x) == asked(b, none, further));
            lemma_is_no_scope(w, b, further, (n - m) as nat);
        },
        Question::ValueOf { scope, specifier, answer } => {
            assert(n > 0);
            assert(s.stack.drop_last() =~= none);
            match answer {
                Ok(Meaning::Scope(inside)) => {
                    let (arena, id) = walked(a, scope, specifier, inside);
                    let further = Question::Dictionary { scope: id, keys: keys_of(arena, id), out: Seq::empty() };
                    assert(driven(w, s) == asked(arena, none, further));
                    lemma_is_no_scope(w, arena, further, (n - 1) as nat);
                },
                _ => {
                    assert(driven(w, s) == answered(a, none, answer));
                    lemma_done(w, answered(a, none, answer), (n - 1) as nat);
                },
            }
        },
        Question::Dictionary { scope, keys, out } => {
            assert(n > 0);
            if keys.len() == 0 {
                lemma_done(w, driven(w, s), (n - 1) as nat);
            } else {
                let stack = none.push(Waiting::Entry { scope, key: keys[0], keys: keys.skip(1), out });
                let ask = Question::Value { scope, specifier: keys[0], offset: 0 };
                assert(driven(w, s) == asked(a, stack, ask));
                let (m, b, x) = lemma_answered_in(w, a, stack, ask, (n - 1) as nat);
                lemma_is_no_scope(w, a, ask, m);
                let t = answered(b, stack, x);
                let rest = (n - 1 - m) as nat;
                assert(rest > 0);
                assert(stack.drop_last() =~= none);
                match x {
                    Ok(Meaning::Value(value)) => {
                        let further = Question::Dictionary {
                            scope,
                            keys: keys.skip(1),
                            out: with_row(out, keys[0], value),
                        };
                        assert(driven(w, t) == asked(b, none, further));
                        lemma_is_no_scope(w, b, further, (rest - 1) as nat);
                    },
                    _ => {
                        assert(driven(w, t) == answered(b, none, x));
                        lemma_done(w, answered(b, none, x), (rest - 1) as nat);
                    },
                }
            }
        },
    }
}

/// What is asked for a value is never answered with a scope.
pub proof fn law_value_is_no_scope(w: Driver, a: Seq<Inner>, q: Question, b: Seq<Inner>, answer: Result<Meaning, Failure>)
    requires
        !(q is Meaning),
        comes_to(w, a, q, b, answer),
    ensures
        !(answer matches Ok(Meaning::Scope(_))),
{
    let n = choose|n: nat| #[trigger] run(w, asked(a, Seq::empty(), q), n) == answered(b, Seq::empty(), answer);
    lemma_is_no_scope(w, a, q, n);
}

/// The value of a path `first.name` is the value that the dictionary of `first` has
/// under `name`: where `first` stands for the scope `inside`, whose value for
/// `name` does not depend on when it is asked for while that dictionary is made,
/// and no names deep inside are overridden.
pub proof fn law_path_is_looked_up(
    w: Driver,
    a: Seq<Inner>,
    scope: usize,
    first: Seq<char>,
    name: Seq<char>,
    offset: usize,
    b: Seq<Inner>,
    inside: usize,
    c: Seq<Inner>,
    meaning: Result<Meaning, Failure>,
    d: Seq<Inner>,
    value: Result<Meaning, Failure>,
    e: Seq<Inner>,
    rows: Seq<(Seq<char>, Node)>,
)
    requires
        !has_char(first, '.'),
        found(inner_of(a, scope).scopes, first) is None,
        comes_to(w, a, Question::Meaning { scope, specifier: first, offset }, b, Ok(Meaning::Scope(inside))),
        comes_to(
            w,
            b,
            Question::Meaning {
                scope: inside,
                specifier: name,
                offset: plus(offset as int, utf8(first).len() as int),
            },
            c,
            meaning,
        ),
        comes_to(w, c, Question::ValueOf { scope: inside, specifier: name, answer: meaning }, d, value),
        found(inner_of(b, scope).deep_overrides, first) is None,
        found(inner_of(c, scope).deep_overrides, first + seq!['.'] + name) is None,
        found(inner_of(c, inside).deep_overrides, name) is None,
        comes_to(
            w,
            a,
            Question::Value { scope, specifier: first, offset },
            e,
            Ok(Meaning::Value(Node::Table(rows))),
        ),
        keys_of(b, inside).contains(name),
        steady(
            w,
            asked(a, Seq::empty(), Question::Value { scope, specifier: first, offset }),
            asked(a, Seq::empty(), Question::Value { scope, specifier: first, offset }),
            inside,
            name,
        ),
    ensures
        comes_to(w, a, Question::Value { scope, specifier: first + seq!['.'] + name, offset }, d, value),
        value is Ok ==> found(rows, name) is Some && value == Ok::<Meaning, Failure>(
            Meaning::Value(found(rows, name)->0),
        ),
{
    let none = Seq::<Waiting>::empty();
    let path = first + seq!['.'] + name;
    let further = plus(offset as int, utf8(first).len() as int);
    law_path_goes_inside(w, a, scope, first, name, offset, b, inside, c, meaning);
    lemma_value_of_meaning(w, b, inside, name, further, c, meaning, d, value);
    lemma_same_value(w, c, inside, name, scope, path, meaning, d, value);
    lemma_value_of_meaning(w, a, scope, path, offset, c, meaning, d, value);
    let stack = none.push(Waiting::Value { scope, specifier: first });
    let answer: Result<Meaning, Failure> = Ok(Meaning::Scope(inside));
    let s = asked(a, none, Question::Value { scope, specifier: first, offset });
    let end = answered(e, none, Ok(Meaning::Value(Node::Table(rows))));
    let t = answered(b, stack, answer);
    lemma_ask(w, a, stack, Question::Meaning { scope, specifier: first, offset }, b, answer);
    lemma_reaches_end(w, s, t, end);
    lemma_step(w, t);
    assert(stack.drop_last() =~= none);
    let keys = keys_of(b, inside);
    let q = Question::Dictionary { scope: inside, keys, out: Seq::empty() };
    assert(driven(w, t) == asked(b, none, q));
    lemma_reaches_end(w, t, driven(w, t), end);
    assert(names(Seq::<(Seq<char>, Node)>::empty()) =~= Seq::empty());
    lemma_dictionary(w, b, inside, keys, Seq::empty(), e, Node::Table(rows), name);
    if value is Ok {
        let x: Result<Meaning, Failure> = Ok(Meaning::Value(found(rows, name)->0));
        let (f, g) = choose|f: Seq<Inner>, g: Seq<Inner>|
            passes(w, asked(b, none, q), f) && #[trigger] comes_to(
                w,
                f,
                Question::Value { scope: inside, specifier: name, offset: 0 },
                g,
                x,
            );
        lemma_passes_start(w, t);
        lemma_passes_on(w, s, t, b);
        lemma_passes_on(w, t, asked(b, none, q), f);
        lemma_passes_on(w, s, t, f);
        assert(comes_to(w, b, Question::Value { scope: inside, specifier: name, offset: further }, d, value));
        assert(value == x);
    }
}

/// Two dictionaries of the same names of a scope are the same, where the values of
/// the names do not depend on when they are asked for.
proof fn lemma_same_dictionary(
    w: Driver,
    s: State,
    t: State,
    a: Seq<Inner>,
    b: Seq<Inner>,
    scope: usize,
    keys: Seq<Seq<char>>,
    c: Seq<Inner>,
    x: Node,
    d: Seq<Inner>,
    y: Node,
)
    requires
        comes_to(w, a, Question::Dictionary { scope, keys, out: Seq::empty() }, c, Ok(Meaning::Value(x))),
        comes_to(w, b, Question::Dictionary { scope, keys, out: Seq::empty() }, d, Ok(Meaning::Value(y))),
        reaches(w, s, asked(a, Seq::empty(), Question::Dictionary { scope, keys, out: Seq::empty() })),
        reaches(w, t, asked(b, Seq::empty(), Question::Dictionary { scope, keys, out: Seq::empty() })),
        forall|name: Seq<char>| #[trigger] steady(w, s, t, scope, name),
    ensures
        x == y,
{
    let ask = Question::Dictionary { scope, keys, out: Seq::empty() };
    let none = Seq::<Waiting>::empty();
    assert(names(Seq::<(Seq<char>, Node)>::empty()) =~= Seq::empty());
    lemma_dictionary(w, a, scope, keys, Seq::empty(), c, x, Seq::empty());
    lemma_dictionary(w, b, scope, keys, Seq::empty(), d, y, Seq::empty());
    let p = x->Table_0;
    let q = y->Table_0;
    assert forall|name: Seq<char>| #[trigger] found(p, name) == found(q, name) by {
        lemma_dictionary(w, a, scope, keys, Seq::empty(), c, x, name);
        lemma_dictionary(w, b, scope, keys, Seq::empty(), d, y, name);
        if keys.contains(name) {
            assert(steady(w, s, t, scope, name));
            let entry = Question::Value { scope, specifier: name, offset: 0 };
            let one: Result<Meaning, Failure> = Ok(Meaning::Value(found(p, name)->0));
            let two: Result<Meaning, Failure> = Ok(Meaning::Value(found(q, name)->0));
            let (f, g) = choose|f: Seq<Inner>, g: Seq<Inner>|
                passes(w, asked(a, none, ask), f) && #[trigger] comes_to(w, f, entry, g, one);
            let (h, i) = choose|h: Seq<Inner>, i: Seq<Inner>|
                passes(w, asked(b, none, ask), h) && #[trigger] comes_to(w, h, entry, i, two);
            lemma_passes_on(w, s, asked(a, none, ask), f);
            lemma_passes_on(w, t, asked(b, none, ask), h);
            assert(one == two);
        }
    }
    lemma_rows_unique(p, q);
}

/// What a value is made of.
proof fn lemma_made_of(
    w: Driver,
    a: Seq<Inner>,
    scope: usize,
    name: Seq<char>,
    meaning: Result<Meaning, Failure>,
    b: Seq<Inner>,
    value: Node,
)
    requires
        found(inner_of(a, scope).deep_overrides, name) is None,
        comes_to(w, a, Question::ValueOf { scope, specifier: name, answer: meaning }, b, Ok(Meaning::Value(value))),
    ensures
        match meaning {
            Ok(Meaning::Value(known)) => value == known,
            Ok(Meaning::Scope(inside)) => comes_to(
                w,
                a,
                Question::Dictionary { scope: inside, keys: keys_of(a, inside), out: Seq::empty() },
                b,
                Ok(Meaning::Value(value)),
            ),
            Err(_) => false,
        },
{
    let none = Seq::<Waiting>::empty();
    let s = asked(a, none, Question::ValueOf { scope, specifier: name, answer: meaning });
    let end = answered(b, none, Ok(Meaning::Value(value)));
    lemma_step(w, s);
    lemma_reaches_end(w, s, driven(w, s), end);
    assert(s.stack.drop_last() =~= none);
    if !(meaning matches Ok(Meaning::Scope(_))) {
        assert(driven(w, s) == answered(a, none, meaning));
        lemma_end_stays(w, answered(a, none, meaning), end);
    }
}

/// After a scope was overridden by `over`, a name that `over` has a value for, and
/// the scopes that overrode the scope before cannot resolve, has that value in the
/// scope, whether the scope itself binds the name or not. Where the value is the
/// dictionary of a scope, that one has the same names both times that it is made,
/// and their values do not depend on when they are asked for meanwhile.
pub proof fn law_override_gives_its_value(
    w: Driver,
    a: Seq<Inner>,
    scope: usize,
    name: Seq<char>,
    offset: usize,
    before: Seq<usize>,
    over: usize,
    b: Seq<Inner>,
    c: Seq<Inner>,
    meaning: Result<Meaning, Failure>,
    d: Seq<Inner>,
    known: Result<Meaning, Failure>,
    e: Seq<Inner>,
    made: Node,
    f: Seq<Inner>,
    value: Node,
)
    requires
        cut(name, '.') is None,
        inner_of(a, scope).overrides == before.push(over),
        !inner_of(a, scope).in_progress.contains(name),
        found(inner_of(a, scope).deep_overrides, name) is None,
        passed_over(w, begun(a, scope, name), before, name, offset, b),
        comes_to(w, b, Question::Value { scope: over, specifier: name, offset }, f, Ok(Meaning::Value(value))),
        comes_to(w, b, Question::Meaning { scope: over, specifier: name, offset }, c, meaning),
        comes_to(w, c, Question::Value { scope: over, specifier: name, offset }, d, known),
        !unresolvable(known),
        found(inner_of(c, over).deep_overrides, name) is None,
        found(inner_of(ended(d, scope, name), scope).deep_overrides, name) is None,
        found(inner_of(ended(d, scope, name), over).deep_overrides, name) is None,
        comes_to(
            w,
            ended(d, scope, name),
            Question::ValueOf { scope: over, specifier: name, answer: meaning },
            e,
            Ok(Meaning::Value(made)),
        ),
        meaning matches Ok(Meaning::Scope(inside)) ==> keys_of(c, inside) == keys_of(ended(d, scope, name), inside)
            && forall|key: Seq<char>| #[trigger]
            steady(
                w,
                asked(b, Seq::empty(), Question::Value { scope: over, specifier: name, offset }),
                asked(a, Seq::empty(), Question::Value { scope, specifier: name, offset }),
                inside,
                key,
            ),
    ensures
        comes_to(w, a, Question::Value { scope, specifier: name, offset }, e, Ok(Meaning::Value(value))),
{
    let none = Seq::<Waiting>::empty();
    let stack = none.push(Waiting::Value { scope: over, specifier: name });
    let s = asked(b, none, Question::Value { scope: over, specifier: name, offset });
    let end = answered(f, none, Ok(Meaning::Value(value)));
    lemma_ask(w, b, stack, Question::Meaning { scope: over, specifier: name, offset }, c, meaning);
    lemma_reaches_end(w, s, answered(c, stack, meaning), end);
    assert(comes_to(
        w,
        c,
        Question::ValueOf { scope: over, specifier: name, answer: meaning },
        f,
        Ok(Meaning::Value(value)),
    ));
    lemma_made_of(w, c, over, name, meaning, f, value);
    lemma_made_of(w, ended(d, scope, name), over, name, meaning, e, made);
    law_override_decides(
        w,
        a,
        scope,
        name,
        offset,
        before,
        over,
        b,
        c,
        meaning,
        d,
        known,
        e,
        Ok(Meaning::Value(made)),
    );
    if let Ok(Meaning::Scope(inside)) = meaning {
        let last = ended(d, scope, name);
        let ask = Question::Dictionary { scope: inside, keys: keys_of(c, inside), out: Seq::empty() };
        let first = answered(c, stack, meaning);
        lemma_step(w, first);
        assert(stack.drop_last() =~= none);
        assert(driven(w, first) == asked(c, none, ask));
        lemma_reaches_on(w, s, first, asked(c, none, ask));
        let outer = none.push(Waiting::Value { scope, specifier: name });
        let t = asked(a, none, Question::Value { scope, specifier: name, offset });
        let second = answered(last, outer, meaning);
        lemma_ask(w, a, outer, Question::Meaning { scope, specifier: name, offset }, last, meaning);
        lemma_step(w, second);
        assert(outer.drop_last() =~= none);
        assert(driven(w, second) == asked(last, none, ask));
        lemma_reaches_on(w, t, second, asked(last, none, ask));
        lemma_same_dictionary(w, s, t, c, last, inside, keys_of(c, inside), f, value, e, made);
    }
}

/// Whether a binding is of a single name, which is `name`.
pub open spec fn binds(b: Bound, name: Seq<char>) -> bool {
    b.names.len() <= 1 && b.text == name
}

/// Whether the bindings of a module are of names that are not empty.
pub open spec fn proper_names(bindings: Seq<Bound>) -> bool {
    forall|i: int| 0 <= i < bindings.len() ==> (#[trigger] bindings[i]).text.len() > 0 && (bindings[i].names.len() > 1
        ==> bindings[i].names[0].len() > 0)
}

proof fn lemma_bound(inner: Inner, id: usize, bindings: Seq<Bound>, n: int, name: Seq<char>)
    requires
        0 <= n <= bindings.len(),
        inner == empty_inner(inner.content, inner.start, inner.end),
    ensures
        ({
            let bound = with_bindings(inner, id, bindings, n);
            &&& bound == (Inner { unresolved: bound.unresolved, deep_overrides: bound.deep_overrides, ..inner })
            &&& found(bound.unresolved, name) is Some <==> exists|i: int|
                0 <= i < n && binds(#[trigger] bindings[i], name)
            &&& proper_names(bindings) ==> found(bound.deep_overrides, Seq::empty()) is None
        }),
    decreases n,
{
    if n > 0 {
        lemma_bound(inner, id, bindings, n - 1, name);
        let before = with_bindings(inner, id, bindings, n - 1);
        let b = bindings[n - 1];
        if b.names.len() > 1 {
            let more = seq![(b.rest, (id, b.value))];
            let rows = crate::context::with_rows(
                found(before.deep_overrides, b.names[0]).unwrap_or(Seq::empty()),
                more,
            );
            law_with_row(before.deep_overrides, b.names[0], rows, Seq::empty());
        } else {
            law_with_row(before.unresolved, b.text, b.value, name);
        }
        if exists|i: int| 0 <= i < n - 1 && binds(#[trigger] bindings[i], name) {
            let i = choose|i: int| 0 <= i < n - 1 && binds(#[trigger] bindings[i], name);
            assert(binds(bindings[i], name));
        }
        if binds(b, name) {
            assert(binds(bindings[n - 1], name));
        }
    }
}

/// The scopes that the evaluation of a module begins with.
pub open spec fn module_arena(m: Module, content: Seq<char>) -> Seq<Inner> {
    module_start(m, content, Seq::empty(), Seq::empty(), None).arena
}

/// The keys of the only scope of a module.
proof fn lemma_module_keys(m: Module, content: Seq<char>, name: Seq<char>)
    requires
        m.imports.deep_view().len() == 0,
        m.value is None,
    ensures
        ascending(keys_of(module_arena(m, content), 0)),
        keys_of(module_arena(m, content), 0).contains(name) <==> exists|i: int|
            0 <= i < m.bindings.deep_view().len() && binds(#[trigger] m.bindings.deep_view()[i], name),
{
    let arena = module_arena(m, content);
    law_keys(arena, 0);
    lemma_module(m, content, name);
    assert(keys_of(arena, 0).contains(name) <==> has_key(arena, 0, name));
    assert forall|t: int| !#[trigger] depends(override_links(arena), 0, t) by {
        if depends(override_links(arena), 0, t) {
            let path = choose|path: Seq<int>| #[trigger] leads(override_links(arena), 0, path) && path.last() == t;
            assert(waits_for(override_links(arena), path[0], path[1]));
            assert(override_links(arena)[0] =~= Seq::<usize>::empty());
        }
    }
}

proof fn lemma_module(m: Module, content: Seq<char>, name: Seq<char>)
    requires
        m.imports.deep_view().len() == 0,
        m.value is None,
    ensures
        ({
            let inner = inner_of(module_arena(m, content), 0);
            let bindings = m.bindings.deep_view();
            &&& inner == (Inner {
                unresolved: inner.unresolved,
                deep_overrides: inner.deep_overrides,
                ..empty_inner(content, m.start, m.end)
            })
            &&& found(inner.unresolved, name) is Some <==> exists|i: int|
                0 <= i < bindings.len() && binds(#[trigger] bindings[i], name)
            &&& proper_names(bindings) ==> found(inner.deep_overrides, Seq::empty()) is None
        }),
{
    let bindings = m.bindings.deep_view();
    lemma_bound(empty_inner(content, m.start, m.end), 0, bindings, bindings.len() as int, name);
}

/// Evaluating a module that imports nothing and has no value of its own ends in the
/// dictionary of what evaluating each of its names ends in: its names are those
/// that are bound, in order, and under each stands what evaluating the name ended
/// in when the evaluation of the module asked for it, which is what evaluating it
/// alone ends in, where that does not depend on when the module asks for it.
pub proof fn law_module_is_its_names(
    w: Driver,
    m: Module,
    content: Seq<char>,
    b: Seq<Inner>,
    rows: Seq<(Seq<char>, Node)>,
    name: Seq<char>,
    c: Seq<Inner>,
    value: Result<Meaning, Failure>,
)
    requires
        m.imports.deep_view().len() == 0,
        m.value is None,
        proper_names(m.bindings.deep_view()),
        reaches(
            w,
            module_start(m, content, Seq::empty(), Seq::empty(), None),
            answered(b, Seq::empty(), Ok(Meaning::Value(Node::Table(rows)))),
        ),
    ensures
        ascending(names(rows)),
        names(rows).contains(name) <==> exists|i: int|
            0 <= i < m.bindings.deep_view().len() && binds(#[trigger] m.bindings.deep_view()[i], name),
        names(rows).contains(name) ==> exists|f: Seq<Inner>, g: Seq<Inner>|
            passes(w, module_start(m, content, Seq::empty(), Seq::empty(), None), f) && #[trigger] comes_to(
                w,
                f,
                Question::Value { scope: 0, specifier: name, offset: 0 },
                g,
                Ok(Meaning::Value(found(rows, name)->0)),
            ),
        names(rows).contains(name) && steady(
            w,
            module_start(m, content, Seq::empty(), Seq::empty(), None),
            module_start(m, content, Seq::empty(), Seq::empty(), None),
            0,
            name,
        ) && value is Ok && reaches(
            w,
            module_start(m, content, name, Seq::empty(), None),
            answered(c, Seq::empty(), value),
        ) ==> value == Ok::<Meaning, Failure>(Meaning::Value(found(rows, name)->0)),
{
    let none = Seq::<Waiting>::empty();
    let empty = Seq::<char>::empty();
    let arena = module_arena(m, content);
    let inner = inner_of(arena, 0);
    let stack = none.push(Waiting::Value { scope: 0, specifier: empty });
    let s = module_start(m, content, empty, Seq::empty(), None);
    let end = answered(b, none, Ok(Meaning::Value(Node::Table(rows))));
    lemma_module(m, content, empty);
    lemma_module(m, content, name);
    lemma_module_keys(m, content, name);
    assert(found(inner.unresolved, empty) is None) by {
        let bindings = m.bindings.deep_view();
        if exists|i: int| 0 <= i < bindings.len() && binds(#[trigger] bindings[i], empty) {
            let i = choose|i: int| 0 <= i < bindings.len() && binds(#[trigger] bindings[i], empty);
            assert(bindings[i].text.len() > 0);
        }
    }
    assert(s.stack =~= stack);
    assert(s == asked(arena, none, Question::Value { scope: 0, specifier: empty, offset: 0 }));
    assert(cut(empty, '.') is None) by {
        crate::text::lemma_position_from(empty, '.', 0);
    }
    // The empty name is marked, nothing overrides the scope, and the mark is lifted.
    let marked = begun(arena, 0, empty);
    let t1 = State {
        arena: marked,
        stack,
        next: Next::Overrides { scope: 0, specifier: empty, offset: 0, rest: inner.overrides },
    };
    let t2 = State { arena, stack, next: Next::Own { scope: 0, specifier: empty, offset: 0 } };
    let keys = keys_of(arena, 0);
    let q = Question::Dictionary { scope: 0, keys, out: Seq::empty() };
    let t3 = asked(arena, stack, q);
    lemma_step(w, s);
    assert(driven(w, s) == t1);
    lemma_step(w, t1);
    law_mark_lifted(arena, 0, empty);
    assert(driven(w, t1) == t2);
    lemma_step(w, t2);
    assert(driven(w, t2) == t3);
    lemma_reaches_end(w, s, t1, end);
    lemma_reaches_end(w, t1, t2, end);
    lemma_reaches_end(w, t2, t3, end);
    let (d, x) = lemma_answered(w, arena, stack, q, end);
    let t4 = answered(d, stack, x);
    lemma_step(w, t4);
    lemma_reaches_end(w, t4, driven(w, t4), end);
    assert(stack.drop_last() =~= none);
    law_value_is_no_scope(w, arena, q, d, x);
    assert(driven(w, t4) == answered(d, none, x));
    lemma_end_stays(w, answered(d, none, x), end);
    assert(names(Seq::<(Seq<char>, Node)>::empty()) =~= Seq::empty());
    lemma_dictionary(w, arena, 0, keys, Seq::empty(), d, Node::Table(rows), name);
    lemma_found_name(rows, name);
    if names(rows).contains(name) {
        let entry = Question::Value { scope: 0, specifier: name, offset: 0 };
        let y: Result<Meaning, Failure> = Ok(Meaning::Value(found(rows, name)->0));
        let (f, g) = choose|f: Seq<Inner>, g: Seq<Inner>|
            passes(w, asked(arena, none, q), f) && #[trigger] comes_to(w, f, entry, g, y);
        lemma_passes_above(w, arena, stack, q, f);
        lemma_reaches_on(w, s, t1, t2);
        lemma_reaches_on(w, s, t2, t3);
        lemma_passes_on(w, s, t3, f);
        lemma_passes_start(w, s);
        let alone = module_start(m, content, name, Seq::empty(), None);
        assert(alone.stack =~= none.push(Waiting::Value { scope: 0, specifier: name }));
        assert(alone == asked(arena, none, entry));
        if steady(w, s, s, 0, name) && value is Ok && reaches(w, alone, answered(c, none, value)) {
            assert(comes_to(w, arena, entry, c, value));
            assert(value == y);
        }
    }
}

} // verus!
