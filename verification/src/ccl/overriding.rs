//! Overriding: what names, and names inside of names, are bound to.

use vstd::prelude::*;

use crate::ccl::apart::law_keys;
use crate::ccl::exec::{begun, law_mark_lifted, Failure, Next, State, Waiting};
use crate::ccl::meanings::{lemma_made, lemma_value_of_meaning};
use crate::ccl::runs::{
    answered, asked, comes_to, driven, lemma_ask, lemma_reaches_on, lemma_step, reaches, Driver, Question,
};
use crate::ccl::scope::{
    dictionary_inner, has_key, inner_of, keys_of, module_inner, path_parts, walked, with_binding, with_bindings, with_deeper,
    with_imported, with_imports, with_overrides, Bound, DictionaryExpression, Inner, Meaning, Module,
};
use crate::ccl::settled::lemma_own_keys;
use crate::context::{law_with_rows, with_rows};
use crate::table::{found, law_with_row, with_row};
use crate::text::cut;
use crate::value::Node;

verus! {

/// The expression, and its scope, that overrides `rest` inside of `name`.
pub open spec fn overriding(
    deep: Seq<(Seq<char>, Seq<(Seq<char>, (usize, usize))>)>,
    name: Seq<char>,
    rest: Seq<char>,
) -> Option<(usize, usize)> {
    match found(deep, name) {
        Some(rows) => found(rows, rest),
        None => None,
    }
}

/// Overrides that are added inside of a name override what they name; all others that
/// there were, inside of that name and of others, stay.
pub proof fn law_overrides_added(
    deep: Seq<(Seq<char>, Seq<(Seq<char>, (usize, usize))>)>,
    name: Seq<char>,
    more: Seq<(Seq<char>, (usize, usize))>,
    other: Seq<char>,
    rest: Seq<char>,
    i: int,
)
    ensures
        other != name || (forall|j: int| 0 <= j < more.len() ==> (#[trigger] more[j]).0 != rest) ==> overriding(
            with_overrides(deep, name, more),
            other,
            rest,
        ) == overriding(deep, other, rest),
        0 <= i < more.len() && (forall|j: int| i < j < more.len() ==> (#[trigger] more[j]).0 != more[i].0) ==> overriding(
            with_overrides(deep, name, more),
            name,
            more[i].0,
        ) == Some(more[i].1),
{
    let known = found(deep, name).unwrap_or(Seq::empty());
    law_with_row(deep, name, with_rows(known, more), other);
    law_with_rows(known, more, rest);
    if 0 <= i < more.len() {
        law_with_rows(known, more, more[i].0);
        assert(more[i].0 == more[i].0);
    }
}

/// Whether a binding is of a name inside of `name`, and `rest` says where.
pub open spec fn binds_inside(b: Bound, name: Seq<char>, rest: Seq<char>) -> bool {
    b.names.len() > 1 && b.names[0] == name && b.rest == rest
}

/// Whether a binding is of the single name `name`.
pub open spec fn binds_name(b: Bound, name: Seq<char>) -> bool {
    b.names.len() <= 1 && b.text == name
}

proof fn lemma_binding(inner: Inner, id: usize, b: Bound, name: Seq<char>, rest: Seq<char>)
    ensures
        ({
            let next = with_binding(inner, id, b);
            &&& found(next.unresolved, name) == if binds_name(b, name) {
                Some(b.value)
            } else {
                found(inner.unresolved, name)
            }
            &&& overriding(next.deep_overrides, name, rest) == if binds_inside(b, name, rest) {
                Some((id, b.value))
            } else {
                overriding(inner.deep_overrides, name, rest)
            }
        }),
{
    if b.names.len() > 1 {
        let more = seq![(b.rest, (id, b.value))];
        law_overrides_added(inner.deep_overrides, b.names[0], more, name, rest, 0);
        assert(more[0].0 == b.rest);
    } else {
        law_with_row(inner.unresolved, b.text, b.value, name);
    }
}

/// A scope binds each name, and each name inside of a name, as the last of its bindings
/// says that is of it, whichever others are of other names; what no binding is of stays.
pub proof fn law_bound(inner: Inner, id: usize, bindings: Seq<Bound>, n: int, i: int, name: Seq<char>, rest: Seq<char>)
    requires
        0 <= n <= bindings.len(),
    ensures
        ({
            let bound = with_bindings(inner, id, bindings, n);
            &&& 0 <= i < n && bindings[i].names.len() > 1 && (forall|j: int|
                i < j < n ==> !binds_inside(#[trigger] bindings[j], bindings[i].names[0], bindings[i].rest))
                ==> overriding(bound.deep_overrides, bindings[i].names[0], bindings[i].rest) == Some(
                (id, bindings[i].value),
            )
            &&& 0 <= i < n && bindings[i].names.len() <= 1 && (forall|j: int|
                i < j < n ==> !binds_name(#[trigger] bindings[j], bindings[i].text)) ==> found(
                bound.unresolved,
                bindings[i].text,
            ) == Some(bindings[i].value)
            &&& (forall|j: int| 0 <= j < n ==> !binds_inside(#[trigger] bindings[j], name, rest)) ==> overriding(
                bound.deep_overrides,
                name,
                rest,
            ) == overriding(inner.deep_overrides, name, rest)
            &&& (forall|j: int| 0 <= j < n ==> !binds_name(#[trigger] bindings[j], name)) ==> found(bound.unresolved, name)
                == found(inner.unresolved, name)
        }),
    decreases n,
{
    if n > 0 {
        law_bound(inner, id, bindings, n - 1, i, name, rest);
        let before = with_bindings(inner, id, bindings, n - 1);
        let b = bindings[n - 1];
        lemma_binding(before, id, b, name, rest);
        if 0 <= i < n {
            if bindings[i].names.len() > 1 {
                lemma_binding(before, id, b, bindings[i].names[0], bindings[i].rest);
            } else {
                lemma_binding(before, id, b, bindings[i].text, rest);
            }
        }
    }
}

/// Two names inside of one name that a module or a dictionary binds are both overridden in
/// its scope, each by its own expression.
pub proof fn law_both_overridden(m: Module, d: DictionaryExpression, content: Seq<char>, id: usize, i: int, j: int)
    ensures
        ({
            let bindings = m.bindings.deep_view();
            0 <= i < bindings.len() && 0 <= j < bindings.len() && each_once(bindings) && bindings[i].names.len() > 1
                && bindings[j].names.len() > 1 ==> {
                let deep = module_inner(m, content, id).deep_overrides;
                &&& overriding(deep, bindings[i].names[0], bindings[i].rest) == Some((id, bindings[i].value))
                &&& overriding(deep, bindings[j].names[0], bindings[j].rest) == Some((id, bindings[j].value))
            }
        }),
        ({
            let bindings = d.values.deep_view();
            0 <= i < bindings.len() && 0 <= j < bindings.len() && each_once(bindings) && bindings[i].names.len() > 1
                && bindings[j].names.len() > 1 ==> {
                let deep = dictionary_inner(d, content, id).deep_overrides;
                &&& overriding(deep, bindings[i].names[0], bindings[i].rest) == Some((id, bindings[i].value))
                &&& overriding(deep, bindings[j].names[0], bindings[j].rest) == Some((id, bindings[j].value))
            }
        }),
{
    let start = crate::ccl::scope::empty_inner(content, m.start, m.end);
    let first = with_imports(start, m.imports.deep_view(), m.imports.deep_view().len() as int);
    let bindings = m.bindings.deep_view();
    law_bound(first, id, bindings, bindings.len() as int, i, Seq::empty(), Seq::empty());
    law_bound(first, id, bindings, bindings.len() as int, j, Seq::empty(), Seq::empty());
    let values = d.values.deep_view();
    let empty = crate::ccl::scope::empty_inner(content, d.start, d.end);
    law_bound(empty, id, values, values.len() as int, i, Seq::empty(), Seq::empty());
    law_bound(empty, id, values, values.len() as int, j, Seq::empty(), Seq::empty());
}

/// Whether no two bindings are of the same name inside of a name.
pub open spec fn each_once(bindings: Seq<Bound>) -> bool {
    forall|i: int, j: int|
        0 <= i < bindings.len() && 0 <= j < bindings.len() && i != j ==> !binds_inside(
            #[trigger] bindings[i],
            (#[trigger] bindings[j]).names[0],
            bindings[j].rest,
        )
}

/// A copy that knows of overrides inside of it has each of them one name further inside, in
/// the place of an earlier one of the same names, and keeps all others; but for them it is
/// as the scope was.
pub proof fn law_deeper(
    inner: Inner,
    more: Seq<(Seq<char>, (usize, usize))>,
    n: int,
    i: int,
    first: Seq<char>,
    rest: Seq<char>,
)
    requires
        0 <= n <= more.len(),
    ensures
        ({
            let copy = with_deeper(inner, more, n);
            &&& copy == (Inner { deep_overrides: copy.deep_overrides, ..inner })
            &&& 0 <= i < n && (forall|j: int|
                i < j < n ==> path_parts((#[trigger] more[j]).0) != path_parts(more[i].0)) ==> overriding(
                copy.deep_overrides,
                path_parts(more[i].0).0,
                path_parts(more[i].0).1,
            ) == Some(more[i].1)
            &&& (forall|j: int| 0 <= j < n ==> path_parts((#[trigger] more[j]).0) != (first, rest)) ==> overriding(
                copy.deep_overrides,
                first,
                rest,
            ) == overriding(inner.deep_overrides, first, rest)
        }),
    decreases n,
{
    if n > 0 {
        law_deeper(inner, more, n - 1, i, first, rest);
        let before = with_deeper(inner, more, n - 1);
        let (head, tail) = path_parts(more[n - 1].0);
        let one = seq![(tail, more[n - 1].1)];
        assert(one[0].0 == tail);
        law_overrides_added(before.deep_overrides, head, one, first, rest, 0);
        if 0 <= i < n {
            let (p, q) = path_parts(more[i].0);
            law_overrides_added(before.deep_overrides, head, one, p, q, 0);
        }
    }
}

/// Each name that an import brings is brought from where the last import says that names it.
pub proof fn law_imported(
    inner: Inner,
    imports: Seq<(bool, Seq<Seq<char>>, Seq<char>)>,
    n: int,
    name: Seq<char>,
)
    requires
        0 <= n <= imports.len(),
    ensures
        match found(with_imports(inner, imports, n).imports, name) {
            Some((direct, from)) => found(inner.imports, name) == Some((direct, from)) || exists|i: int|
                0 <= i < n && (#[trigger] imports[i]).1.contains(name) && imports[i].0 == direct && imports[i].2 == from
                    && forall|j: int| i < j < n ==> !(#[trigger] imports[j]).1.contains(name),
            None => found(inner.imports, name) is None && forall|i: int|
                0 <= i < n ==> !(#[trigger] imports[i]).1.contains(name),
        },
    decreases n,
{
    if n > 0 {
        law_imported(inner, imports, n - 1, name);
        let before = with_imports(inner, imports, n - 1);
        let (direct, list, from) = imports[n - 1];
        lemma_imported(before, direct, list, from, list.len() as int, name);
        if list.contains(name) {
            let k = choose|k: int| 0 <= k < list.len() && list[k] == name;
            assert(list[k] == name);
            assert(imports[n - 1].1.contains(name));
        } else if let Some((d, f)) = found(before.imports, name) {
            if found(inner.imports, name) != Some((d, f)) {
                let i = choose|i: int|
                    0 <= i < n - 1 && (#[trigger] imports[i]).1.contains(name) && imports[i].0 == d && imports[i].2 == f
                        && forall|j: int| i < j < n - 1 ==> !(#[trigger] imports[j]).1.contains(name);
                assert(imports[i].1.contains(name));
            }
        }
    }
}

proof fn lemma_imported(inner: Inner, direct: bool, list: Seq<Seq<char>>, from: Seq<char>, n: int, name: Seq<char>)
    requires
        0 <= n <= list.len(),
    ensures
        found(with_imported(inner, direct, list, from, n).imports, name) == if exists|i: int|
            0 <= i < n && #[trigger] list[i] == name {
            Some((direct, from))
        } else {
            found(inner.imports, name)
        },
    decreases n,
{
    if n > 0 {
        lemma_imported(inner, direct, list, from, n - 1, name);
        let before = with_imported(inner, direct, list, from, n - 1);
        law_with_row(before.imports, list[n - 1], (direct, from), name);
        if list[n - 1] == name {
            assert(list[n - 1] == name);
        }
        if exists|i: int| 0 <= i < n - 1 && #[trigger] list[i] == name {
            let i = choose|i: int| 0 <= i < n - 1 && #[trigger] list[i] == name;
            assert(list[i] == name);
        }
    }
}

/// A driver under which expressions depend on nothing, and each is the value that `value`
/// says.
pub open spec fn constant(w: Driver, value: spec_fn(usize) -> Node) -> Driver {
    Driver {
        dependencies: |expr: usize| Seq::empty(),
        evaluate: |a: Seq<Inner>, scope: usize, expr: usize, known: Seq<(Seq<char>, Meaning)>|
            (a, Ok(Meaning::Value(value(expr)))),
        ..w
    }
}

/// Under a constant driver an expression comes to its value, and leaves the scopes as they
/// are.
proof fn lemma_constant(
    w: Driver,
    value: spec_fn(usize) -> Node,
    a: Seq<Inner>,
    stack: Seq<Waiting>,
    scope: usize,
    name: Seq<char>,
    expr: usize,
)
    requires
        scope < a.len(),
        !inner_of(a, scope).in_progress.contains(name),
    ensures
        reaches(
            constant(w, value),
            State { arena: a, stack, next: Next::Evaluate { scope, specifier: name, expr } },
            answered(a, stack, Ok(Meaning::Value(value(expr)))),
        ),
{
    let d = constant(w, value);
    let s = State { arena: a, stack, next: Next::Evaluate { scope, specifier: name, expr } };
    let ready = State {
        arena: begun(a, scope, name),
        stack,
        next: Next::Dependencies { scope, specifier: name, expr, deps: Seq::empty(), resolved: Seq::empty() },
    };
    lemma_step(d, s);
    assert(driven(d, s) == ready);
    lemma_step(d, ready);
    law_mark_lifted(a, scope, name);
    assert(driven(d, ready) == answered(a, stack, Ok(Meaning::Value(value(expr)))));
    lemma_reaches_on(d, s, ready, driven(d, ready));
}

/// What a name of a scope comes to under a constant driver: the value of the expression that
/// overrides it, or else of the one that it is bound to.
proof fn lemma_overridden_name(
    w: Driver,
    value: spec_fn(usize) -> Node,
    a: Seq<Inner>,
    scope: usize,
    name: Seq<char>,
    offset: usize,
    own: usize,
)
    requires
        scope < a.len(),
        cut(name, '.') is None,
        forall|id: usize| #![trigger inner_of(a, id)] inner_of(a, id).in_progress.len() == 0,
        inner_of(a, scope).overrides.len() == 0,
        found(inner_of(a, scope).resolved, name) is None,
        found(inner_of(a, scope).unresolved, name) == Some(own),
        overriding(inner_of(a, scope).deep_overrides, name, Seq::empty()) matches Some((within, _)) ==> within < a.len()
            && within != scope,
    ensures
        comes_to(
            constant(w, value),
            a,
            Question::Value { scope, specifier: name, offset },
            a,
            Ok(
                Meaning::Value(
                    match overriding(inner_of(a, scope).deep_overrides, name, Seq::empty()) {
                        Some((_, expr)) => value(expr),
                        None => value(own),
                    },
                ),
            ),
        ),
{
    let d = constant(w, value);
    let none = Seq::<Waiting>::empty();
    let inner = inner_of(a, scope);
    let s = asked(a, none, Question::Meaning { scope, specifier: name, offset });
    let marked = begun(a, scope, name);
    assert(!inner.in_progress.contains(name));
    law_mark_lifted(a, scope, name);
    lemma_step(d, s);
    match overriding(inner.deep_overrides, name, Seq::empty()) {
        Some((within, expr)) => {
            let stack = none.push(Waiting::DeepOverride { scope, specifier: name });
            let answer: Result<Meaning, Failure> = Ok(Meaning::Value(value(expr)));
            let evaluate = State { arena: marked, stack, next: Next::Evaluate { scope: within, specifier: name, expr } };
            assert(driven(d, s) == evaluate);
            assert(inner_of(marked, within) == inner_of(a, within));
            lemma_constant(w, value, marked, stack, within, name, expr);
            lemma_reaches_on(d, s, evaluate, answered(marked, stack, answer));
            lemma_step(d, answered(marked, stack, answer));
            assert(stack.drop_last() =~= none);
            assert(driven(d, answered(marked, stack, answer)) == answered(a, none, answer));
            lemma_reaches_on(d, s, answered(marked, stack, answer), answered(a, none, answer));
            lemma_made(d, a, scope, name, answer);
            lemma_value_of_meaning(d, a, scope, name, offset, a, answer, a, answer);
        },
        None => {
            let answer: Result<Meaning, Failure> = Ok(Meaning::Value(value(own)));
            let over = State {
                arena: marked,
                stack: none,
                next: Next::Overrides { scope, specifier: name, offset, rest: inner.overrides },
            };
            let looked = State { arena: a, stack: none, next: Next::Own { scope, specifier: name, offset } };
            let evaluate = State { arena: a, stack: none, next: Next::Evaluate { scope, specifier: name, expr: own } };
            assert(driven(d, s) == over);
            lemma_step(d, over);
            assert(driven(d, over) == looked);
            lemma_reaches_on(d, s, over, looked);
            lemma_step(d, looked);
            assert(driven(d, looked) == evaluate);
            lemma_reaches_on(d, s, looked, evaluate);
            lemma_constant(w, value, a, none, scope, name, own);
            lemma_reaches_on(d, s, evaluate, answered(a, none, answer));
            lemma_made(d, a, scope, name, answer);
            lemma_value_of_meaning(d, a, scope, name, offset, a, answer, a, answer);
        },
    }
}

/// Names that come to values come to the dictionary of them.
proof fn lemma_collected(
    d: Driver,
    a: Seq<Inner>,
    scope: usize,
    keys: Seq<Seq<char>>,
    out: Seq<(Seq<char>, Node)>,
    value: spec_fn(Seq<char>) -> Node,
) -> (rows: Seq<(Seq<char>, Node)>)
    requires
        forall|i: int|
            0 <= i < keys.len() ==> comes_to(
                d,
                a,
                Question::Value { scope, specifier: #[trigger] keys[i], offset: 0 },
                a,
                Ok(Meaning::Value(value(keys[i]))),
            ),
    ensures
        comes_to(d, a, Question::Dictionary { scope, keys, out }, a, Ok(Meaning::Value(Node::Table(rows)))),
        forall|key: Seq<char>| #[trigger]
            found(rows, key) == if keys.contains(key) {
                Some(value(key))
            } else {
                found(out, key)
            },
    decreases keys.len(),
{
    let none = Seq::<Waiting>::empty();
    let s = asked(a, none, Question::Dictionary { scope, keys, out });
    lemma_step(d, s);
    if keys.len() == 0 {
        assert(driven(d, s) == answered(a, none, Ok(Meaning::Value(Node::Table(out)))));
        out
    } else {
        let key = keys[0];
        let rest = keys.skip(1);
        let answer: Result<Meaning, Failure> = Ok(Meaning::Value(value(key)));
        let more = with_row(out, key, value(key));
        let q = Question::Value { scope, specifier: key, offset: 0 };
        let stack = none.push(Waiting::Entry { scope, key, keys: rest, out });
        let t = answered(a, stack, answer);
        let u = asked(a, none, Question::Dictionary { scope, keys: rest, out: more });
        assert(driven(d, s) == asked(a, stack, q));
        lemma_ask(d, a, stack, q, a, answer);
        lemma_reaches_on(d, s, asked(a, stack, q), t);
        lemma_step(d, t);
        assert(stack.drop_last() =~= none);
        assert(driven(d, t) == u);
        lemma_reaches_on(d, s, t, u);
        assert forall|i: int| 0 <= i < rest.len() implies comes_to(
            d,
            a,
            Question::Value { scope, specifier: #[trigger] rest[i], offset: 0 },
            a,
            Ok(Meaning::Value(value(rest[i]))),
        ) by {
            assert(rest[i] == keys[i + 1]);
        }
        let rows = lemma_collected(d, a, scope, rest, more, value);
        lemma_reaches_on(d, s, u, answered(a, none, Ok(Meaning::Value(Node::Table(rows)))));
        assert forall|k: Seq<char>| #[trigger]
            found(rows, k) == if keys.contains(k) {
                Some(value(k))
            } else {
                found(out, k)
            } by {
            law_with_row(out, key, value(key), k);
            if rest.contains(k) {
                let j = choose|j: int| 0 <= j < rest.len() && rest[j] == k;
                assert(keys[j + 1] == k);
            }
            if keys.contains(k) && k != key {
                let j = choose|j: int| 0 <= j < keys.len() && keys[j] == k;
                assert(rest[j - 1] == k);
            }
        }
        rows
    }
}

/// Whether a scope binds plain names alone: nothing overrides it, none of its names was
/// resolved or is a path, and names inside of them are not overridden.
pub open spec fn plain_scope(inner: Inner) -> bool {
    &&& inner.overrides.len() == 0
    &&& inner.deep_overrides.len() == 0
    &&& inner.resolved.len() == 0
    &&& forall|name: Seq<char>| (#[trigger] found(inner.unresolved, name)) is Some ==> cut(name, '.') is None
}

/// The value of a name that stands for a scope of plain names, some of which are overridden
/// inside of the name, is the dictionary of them with the overriding value under each that is
/// overridden, and the scope's own value under every other.
pub proof fn law_overrides_take_effect(
    w: Driver,
    value: spec_fn(usize) -> Node,
    a: Seq<Inner>,
    id: usize,
    name: Seq<char>,
    inside: usize,
    more: Seq<(Seq<char>, (usize, usize))>,
) -> (r: (Seq<Inner>, Seq<(Seq<char>, Node)>))
    requires
        a.len() < usize::MAX,
        id < a.len(),
        inside < a.len(),
        plain_scope(inner_of(a, inside)),
        found(inner_of(a, id).deep_overrides, name) == Some(more),
        forall|i: int| 0 <= i < more.len() ==> cut((#[trigger] more[i]).0, '.') is None && more[i].1.0 < a.len(),
        forall|i: int, j: int| 0 <= i < j < more.len() ==> (#[trigger] more[i]).0 != (#[trigger] more[j]).0,
        forall|scope: usize| #![trigger inner_of(a, scope)] inner_of(a, scope).in_progress.len() == 0,
    ensures
        comes_to(
            constant(w, value),
            a,
            Question::ValueOf { scope: id, specifier: name, answer: Ok(Meaning::Scope(inside)) },
            r.0,
            Ok(Meaning::Value(Node::Table(r.1))),
        ),
        forall|i: int|
            0 <= i < more.len() && found(inner_of(a, inside).unresolved, (#[trigger] more[i]).0) is Some ==> found(
                r.1,
                more[i].0,
            ) == Some(value(more[i].1.1)),
        forall|key: Seq<char>|
            (forall|i: int| 0 <= i < more.len() ==> (#[trigger] more[i]).0 != key) ==> #[trigger] found(r.1, key)
                == match found(inner_of(a, inside).unresolved, key) {
                Some(expr) => Some(value(expr)),
                None => None,
            },
{
    let d = constant(w, value);
    let none = Seq::<Waiting>::empty();
    let inner = inner_of(a, inside);
    let n = more.len() as int;
    let copy = with_deeper(inner, more, n);
    let b = a.push(copy);
    let c = a.len() as usize;
    law_deeper(inner, more, n, 0, Seq::empty(), Seq::empty());
    assert(inner_of(b, c) == copy);
    assert forall|scope: usize| #![trigger inner_of(b, scope)] inner_of(b, scope).in_progress.len() == 0 by {
        if scope < a.len() {
            assert(inner_of(b, scope) == inner_of(a, scope));
        }
        assert(inner_of(a, scope).in_progress.len() == 0);
        assert(inner_of(a, inside).in_progress.len() == 0);
    }
    let known = |key: Seq<char>|
        match overriding(copy.deep_overrides, key, Seq::empty()) {
            Some((_, expr)) => value(expr),
            None => value(found(inner.unresolved, key)->0),
        };
    let keys = keys_of(b, c);
    lemma_copy_keys(b, c);
    assert forall|i: int| 0 <= i < keys.len() implies comes_to(
        d,
        b,
        Question::Value { scope: c, specifier: #[trigger] keys[i], offset: 0 },
        b,
        Ok(Meaning::Value(known(keys[i]))),
    ) by {
        let key = keys[i];
        assert(keys.contains(key));
        assert(found(inner.unresolved, key) is Some);
        lemma_copy_override(inner, more, key);
        assert(found(copy.resolved, key) is None);
        lemma_overridden_name(w, value, b, c, key, 0, found(inner.unresolved, key)->0);
    }
    let rows = lemma_collected(d, b, c, keys, Seq::empty(), known);
    let t = asked(a, none, Question::ValueOf { scope: id, specifier: name, answer: Ok(Meaning::Scope(inside)) });
    let q = Question::Dictionary { scope: c, keys, out: Seq::empty() };
    assert(walked(a, id, name, inside) == (b, c));
    lemma_step(d, t);
    assert(t.stack.drop_last() =~= none);
    assert(driven(d, t) == asked(b, none, q));
    lemma_reaches_on(d, t, asked(b, none, q), answered(b, none, Ok(Meaning::Value(Node::Table(rows)))));
    assert forall|i: int| 0 <= i < more.len() && found(inner.unresolved, (#[trigger] more[i]).0) is Some implies found(
        rows,
        more[i].0,
    ) == Some(value(more[i].1.1)) by {
        assert(keys.contains(more[i].0));
        lemma_copy_override(inner, more, more[i].0);
        assert(known(more[i].0) == value(more[i].1.1));
    }
    assert forall|key: Seq<char>|
        (forall|i: int| 0 <= i < more.len() ==> (#[trigger] more[i]).0 != key) implies #[trigger] found(rows, key)
        == match found(inner.unresolved, key) {
        Some(expr) => Some(value(expr)),
        None => None,
    } by {
        if found(inner.unresolved, key) is Some {
            assert(keys.contains(key));
            lemma_copy_override(inner, more, key);
            assert(known(key) == value(found(inner.unresolved, key)->0));
        } else {
            assert(!keys.contains(key));
        }
    }
    (b, rows)
}

/// What overrides a plain name in a copy is the override of that name, where there is one.
proof fn lemma_copy_override(inner: Inner, more: Seq<(Seq<char>, (usize, usize))>, key: Seq<char>)
    requires
        inner.deep_overrides.len() == 0,
        cut(key, '.') is None,
        forall|i: int| 0 <= i < more.len() ==> cut((#[trigger] more[i]).0, '.') is None,
        forall|i: int, j: int| 0 <= i < j < more.len() ==> (#[trigger] more[i]).0 != (#[trigger] more[j]).0,
    ensures
        ({
            let over = overriding(with_deeper(inner, more, more.len() as int).deep_overrides, key, Seq::empty());
            &&& forall|i: int| 0 <= i < more.len() && (#[trigger] more[i]).0 == key ==> over == Some(more[i].1)
            &&& (forall|i: int| 0 <= i < more.len() ==> (#[trigger] more[i]).0 != key) ==> over is None
            &&& over is Some ==> exists|i: int| 0 <= i < more.len() && (#[trigger] more[i]).0 == key && over == Some(
                more[i].1,
            )
        }),
{
    let n = more.len() as int;
    assert forall|i: int| 0 <= i < n implies path_parts((#[trigger] more[i]).0) == (more[i].0, Seq::<char>::empty()) by {}
    if exists|i: int| 0 <= i < n && (#[trigger] more[i]).0 == key {
        let i = choose|i: int| 0 <= i < n && (#[trigger] more[i]).0 == key;
        law_deeper(inner, more, n, i, Seq::empty(), Seq::empty());
        assert forall|j: int| i < j < n implies path_parts((#[trigger] more[j]).0) != path_parts(more[i].0) by {
            assert(more[i].0 != more[j].0);
        }
        assert forall|j: int| 0 <= j < n && (#[trigger] more[j]).0 == key implies j == i by {
            if j < i {
                assert(more[j].0 != more[i].0);
            } else if i < j {
                assert(more[i].0 != more[j].0);
            }
        }
    } else {
        law_deeper(inner, more, n, 0, key, Seq::empty());
        assert(found(inner.deep_overrides, key) is None);
    }
}

/// The keys of a scope that nothing overrides are the names that it binds.
proof fn lemma_copy_keys(a: Seq<Inner>, id: usize)
    requires
        id < a.len(),
        a[id as int].overrides.len() == 0,
    ensures
        forall|name: Seq<char>| #[trigger]
            keys_of(a, id).contains(name) <==> found(a[id as int].unresolved, name) is Some,
{
    law_keys(a, id);
    lemma_own_keys(a, id);
    assert forall|name: Seq<char>| #[trigger]
        keys_of(a, id).contains(name) <==> found(a[id as int].unresolved, name) is Some by {
        assert(has_key(a, id, name) <==> found(a[id as int].unresolved, name) is Some);
    }
}

} // verus!
