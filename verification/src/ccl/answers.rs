//! Answers: names of settled scopes that have a meaning come to it.

use vstd::prelude::*;

use crate::ccl::exec::{begun, ended, lemma_without_placed, module_start, plus, Failure, Next, State, Waiting};
use crate::ccl::meanings::{
    binds, free, law_module_is_its_names, law_path_goes_inside, lemma_looked_up, lemma_made, lemma_value_of_meaning,
    module_arena, proper_names,
};
use crate::ccl::runs::{
    answered, asked, comes_to, driven, lemma_ask, lemma_reaches_on, lemma_step, passes, reaches, run, Driver, Question,
};
use crate::ccl::scope::{inner_of, keys_of, walked, with_inner, Inner, Meaning, Module};
use crate::ccl::settled::{
    evaluates_alike, has_value, holds, holds_scope, law_base_holds, law_one_meaning, law_settled_meaning,
    law_settled_scopes_hold, law_settled_value, lemma_holds_marked, lemma_holds_resolved, lemma_keys_stay,
    lemma_meaning_stays, lemma_module_alone, lemma_path_means, lemma_stays_inside, lemma_value_stays, makes, meaning_in,
    means, names_in, rows_in, self_contained, settled, value_in, Ground,
};
use crate::digest::utf8;
use crate::table::{found, law_with_row, names, placed, with_row};
use crate::text::{before, cut, has_char, lemma_cut, lemma_position_from, position};
use crate::value::Node;

verus! {

/// Whether none of the names that are being resolved in the scopes of `g` has a
/// meaning that can be found out in `n` steps down.
pub open spec fn clear(g: Ground, a: Seq<Inner>, n: nat) -> bool {
    forall|id: usize, name: Seq<char>|
        g.scopes.contains(id) && #[trigger] inner_of(a, id).in_progress.contains(name) ==> meaning_in(g, id, name, n)
            is None
}

/// Whether the same names of the scopes of `g` are being resolved.
pub open spec fn same_marks(g: Ground, a: Seq<Inner>, b: Seq<Inner>) -> bool {
    forall|id: usize| #[trigger] g.scopes.contains(id) ==> inner_of(a, id).in_progress == inner_of(b, id).in_progress
}

proof fn lemma_clear(g: Ground, a: Seq<Inner>, b: Seq<Inner>, n: nat, m: nat)
    requires
        clear(g, a, n),
        same_marks(g, a, b),
        m <= n,
    ensures
        clear(g, b, m),
{
    assert forall|id: usize, name: Seq<char>|
        g.scopes.contains(id) && #[trigger] inner_of(b, id).in_progress.contains(name) implies meaning_in(
        g,
        id,
        name,
        m,
    ) is None by {
        assert(inner_of(a, id).in_progress.contains(name));
        if meaning_in(g, id, name, m) is Some {
            lemma_meaning_stays(g, id, name, m, n);
        }
    }
}

proof fn lemma_placed_contains(list: Seq<Seq<char>>, x: Seq<char>, y: Seq<char>)
    requires
        placed(list, x).contains(y),
    ensures
        list.contains(y) || y == x,
    decreases list.len(),
{
    let out = placed(list, x);
    let k = choose|k: int| 0 <= k < out.len() && out[k] == y;
    if list.len() > 0 {
        if list[0] == x {
        } else if before(x, list[0]) {
            if k > 0 {
                assert(list[k - 1] == y);
            }
        } else if k == 0 {
            assert(list[0] == y);
        } else {
            let tail = list.skip(1);
            assert(placed(tail, x)[k - 1] == y);
            lemma_placed_contains(tail, x, y);
            if tail.contains(y) {
                let i = choose|i: int| 0 <= i < tail.len() && tail[i] == y;
                assert(list[i + 1] == y);
            }
        }
    }
}

/// A name that is a path is its first name, a dot and the rest.
proof fn lemma_path(name: Seq<char>, prefix: Seq<char>, suffix: Seq<char>)
    requires
        cut(name, '.') == Some((prefix, suffix)),
    ensures
        !has_char(prefix, '.'),
        name == prefix + seq!['.'] + suffix,
{
    lemma_position_from(name, '.', 0);
    let at = position(name, '.');
    lemma_position_from(prefix, '.', 0);
    if has_char(prefix, '.') {
        let k = position(prefix, '.');
        assert(name[k] == prefix[k]);
    }
    assert(name =~= prefix + seq!['.'] + suffix);
}

/// A name that has a meaning comes to it.
proof fn lemma_name_answers(
    g: Ground,
    a: Seq<Inner>,
    scope: usize,
    name: Seq<char>,
    offset: usize,
    n: nat,
) -> (b: Seq<Inner>)
    requires
        settled(g),
        holds(g, a),
        clear(g, a, n),
        g.scopes.contains(scope),
        meaning_in(g, scope, name, n) is Some,
    ensures
        comes_to(
            g.driver,
            a,
            Question::Meaning { scope, specifier: name, offset },
            b,
            Ok(meaning_in(g, scope, name, n)->0),
        ),
        holds(g, b),
        same_marks(g, a, b),
    decreases n, 0int,
{
    let w = g.driver;
    let none = Seq::<Waiting>::empty();
    let below = (n - 1) as nat;
    let inner = inner_of(a, scope);
    let meaning = meaning_in(g, scope, name, n)->0;
    let s = asked(a, none, Question::Meaning { scope, specifier: name, offset });
    assert(self_contained(g, scope));
    assert(holds_scope(g, scope, inner));
    lemma_clear(g, a, a, n, below);
    match cut(name, '.') {
        Some((prefix, suffix)) => {
            let further = plus(offset as int, utf8(prefix).len() as int);
            match found(inner.scopes, prefix) {
                Some(to) => {
                    let b = lemma_name_answers(g, a, to, suffix, further, below);
                    lemma_step(w, s);
                    let q = Question::Meaning { scope: to, specifier: suffix, offset: further };
                    assert(driven(w, s) == asked(a, none, q));
                    lemma_reaches_on(w, s, driven(w, s), answered(b, none, Ok(meaning)));
                    b
                },
                None => {
                    let c = lemma_name_answers(g, a, scope, prefix, offset, below);
                    let to = meaning_in(g, scope, prefix, below)->0->Scope_0;
                    lemma_stays_inside(g, scope, prefix, below);
                    lemma_clear(g, a, c, n, below);
                    let b = lemma_name_answers(g, c, to, suffix, further, below);
                    lemma_path(name, prefix, suffix);
                    law_path_goes_inside(w, a, scope, prefix, suffix, offset, c, to, b, Ok(meaning));
                    b
                },
            }
        },
        None => if meaning_in(g, scope, name, below) is Some {
            lemma_meaning_stays(g, scope, name, below, n);
            lemma_name_answers(g, a, scope, name, offset, below)
        } else {
            lemma_own_name_answers(g, a, scope, name, offset, n)
        },
    }
}

/// A name that is no path comes to its meaning, where that takes all of `n` steps
/// down.
proof fn lemma_own_name_answers(
    g: Ground,
    a: Seq<Inner>,
    scope: usize,
    name: Seq<char>,
    offset: usize,
    n: nat,
) -> (b: Seq<Inner>)
    requires
        settled(g),
        holds(g, a),
        clear(g, a, n),
        g.scopes.contains(scope),
        cut(name, '.') is None,
        meaning_in(g, scope, name, n) is Some,
        meaning_in(g, scope, name, (n - 1) as nat) is None,
    ensures
        comes_to(
            g.driver,
            a,
            Question::Meaning { scope, specifier: name, offset },
            b,
            Ok(meaning_in(g, scope, name, n)->0),
        ),
        holds(g, b),
        same_marks(g, a, b),
    decreases (n - 1) as nat, 3int,
{
    let w = g.driver;
    let none = Seq::<Waiting>::empty();
    let below = (n - 1) as nat;
    let inner = inner_of(a, scope);
    let meaning = meaning_in(g, scope, name, n)->0;
    let s = asked(a, none, Question::Meaning { scope, specifier: name, offset });
    let own = State { arena: a, stack: none, next: Next::Own { scope, specifier: name, offset } };
    assert(self_contained(g, scope));
    assert(holds_scope(g, scope, inner));
    lemma_clear(g, a, a, n, below);
    assert(!inner.in_progress.contains(name));
    assert(free(a, scope, name));
    lemma_looked_up(w, a, scope, name, offset);
    lemma_step(w, own);
    lemma_reaches_on(w, s, own, driven(w, own));
    match found(inner.resolved, name) {
        Some(known) => {
            assert(means(g, scope, name, known));
            assert(means(g, scope, name, meaning));
            law_one_meaning(g, scope, name, known, meaning);
            a
        },
        None => match found(inner.unresolved, name) {
            Some(expr) => {
                let b = lemma_expression_answers(g, a, scope, name, expr, n);
                lemma_reaches_on(w, s, driven(w, own), answered(b, none, Ok(meaning)));
                b
            },
            None => match inner.parent {
                Some(parent) => {
                    let b = lemma_name_answers(g, a, parent, name, offset, below);
                    lemma_reaches_on(w, s, driven(w, own), answered(b, none, Ok(meaning)));
                    b
                },
                None => {
                    lemma_keys_stay(g, a, scope);
                    let b = lemma_rows_answer(g, a, scope, keys_of(g.base, scope), Seq::empty(), below);
                    lemma_reaches_on(w, s, driven(w, own), answered(b, none, Ok(meaning)));
                    b
                },
            },
        },
    }
}

/// An expression comes to what it evaluates to.
proof fn lemma_expression_answers(
    g: Ground,
    a: Seq<Inner>,
    scope: usize,
    name: Seq<char>,
    expr: usize,
    n: nat,
) -> (b: Seq<Inner>)
    requires
        settled(g),
        holds(g, a),
        clear(g, a, n),
        g.scopes.contains(scope),
        !inner_of(a, scope).in_progress.contains(name),
        n > 0,
        meaning_in(g, scope, name, (n - 1) as nat) is None,
        names_in(g, scope, (g.driver.dependencies)(expr), Seq::empty(), (n - 1) as nat) is Some,
        (g.driver.evaluate)(
            g.base,
            scope,
            expr,
            names_in(g, scope, (g.driver.dependencies)(expr), Seq::empty(), (n - 1) as nat)->0,
        ).1 is Ok,
    ensures
        reaches(
            g.driver,
            State { arena: a, stack: Seq::empty(), next: Next::Evaluate { scope, specifier: name, expr } },
            answered(
                b,
                Seq::empty(),
                (g.driver.evaluate)(
                    g.base,
                    scope,
                    expr,
                    names_in(g, scope, (g.driver.dependencies)(expr), Seq::empty(), (n - 1) as nat)->0,
                ).1,
            ),
        ),
        holds(g, b),
        same_marks(g, a, b),
    decreases (n - 1) as nat, 2int,
{
    let w = g.driver;
    let none = Seq::<Waiting>::empty();
    let below = (n - 1) as nat;
    let deps = (w.dependencies)(expr);
    let all = names_in(g, scope, deps, Seq::empty(), below)->0;
    let s = State { arena: a, stack: none, next: Next::Evaluate { scope, specifier: name, expr } };
    let marked = begun(a, scope, name);
    lemma_holds_marked(g, a, scope, name);
    assert(clear(g, marked, below)) by {
        assert forall|id: usize, x: Seq<char>|
            g.scopes.contains(id) && #[trigger] inner_of(marked, id).in_progress.contains(x) implies meaning_in(
            g,
            id,
            x,
            below,
        ) is None by {
            if id == scope {
                lemma_placed_contains(inner_of(a, scope).in_progress, name, x);
            }
            if inner_of(a, id).in_progress.contains(x) && meaning_in(g, id, x, below) is Some {
                lemma_meaning_stays(g, id, x, below, n);
            }
        }
    }
    let c = lemma_names_answer(g, marked, scope, name, expr, deps, Seq::empty(), below);
    let first = State {
        arena: marked,
        stack: none,
        next: Next::Dependencies { scope, specifier: name, expr, deps, resolved: Seq::empty() },
    };
    let last = State {
        arena: c,
        stack: none,
        next: Next::Dependencies { scope, specifier: name, expr, deps: Seq::empty(), resolved: all },
    };
    lemma_step(w, s);
    assert(driven(w, s) == first);
    lemma_reaches_on(w, s, first, last);
    lemma_step(w, last);
    lemma_reaches_on(w, s, last, driven(w, last));
    let d = ended(c, scope, name);
    lemma_holds_marked(g, c, scope, name);
    assert(evaluates_alike(g, d, scope, expr, all));
    let b = (w.evaluate)(d, scope, expr, all).0;
    assert forall|id: usize| #[trigger] g.scopes.contains(id) implies id < b.len() && holds_scope(
        g,
        id,
        b[id as int],
    ) by {
        assert(holds_scope(g, id, d[id as int]));
    }
    assert forall|id: usize| #[trigger] g.scopes.contains(id) implies inner_of(a, id).in_progress == inner_of(
        b,
        id,
    ).in_progress by {
        assert(holds_scope(g, id, a[id as int]));
        assert(holds_scope(g, id, c[id as int]));
        assert(inner_of(marked, id).in_progress == inner_of(c, id).in_progress);
        if id == scope {
            lemma_without_placed(inner_of(a, scope).in_progress, name);
        }
    }
    b
}

/// The names that an expression depends on come to their meanings.
proof fn lemma_names_answer(
    g: Ground,
    a: Seq<Inner>,
    scope: usize,
    specifier: Seq<char>,
    expr: usize,
    deps: Seq<(Seq<char>, usize)>,
    known: Seq<(Seq<char>, Meaning)>,
    n: nat,
) -> (b: Seq<Inner>)
    requires
        settled(g),
        holds(g, a),
        clear(g, a, n),
        g.scopes.contains(scope),
        names_in(g, scope, deps, known, n) is Some,
    ensures
        reaches(
            g.driver,
            State {
                arena: a,
                stack: Seq::empty(),
                next: Next::Dependencies { scope, specifier, expr, deps, resolved: known },
            },
            State {
                arena: b,
                stack: Seq::empty(),
                next: Next::Dependencies {
                    scope,
                    specifier,
                    expr,
                    deps: Seq::empty(),
                    resolved: names_in(g, scope, deps, known, n)->0,
                },
            },
        ),
        holds(g, b),
        same_marks(g, a, b),
    decreases n, 1int,
{
    let w = g.driver;
    let none = Seq::<Waiting>::empty();
    let s = State { arena: a, stack: none, next: Next::Dependencies { scope, specifier, expr, deps, resolved: known } };
    if deps.len() == 0 {
        assert(deps =~= Seq::empty());
        assert(run(w, s, 0) == s);
        a
    } else {
        let below = (n - 1) as nat;
        let (name, offset) = deps[0];
        let rest = deps.skip(1);
        let meaning = meaning_in(g, scope, name, below)->0;
        let more = with_row(known, name, meaning);
        lemma_clear(g, a, a, n, below);
        let c = lemma_name_answers(g, a, scope, name, offset, below);
        let q = Question::Meaning { scope, specifier: name, offset };
        let stack = none.push(Waiting::Dependency { scope, specifier, expr, name, deps: rest, resolved: known });
        let t = answered(c, stack, Ok(meaning));
        lemma_step(w, s);
        assert(driven(w, s) == asked(a, stack, q));
        lemma_ask(w, a, stack, q, c, Ok(meaning));
        lemma_reaches_on(w, s, asked(a, stack, q), t);
        let inner = inner_of(c, scope);
        let d = with_inner(c, scope, Inner { resolved: with_row(inner.resolved, name, meaning), ..inner });
        let u = State {
            arena: d,
            stack: none,
            next: Next::Dependencies { scope, specifier, expr, deps: rest, resolved: more },
        };
        assert(means(g, scope, name, meaning));
        lemma_holds_resolved(g, c, scope, name, meaning);
        lemma_step(w, t);
        assert(stack.drop_last() =~= none);
        assert(driven(w, t) == u);
        lemma_reaches_on(w, s, t, u);
        assert(same_marks(g, a, d)) by {
            assert forall|id: usize| #[trigger] g.scopes.contains(id) implies inner_of(a, id).in_progress == inner_of(
                d,
                id,
            ).in_progress by {}
        }
        lemma_clear(g, a, d, n, below);
        let b = lemma_names_answer(g, d, scope, specifier, expr, rest, more, below);
        let end = State {
            arena: b,
            stack: none,
            next: Next::Dependencies {
                scope,
                specifier,
                expr,
                deps: Seq::empty(),
                resolved: names_in(g, scope, deps, known, n)->0,
            },
        };
        lemma_reaches_on(w, s, u, end);
        assert(same_marks(g, a, b)) by {
            assert forall|id: usize| #[trigger] g.scopes.contains(id) implies inner_of(a, id).in_progress == inner_of(
                b,
                id,
            ).in_progress by {}
        }
        b
    }
}

/// A name that has a value comes to it.
proof fn lemma_value_answers(
    g: Ground,
    a: Seq<Inner>,
    scope: usize,
    name: Seq<char>,
    offset: usize,
    meaning: Meaning,
    value: Node,
    n: nat,
) -> (b: Seq<Inner>)
    requires
        settled(g),
        holds(g, a),
        clear(g, a, n),
        g.scopes.contains(scope),
        meaning_in(g, scope, name, n) == Some(meaning),
        value_in(g, meaning, n) == Some(value),
    ensures
        comes_to(g.driver, a, Question::Value { scope, specifier: name, offset }, b, Ok(Meaning::Value(value))),
        holds(g, b),
        same_marks(g, a, b),
    decreases n, 1int,
{
    let w = g.driver;
    let none = Seq::<Waiting>::empty();
    let c = lemma_name_answers(g, a, scope, name, offset, n);
    let answer: Result<Meaning, Failure> = Ok(Meaning::Value(value));
    match meaning {
        Meaning::Value(_) => {
            lemma_made(w, c, scope, name, answer);
            lemma_value_of_meaning(w, a, scope, name, offset, c, answer, c, answer);
            c
        },
        Meaning::Scope(to) => {
            let below = (n - 1) as nat;
            lemma_stays_inside(g, scope, name, n);
            lemma_clear(g, a, c, n, below);
            let b = lemma_rows_answer(g, c, to, keys_of(g.base, to), Seq::empty(), below);
            lemma_keys_stay(g, c, to);
            assert(self_contained(g, scope));
            assert(holds_scope(g, scope, inner_of(c, scope)));
            let t = asked(c, none, Question::ValueOf { scope, specifier: name, answer: Ok(meaning) });
            let q = Question::Dictionary { scope: to, keys: keys_of(g.base, to), out: Seq::empty() };
            assert(found(inner_of(c, scope).deep_overrides, name) is None);
            assert(walked(c, scope, name, to) == (c, to));
            lemma_step(w, t);
            assert(t.stack.drop_last() =~= none);
            assert(driven(w, t) == asked(c, none, q));
            lemma_reaches_on(w, t, asked(c, none, q), answered(b, none, answer));
            lemma_value_of_meaning(w, a, scope, name, offset, c, Ok(meaning), b, answer);
            assert(same_marks(g, a, b)) by {
                assert forall|id: usize| #[trigger] g.scopes.contains(id) implies inner_of(a, id).in_progress == inner_of(
                    b,
                    id,
                ).in_progress by {}
            }
            b
        },
    }
}

/// Names that have values come to the dictionary of them.
proof fn lemma_rows_answer(
    g: Ground,
    a: Seq<Inner>,
    scope: usize,
    keys: Seq<Seq<char>>,
    out: Seq<(Seq<char>, Node)>,
    n: nat,
) -> (b: Seq<Inner>)
    requires
        settled(g),
        holds(g, a),
        clear(g, a, n),
        g.scopes.contains(scope),
        rows_in(g, scope, keys, out, n) is Some,
    ensures
        comes_to(
            g.driver,
            a,
            Question::Dictionary { scope, keys, out },
            b,
            Ok(Meaning::Value(Node::Table(rows_in(g, scope, keys, out, n)->0))),
        ),
        holds(g, b),
        same_marks(g, a, b),
    decreases n, 0int,
{
    let w = g.driver;
    let none = Seq::<Waiting>::empty();
    let s = asked(a, none, Question::Dictionary { scope, keys, out });
    lemma_step(w, s);
    if keys.len() == 0 {
        assert(driven(w, s) == answered(a, none, Ok(Meaning::Value(Node::Table(out)))));
        a
    } else {
        let below = (n - 1) as nat;
        let key = keys[0];
        let rest = keys.skip(1);
        let meaning = meaning_in(g, scope, key, below)->0;
        let value = value_in(g, meaning, below)->0;
        lemma_clear(g, a, a, n, below);
        let c = lemma_value_answers(g, a, scope, key, 0, meaning, value, below);
        let answer: Result<Meaning, Failure> = Ok(Meaning::Value(value));
        let more = with_row(out, key, value);
        let q = Question::Value { scope, specifier: key, offset: 0 };
        let stack = none.push(Waiting::Entry { scope, key, keys: rest, out });
        let t = answered(c, stack, answer);
        let u = asked(c, none, Question::Dictionary { scope, keys: rest, out: more });
        assert(driven(w, s) == asked(a, stack, q));
        lemma_ask(w, a, stack, q, c, answer);
        lemma_reaches_on(w, s, asked(a, stack, q), t);
        lemma_step(w, t);
        assert(stack.drop_last() =~= none);
        assert(driven(w, t) == u);
        lemma_reaches_on(w, s, t, u);
        lemma_clear(g, a, c, n, below);
        let b = lemma_rows_answer(g, c, scope, rest, more, below);
        let rows = rows_in(g, scope, keys, out, n)->0;
        lemma_reaches_on(w, s, u, answered(b, none, Ok(Meaning::Value(Node::Table(rows)))));
        assert(same_marks(g, a, b)) by {
            assert forall|id: usize| #[trigger] g.scopes.contains(id) implies inner_of(a, id).in_progress == inner_of(
                b,
                id,
            ).in_progress by {}
        }
        b
    }
}

/// Where no names of settled scopes are being resolved, a name of such a scope comes
/// to just the value that it has.
pub proof fn law_settled_name_answers(
    g: Ground,
    a: Seq<Inner>,
    scope: usize,
    name: Seq<char>,
    offset: usize,
    value: Node,
)
    requires
        settled(g),
        holds(g, a),
        g.scopes.contains(scope),
        forall|id: usize| #[trigger] g.scopes.contains(id) ==> inner_of(a, id).in_progress.len() == 0,
    ensures
        has_value(g, scope, name, value) <==> exists|b: Seq<Inner>| #[trigger]
            comes_to(g.driver, a, Question::Value { scope, specifier: name, offset }, b, Ok(Meaning::Value(value))),
{
    let q = Question::Value { scope, specifier: name, offset };
    if has_value(g, scope, name, value) {
        let meaning = choose|meaning: Meaning| #[trigger] means(g, scope, name, meaning) && makes(g, meaning, value);
        let n = choose|n: nat| #[trigger] meaning_in(g, scope, name, n) == Some(meaning);
        let m = choose|m: nat| #[trigger] value_in(g, meaning, m) == Some(value);
        lemma_meaning_stays(g, scope, name, n, n + m);
        lemma_value_stays(g, meaning, m, n + m);
        assert(clear(g, a, n + m));
        let b = lemma_value_answers(g, a, scope, name, offset, meaning, value, n + m);
        assert(comes_to(g.driver, a, q, b, Ok(Meaning::Value(value))));
    }
    if exists|b: Seq<Inner>| #[trigger] comes_to(g.driver, a, q, b, Ok(Meaning::Value(value))) {
        let b = choose|b: Seq<Inner>| #[trigger] comes_to(g.driver, a, q, b, Ok(Meaning::Value(value)));
        law_settled_value(g, a, scope, name, offset, b, Meaning::Value(value));
    }
}

/// Where a module imports nothing, has no value of its own and binds no names inside
/// of others, and where what its expressions evaluate to depends on them and on what
/// their names were resolved to alone, evaluating the module ends in the dictionary
/// of what evaluating each of its names alone ends in.
pub proof fn law_settled_module(
    w: Driver,
    m: Module,
    content: Seq<char>,
    b: Seq<Inner>,
    rows: Seq<(Seq<char>, Node)>,
    name: Seq<char>,
)
    requires
        m.imports.deep_view().len() == 0,
        m.value is None,
        proper_names(m.bindings.deep_view()),
        forall|i: int|
            0 <= i < m.bindings.deep_view().len() ==> (#[trigger] m.bindings.deep_view()[i]).names.len() <= 1,
        forall|a: Seq<Inner>, scope: usize, expr: usize, known: Seq<(Seq<char>, Meaning)>| #[trigger]
            evaluates_alike(
                (Ground { driver: w, base: module_arena(m, content), scopes: set![0usize] }),
                a,
                scope,
                expr,
                known,
            ),
        reaches(
            w,
            module_start(m, content, Seq::empty(), Seq::empty(), None),
            answered(b, Seq::empty(), Ok(Meaning::Value(Node::Table(rows)))),
        ),
    ensures
        names(rows).contains(name) <==> exists|i: int|
            0 <= i < m.bindings.deep_view().len() && binds(#[trigger] m.bindings.deep_view()[i], name),
        names(rows).contains(name) ==> exists|c: Seq<Inner>| #[trigger]
            reaches(
                w,
                module_start(m, content, name, Seq::empty(), None),
                answered(c, Seq::empty(), Ok(Meaning::Value(found(rows, name)->0))),
            ),
{
    let g = Ground { driver: w, base: module_arena(m, content), scopes: set![0usize] };
    let none = Seq::<Waiting>::empty();
    let s = module_start(m, content, Seq::empty(), Seq::empty(), None);
    let q = Question::Value { scope: 0, specifier: Seq::empty(), offset: 0 };
    law_module_is_its_names(w, m, content, b, rows, name, b, Ok(Meaning::Value(Node::Null)));
    if names(rows).contains(name) {
        let value = found(rows, name)->0;
        let entry = Question::Value { scope: 0, specifier: name, offset: 0 };
        assert(s.stack =~= none.push(Waiting::Value { scope: 0, specifier: Seq::empty() }));
        assert(s == asked(g.base, none, q));
        lemma_module_alone(w, m, content);
        law_base_holds(g);
        let (f, h) = choose|f: Seq<Inner>, h: Seq<Inner>|
            passes(w, s, f) && #[trigger] comes_to(w, f, entry, h, Ok(Meaning::Value(value)));
        law_settled_scopes_hold(g, g.base, q, f);
        law_settled_value(g, f, 0, name, 0, h, Meaning::Value(value));
        law_settled_name_answers(g, g.base, 0, name, 0, value);
        let c = choose|c: Seq<Inner>| #[trigger] comes_to(w, g.base, entry, c, Ok(Meaning::Value(value)));
        let alone = module_start(m, content, name, Seq::empty(), None);
        assert(alone.stack =~= none.push(Waiting::Value { scope: 0, specifier: name }));
        assert(alone == asked(g.base, none, entry));
        assert(reaches(w, alone, answered(c, none, Ok(Meaning::Value(value)))));
    }
}

/// What stands in a dictionary under a name is the value of the name.
proof fn lemma_row_has_value(
    g: Ground,
    scope: usize,
    keys: Seq<Seq<char>>,
    out: Seq<(Seq<char>, Node)>,
    n: nat,
    name: Seq<char>,
)
    requires
        rows_in(g, scope, keys, out, n) is Some,
        found(rows_in(g, scope, keys, out, n)->0, name) is Some,
    ensures
        found(out, name) == found(rows_in(g, scope, keys, out, n)->0, name) || has_value(
            g,
            scope,
            name,
            found(rows_in(g, scope, keys, out, n)->0, name)->0,
        ),
    decreases n,
{
    if keys.len() > 0 {
        let below = (n - 1) as nat;
        let meaning = meaning_in(g, scope, keys[0], below)->0;
        let value = value_in(g, meaning, below)->0;
        lemma_row_has_value(g, scope, keys.skip(1), with_row(out, keys[0], value), below, name);
        law_with_row(out, keys[0], value, name);
        if name == keys[0] {
            assert(means(g, scope, name, meaning));
            assert(makes(g, meaning, value));
            assert(has_value(g, scope, name, value));
        }
    }
}

/// In settled scopes, of which no names are being resolved, the value of a path
/// `first.name` is the one that the dictionary of `first` has under `name`, where
/// `first` stands for a scope.
pub proof fn law_settled_path(
    g: Ground,
    a: Seq<Inner>,
    scope: usize,
    first: Seq<char>,
    name: Seq<char>,
    offset: usize,
    b: Seq<Inner>,
    inside: usize,
    c: Seq<Inner>,
    rows: Seq<(Seq<char>, Node)>,
)
    requires
        settled(g),
        holds(g, a),
        g.scopes.contains(scope),
        forall|id: usize| #[trigger] g.scopes.contains(id) ==> inner_of(a, id).in_progress.len() == 0,
        !has_char(first, '.'),
        found(inner_of(a, scope).scopes, first) is None,
        comes_to(g.driver, a, Question::Meaning { scope, specifier: first, offset }, b, Ok(Meaning::Scope(inside))),
        comes_to(
            g.driver,
            a,
            Question::Value { scope, specifier: first, offset },
            c,
            Ok(Meaning::Value(Node::Table(rows))),
        ),
        found(rows, name) is Some,
    ensures
        exists|d: Seq<Inner>| #[trigger]
            comes_to(
                g.driver,
                a,
                Question::Value { scope, specifier: first + seq!['.'] + name, offset },
                d,
                Ok(Meaning::Value(found(rows, name)->0)),
            ),
{
    let path = first + seq!['.'] + name;
    let value = found(rows, name)->0;
    assert(holds_scope(g, scope, inner_of(a, scope)));
    law_settled_meaning(g, a, scope, first, offset, b, Meaning::Scope(inside));
    law_settled_value(g, a, scope, first, offset, c, Meaning::Value(Node::Table(rows)));
    let meaning = choose|meaning: Meaning| #[trigger]
        means(g, scope, first, meaning) && makes(g, meaning, Node::Table(rows));
    law_one_meaning(g, scope, first, meaning, Meaning::Scope(inside));
    let n = choose|n: nat| #[trigger] value_in(g, meaning, n) == Some(Node::Table(rows));
    lemma_row_has_value(g, inside, keys_of(g.base, inside), Seq::empty(), (n - 1) as nat, name);
    let entry = choose|entry: Meaning| #[trigger] means(g, inside, name, entry) && makes(g, entry, value);
    lemma_cut(first, '.', name);
    lemma_path_means(g, scope, path, first, name, inside, entry);
    assert(has_value(g, scope, path, value));
    law_settled_name_answers(g, a, scope, path, offset, value);
}

} // verus!
