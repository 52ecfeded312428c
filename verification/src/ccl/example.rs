//! An example: scopes and a driver of which the laws on meanings hold, with two
//! names of different values.

use vstd::prelude::*;

use crate::ccl::apart::law_keys;
use crate::ccl::exec::{begun, law_mark_lifted, plus, Failure, Next, State, Waiting};
use crate::ccl::meanings::{
    free, law_override_gives_its_value, law_path_is_looked_up, lemma_looked_up, lemma_made, lemma_value_of_meaning,
    steady,
};
use crate::ccl::runs::{
    answered, asked, comes_to, driven, lemma_ask, lemma_reaches_on, lemma_step, reaches, Driver, Question,
};
use crate::ccl::scope::{empty_inner, has_key, inner_of, keys_of, override_links, walked, Inner, Meaning};
use crate::ccl::settled::{
    evaluates_alike, holds, law_base_holds, law_settled_is_steady, self_contained, settled, Ground,
};
use crate::digest::utf8;
use crate::reach::{depends, leads, waits_for};
use crate::table::{ascending, found, lemma_ascending_unique, with_row};
use crate::text::{before, cut, lemma_position_from};
use crate::value::Node;

verus! {

/// A driver under which expressions depend on nothing and are values: the first is
/// true, and every other is false.
pub open spec fn plain(w: Driver) -> Driver {
    Driver {
        dependencies: |expr: usize| Seq::empty(),
        evaluate: |a: Seq<Inner>, scope: usize, expr: usize, known: Seq<(Seq<char>, Meaning)>|
            (a, Ok(Meaning::Value(Node::Bool(expr == 0)))),
        ..w
    }
}

/// Three scopes: the last binds `x` and `y`, the second has resolved `n` to the last,
/// and overrides the first.
pub open spec fn scopes() -> Seq<Inner> {
    let empty = empty_inner(Seq::empty(), 0, 0);
    seq![
        Inner { overrides: seq![1usize], ..empty },
        Inner { resolved: seq![(seq!['n'], Meaning::Scope(2))], ..empty },
        Inner { unresolved: seq![(seq!['x'], 0usize), (seq!['y'], 1usize)], ..empty },
    ]
}

/// The dictionary of the last scope.
pub open spec fn entries() -> Seq<(Seq<char>, Node)> {
    seq![(seq!['x'], Node::Bool(true)), (seq!['y'], Node::Bool(false))]
}

/// A name that is bound to an expression stands for what that evaluates to.
proof fn lemma_bound_name(w: Driver, a: Seq<Inner>, scope: usize, name: Seq<char>, offset: usize, expr: usize)
    requires
        free(a, scope, name),
        found(inner_of(a, scope).resolved, name) is None,
        found(inner_of(a, scope).unresolved, name) == Some(expr),
    ensures
        comes_to(
            plain(w),
            a,
            Question::Meaning { scope, specifier: name, offset },
            a,
            Ok(Meaning::Value(Node::Bool(expr == 0))),
        ),
        comes_to(
            plain(w),
            a,
            Question::Value { scope, specifier: name, offset },
            a,
            Ok(Meaning::Value(Node::Bool(expr == 0))),
        ),
{
    let d = plain(w);
    let none = Seq::<Waiting>::empty();
    let answer: Result<Meaning, Failure> = Ok(Meaning::Value(Node::Bool(expr == 0)));
    let s = asked(a, none, Question::Meaning { scope, specifier: name, offset });
    let own = State { arena: a, stack: none, next: Next::Own { scope, specifier: name, offset } };
    let evaluate = State { arena: a, stack: none, next: Next::Evaluate { scope, specifier: name, expr } };
    let ready = State {
        arena: begun(a, scope, name),
        stack: none,
        next: Next::Dependencies { scope, specifier: name, expr, deps: Seq::empty(), resolved: Seq::empty() },
    };
    lemma_looked_up(d, a, scope, name, offset);
    lemma_step(d, own);
    assert(driven(d, own) == evaluate);
    lemma_reaches_on(d, s, own, evaluate);
    lemma_step(d, evaluate);
    assert(driven(d, evaluate) == ready);
    lemma_reaches_on(d, s, evaluate, ready);
    lemma_step(d, ready);
    law_mark_lifted(a, scope, name);
    assert(driven(d, ready) == answered(a, none, answer));
    lemma_reaches_on(d, s, ready, answered(a, none, answer));
    lemma_made(d, a, scope, name, answer);
    lemma_value_of_meaning(d, a, scope, name, offset, a, answer, a, answer);
}

/// A name that was resolved stands for what it was resolved to.
proof fn lemma_resolved_name(w: Driver, a: Seq<Inner>, scope: usize, name: Seq<char>, offset: usize, meaning: Meaning)
    requires
        free(a, scope, name),
        found(inner_of(a, scope).resolved, name) == Some(meaning),
    ensures
        comes_to(w, a, Question::Meaning { scope, specifier: name, offset }, a, Ok(meaning)),
{
    let none = Seq::<Waiting>::empty();
    let s = asked(a, none, Question::Meaning { scope, specifier: name, offset });
    let own = State { arena: a, stack: none, next: Next::Own { scope, specifier: name, offset } };
    lemma_looked_up(w, a, scope, name, offset);
    lemma_step(w, own);
    assert(driven(w, own) == answered(a, none, Ok(meaning)));
    lemma_reaches_on(w, s, own, answered(a, none, Ok(meaning)));
}

/// One more entry of a dictionary.
proof fn lemma_entry(
    w: Driver,
    a: Seq<Inner>,
    scope: usize,
    keys: Seq<Seq<char>>,
    out: Seq<(Seq<char>, Node)>,
    value: Node,
)
    requires
        keys.len() > 0,
        comes_to(w, a, Question::Value { scope, specifier: keys[0], offset: 0 }, a, Ok(Meaning::Value(value))),
    ensures
        reaches(
            w,
            asked(a, Seq::empty(), Question::Dictionary { scope, keys, out }),
            asked(
                a,
                Seq::empty(),
                Question::Dictionary { scope, keys: keys.skip(1), out: with_row(out, keys[0], value) },
            ),
        ),
{
    let none = Seq::<Waiting>::empty();
    let answer: Result<Meaning, Failure> = Ok(Meaning::Value(value));
    let s = asked(a, none, Question::Dictionary { scope, keys, out });
    let stack = none.push(Waiting::Entry { scope, key: keys[0], keys: keys.skip(1), out });
    let q = Question::Value { scope, specifier: keys[0], offset: 0 };
    lemma_step(w, s);
    assert(driven(w, s) == asked(a, stack, q));
    lemma_ask(w, a, stack, q, a, answer);
    lemma_reaches_on(w, s, asked(a, stack, q), answered(a, stack, answer));
    lemma_step(w, answered(a, stack, answer));
    assert(stack.drop_last() =~= none);
    lemma_reaches_on(w, s, answered(a, stack, answer), driven(w, answered(a, stack, answer)));
}

/// Single letters are no paths.
proof fn lemma_letters()
    ensures
        cut(seq!['n'], '.') is None,
        cut(seq!['x'], '.') is None,
        cut(seq!['y'], '.') is None,
        seq!['x'] != seq!['y'],
        ascending(seq![seq!['x'], seq!['y']]),
{
    lemma_position_from(seq!['n'], '.', 0);
    lemma_position_from(seq!['x'], '.', 0);
    lemma_position_from(seq!['y'], '.', 0);
    assert(seq!['x'][0] == 'x' && seq!['y'][0] == 'y');
    assert(before(seq!['x'], seq!['y']));
}

/// The keys of the last scope.
proof fn lemma_last_keys(a: Seq<Inner>)
    requires
        a.len() == 3,
        a[2] == scopes()[2],
    ensures
        keys_of(a, 2) == seq![seq!['x'], seq!['y']],
{
    let list = seq![seq!['x'], seq!['y']];
    lemma_letters();
    law_keys(a, 2);
    assert forall|t: int| !#[trigger] depends(override_links(a), 2, t) by {
        if depends(override_links(a), 2, t) {
            let path = choose|path: Seq<int>| #[trigger] leads(override_links(a), 2, path) && path.last() == t;
            assert(waits_for(override_links(a), path[0], path[1]));
            assert(override_links(a)[2] =~= Seq::<usize>::empty());
        }
    }
    assert forall|name: Seq<char>| keys_of(a, 2).contains(name) <==> list.contains(name) by {
        lemma_last_rows(name);
        assert(keys_of(a, 2).contains(name) <==> has_key(a, 2, name));
        assert(list[0] == seq!['x'] && list[1] == seq!['y']);
    }
    lemma_ascending_unique(keys_of(a, 2), list);
}

/// What the last scope binds.
proof fn lemma_last_rows(name: Seq<char>)
    ensures
        found(scopes()[2].unresolved, name) == if name == seq!['x'] {
            Some(0usize)
        } else if name == seq!['y'] {
            Some(1usize)
        } else {
            None
        },
{
    let rows = scopes()[2].unresolved;
    assert(rows.skip(1) =~= seq![(seq!['y'], 1usize)]);
    assert(rows.skip(1).skip(1) =~= Seq::empty());
    reveal_with_fuel(found, 4);
}

/// The dictionary of the last scope, and with it the value of `n` in the second.
proof fn lemma_values(w: Driver, a: Seq<Inner>, offset: usize)
    requires
        a.len() == 3,
        a[1] == scopes()[1],
        a[2] == scopes()[2],
    ensures
        comes_to(
            plain(w),
            a,
            Question::Value { scope: 2, specifier: seq!['x'], offset },
            a,
            Ok(Meaning::Value(Node::Bool(true))),
        ),
        comes_to(
            plain(w),
            a,
            Question::Value { scope: 2, specifier: seq!['y'], offset },
            a,
            Ok(Meaning::Value(Node::Bool(false))),
        ),
        comes_to(
            plain(w),
            a,
            Question::Meaning { scope: 2, specifier: seq!['x'], offset },
            a,
            Ok(Meaning::Value(Node::Bool(true))),
        ),
        comes_to(plain(w), a, Question::Meaning { scope: 1, specifier: seq!['n'], offset }, a, Ok(Meaning::Scope(2))),
        comes_to(
            plain(w),
            a,
            Question::ValueOf { scope: 1, specifier: seq!['n'], answer: Ok(Meaning::Scope(2)) },
            a,
            Ok(Meaning::Value(Node::Table(entries()))),
        ),
        comes_to(
            plain(w),
            a,
            Question::Value { scope: 1, specifier: seq!['n'], offset },
            a,
            Ok(Meaning::Value(Node::Table(entries()))),
        ),
{
    let d = plain(w);
    let none = Seq::<Waiting>::empty();
    let (n, x, y) = (seq!['n'], seq!['x'], seq!['y']);
    let keys = seq![x, y];
    let scope: Result<Meaning, Failure> = Ok(Meaning::Scope(2));
    let all: Result<Meaning, Failure> = Ok(Meaning::Value(Node::Table(entries())));
    lemma_letters();
    lemma_last_keys(a);
    lemma_last_rows(x);
    lemma_last_rows(y);
    lemma_bound_name(w, a, 2, x, offset, 0);
    lemma_bound_name(w, a, 2, y, offset, 1);
    lemma_bound_name(w, a, 2, x, 0, 0);
    lemma_bound_name(w, a, 2, y, 0, 1);
    assert(found(a[1].resolved, n) == Some(Meaning::Scope(2)));
    lemma_resolved_name(d, a, 1, n, offset, Meaning::Scope(2));
    // The dictionary takes the names in turn.
    let one = seq![(x, Node::Bool(true))];
    let start = Question::Dictionary { scope: 2, keys, out: Seq::empty() };
    let half = Question::Dictionary { scope: 2, keys: seq![y], out: one };
    let full = Question::Dictionary { scope: 2, keys: Seq::empty(), out: entries() };
    assert(with_row(Seq::<(Seq<char>, Node)>::empty(), x, Node::Bool(true)) =~= one);
    assert(keys.skip(1) =~= seq![y]);
    lemma_entry(d, a, 2, keys, Seq::empty(), Node::Bool(true));
    lemma_rows();
    assert(seq![y].skip(1) =~= Seq::<Seq<char>>::empty());
    lemma_entry(d, a, 2, seq![y], one, Node::Bool(false));
    lemma_reaches_on(d, asked(a, none, start), asked(a, none, half), asked(a, none, full));
    lemma_step(d, asked(a, none, full));
    lemma_reaches_on(d, asked(a, none, start), asked(a, none, full), answered(a, none, all));
    // The value of a scope is its dictionary.
    let t = asked(a, none, Question::ValueOf { scope: 1, specifier: n, answer: scope });
    lemma_step(d, t);
    assert(t.stack.drop_last() =~= none);
    assert(found(inner_of(a, 1).deep_overrides, n) is None);
    assert(walked(a, 1, n, 2) == (a, 2usize));
    assert(driven(d, t) == asked(a, none, start));
    lemma_reaches_on(d, t, asked(a, none, start), answered(a, none, all));
    lemma_value_of_meaning(d, a, 1, n, offset, a, scope, a, all);
}

proof fn lemma_rows()
    ensures
        with_row(seq![(seq!['x'], Node::Bool(true))], seq!['y'], Node::Bool(false)) == entries(),
        found(entries(), seq!['x']) == Some(Node::Bool(true)),
{
    let one = seq![(seq!['x'], Node::Bool(true))];
    assert(seq!['x'][0] == 'x' && seq!['y'][0] == 'y');
    assert(!before(seq!['y'], seq!['x']));
    assert(one.skip(1) =~= Seq::empty());
    reveal_with_fuel(with_row, 2);
    assert(with_row(one, seq!['y'], Node::Bool(false)) =~= entries());
}

/// The last scope is settled.
proof fn lemma_last_settled(w: Driver) -> (g: Ground)
    ensures
        g == (Ground { driver: plain(w), base: scopes(), scopes: set![2usize] }),
        settled(g),
{
    let g = Ground { driver: plain(w), base: scopes(), scopes: set![2usize] };
    assert(self_contained(g, 2));
    assert forall|a: Seq<Inner>, scope: usize, expr: usize, known: Seq<(Seq<char>, Meaning)>| #[trigger]
        evaluates_alike(g, a, scope, expr, known) by {}
    g
}

/// Names of different values whose values do not depend on when they are asked for:
/// under the plain driver, `x` and `y` in the last scope are true and false, and both
/// are steady while `n` is evaluated in the second scope, or in the first, which the
/// second overrides.
pub proof fn law_example_is_steady(w: Driver, name: Seq<char>)
    ensures
        steady(
            plain(w),
            asked(scopes(), Seq::empty(), Question::Value { scope: 1, specifier: seq!['n'], offset: 0 }),
            asked(scopes(), Seq::empty(), Question::Value { scope: 1, specifier: seq!['n'], offset: 0 }),
            2,
            name,
        ),
        steady(
            plain(w),
            asked(
                begun(scopes(), 0, seq!['n']),
                Seq::empty(),
                Question::Value { scope: 1, specifier: seq!['n'], offset: 0 },
            ),
            asked(scopes(), Seq::empty(), Question::Value { scope: 0, specifier: seq!['n'], offset: 0 }),
            2,
            name,
        ),
        comes_to(
            plain(w),
            scopes(),
            Question::Value { scope: 2, specifier: seq!['x'], offset: 0 },
            scopes(),
            Ok(Meaning::Value(Node::Bool(true))),
        ),
        comes_to(
            plain(w),
            scopes(),
            Question::Value { scope: 2, specifier: seq!['y'], offset: 0 },
            scopes(),
            Ok(Meaning::Value(Node::Bool(false))),
        ),
{
    let a = scopes();
    let b = begun(a, 0, seq!['n']);
    let ask = Question::Value { scope: 1, specifier: seq!['n'], offset: 0 };
    let over = Question::Value { scope: 0, specifier: seq!['n'], offset: 0 };
    let g = lemma_last_settled(w);
    law_base_holds(g);
    assert(b[2] == a[2]);
    assert(holds(g, b));
    law_settled_is_steady(g, a, ask, a, ask, 2, name);
    law_settled_is_steady(g, b, ask, a, over, 2, name);
    lemma_values(w, a, 0);
}

/// The value of `n.x` in the second scope is what the dictionary of `n` has under
/// `x`.
pub proof fn law_example_of_a_path(w: Driver)
    ensures
        comes_to(
            plain(w),
            scopes(),
            Question::Value { scope: 1, specifier: seq!['n'] + seq!['.'] + seq!['x'], offset: 0 },
            scopes(),
            Ok(Meaning::Value(found(entries(), seq!['x'])->0)),
        ),
        found(entries(), seq!['x']) == Some(Node::Bool(true)),
{
    let d = plain(w);
    let a = scopes();
    let (n, x) = (seq!['n'], seq!['x']);
    let yes: Result<Meaning, Failure> = Ok(Meaning::Value(Node::Bool(true)));
    lemma_letters();
    lemma_rows();
    lemma_last_keys(a);
    lemma_values(w, a, 0);
    lemma_values(w, a, plus(0, utf8(n).len() as int));
    lemma_made(d, a, 2, x, yes);
    assert(keys_of(a, 2)[0] == x);
    law_example_is_steady(w, x);
    law_path_is_looked_up(d, a, 1, n, x, 0, a, 2, a, yes, a, yes, a, entries());
}

/// The value of `n` in the first scope, which the second overrides, is the one that
/// the second has for it.
pub proof fn law_example_of_an_override(w: Driver)
    ensures
        comes_to(
            plain(w),
            begun(scopes(), 0, seq!['n']),
            Question::Value { scope: 1, specifier: seq!['n'], offset: 0 },
            begun(scopes(), 0, seq!['n']),
            Ok(Meaning::Value(Node::Table(entries()))),
        ),
        comes_to(
            plain(w),
            scopes(),
            Question::Value { scope: 0, specifier: seq!['n'], offset: 0 },
            scopes(),
            Ok(Meaning::Value(Node::Table(entries()))),
        ),
{
    let d = plain(w);
    let a = scopes();
    let n = seq!['n'];
    let b = begun(a, 0, n);
    let scope: Result<Meaning, Failure> = Ok(Meaning::Scope(2));
    let all = Node::Table(entries());
    lemma_letters();
    assert(b[1] == a[1] && b[2] == a[2]);
    lemma_last_keys(a);
    lemma_last_keys(b);
    lemma_values(w, a, 0);
    lemma_values(w, b, 0);
    let one = asked(b, Seq::empty(), Question::Value { scope: 1, specifier: n, offset: 0 });
    let other = asked(a, Seq::empty(), Question::Value { scope: 0, specifier: n, offset: 0 });
    assert forall|name: Seq<char>| #[trigger] steady(d, one, other, 2, name) by {
        law_example_is_steady(w, name);
    }
    law_mark_lifted(a, 0, n);
    assert(inner_of(a, 0).overrides =~= Seq::<usize>::empty().push(1));
    law_override_gives_its_value(
        d,
        a,
        0,
        n,
        0,
        Seq::empty(),
        1,
        b,
        b,
        scope,
        b,
        Ok(Meaning::Value(all)),
        a,
        all,
        b,
        all,
    );
}

} // verus!
