//! Settled scopes: scopes in which names mean what they mean, whenever they are
//! asked for.

use vstd::prelude::*;

use crate::ccl::apart::law_keys;
use crate::ccl::exec::{begun, ended, plus, Failure, Next, State, Waiting};
use crate::ccl::meanings::{module_arena, steady};
use crate::ccl::runs::{answered, asked, comes_to, driven, passes, run, Driver, Question};
use crate::ccl::scope::{
    empty_inner, has_key, inner_of, keys_of, override_links, with_bindings, with_inner, Bound, Inner, Meaning, Module,
};
use crate::digest::utf8;
use crate::reach::{depends, leads, waits_for};
use crate::table::{found, law_with_row, lemma_ascending_unique, with_row};
use crate::text::cut;
use crate::value::Node;

verus! {

/// Some scopes, as they are in `base`, and who drives evaluations.
pub struct Ground {
    pub driver: Driver,
    pub base: Seq<Inner>,
    pub scopes: Set<usize>,
}

/// Whether a scope hands names on to scopes of `g` only: nothing overrides it or
/// names inside of it, and it imports nothing.
pub open spec fn self_contained(g: Ground, id: usize) -> bool {
    let inner = inner_of(g.base, id);
    &&& id < g.base.len()
    &&& inner.overrides.len() == 0
    &&& inner.deep_overrides.len() == 0
    &&& inner.imports.len() == 0
    &&& inner.parent matches Some(parent) ==> g.scopes.contains(parent)
    &&& forall|name: Seq<char>| (#[trigger] found(inner.scopes, name)) matches Some(to) ==> g.scopes.contains(to)
    &&& forall|name: Seq<char>| (#[trigger] found(inner.resolved, name)) matches Some(Meaning::Scope(to))
        ==> g.scopes.contains(to)
}

/// Whether what an expression evaluates to in a scope of `g` depends on the
/// expression and on what its names were resolved to alone, and is a value or a
/// scope of `g`, and whether evaluating any expression leaves the scopes of `g` as
/// they are.
pub open spec fn evaluates_alike(
    g: Ground,
    a: Seq<Inner>,
    scope: usize,
    expr: usize,
    known: Seq<(Seq<char>, Meaning)>,
) -> bool {
    let (b, answer) = (g.driver.evaluate)(a, scope, expr, known);
    &&& forall|id: usize| #[trigger]
        g.scopes.contains(id) && id < a.len() ==> id < b.len() && b[id as int] == a[id as int]
    &&& g.scopes.contains(scope) ==> answer == (g.driver.evaluate)(g.base, scope, expr, known).1
    &&& g.scopes.contains(scope) ==> (answer matches Ok(Meaning::Scope(to)) ==> g.scopes.contains(to))
}

/// Whether the scopes of `g` are settled: they hand names on to one another only,
/// and expressions in them evaluate to the same whenever they are evaluated.
pub open spec fn settled(g: Ground) -> bool {
    &&& forall|id: usize| #[trigger] g.scopes.contains(id) ==> self_contained(g, id)
    &&& forall|a: Seq<Inner>, scope: usize, expr: usize, known: Seq<(Seq<char>, Meaning)>| #[trigger]
        evaluates_alike(g, a, scope, expr, known)
}

/// What a name means in a scope of `g`, where that can be found out in `n` steps
/// down: a path of names goes through the scope of its first name, and a name means
/// what it was resolved to, or what the expression that it is bound to evaluates to,
/// or what it means in the scope around; the empty name means the dictionary of all
/// names.
pub open spec fn meaning_in(g: Ground, scope: usize, name: Seq<char>, n: nat) -> Option<Meaning>
    decreases n,
{
    let inner = inner_of(g.base, scope);
    if n == 0 {
        None
    } else {
        let below = (n - 1) as nat;
        match cut(name, '.') {
            Some((prefix, suffix)) => match found(inner.scopes, prefix) {
                Some(to) => meaning_in(g, to, suffix, below),
                None => match meaning_in(g, scope, prefix, below) {
                    Some(Meaning::Scope(to)) => meaning_in(g, to, suffix, below),
                    _ => None,
                },
            },
            None => match found(inner.resolved, name) {
                Some(meaning) => Some(meaning),
                None => match found(inner.unresolved, name) {
                    Some(expr) => match names_in(g, scope, (g.driver.dependencies)(expr), Seq::empty(), below) {
                        Some(known) => match (g.driver.evaluate)(g.base, scope, expr, known).1 {
                            Ok(meaning) => Some(meaning),
                            Err(_) => None,
                        },
                        None => None,
                    },
                    None => match inner.parent {
                        Some(parent) => meaning_in(g, parent, name, below),
                        None => if name.len() == 0 {
                            match rows_in(g, scope, keys_of(g.base, scope), Seq::empty(), below) {
                                Some(rows) => Some(Meaning::Value(Node::Table(rows))),
                                None => None,
                            }
                        } else {
                            None
                        },
                    },
                },
            },
        }
    }
}

/// `known` with what the names `deps` mean in a scope of `g`.
pub open spec fn names_in(
    g: Ground,
    scope: usize,
    deps: Seq<(Seq<char>, usize)>,
    known: Seq<(Seq<char>, Meaning)>,
    n: nat,
) -> Option<Seq<(Seq<char>, Meaning)>>
    decreases n,
{
    if n == 0 {
        None
    } else if deps.len() == 0 {
        Some(known)
    } else {
        let below = (n - 1) as nat;
        match meaning_in(g, scope, deps[0].0, below) {
            Some(meaning) => names_in(g, scope, deps.skip(1), with_row(known, deps[0].0, meaning), below),
            None => None,
        }
    }
}

/// The value that is made of a meaning: of a scope, its dictionary.
pub open spec fn value_in(g: Ground, meaning: Meaning, n: nat) -> Option<Node>
    decreases n,
{
    if n == 0 {
        None
    } else {
        match meaning {
            Meaning::Value(value) => Some(value),
            Meaning::Scope(id) => match rows_in(g, id, keys_of(g.base, id), Seq::empty(), (n - 1) as nat) {
                Some(rows) => Some(Node::Table(rows)),
                None => None,
            },
        }
    }
}

/// `out` with the values of `keys` in a scope of `g`.
pub open spec fn rows_in(g: Ground, scope: usize, keys: Seq<Seq<char>>, out: Seq<(Seq<char>, Node)>, n: nat) -> Option<
    Seq<(Seq<char>, Node)>,
>
    decreases n,
{
    if n == 0 {
        None
    } else if keys.len() == 0 {
        Some(out)
    } else {
        let below = (n - 1) as nat;
        match meaning_in(g, scope, keys[0], below) {
            Some(meaning) => match value_in(g, meaning, below) {
                Some(value) => rows_in(g, scope, keys.skip(1), with_row(out, keys[0], value), below),
                None => None,
            },
            None => None,
        }
    }
}

/// Whether a name means `meaning` in a scope of `g`.
pub open spec fn means(g: Ground, scope: usize, name: Seq<char>, meaning: Meaning) -> bool {
    exists|n: nat| #[trigger] meaning_in(g, scope, name, n) == Some(meaning)
}

/// Whether the names `deps` of a scope of `g` complete `known` to `all`.
pub open spec fn complete(
    g: Ground,
    scope: usize,
    deps: Seq<(Seq<char>, usize)>,
    known: Seq<(Seq<char>, Meaning)>,
    all: Seq<(Seq<char>, Meaning)>,
) -> bool {
    exists|n: nat| #[trigger] names_in(g, scope, deps, known, n) == Some(all)
}

/// Whether `value` is made of `meaning`.
pub open spec fn makes(g: Ground, meaning: Meaning, value: Node) -> bool {
    exists|n: nat| #[trigger] value_in(g, meaning, n) == Some(value)
}

/// Whether the values of `keys` in a scope of `g` complete `out` to `rows`.
pub open spec fn collects(
    g: Ground,
    scope: usize,
    keys: Seq<Seq<char>>,
    out: Seq<(Seq<char>, Node)>,
    rows: Seq<(Seq<char>, Node)>,
) -> bool {
    exists|n: nat| #[trigger] rows_in(g, scope, keys, out, n) == Some(rows)
}

/// Whether a name of a scope of `g` has `value`.
pub open spec fn has_value(g: Ground, scope: usize, name: Seq<char>, value: Node) -> bool {
    exists|meaning: Meaning| #[trigger] means(g, scope, name, meaning) && makes(g, meaning, value)
}

/// Whether the scopes of `g` are in `a` as they are in `g`, but for names that are
/// being resolved, and for names that were resolved to what they mean.
pub open spec fn holds(g: Ground, a: Seq<Inner>) -> bool {
    forall|id: usize| #[trigger] g.scopes.contains(id) ==> id < a.len() && holds_scope(g, id, a[id as int])
}

/// Whether a scope is as it is in `g`, but for names that are being resolved, and
/// for names that were resolved to what they mean.
pub open spec fn holds_scope(g: Ground, id: usize, inner: Inner) -> bool {
    &&& inner == (Inner { in_progress: inner.in_progress, resolved: inner.resolved, ..inner_of(g.base, id) })
    &&& forall|name: Seq<char>| cut(name, '.') is None ==> match #[trigger] found(inner.resolved, name) {
        Some(meaning) => means(g, id, name, meaning),
        None => found(inner_of(g.base, id).resolved, name) is None,
    }
}

pub proof fn lemma_meaning_stays(g: Ground, scope: usize, name: Seq<char>, n: nat, m: nat)
    requires
        n <= m,
        meaning_in(g, scope, name, n) is Some,
    ensures
        meaning_in(g, scope, name, m) == meaning_in(g, scope, name, n),
    decreases n,
{
    let inner = inner_of(g.base, scope);
    let less = (n - 1) as nat;
    let more = (m - 1) as nat;
    match cut(name, '.') {
        Some((prefix, suffix)) => match found(inner.scopes, prefix) {
            Some(to) => lemma_meaning_stays(g, to, suffix, less, more),
            None => {
                lemma_meaning_stays(g, scope, prefix, less, more);
                if let Some(Meaning::Scope(to)) = meaning_in(g, scope, prefix, less) {
                    lemma_meaning_stays(g, to, suffix, less, more);
                }
            },
        },
        None => {
            if found(inner.resolved, name) is None {
                match found(inner.unresolved, name) {
                    Some(expr) => {
                        lemma_names_stay(g, scope, (g.driver.dependencies)(expr), Seq::empty(), less, more);
                    },
                    None => match inner.parent {
                        Some(parent) => lemma_meaning_stays(g, parent, name, less, more),
                        None => lemma_rows_stay(g, scope, keys_of(g.base, scope), Seq::empty(), less, more),
                    },
                }
            }
        },
    }
}

proof fn lemma_names_stay(
    g: Ground,
    scope: usize,
    deps: Seq<(Seq<char>, usize)>,
    known: Seq<(Seq<char>, Meaning)>,
    n: nat,
    m: nat,
)
    requires
        n <= m,
        names_in(g, scope, deps, known, n) is Some,
    ensures
        names_in(g, scope, deps, known, m) == names_in(g, scope, deps, known, n),
    decreases n,
{
    if deps.len() > 0 {
        let less = (n - 1) as nat;
        let more = (m - 1) as nat;
        lemma_meaning_stays(g, scope, deps[0].0, less, more);
        let meaning = meaning_in(g, scope, deps[0].0, less)->0;
        lemma_names_stay(g, scope, deps.skip(1), with_row(known, deps[0].0, meaning), less, more);
    }
}

pub proof fn lemma_value_stays(g: Ground, meaning: Meaning, n: nat, m: nat)
    requires
        n <= m,
        value_in(g, meaning, n) is Some,
    ensures
        value_in(g, meaning, m) == value_in(g, meaning, n),
    decreases n,
{
    if let Meaning::Scope(id) = meaning {
        lemma_rows_stay(g, id, keys_of(g.base, id), Seq::empty(), (n - 1) as nat, (m - 1) as nat);
    }
}

proof fn lemma_rows_stay(g: Ground, scope: usize, keys: Seq<Seq<char>>, out: Seq<(Seq<char>, Node)>, n: nat, m: nat)
    requires
        n <= m,
        rows_in(g, scope, keys, out, n) is Some,
    ensures
        rows_in(g, scope, keys, out, m) == rows_in(g, scope, keys, out, n),
    decreases n,
{
    if keys.len() > 0 {
        let less = (n - 1) as nat;
        let more = (m - 1) as nat;
        lemma_meaning_stays(g, scope, keys[0], less, more);
        let meaning = meaning_in(g, scope, keys[0], less)->0;
        lemma_value_stays(g, meaning, less, more);
        let value = value_in(g, meaning, less)->0;
        lemma_rows_stay(g, scope, keys.skip(1), with_row(out, keys[0], value), less, more);
    }
}

/// A name means one thing only.
pub proof fn law_one_meaning(g: Ground, scope: usize, name: Seq<char>, one: Meaning, other: Meaning)
    requires
        means(g, scope, name, one),
        means(g, scope, name, other),
    ensures
        one == other,
{
    let n = choose|n: nat| #[trigger] meaning_in(g, scope, name, n) == Some(one);
    let m = choose|m: nat| #[trigger] meaning_in(g, scope, name, m) == Some(other);
    if n <= m {
        lemma_meaning_stays(g, scope, name, n, m);
    } else {
        lemma_meaning_stays(g, scope, name, m, n);
    }
}

/// A name has one value only.
pub proof fn law_one_value(g: Ground, scope: usize, name: Seq<char>, one: Node, other: Node)
    requires
        has_value(g, scope, name, one),
        has_value(g, scope, name, other),
    ensures
        one == other,
{
    let x = choose|x: Meaning| #[trigger] means(g, scope, name, x) && makes(g, x, one);
    let y = choose|y: Meaning| #[trigger] means(g, scope, name, y) && makes(g, y, other);
    law_one_meaning(g, scope, name, x, y);
    let n = choose|n: nat| #[trigger] value_in(g, x, n) == Some(one);
    let m = choose|m: nat| #[trigger] value_in(g, x, m) == Some(other);
    if n <= m {
        lemma_value_stays(g, x, n, m);
    } else {
        lemma_value_stays(g, x, m, n);
    }
}

/// A name of a settled scope means a value or a settled scope.
pub proof fn lemma_stays_inside(g: Ground, scope: usize, name: Seq<char>, n: nat)
    requires
        settled(g),
        g.scopes.contains(scope),
    ensures
        meaning_in(g, scope, name, n) matches Some(Meaning::Scope(to)) ==> g.scopes.contains(to),
    decreases n,
{
    let inner = inner_of(g.base, scope);
    assert(self_contained(g, scope));
    if n > 0 {
        let below = (n - 1) as nat;
        match cut(name, '.') {
            Some((prefix, suffix)) => match found(inner.scopes, prefix) {
                Some(to) => lemma_stays_inside(g, to, suffix, below),
                None => {
                    lemma_stays_inside(g, scope, prefix, below);
                    if let Some(Meaning::Scope(to)) = meaning_in(g, scope, prefix, below) {
                        lemma_stays_inside(g, to, suffix, below);
                    }
                },
            },
            None => match found(inner.resolved, name) {
                Some(_) => {},
                None => match found(inner.unresolved, name) {
                    Some(expr) => {
                        let known = names_in(g, scope, (g.driver.dependencies)(expr), Seq::empty(), below);
                        if known is Some {
                            assert(evaluates_alike(g, g.base, scope, expr, known->0));
                        }
                    },
                    None => match inner.parent {
                        Some(parent) => lemma_stays_inside(g, parent, name, below),
                        None => {},
                    },
                },
            },
        }
    }
}

/// A path of names means what its last part means in the scope of its first name.
pub proof fn lemma_path_means(
    g: Ground,
    scope: usize,
    name: Seq<char>,
    prefix: Seq<char>,
    suffix: Seq<char>,
    to: usize,
    meaning: Meaning,
)
    requires
        cut(name, '.') == Some((prefix, suffix)),
        match found(inner_of(g.base, scope).scopes, prefix) {
            Some(known) => known == to,
            None => means(g, scope, prefix, Meaning::Scope(to)),
        },
        means(g, to, suffix, meaning),
    ensures
        means(g, scope, name, meaning),
{
    let n = choose|n: nat| #[trigger] meaning_in(g, to, suffix, n) == Some(meaning);
    match found(inner_of(g.base, scope).scopes, prefix) {
        Some(_) => {
            assert(meaning_in(g, scope, name, n + 1) == Some(meaning));
        },
        None => {
            let m = choose|m: nat| #[trigger] meaning_in(g, scope, prefix, m) == Some(Meaning::Scope(to));
            let most = if n <= m {
                m
            } else {
                n
            };
            lemma_meaning_stays(g, scope, prefix, m, most);
            lemma_meaning_stays(g, to, suffix, n, most);
            assert(meaning_in(g, scope, name, most + 1) == Some(meaning));
        },
    }
}

/// What a name that is no path means in a scope that has not resolved it.
proof fn lemma_own_means(g: Ground, scope: usize, name: Seq<char>, meaning: Meaning)
    requires
        cut(name, '.') is None,
        found(inner_of(g.base, scope).resolved, name) is None,
        match found(inner_of(g.base, scope).unresolved, name) {
            Some(expr) => exists|known: Seq<(Seq<char>, Meaning)>| #[trigger]
                complete(g, scope, (g.driver.dependencies)(expr), Seq::empty(), known) && (g.driver.evaluate)(
                    g.base,
                    scope,
                    expr,
                    known,
                ).1 == Ok::<Meaning, Failure>(meaning),
            None => match inner_of(g.base, scope).parent {
                Some(parent) => means(g, parent, name, meaning),
                None => name.len() == 0 && (meaning matches Meaning::Value(Node::Table(rows)) && collects(
                    g,
                    scope,
                    keys_of(g.base, scope),
                    Seq::empty(),
                    rows,
                )),
            },
        },
    ensures
        means(g, scope, name, meaning),
{
    match found(inner_of(g.base, scope).unresolved, name) {
        Some(expr) => {
            let deps = (g.driver.dependencies)(expr);
            let known = choose|known: Seq<(Seq<char>, Meaning)>| #[trigger]
                complete(g, scope, deps, Seq::empty(), known) && (g.driver.evaluate)(g.base, scope, expr, known).1 == Ok::<
                    Meaning,
                    Failure,
                >(meaning);
            let n = choose|n: nat| #[trigger] names_in(g, scope, deps, Seq::empty(), n) == Some(known);
            assert(meaning_in(g, scope, name, n + 1) == Some(meaning));
        },
        None => match inner_of(g.base, scope).parent {
            Some(parent) => {
                let n = choose|n: nat| #[trigger] meaning_in(g, parent, name, n) == Some(meaning);
                assert(meaning_in(g, scope, name, n + 1) == Some(meaning));
            },
            None => {
                let rows = meaning->Value_0->Table_0;
                let n = choose|n: nat| #[trigger]
                    rows_in(g, scope, keys_of(g.base, scope), Seq::empty(), n) == Some(rows);
                assert(meaning_in(g, scope, name, n + 1) == Some(meaning));
            },
        },
    }
}

/// The first of the names that an expression depends on, and the others.
proof fn lemma_complete(
    g: Ground,
    scope: usize,
    deps: Seq<(Seq<char>, usize)>,
    known: Seq<(Seq<char>, Meaning)>,
    meaning: Meaning,
    all: Seq<(Seq<char>, Meaning)>,
)
    requires
        deps.len() > 0,
        means(g, scope, deps[0].0, meaning),
        complete(g, scope, deps.skip(1), with_row(known, deps[0].0, meaning), all),
    ensures
        complete(g, scope, deps, known, all),
{
    let more = with_row(known, deps[0].0, meaning);
    let n = choose|n: nat| #[trigger] meaning_in(g, scope, deps[0].0, n) == Some(meaning);
    let m = choose|m: nat| #[trigger] names_in(g, scope, deps.skip(1), more, m) == Some(all);
    let most = if n <= m {
        m
    } else {
        n
    };
    lemma_meaning_stays(g, scope, deps[0].0, n, most);
    lemma_names_stay(g, scope, deps.skip(1), more, m, most);
    assert(names_in(g, scope, deps, known, most + 1) == Some(all));
}

/// The first of the names of a dictionary, and the others.
proof fn lemma_collects(
    g: Ground,
    scope: usize,
    keys: Seq<Seq<char>>,
    out: Seq<(Seq<char>, Node)>,
    value: Node,
    rows: Seq<(Seq<char>, Node)>,
)
    requires
        keys.len() > 0,
        has_value(g, scope, keys[0], value),
        collects(g, scope, keys.skip(1), with_row(out, keys[0], value), rows),
    ensures
        collects(g, scope, keys, out, rows),
{
    let more = with_row(out, keys[0], value);
    let meaning = choose|meaning: Meaning| #[trigger] means(g, scope, keys[0], meaning) && makes(g, meaning, value);
    let n = choose|n: nat| #[trigger] meaning_in(g, scope, keys[0], n) == Some(meaning);
    let m = choose|m: nat| #[trigger] value_in(g, meaning, m) == Some(value);
    let k = choose|k: nat| #[trigger] rows_in(g, scope, keys.skip(1), more, k) == Some(rows);
    let most = n + m + k;
    lemma_meaning_stays(g, scope, keys[0], n, most);
    lemma_value_stays(g, meaning, m, most);
    lemma_rows_stay(g, scope, keys.skip(1), more, k, most);
    assert(rows_in(g, scope, keys, out, most + 1) == Some(rows));
}

/// The value of a scope is its dictionary.
proof fn lemma_makes(g: Ground, id: usize, rows: Seq<(Seq<char>, Node)>)
    requires
        collects(g, id, keys_of(g.base, id), Seq::empty(), rows),
    ensures
        makes(g, Meaning::Scope(id), Node::Table(rows)),
{
    let n = choose|n: nat| #[trigger] rows_in(g, id, keys_of(g.base, id), Seq::empty(), n) == Some(rows);
    assert(value_in(g, Meaning::Scope(id), n + 1) == Some(Node::Table(rows)));
}

/// The keys of a settled scope stay the same.
pub proof fn lemma_keys_stay(g: Ground, a: Seq<Inner>, id: usize)
    requires
        settled(g),
        holds(g, a),
        g.scopes.contains(id),
    ensures
        keys_of(a, id) == keys_of(g.base, id),
{
    assert(self_contained(g, id));
    assert(holds_scope(g, id, a[id as int]));
    law_keys(a, id);
    law_keys(g.base, id);
    lemma_own_keys(a, id);
    lemma_own_keys(g.base, id);
    assert forall|y: Seq<char>| keys_of(a, id).contains(y) <==> keys_of(g.base, id).contains(y) by {
        assert(has_key(a, id, y) <==> has_key(g.base, id, y));
    }
    lemma_ascending_unique(keys_of(a, id), keys_of(g.base, id));
}

/// Where nothing overrides a scope, its keys are the names that it binds.
pub proof fn lemma_own_keys(a: Seq<Inner>, id: usize)
    requires
        id < a.len(),
        a[id as int].overrides.len() == 0,
    ensures
        forall|name: Seq<char>| #[trigger] has_key(a, id, name) <==> found(a[id as int].unresolved, name) is Some,
{
    assert forall|t: int| !#[trigger] depends(override_links(a), id as int, t) by {
        if depends(override_links(a), id as int, t) {
            let path = choose|path: Seq<int>| #[trigger]
                leads(override_links(a), id as int, path) && path.last() == t;
            assert(waits_for(override_links(a), path[0], path[1]));
            assert(override_links(a)[id as int] =~= Seq::<usize>::empty());
        }
    }
}

/// Marks a meaning as one that may be answered.
spec fn possible(meaning: Meaning) -> bool {
    true
}

/// Whether `stack`, handed the answer `meaning`, goes on to answers of which `goal`
/// holds, where the scopes of `g` hold: names of other scopes may mean anything.
spec fn fits(g: Ground, goal: spec_fn(Meaning) -> bool, stack: Seq<Waiting>, meaning: Meaning) -> bool
    decreases stack.len(),
{
    if stack.len() == 0 {
        goal(meaning)
    } else {
        let rest = stack.drop_last();
        match stack.last() {
            Waiting::Inside { .. } => meaning is Value || fits(g, goal, rest, meaning),
            Waiting::Member { suffix, .. } => match meaning {
                Meaning::Scope(to) => forall|m: Meaning| #[trigger]
                    possible(m) && (!g.scopes.contains(to) || means(g, to, suffix, m)) ==> fits(g, goal, rest, m),
                Meaning::Value(_) => fits(g, goal, rest, meaning),
            },
            Waiting::DeepOverride { .. } => fits(g, goal, rest, meaning),
            Waiting::Override { .. } | Waiting::OverrideValue { .. } => forall|m: Meaning| #[trigger]
                possible(m) ==> fits(g, goal, rest, m),
            Waiting::Value { scope, .. } => match meaning {
                Meaning::Value(_) => fits(g, goal, rest, meaning),
                Meaning::Scope(to) => forall|m: Meaning| #[trigger]
                    possible(m) && (!(g.scopes.contains(scope) && g.scopes.contains(to)) || (m matches Meaning::Value(
                        value,
                    ) && makes(g, meaning, value))) ==> fits(g, goal, rest, m),
            },
            Waiting::Entry { scope, key, keys, out } => match meaning {
                Meaning::Value(value) => forall|m: Meaning| #[trigger]
                    possible(m) && (!g.scopes.contains(scope) || (m matches Meaning::Value(Node::Table(rows)) && collects(
                        g,
                        scope,
                        keys,
                        with_row(out, key, value),
                        rows,
                    ))) ==> fits(g, goal, rest, m),
                Meaning::Scope(_) => fits(g, goal, rest, meaning),
            },
            Waiting::Dependency { scope, expr, name, deps, resolved, .. } => {
                &&& g.scopes.contains(scope) ==> means(g, scope, name, meaning)
                &&& forall|m: Meaning| #[trigger]
                    possible(m) && (!g.scopes.contains(scope) || evaluates_to(
                        g,
                        scope,
                        expr,
                        deps,
                        with_row(resolved, name, meaning),
                        m,
                    )) ==> fits(g, goal, rest, m)
            },
        }
    }
}

/// Whether an expression in a scope of `g` evaluates to `meaning`, where `known` and
/// the names `deps` are what it depends on.
spec fn evaluates_to(
    g: Ground,
    scope: usize,
    expr: usize,
    deps: Seq<(Seq<char>, usize)>,
    known: Seq<(Seq<char>, Meaning)>,
    meaning: Meaning,
) -> bool {
    exists|all: Seq<(Seq<char>, Meaning)>| #[trigger]
        complete(g, scope, deps, known, all) && (g.driver.evaluate)(g.base, scope, expr, all).1 == Ok::<
            Meaning,
            Failure,
        >(meaning)
}

/// Whether whatever is answered fits.
spec fn fits_any(g: Ground, goal: spec_fn(Meaning) -> bool, stack: Seq<Waiting>) -> bool {
    forall|m: Meaning| #[trigger] possible(m) ==> fits(g, goal, stack, m)
}

/// Whether what `stack` goes on to where it is handed an error fits: the scopes that
/// override another are asked in turn.
spec fn fits_error(g: Ground, goal: spec_fn(Meaning) -> bool, stack: Seq<Waiting>) -> bool
    decreases stack.len(),
{
    if stack.len() == 0 {
        true
    } else {
        &&& fits_error(g, goal, stack.drop_last())
        &&& match stack.last() {
            Waiting::Override { scope, .. } | Waiting::OverrideValue { scope, .. } => {
                &&& !g.scopes.contains(scope)
                &&& fits_any(g, goal, stack.drop_last())
            },
            _ => true,
        }
    }
}

/// Whether what a name means fits.
spec fn fits_name(
    g: Ground,
    goal: spec_fn(Meaning) -> bool,
    stack: Seq<Waiting>,
    scope: usize,
    name: Seq<char>,
) -> bool {
    forall|m: Meaning| #[trigger]
        possible(m) && (!g.scopes.contains(scope) || means(g, scope, name, m)) ==> fits(g, goal, stack, m)
}

/// Whether what an evaluation comes to fits.
spec fn on_course(g: Ground, goal: spec_fn(Meaning) -> bool, s: State) -> bool {
    &&& holds(g, s.arena)
    &&& fits_error(g, goal, s.stack)
    &&& match s.next {
        Next::Resolve { scope, specifier, .. } => fits_name(g, goal, s.stack, scope, specifier),
        Next::Overrides { scope, specifier, rest, .. } => {
            &&& fits_name(g, goal, s.stack, scope, specifier)
            &&& g.scopes.contains(scope) ==> rest.len() == 0 && cut(specifier, '.') is None
        },
        Next::Own { scope, specifier, .. } => {
            &&& fits_name(g, goal, s.stack, scope, specifier)
            &&& g.scopes.contains(scope) ==> cut(specifier, '.') is None
        },
        Next::Evaluate { scope, expr, .. } | Next::AwaitDependencies { scope, expr, .. } => forall|m: Meaning| #[trigger]
            possible(m) && (!g.scopes.contains(scope) || evaluates_to(
                g,
                scope,
                expr,
                (g.driver.dependencies)(expr),
                Seq::empty(),
                m,
            )) ==> fits(g, goal, s.stack, m),
        Next::Dependencies { scope, expr, deps, resolved, .. } => forall|m: Meaning| #[trigger]
            possible(m) && (!g.scopes.contains(scope) || evaluates_to(g, scope, expr, deps, resolved, m)) ==> fits(
                g,
                goal,
                s.stack,
                m,
            ),
        Next::AwaitEvaluation => true,
        Next::Import { .. } | Next::AwaitImport { .. } => fits_any(g, goal, s.stack),
        Next::Collect { scope, keys, out } => forall|m: Meaning| #[trigger]
            possible(m) && (!g.scopes.contains(scope) || (m matches Meaning::Value(Node::Table(rows)) && collects(
                g,
                scope,
                keys,
                out,
                rows,
            ))) ==> fits(g, goal, s.stack, m),
        Next::Answer(answer) => answer matches Ok(m) ==> fits(g, goal, s.stack, m),
    }
}

proof fn lemma_holds_with(g: Ground, a: Seq<Inner>, id: usize, inner: Inner)
    requires
        holds(g, a),
        g.scopes.contains(id) ==> holds_scope(g, id, inner),
    ensures
        holds(g, with_inner(a, id, inner)),
{
    let b = with_inner(a, id, inner);
    assert forall|k: usize| #[trigger] g.scopes.contains(k) implies k < b.len() && holds_scope(g, k, b[k as int]) by {
        assert(holds_scope(g, k, a[k as int]));
    }
}

pub proof fn lemma_holds_marked(g: Ground, a: Seq<Inner>, id: usize, name: Seq<char>)
    requires
        holds(g, a),
    ensures
        holds(g, begun(a, id, name)),
        holds(g, ended(a, id, name)),
{
    if g.scopes.contains(id) {
        assert(holds_scope(g, id, inner_of(a, id)));
    }
    lemma_holds_with(g, a, id, inner_of(begun(a, id, name), id));
    lemma_holds_with(g, a, id, inner_of(ended(a, id, name), id));
    assert(begun(a, id, name) =~= with_inner(a, id, inner_of(begun(a, id, name), id)));
    assert(ended(a, id, name) =~= with_inner(a, id, inner_of(ended(a, id, name), id)));
}

proof fn lemma_holds_pushed(g: Ground, a: Seq<Inner>, inner: Inner)
    requires
        holds(g, a),
    ensures
        holds(g, a.push(inner)),
{
    assert forall|k: usize| #[trigger] g.scopes.contains(k) implies k < a.push(inner).len() && holds_scope(
        g,
        k,
        a.push(inner)[k as int],
    ) by {
        assert(holds_scope(g, k, a[k as int]));
    }
}

pub proof fn lemma_holds_resolved(g: Ground, a: Seq<Inner>, id: usize, name: Seq<char>, meaning: Meaning)
    requires
        holds(g, a),
        g.scopes.contains(id) ==> means(g, id, name, meaning),
    ensures
        holds(
            g,
            with_inner(a, id, Inner { resolved: with_row(inner_of(a, id).resolved, name, meaning), ..inner_of(a, id) }),
        ),
{
    let inner = inner_of(a, id);
    let next = Inner { resolved: with_row(inner.resolved, name, meaning), ..inner };
    if g.scopes.contains(id) {
        assert(holds_scope(g, id, inner));
        assert forall|other: Seq<char>| cut(other, '.') is None implies match #[trigger] found(next.resolved, other) {
            Some(known) => means(g, id, other, known),
            None => found(inner_of(g.base, id).resolved, other) is None,
        } by {
            law_with_row(inner.resolved, name, meaning, other);
            assert(match found(inner.resolved, other) {
                Some(known) => means(g, id, other, known),
                None => found(inner_of(g.base, id).resolved, other) is None,
            });
        }
    }
    lemma_holds_with(g, a, id, next);
}

pub proof fn lemma_pushed(stack: Seq<Waiting>, x: Waiting)
    ensures
        stack.push(x).last() == x,
        stack.push(x).drop_last() == stack,
{
    assert(stack.push(x).drop_last() =~= stack);
}

proof fn lemma_resolve_on_course(
    g: Ground,
    goal: spec_fn(Meaning) -> bool,
    s: State,
    scope: usize,
    specifier: Seq<char>,
    offset: usize,
)
    requires
        settled(g),
        on_course(g, goal, s),
        s.next == (Next::Resolve { scope, specifier, offset }),
    ensures
        on_course(g, goal, driven(g.driver, s)),
{
    let t = driven(g.driver, s);
    let inner = inner_of(s.arena, scope);
    lemma_holds_marked(g, s.arena, scope, specifier);
    if g.scopes.contains(scope) {
        assert(self_contained(g, scope));
        assert(holds_scope(g, scope, inner));
    }
    match cut(specifier, '.') {
        Some((prefix, suffix)) => match found(inner.scopes, prefix) {
            Some(to) => {
                assert forall|m: Meaning| #[trigger]
                    possible(m) && (!g.scopes.contains(to) || means(g, to, suffix, m)) implies fits(
                    g,
                    goal,
                    s.stack,
                    m,
                ) by {
                    if g.scopes.contains(scope) {
                        lemma_path_means(g, scope, specifier, prefix, suffix, to, m);
                    }
                }
            },
            None => {
                let member = Waiting::Member { offset: plus(offset as int, utf8(prefix).len() as int), suffix };
                let outer = s.stack.push(member);
                lemma_pushed(s.stack, member);
                lemma_pushed(outer, Waiting::Inside { ident: prefix, offset });
                assert(fits_error(g, goal, outer));
                assert(fits_error(g, goal, t.stack));
                assert forall|m: Meaning| #[trigger]
                    possible(m) && (!g.scopes.contains(scope) || means(g, scope, prefix, m)) implies fits(
                    g,
                    goal,
                    t.stack,
                    m,
                ) by {
                    if let Meaning::Scope(to) = m {
                        if g.scopes.contains(scope) {
                            let n = choose|n: nat| #[trigger] meaning_in(g, scope, prefix, n) == Some(m);
                            lemma_stays_inside(g, scope, prefix, n);
                        }
                        assert forall|x: Meaning| #[trigger]
                            possible(x) && (!g.scopes.contains(to) || means(g, to, suffix, x)) implies fits(
                            g,
                            goal,
                            s.stack,
                            x,
                        ) by {
                            if g.scopes.contains(scope) {
                                lemma_path_means(g, scope, specifier, prefix, suffix, to, x);
                            }
                        }
                        assert(fits(g, goal, outer, m));
                    }
                }
            },
        },
        None => {
            let direct = match found(inner.deep_overrides, specifier) {
                Some(rows) => found(rows, Seq::empty()),
                None => None,
            };
            if !inner.in_progress.contains(specifier) && direct is Some {
                assert(!g.scopes.contains(scope));
                lemma_pushed(s.stack, Waiting::DeepOverride { scope, specifier });
                assert(fits_error(g, goal, t.stack));
                assert forall|m: Meaning| #[trigger] possible(m) implies fits(g, goal, t.stack, m) by {
                    assert(fits(g, goal, s.stack, m));
                }
            }
        },
    }
}

proof fn lemma_own_on_course(
    g: Ground,
    goal: spec_fn(Meaning) -> bool,
    s: State,
    scope: usize,
    specifier: Seq<char>,
    offset: usize,
)
    requires
        settled(g),
        on_course(g, goal, s),
        s.next == (Next::Own { scope, specifier, offset }),
    ensures
        on_course(g, goal, driven(g.driver, s)),
{
    let inner = inner_of(s.arena, scope);
    if let Some(meaning) = found(inner.resolved, specifier) {
        assert(possible(meaning));
    }
    if g.scopes.contains(scope) {
        assert(self_contained(g, scope));
        assert(holds_scope(g, scope, inner));
        lemma_keys_stay(g, s.arena, scope);
        assert(match found(inner.resolved, specifier) {
            Some(meaning) => means(g, scope, specifier, meaning),
            None => found(inner_of(g.base, scope).resolved, specifier) is None,
        });
        if found(inner.resolved, specifier) is None {
            match found(inner.unresolved, specifier) {
                Some(expr) => {
                    assert forall|m: Meaning| #[trigger]
                        possible(m) && (evaluates_to(g, scope, expr, (g.driver.dependencies)(expr), Seq::empty(), m)) implies fits(
                        g,
                        goal,
                        s.stack,
                        m,
                    ) by {
                        lemma_own_means(g, scope, specifier, m);
                    }
                },
                None => match inner.parent {
                    Some(parent) => {
                        assert forall|m: Meaning| #[trigger]
                            possible(m) && (means(g, parent, specifier, m)) implies fits(
                            g,
                            goal,
                            s.stack,
                            m,
                        ) by {
                            lemma_own_means(g, scope, specifier, m);
                        }
                    },
                    None => {
                        if specifier.len() == 0 {
                            assert forall|m: Meaning| #[trigger]
                                possible(m) && ((m matches Meaning::Value(Node::Table(rows)) && collects(
                                    g,
                                    scope,
                                    keys_of(g.base, scope),
                                    Seq::empty(),
                                    rows,
                                ))) implies fits(g, goal, s.stack, m) by {
                                lemma_own_means(g, scope, specifier, m);
                            }
                        }
                    },
                },
            }
        }
    }
}

proof fn lemma_answer_on_course(g: Ground, goal: spec_fn(Meaning) -> bool, s: State, answer: Result<Meaning, Failure>)
    requires
        settled(g),
        on_course(g, goal, s),
        s.next == Next::Answer(answer),
        s.stack.len() > 0,
    ensures
        on_course(g, goal, driven(g.driver, s)),
{
    let t = driven(g.driver, s);
    let rest = s.stack.drop_last();
    if let Ok(m) = answer {
        assert(possible(m));
    }
    match s.stack.last() {
        Waiting::Inside { .. } | Waiting::Member { .. } => {},
        Waiting::DeepOverride { scope, specifier } => lemma_holds_marked(g, s.arena, scope, specifier),
        Waiting::Override { scope, specifier, offset, current, rest: more } => {
            let value = Waiting::OverrideValue { scope, specifier, offset, rest: more, result: answer };
            let outer = rest.push(value);
            let last = Waiting::Value { scope: current, specifier };
            lemma_pushed(rest, value);
            lemma_pushed(outer, last);
            assert(fits_error(g, goal, outer));
            assert(fits_error(g, goal, outer.push(last)));
            assert forall|m: Meaning| #[trigger] possible(m) implies fits(g, goal, outer, m) by {}
            assert forall|m: Meaning| #[trigger] possible(m) implies fits(g, goal, outer.push(last), m) by {
                assert(fits(g, goal, outer, m));
            }
        },
        Waiting::OverrideValue { scope, specifier, result, .. } => {
            lemma_holds_marked(g, s.arena, scope, specifier);
            if let Ok(m) = result {
                assert(possible(m));
            }
        },
        Waiting::Value { scope, specifier } => {
            if let Ok(Meaning::Scope(id)) = answer {
                if g.scopes.contains(scope) && g.scopes.contains(id) {
                    assert(self_contained(g, scope));
                    assert(holds_scope(g, scope, inner_of(s.arena, scope)));
                    lemma_keys_stay(g, s.arena, id);
                    assert forall|m: Meaning| #[trigger]
                        possible(m) && (m matches Meaning::Value(Node::Table(rows)) && collects(
                        g,
                        id,
                        keys_of(g.base, id),
                        Seq::empty(),
                        rows,
                    )) implies fits(g, goal, rest, m) by {
                        lemma_makes(g, id, m->Value_0->Table_0);
                    }
                } else if found(inner_of(s.arena, scope).deep_overrides, specifier) is Some {
                    lemma_holds_pushed(g, s.arena, t.arena.last());
                }
            }
        },
        Waiting::Entry { .. } => {},
        Waiting::Dependency { scope, name, .. } => {
            if let Ok(m) = answer {
                lemma_holds_resolved(g, s.arena, scope, name, m);
            }
        },
    }
}

/// An evaluation on course stays on course.
proof fn lemma_on_course(g: Ground, goal: spec_fn(Meaning) -> bool, s: State)
    requires
        settled(g),
        on_course(g, goal, s),
    ensures
        on_course(g, goal, driven(g.driver, s)),
{
    let t = driven(g.driver, s);
    match s.next {
        Next::Resolve { scope, specifier, offset } => lemma_resolve_on_course(g, goal, s, scope, specifier, offset),
        Next::Overrides { scope, specifier, offset, rest } => {
            lemma_holds_marked(g, s.arena, scope, specifier);
            if rest.len() > 0 {
                let last = Waiting::Override { scope, specifier, offset, current: rest[0], rest: rest.skip(1) };
                lemma_pushed(s.stack, last);
                assert(fits_any(g, goal, s.stack));
                assert(fits_error(g, goal, s.stack.push(last)));
                assert forall|m: Meaning| #[trigger] possible(m) implies fits(g, goal, s.stack.push(last), m) by {}
            }
        },
        Next::Own { scope, specifier, offset } => lemma_own_on_course(g, goal, s, scope, specifier, offset),
        Next::Evaluate { scope, specifier, .. } | Next::AwaitDependencies { scope, specifier, .. } => {
            lemma_holds_marked(g, s.arena, scope, specifier);
        },
        Next::Dependencies { scope, specifier, expr, deps, resolved } => {
            lemma_dependencies_on_course(g, goal, s, scope, specifier, expr, deps, resolved);
        },
        Next::AwaitEvaluation => {},
        Next::Import { scope, index, .. } | Next::AwaitImport { scope, index, .. } => {
            if t.arena.len() > 0 {
                lemma_holds_pushed(g, s.arena, t.arena.last());
            }
        },
        Next::Collect { scope, keys, out } => lemma_collect_on_course(g, goal, s, scope, keys, out),
        Next::Answer(answer) => {
            if s.stack.len() > 0 {
                lemma_answer_on_course(g, goal, s, answer);
            }
        },
    }
}

proof fn lemma_dependencies_on_course(
    g: Ground,
    goal: spec_fn(Meaning) -> bool,
    s: State,
    scope: usize,
    specifier: Seq<char>,
    expr: usize,
    deps: Seq<(Seq<char>, usize)>,
    resolved: Seq<(Seq<char>, Meaning)>,
)
    requires
        settled(g),
        on_course(g, goal, s),
        s.next == (Next::Dependencies { scope, specifier, expr, deps, resolved }),
    ensures
        on_course(g, goal, driven(g.driver, s)),
{
    let t = driven(g.driver, s);
    if deps.len() == 0 {
        let a = ended(s.arena, scope, specifier);
        lemma_holds_marked(g, s.arena, scope, specifier);
        assert(evaluates_alike(g, a, scope, expr, resolved));
        assert forall|id: usize| #[trigger] g.scopes.contains(id) implies id < t.arena.len() && holds_scope(
            g,
            id,
            t.arena[id as int],
        ) by {
            assert(holds_scope(g, id, a[id as int]));
        }
        if let Next::Answer(Ok(m)) = t.next {
            assert(possible(m));
            assert(names_in(g, scope, deps, resolved, 1) == Some(resolved));
            assert(complete(g, scope, deps, resolved, resolved));
        }
    } else {
        let last = Waiting::Dependency { scope, specifier, expr, name: deps[0].0, deps: deps.skip(1), resolved };
        lemma_pushed(s.stack, last);
        assert(fits_error(g, goal, s.stack.push(last)));
        assert forall|m: Meaning| #[trigger]
            possible(m) && (!g.scopes.contains(scope) || means(g, scope, deps[0].0, m)) implies fits(
            g,
            goal,
            s.stack.push(last),
            m,
        ) by {
            let more = with_row(resolved, deps[0].0, m);
            assert forall|x: Meaning| #[trigger] possible(x) && (!g.scopes.contains(scope) || evaluates_to(
                g,
                scope,
                expr,
                deps.skip(1),
                more,
                x,
            )) implies fits(g, goal, s.stack, x) by {
                if g.scopes.contains(scope) {
                    let all = choose|all: Seq<(Seq<char>, Meaning)>| #[trigger]
                        complete(g, scope, deps.skip(1), more, all) && (g.driver.evaluate)(g.base, scope, expr, all).1
                            == Ok::<Meaning, Failure>(x);
                    lemma_complete(g, scope, deps, resolved, m, all);
                    assert(evaluates_to(g, scope, expr, deps, resolved, x));
                }
            }
        }
    }
}

proof fn lemma_collect_on_course(
    g: Ground,
    goal: spec_fn(Meaning) -> bool,
    s: State,
    scope: usize,
    keys: Seq<Seq<char>>,
    out: Seq<(Seq<char>, Node)>,
)
    requires
        settled(g),
        on_course(g, goal, s),
        s.next == (Next::Collect { scope, keys, out }),
    ensures
        on_course(g, goal, driven(g.driver, s)),
{
    if keys.len() == 0 {
        assert(possible(Meaning::Value(Node::Table(out))));
        assert(rows_in(g, scope, keys, out, 1) == Some(out));
        assert(collects(g, scope, keys, out, out));
    } else {
        let entry = Waiting::Entry { scope, key: keys[0], keys: keys.skip(1), out };
        let last = Waiting::Value { scope, specifier: keys[0] };
        let outer = s.stack.push(entry);
        lemma_pushed(s.stack, entry);
        lemma_pushed(outer, last);
        assert(fits_error(g, goal, outer));
        assert(fits_error(g, goal, outer.push(last)));
        assert forall|value: Node|
            !g.scopes.contains(scope) || #[trigger] has_value(g, scope, keys[0], value) implies fits(
            g,
            goal,
            outer,
            Meaning::Value(value),
        ) by {
            assert forall|m: Meaning| #[trigger]
                possible(m) && (!g.scopes.contains(scope) || (m matches Meaning::Value(
                Node::Table(rows),
            ) && collects(g, scope, keys.skip(1), with_row(out, keys[0], value), rows))) implies fits(
                g,
                goal,
                s.stack,
                m,
            ) by {
                if g.scopes.contains(scope) {
                    lemma_collects(g, scope, keys, out, value, m->Value_0->Table_0);
                }
            }
        }
        assert forall|m: Meaning| #[trigger]
            possible(m) && (!g.scopes.contains(scope) || means(g, scope, keys[0], m)) implies fits(
            g,
            goal,
            outer.push(last),
            m,
        ) by {
            if !g.scopes.contains(scope) {
                assert forall|x: Meaning| #[trigger] possible(x) implies fits(g, goal, outer, x) by {
                    assert(fits(g, goal, s.stack, x));
                }
                assert(fits(g, goal, outer, m));
            } else {
                match m {
                    Meaning::Value(value) => {
                        assert(value_in(g, m, 1) == Some(value));
                        assert(has_value(g, scope, keys[0], value));
                    },
                    Meaning::Scope(to) => {
                        let n = choose|n: nat| #[trigger] meaning_in(g, scope, keys[0], n) == Some(m);
                        lemma_stays_inside(g, scope, keys[0], n);
                        assert forall|x: Meaning| #[trigger] possible(x) && (x matches Meaning::Value(value) && makes(
                            g,
                            m,
                            value,
                        )) implies fits(g, goal, outer, x) by {
                            assert(has_value(g, scope, keys[0], x->Value_0));
                        }
                    },
                }
            }
        }
    }
}

proof fn lemma_run_on_course(g: Ground, goal: spec_fn(Meaning) -> bool, s: State, n: nat)
    requires
        settled(g),
        on_course(g, goal, s),
    ensures
        on_course(g, goal, run(g.driver, s, n)),
    decreases n,
{
    if n > 0 {
        lemma_on_course(g, goal, s);
        lemma_run_on_course(g, goal, driven(g.driver, s), (n - 1) as nat);
    }
}

/// A settled scope is as it was, whenever it is looked at: nothing that is evaluated
/// changes it, but for names that are being resolved, and for names that were
/// resolved to what they mean.
pub proof fn law_settled_scopes_hold(g: Ground, a: Seq<Inner>, q: Question, f: Seq<Inner>)
    requires
        settled(g),
        holds(g, a),
        passes(g.driver, asked(a, Seq::empty(), q), f),
    ensures
        holds(g, f),
{
    let s = asked(a, Seq::empty(), q);
    let goal = |m: Meaning| true;
    let none = Seq::<Waiting>::empty();
    match q {
        Question::Value { scope, specifier, .. } => lemma_pushed(none, Waiting::Value { scope, specifier }),
        Question::ValueOf { scope, specifier, .. } => lemma_pushed(none, Waiting::Value { scope, specifier }),
        _ => {},
    }
    assert(fits_error(g, goal, none));
    assert forall|m: Meaning| #[trigger] possible(m) implies fits(g, goal, s.stack, m) by {
        assert forall|x: Meaning| #[trigger] possible(x) implies fits(g, goal, none, x) by {
            assert(goal(x));
        }
        assert(fits(g, goal, none, m));
    }
    if let Question::ValueOf { answer: Ok(m), .. } = q {
        assert(possible(m));
    }
    let n = choose|n: nat| (#[trigger] run(g.driver, s, n)).arena == f;
    lemma_run_on_course(g, goal, s, n);
}

/// A name of a settled scope that comes to a value comes to the value that it has,
/// whatever was resolved before, and whatever is being resolved.
pub proof fn law_settled_value(
    g: Ground,
    a: Seq<Inner>,
    scope: usize,
    name: Seq<char>,
    offset: usize,
    b: Seq<Inner>,
    answer: Meaning,
)
    requires
        settled(g),
        holds(g, a),
        g.scopes.contains(scope),
        comes_to(g.driver, a, Question::Value { scope, specifier: name, offset }, b, Ok(answer)),
    ensures
        answer is Value,
        has_value(g, scope, name, answer->Value_0),
{
    let goal = |m: Meaning| m matches Meaning::Value(value) && has_value(g, scope, name, value);
    let none = Seq::<Waiting>::empty();
    let last = Waiting::Value { scope, specifier: name };
    let s = asked(a, none, Question::Value { scope, specifier: name, offset });
    lemma_pushed(none, last);
    assert(fits_error(g, goal, none));
    assert forall|m: Meaning| #[trigger]
        possible(m) && means(g, scope, name, m) implies fits(g, goal, s.stack, m) by {
        match m {
            Meaning::Value(value) => {
                assert(value_in(g, m, 1) == Some(value));
                assert(has_value(g, scope, name, value));
                assert(goal(m));
                assert(fits(g, goal, none, m));
            },
            Meaning::Scope(to) => {
                let n = choose|n: nat| #[trigger] meaning_in(g, scope, name, n) == Some(m);
                lemma_stays_inside(g, scope, name, n);
                assert forall|x: Meaning| #[trigger] possible(x) && (x matches Meaning::Value(value) && makes(
                    g,
                    m,
                    value,
                )) implies fits(g, goal, none, x) by {
                    assert(has_value(g, scope, name, x->Value_0));
                    assert(goal(x));
                }
            },
        }
    }
    let n = choose|n: nat| #[trigger] run(g.driver, s, n) == answered(b, none, Ok(answer));
    lemma_run_on_course(g, goal, s, n);
    assert(goal(answer));
}

/// What a name of a settled scope is resolved to is what it means, whatever was
/// resolved before, and whatever is being resolved.
pub proof fn law_settled_meaning(
    g: Ground,
    a: Seq<Inner>,
    scope: usize,
    name: Seq<char>,
    offset: usize,
    b: Seq<Inner>,
    answer: Meaning,
)
    requires
        settled(g),
        holds(g, a),
        g.scopes.contains(scope),
        comes_to(g.driver, a, Question::Meaning { scope, specifier: name, offset }, b, Ok(answer)),
    ensures
        means(g, scope, name, answer),
{
    let goal = |m: Meaning| means(g, scope, name, m);
    let none = Seq::<Waiting>::empty();
    let s = asked(a, none, Question::Meaning { scope, specifier: name, offset });
    assert(fits_error(g, goal, none));
    assert forall|m: Meaning| #[trigger] possible(m) && means(g, scope, name, m) implies fits(g, goal, none, m) by {
        assert(goal(m));
    }
    let n = choose|n: nat| #[trigger] run(g.driver, s, n) == answered(b, none, Ok(answer));
    lemma_run_on_course(g, goal, s, n);
    assert(goal(answer));
}

/// The value of a name of a settled scope does not depend on when it is asked for.
pub proof fn law_settled_is_steady(
    g: Ground,
    a: Seq<Inner>,
    one: Question,
    b: Seq<Inner>,
    other: Question,
    scope: usize,
    name: Seq<char>,
)
    requires
        settled(g),
        holds(g, a),
        holds(g, b),
        g.scopes.contains(scope),
    ensures
        steady(g.driver, asked(a, Seq::empty(), one), asked(b, Seq::empty(), other), scope, name),
{
    let w = g.driver;
    let s = asked(a, Seq::empty(), one);
    let t = asked(b, Seq::empty(), other);
    assert forall|
        c: Seq<Inner>,
        i: usize,
        d: Seq<Inner>,
        x: Result<Meaning, Failure>,
        e: Seq<Inner>,
        j: usize,
        f: Seq<Inner>,
        y: Result<Meaning, Failure>,
    |
        {
            &&& passes(w, s, c) || passes(w, t, c)
            &&& passes(w, s, e) || passes(w, t, e)
            &&& #[trigger] comes_to(w, c, Question::Value { scope, specifier: name, offset: i }, d, x)
            &&& #[trigger] comes_to(w, e, Question::Value { scope, specifier: name, offset: j }, f, y)
            &&& x is Ok
            &&& y is Ok
        } implies x == y by {
        if passes(w, s, c) {
            law_settled_scopes_hold(g, a, one, c);
        } else {
            law_settled_scopes_hold(g, b, other, c);
        }
        if passes(w, s, e) {
            law_settled_scopes_hold(g, a, one, e);
        } else {
            law_settled_scopes_hold(g, b, other, e);
        }
        law_settled_value(g, c, scope, name, i, d, x->Ok_0);
        law_settled_value(g, e, scope, name, j, f, y->Ok_0);
        law_one_value(g, scope, name, x->Ok_0->Value_0, y->Ok_0->Value_0);
    }
}

/// Settled scopes are as they are.
pub proof fn law_base_holds(g: Ground)
    requires
        settled(g),
    ensures
        holds(g, g.base),
{
    assert forall|id: usize| #[trigger] g.scopes.contains(id) implies id < g.base.len() && holds_scope(
        g,
        id,
        g.base[id as int],
    ) by {
        let inner = g.base[id as int];
        assert(self_contained(g, id));
        assert forall|name: Seq<char>| cut(name, '.') is None implies match #[trigger] found(inner.resolved, name) {
            Some(meaning) => means(g, id, name, meaning),
            None => found(inner_of(g.base, id).resolved, name) is None,
        } by {
            if let Some(meaning) = found(inner.resolved, name) {
                assert(meaning_in(g, id, name, 1) == Some(meaning));
            }
        }
    }
}

/// The only scope of a module that binds no names inside of others is
/// self-contained.
pub proof fn lemma_module_alone(w: Driver, m: Module, content: Seq<char>)
    requires
        m.imports.deep_view().len() == 0,
        m.value is None,
        forall|i: int|
            0 <= i < m.bindings.deep_view().len() ==> (#[trigger] m.bindings.deep_view()[i]).names.len() <= 1,
    ensures
        self_contained(Ground { driver: w, base: module_arena(m, content), scopes: set![0usize] }, 0),
        inner_of(module_arena(m, content), 0).in_progress.len() == 0,
{
    let bindings = m.bindings.deep_view();
    lemma_single_names(empty_inner(content, m.start, m.end), 0, bindings, bindings.len() as int);
}

proof fn lemma_single_names(inner: Inner, id: usize, bindings: Seq<Bound>, n: int)
    requires
        0 <= n <= bindings.len(),
        forall|i: int| 0 <= i < bindings.len() ==> (#[trigger] bindings[i]).names.len() <= 1,
    ensures
        with_bindings(inner, id, bindings, n) == (Inner {
            unresolved: with_bindings(inner, id, bindings, n).unresolved,
            ..inner
        }),
    decreases n,
{
    if n > 0 {
        lemma_single_names(inner, id, bindings, n - 1);
        assert(bindings[n - 1].names.len() <= 1);
    }
}

} // verus!
