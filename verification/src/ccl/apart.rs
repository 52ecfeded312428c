//! Scopes apart: what changing one scope leaves of the others.

use vstd::prelude::*;

use crate::ccl::scope::{
    below, has_key, inner_of, keys_of, lists_keys, override_links, with_inner,
    with_override, Inner,
};
use crate::reach::{depends, leads, lemma_waits_direct, lemma_waits_further, waits_for};
use crate::table::{ascending, found, law_ordered, lemma_ascending_unique, lemma_found_name, names, ordered};

verus! {

/// Whether only scopes of the arena override its scopes.
pub open spec fn overrides_inside(arena: Seq<Inner>) -> bool {
    forall|i: int, j: int|
        0 <= i < arena.len() && 0 <= j < arena[i].overrides.len() ==> (#[trigger] arena[i].overrides[j]) < arena.len()
}

proof fn lemma_below_all(list: Seq<usize>, bound: nat)
    requires
        forall|j: int| 0 <= j < list.len() ==> (#[trigger] list[j]) < bound,
    ensures
        below(list, bound) == list,
    decreases list.len(),
{
    if list.len() > 0 {
        assert forall|j: int| 0 <= j < list.drop_last().len() implies (#[trigger] list.drop_last()[j]) < bound by {
            assert(list[j] < bound);
        }
        lemma_below_all(list.drop_last(), bound);
        assert(list[list.len() - 1] < bound);
        assert(list.drop_last().push(list.last()) =~= list);
    } else {
        assert(below(list, bound) =~= list);
    }
}

/// The names that the first `n` scopes bind that lead to overrides of the scope
/// `id`.
spec fn names_over(arena: Seq<Inner>, id: usize, n: int) -> Seq<Seq<char>>
    decreases n,
{
    if n <= 0 {
        Seq::empty()
    } else if depends(override_links(arena), id as int, n - 1) {
        names_over(arena, id, n - 1) + names(arena[n - 1].unresolved)
    } else {
        names_over(arena, id, n - 1)
    }
}

proof fn lemma_contains_both(a: Seq<Seq<char>>, b: Seq<Seq<char>>, x: Seq<char>)
    ensures
        (a + b).contains(x) <==> a.contains(x) || b.contains(x),
{
    if a.contains(x) {
        let k = choose|k: int| 0 <= k < a.len() && a[k] == x;
        assert((a + b)[k] == x);
    }
    if b.contains(x) {
        let k = choose|k: int| 0 <= k < b.len() && b[k] == x;
        assert((a + b)[a.len() + k] == x);
    }
    if (a + b).contains(x) {
        let k = choose|k: int| 0 <= k < (a + b).len() && (a + b)[k] == x;
        if k < a.len() {
            assert(a[k] == x);
        } else {
            assert(b[k - a.len()] == x);
        }
    }
}

proof fn lemma_names_over(arena: Seq<Inner>, id: usize, n: int, name: Seq<char>)
    requires
        0 <= n <= arena.len(),
    ensures
        names_over(arena, id, n).contains(name) <==> exists|t: int|
            0 <= t < n && #[trigger] depends(override_links(arena), id as int, t) && found(arena[t].unresolved, name) is Some,
    decreases n,
{
    if n > 0 {
        lemma_names_over(arena, id, n - 1, name);
        lemma_found_name(arena[n - 1].unresolved, name);
        lemma_contains_both(names_over(arena, id, n - 1), names(arena[n - 1].unresolved), name);
        if names_over(arena, id, n).contains(name) {
            if names_over(arena, id, n - 1).contains(name) {
                let t = choose|t: int|
                    0 <= t < n - 1 && #[trigger] depends(override_links(arena), id as int, t) && found(
                        arena[t].unresolved,
                        name,
                    ) is Some;
                assert(depends(override_links(arena), id as int, t));
            } else {
                assert(depends(override_links(arena), id as int, n - 1));
            }
        }
    }
}

/// The keys of a scope are the names that it and those that override it bind, in
/// order and each once.
pub proof fn law_keys(arena: Seq<Inner>, id: usize)
    ensures
        lists_keys(arena, id, keys_of(arena, id)),
{
    let own = names(inner_of(arena, id).unresolved);
    let over = names_over(arena, id, arena.len() as int);
    let list = ordered(own + over);
    law_ordered(own + over);
    assert forall|name: Seq<char>| #[trigger] list.contains(name) <==> has_key(arena, id, name) by {
        lemma_contains_both(own, over, name);
        lemma_found_name(inner_of(arena, id).unresolved, name);
        lemma_names_over(arena, id, arena.len() as int, name);
    }
    assert(lists_keys(arena, id, list));
}

/// Scopes with the same keys have the same list of them.
proof fn lemma_same_keys(a: Seq<Inner>, i: usize, b: Seq<Inner>, j: usize)
    requires
        forall|name: Seq<char>| has_key(a, i, name) <==> has_key(b, j, name),
    ensures
        keys_of(a, i) == keys_of(b, j),
{
    law_keys(a, i);
    law_keys(b, j);
    assert forall|y: Seq<char>| keys_of(a, i).contains(y) <==> keys_of(b, j).contains(y) by {
        assert(keys_of(a, i).contains(y) <==> has_key(a, i, y));
        assert(keys_of(b, j).contains(y) <==> has_key(b, j, y));
    }
    lemma_ascending_unique(keys_of(a, i), keys_of(b, j));
}

/// The first part of a path leads where it ends.
proof fn lemma_part(links: Seq<Seq<usize>>, from: int, path: Seq<int>, k: int)
    requires
        leads(links, from, path),
        0 < k < path.len(),
    ensures
        depends(links, from, path[k]),
{
    let part = path.take(k + 1);
    assert forall|i: int| 0 <= i < part.len() - 1 implies waits_for(links, #[trigger] part[i], part[i + 1]) by {
        assert(part[i] == path[i] && part[i + 1] == path[i + 1]);
    }
    assert(leads(links, from, part));
    assert(part.last() == path[k]);
}

/// A path along links that are the same but for those of `changed`, to which none
/// leads, is the same path.
proof fn lemma_path_apart(a: Seq<Seq<usize>>, b: Seq<Seq<usize>>, changed: int, from: int, path: Seq<int>, k: int)
    requires
        a.len() == b.len(),
        forall|i: int| 0 <= i < a.len() && i != changed ==> #[trigger] a[i] == b[i],
        from != changed,
        !depends(a, from, changed),
        leads(b, from, path),
        0 < k < path.len(),
    ensures
        leads(a, from, path.take(k + 1)),
    decreases k,
{
    let part = path.take(k + 1);
    if k > 1 {
        lemma_path_apart(a, b, changed, from, path, k - 1);
        let before = path.take(k);
        assert(before.last() == path[k - 1]);
        assert(depends(a, from, path[k - 1]));
    }
    assert(path[k - 1] != changed);
    assert(waits_for(b, path[k - 1], path[k]));
    assert forall|i: int| 0 <= i < part.len() - 1 implies waits_for(a, #[trigger] part[i], part[i + 1]) by {
        if i < k - 1 {
            assert(path.take(k)[i] == part[i] && path.take(k)[i + 1] == part[i + 1]);
            assert(waits_for(a, path.take(k)[i], path.take(k)[i + 1]));
        } else {
            assert(a[path[k - 1]] == b[path[k - 1]]);
        }
    }
    assert forall|i: int| 0 <= i < part.len() implies 0 <= #[trigger] part[i] < a.len() by {
        assert(path[i] < b.len());
    }
}

proof fn lemma_depends_apart(a: Seq<Seq<usize>>, b: Seq<Seq<usize>>, changed: int, from: int, t: int)
    requires
        a.len() == b.len(),
        forall|i: int| 0 <= i < a.len() && i != changed ==> #[trigger] a[i] == b[i],
        from != changed,
        !depends(a, from, changed),
    ensures
        depends(a, from, t) <==> depends(b, from, t),
{
    if depends(a, from, t) {
        let path = choose|path: Seq<int>| #[trigger] leads(a, from, path) && path.last() == t;
        assert forall|k: int| 0 <= k < path.len() - 1 implies waits_for(b, #[trigger] path[k], path[k + 1]) by {
            if k > 0 {
                lemma_part(a, from, path, k);
            }
            assert(a[path[k]] == b[path[k]]);
            assert(waits_for(a, path[k], path[k + 1]));
        }
        assert(leads(b, from, path));
    }
    if depends(b, from, t) {
        let path = choose|path: Seq<int>| #[trigger] leads(b, from, path) && path.last() == t;
        lemma_path_apart(a, b, changed, from, path, path.len() - 1);
        assert(path.take(path.len() as int) =~= path);
    }
}

/// Changing one scope leaves the names, the overrides, the parent and the keys of
/// every other scope as they were, unless the other one is overridden by it.
pub proof fn law_others_stay(arena: Seq<Inner>, changed: usize, new: Inner, other: usize)
    requires
        changed < arena.len(),
        other < arena.len(),
        other != changed,
        !depends(override_links(arena), other as int, changed as int),
    ensures
        inner_of(with_inner(arena, changed, new), other) == inner_of(arena, other),
        keys_of(with_inner(arena, changed, new), other) == keys_of(arena, other),
{
    let after = with_inner(arena, changed, new);
    let a = override_links(arena);
    let b = override_links(after);
    assert forall|i: int| 0 <= i < a.len() && i != changed implies #[trigger] a[i] == b[i] by {
        assert(after[i] == arena[i]);
    }
    assert forall|name: Seq<char>| has_key(arena, other, name) <==> has_key(after, other, name) by {
        if has_key(arena, other, name) && found(inner_of(arena, other).unresolved, name) is None {
            let t = choose|t: int|
                0 <= t < arena.len() && #[trigger] depends(a, other as int, t) && found(arena[t].unresolved, name) is Some;
            lemma_depends_apart(a, b, changed as int, other as int, t);
            assert(after[t] == arena[t]);
        }
        if has_key(after, other, name) && found(inner_of(after, other).unresolved, name) is None {
            let t = choose|t: int|
                0 <= t < after.len() && #[trigger] depends(b, other as int, t) && found(after[t].unresolved, name) is Some;
            lemma_depends_apart(a, b, changed as int, other as int, t);
            assert(after[t] == arena[t]);
        }
    }
    lemma_same_keys(arena, other, after, other);
}

/// What overrides the scopes of an arena with a copy of the scope `id`.
proof fn lemma_copied_links(arena: Seq<Inner>, id: usize)
    requires
        id < arena.len(),
        overrides_inside(arena),
    ensures
        override_links(arena.push(arena[id as int])) == override_links(arena).push(override_links(arena)[id as int]),
        forall|i: int, j: int|
            0 <= i < arena.len() && 0 <= j < override_links(arena)[i].len() ==> (#[trigger] override_links(arena)[i][j])
                < arena.len(),
{
    let copied = arena.push(arena[id as int]);
    let a = override_links(arena);
    let b = override_links(copied);
    assert forall|i: int| 0 <= i < copied.len() implies #[trigger] b[i] == a.push(a[id as int])[i] by {
        let list = copied[i].overrides;
        let from = if i < arena.len() {
            i
        } else {
            id as int
        };
        assert(copied[i] == arena[from]);
        assert forall|j: int| 0 <= j < list.len() implies (#[trigger] list[j]) < arena.len() by {
            assert(arena[from].overrides[j] < arena.len());
        }
        lemma_below_all(list, arena.len());
        lemma_below_all(list, copied.len());
    }
    assert(b =~= a.push(a[id as int]));
    assert forall|i: int, j: int| 0 <= i < arena.len() && 0 <= j < a[i].len() implies (#[trigger] a[i][j])
        < arena.len() by {
        assert forall|k: int| 0 <= k < arena[i].overrides.len() implies (#[trigger] arena[i].overrides[k]) < arena.len() by {}
        lemma_below_all(arena[i].overrides, arena.len());
        assert(arena[i].overrides[j] < arena.len());
    }
}

/// A path in links with one more that none leads to stays among the others.
proof fn lemma_stays(a: Seq<Seq<usize>>, x: Seq<usize>, from: int, path: Seq<int>, k: int)
    requires
        forall|i: int, j: int| 0 <= i < a.len() && 0 <= j < a[i].len() ==> (#[trigger] a[i][j]) < a.len(),
        forall|j: int| 0 <= j < x.len() ==> (#[trigger] x[j]) < a.len(),
        leads(a.push(x), from, path),
        0 < k < path.len(),
    ensures
        0 <= path[k] < a.len(),
{
    let b = a.push(x);
    assert(waits_for(b, path[k - 1], path[k]));
    let j = choose|j: int| 0 <= j < b[path[k - 1]].len() && #[trigger] b[path[k - 1]][j] == path[k];
    if path[k - 1] < a.len() {
        assert(a[path[k - 1]][j] < a.len());
    } else {
        assert(x[j] < a.len());
    }
}

/// What is led to from a copy, and from what it is a copy of.
proof fn lemma_depends_copy(a: Seq<Seq<usize>>, id: int, t: int)
    requires
        0 <= id < a.len(),
        forall|i: int, j: int| 0 <= i < a.len() && 0 <= j < a[i].len() ==> (#[trigger] a[i][j]) < a.len(),
    ensures
        depends(a.push(a[id]), a.len() as int, t) <==> depends(a, id, t),
        depends(a.push(a[id]), id, t) <==> depends(a, id, t),
{
    let x = a[id];
    let b = a.push(x);
    let d = a.len() as int;
    assert forall|j: int| 0 <= j < x.len() implies (#[trigger] x[j]) < a.len() by {
        assert(a[id][j] < a.len());
    }
    if depends(a, id, t) {
        let path = choose|path: Seq<int>| #[trigger] leads(a, id, path) && path.last() == t;
        assert forall|k: int| 0 <= k < path.len() - 1 implies waits_for(b, #[trigger] path[k], path[k + 1]) by {
            assert(waits_for(a, path[k], path[k + 1]));
            assert(b[path[k]] == a[path[k]]);
        }
        assert(leads(b, id, path));
        let other = path.update(0, d);
        assert forall|k: int| 0 <= k < other.len() - 1 implies waits_for(b, #[trigger] other[k], other[k + 1]) by {
            assert(waits_for(b, path[k], path[k + 1]));
            assert(other[k + 1] == path[k + 1]);
            if k == 0 {
                assert(b[d] == b[id]);
            }
        }
        assert forall|k: int| 0 <= k < other.len() implies 0 <= #[trigger] other[k] < b.len() by {
            if k > 0 {
                assert(path[k] < b.len());
            }
        }
        assert(leads(b, d, other));
        assert(other.last() == t);
    }
    if depends(b, d, t) {
        let path = choose|path: Seq<int>| #[trigger] leads(b, d, path) && path.last() == t;
        let other = path.update(0, id);
        assert forall|k: int| 0 < k < path.len() implies 0 <= #[trigger] path[k] < a.len() by {
            lemma_stays(a, x, d, path, k);
        }
        assert forall|k: int| 0 <= k < other.len() - 1 implies waits_for(a, #[trigger] other[k], other[k + 1]) by {
            assert(waits_for(b, path[k], path[k + 1]));
            assert(other[k + 1] == path[k + 1]);
            if k == 0 {
                assert(b[d] == a[id]);
            } else {
                assert(0 <= path[k] < a.len());
                assert(b[path[k]] == a[path[k]]);
            }
        }
        assert forall|k: int| 0 <= k < other.len() implies 0 <= #[trigger] other[k] < a.len() by {
            if k > 0 {
                assert(0 <= path[k] < a.len());
            }
        }
        assert(leads(a, id, other));
        assert(other.last() == t);
    }
    if depends(b, id, t) {
        let path = choose|path: Seq<int>| #[trigger] leads(b, id, path) && path.last() == t;
        assert forall|k: int| 0 <= k < path.len() implies 0 <= #[trigger] path[k] < a.len() by {
            if k > 0 {
                lemma_stays(a, x, id, path, k);
            }
        }
        assert forall|k: int| 0 <= k < path.len() - 1 implies waits_for(a, #[trigger] path[k], path[k + 1]) by {
            assert(waits_for(b, path[k], path[k + 1]));
            assert(b[path[k]] == a[path[k]]);
        }
        assert(leads(a, id, path));
    }
}

/// A copy of a scope has what the scope has, and the same keys; and none of the
/// two is overridden by the other, where the scope is not overridden by itself.
pub proof fn law_duplicate(arena: Seq<Inner>, id: usize)
    requires
        id < arena.len() < usize::MAX,
        overrides_inside(arena),
        !depends(override_links(arena), id as int, id as int),
    ensures
        inner_of(arena.push(arena[id as int]), arena.len() as usize) == inner_of(arena, id),
        inner_of(arena.push(arena[id as int]), id) == inner_of(arena, id),
        keys_of(arena.push(arena[id as int]), arena.len() as usize) == keys_of(arena, id),
        keys_of(arena.push(arena[id as int]), id) == keys_of(arena, id),
        overrides_inside(arena.push(arena[id as int])),
        !depends(override_links(arena.push(arena[id as int])), id as int, arena.len() as int),
        !depends(override_links(arena.push(arena[id as int])), arena.len() as int, id as int),
{
    let copied = arena.push(arena[id as int]);
    let d = arena.len() as usize;
    let a = override_links(arena);
    let b = override_links(copied);
    lemma_copied_links(arena, id);
    assert forall|i: int, j: int|
        0 <= i < copied.len() && 0 <= j < copied[i].overrides.len() implies (#[trigger] copied[i].overrides[j])
        < copied.len() by {
        let from = if i < arena.len() {
            i
        } else {
            id as int
        };
        assert(arena[from].overrides[j] < arena.len());
    }
    assert forall|name: Seq<char>|
        (has_key(copied, d, name) <==> has_key(arena, id, name)) && (has_key(copied, id, name) <==> has_key(
            arena,
            id,
            name,
        )) by {
        if has_key(arena, id, name) && found(inner_of(arena, id).unresolved, name) is None {
            let t = choose|t: int|
                0 <= t < arena.len() && #[trigger] depends(a, id as int, t) && found(arena[t].unresolved, name) is Some;
            lemma_depends_copy(a, id as int, t);
            assert(copied[t] == arena[t]);
            assert(depends(b, id as int, t) && depends(b, d as int, t));
        }
        if has_key(copied, d, name) && found(inner_of(copied, d).unresolved, name) is None {
            let t = choose|t: int|
                0 <= t < copied.len() && #[trigger] depends(b, d as int, t) && found(copied[t].unresolved, name) is Some;
            lemma_depends_copy(a, id as int, t);
            lemma_inside_links(a, id as int, t);
            assert(copied[t] == arena[t]);
        }
        if has_key(copied, id, name) && found(inner_of(copied, id).unresolved, name) is None {
            let t = choose|t: int|
                0 <= t < copied.len() && #[trigger] depends(b, id as int, t) && found(copied[t].unresolved, name) is Some;
            lemma_depends_copy(a, id as int, t);
            lemma_inside_links(a, id as int, t);
            assert(copied[t] == arena[t]);
        }
    }
    lemma_same_keys(copied, d, arena, id);
    lemma_same_keys(copied, id, arena, id);
    lemma_depends_copy(a, id as int, d as int);
    lemma_depends_copy(a, id as int, id as int);
    if depends(a, id as int, d as int) {
        lemma_inside_links(a, id as int, d as int);
    }
}

proof fn lemma_inside_links(a: Seq<Seq<usize>>, id: int, t: int)
    requires
        depends(a, id, t),
    ensures
        0 <= t < a.len(),
{
    let path = choose|path: Seq<int>| #[trigger] leads(a, id, path) && path.last() == t;
    assert(0 <= path[path.len() - 1] < a.len());
}

/// Whatever is changed of a copy leaves the scope that it is a copy of as it was,
/// with its keys, and the other way round: `new` is what the copy, or the scope,
/// is changed to.
pub proof fn law_duplicate_apart(arena: Seq<Inner>, id: usize, new: Inner)
    requires
        id < arena.len() < usize::MAX,
        overrides_inside(arena),
        !depends(override_links(arena), id as int, id as int),
    ensures
        inner_of(with_inner(arena.push(arena[id as int]), arena.len() as usize, new), id) == inner_of(arena, id),
        keys_of(with_inner(arena.push(arena[id as int]), arena.len() as usize, new), id) == keys_of(arena, id),
        inner_of(with_inner(arena.push(arena[id as int]), id, new), arena.len() as usize) == inner_of(arena, id),
        keys_of(with_inner(arena.push(arena[id as int]), id, new), arena.len() as usize) == keys_of(arena, id),
{
    let copied = arena.push(arena[id as int]);
    law_duplicate(arena, id);
    law_others_stay(copied, arena.len() as usize, new, id);
    law_others_stay(copied, id, new, arena.len() as usize);
}

proof fn lemma_new_link(a: Seq<Seq<usize>>, b: Seq<Seq<usize>>, id: int, over: int, from: int, path: Seq<int>, k: int)
    requires
        a.len() == b.len(),
        0 <= id < a.len(),
        0 <= over < a.len(),
        over <= usize::MAX,
        forall|i: int| 0 <= i < a.len() && i != id ==> #[trigger] a[i] == b[i],
        b[id] == a[id].push(over as usize),
        leads(b, from, path),
        0 < k < path.len(),
    ensures
        depends(a, from, path[k]) || path[k] == over || depends(a, over, path[k]),
    decreases k,
{
    let u = path[k - 1];
    let t = path[k];
    assert(0 <= u < b.len() && 0 <= t < b.len());
    assert(waits_for(b, u, t));
    let j = choose|j: int| 0 <= j < b[u].len() && #[trigger] b[u][j] == t;
    if u == id && j == a[id].len() {
        assert(t == over);
    } else {
        assert(a[u][j] == t) by {
            if u != id {
                assert(a[u] == b[u]);
            }
        }
        assert(waits_for(a, u, t));
        if k == 1 {
            lemma_waits_direct(a, from, t);
        } else {
            lemma_new_link(a, b, id, over, from, path, k - 1);
            if depends(a, from, u) {
                lemma_waits_further(a, from, u, t);
            } else if u == over {
                lemma_waits_direct(a, over, t);
            } else {
                lemma_waits_further(a, over, u, t);
            }
        }
    }
}

proof fn lemma_old_links(a: Seq<Seq<usize>>, b: Seq<Seq<usize>>, id: int, over: int, from: int, t: int)
    requires
        a.len() == b.len(),
        0 <= id < a.len(),
        0 <= over < a.len(),
        over <= usize::MAX,
        forall|i: int| 0 <= i < a.len() && i != id ==> #[trigger] a[i] == b[i],
        b[id] == a[id].push(over as usize),
        depends(a, from, t),
    ensures
        depends(b, from, t),
{
    let path = choose|path: Seq<int>| #[trigger] leads(a, from, path) && path.last() == t;
    assert forall|k: int| 0 <= k < path.len() - 1 implies waits_for(b, #[trigger] path[k], path[k + 1]) by {
        assert(waits_for(a, path[k], path[k + 1]));
        let j = choose|j: int| 0 <= j < a[path[k]].len() && #[trigger] a[path[k]][j] == path[k + 1];
        if path[k] != id {
            assert(a[path[k]] == b[path[k]]);
        }
        assert(b[path[k]][j] == path[k + 1]);
    }
    assert(leads(b, from, path));
}

proof fn lemma_over_links(b: Seq<Seq<usize>>, id: int, over: int, t: int)
    requires
        0 <= id < b.len(),
        0 <= over < b.len(),
        waits_for(b, id, over),
        depends(b, over, t),
    ensures
        depends(b, id, t),
{
    let path = choose|path: Seq<int>| #[trigger] leads(b, over, path) && path.last() == t;
    let longer = seq![id] + path;
    assert forall|k: int| 0 <= k < longer.len() - 1 implies waits_for(b, #[trigger] longer[k], longer[k + 1]) by {
        if k > 0 {
            assert(longer[k] == path[k - 1] && longer[k + 1] == path[k]);
            assert(waits_for(b, path[k - 1], path[k]));
        } else {
            assert(longer[1] == path[0]);
        }
    }
    assert forall|k: int| 0 <= k < longer.len() implies 0 <= #[trigger] longer[k] < b.len() by {
        if k > 0 {
            assert(longer[k] == path[k - 1]);
        }
    }
    assert(leads(b, id, longer));
    assert(longer.last() == t);
}

/// After a scope was overridden by another, the other is the last of those that
/// override it, those before keep their order, and its keys are those of both.
pub proof fn law_override_keys(arena: Seq<Inner>, id: usize, over: usize, name: Seq<char>)
    requires
        id < arena.len(),
        over < arena.len(),
    ensures
        inner_of(with_override(arena, id, over), id).overrides == inner_of(arena, id).overrides.push(over),
        keys_of(with_override(arena, id, over), id).contains(name) <==> keys_of(arena, id).contains(name) || keys_of(
            arena,
            over,
        ).contains(name),
        ascending(keys_of(with_override(arena, id, over), id)),
{
    let after = with_override(arena, id, over);
    let a = override_links(arena);
    let b = override_links(after);
    assert forall|i: int| 0 <= i < a.len() && i != id implies #[trigger] a[i] == b[i] by {
        assert(after[i] == arena[i]);
    }
    assert(b[id as int] == a[id as int].push(over)) by {
        let list = arena[id as int].overrides.push(over);
        assert(list.drop_last() =~= arena[id as int].overrides);
        assert(after[id as int].overrides == list);
    }
    law_keys(arena, id);
    law_keys(arena, over);
    law_keys(after, id);
    assert(waits_for(b, id as int, over as int)) by {
        assert(b[id as int][a[id as int].len() as int] == over);
    }
    assert(has_key(after, id, name) <==> has_key(arena, id, name) || has_key(arena, over, name)) by {
        if has_key(after, id, name) && found(inner_of(after, id).unresolved, name) is None {
            let t = choose|t: int|
                0 <= t < after.len() && #[trigger] depends(b, id as int, t) && found(after[t].unresolved, name) is Some;
            let path = choose|path: Seq<int>| #[trigger] leads(b, id as int, path) && path.last() == t;
            lemma_new_link(a, b, id as int, over as int, id as int, path, path.len() - 1);
            assert(after[t].unresolved == arena[t].unresolved);
        }
        if has_key(arena, id, name) && found(inner_of(arena, id).unresolved, name) is None {
            let t = choose|t: int|
                0 <= t < arena.len() && #[trigger] depends(a, id as int, t) && found(arena[t].unresolved, name) is Some;
            lemma_old_links(a, b, id as int, over as int, id as int, t);
            assert(after[t].unresolved == arena[t].unresolved);
        }
        if has_key(arena, over, name) {
            if found(inner_of(arena, over).unresolved, name) is Some {
                lemma_waits_direct(b, id as int, over as int);
                assert(after[over as int].unresolved == arena[over as int].unresolved);
            } else {
                let t = choose|t: int|
                    0 <= t < arena.len() && #[trigger] depends(a, over as int, t) && found(
                        arena[t].unresolved,
                        name,
                    ) is Some;
                lemma_old_links(a, b, id as int, over as int, over as int, t);
                lemma_over_links(b, id as int, over as int, t);
                assert(after[t].unresolved == arena[t].unresolved);
            }
        }
    }
}

} // verus!
