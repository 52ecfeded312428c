//! What can be reached over links between numbered things.

use vstd::prelude::*;

use crate::text::Duplicate;

verus! {

/// Whether every link leads to something that there is.
pub open spec fn closed_links(links: Seq<Seq<usize>>) -> bool {
    forall|i: int, j: int| 0 <= i < links.len() && 0 <= j < links[i].len() ==> (#[trigger] links[i][j]) < links.len()
}

/// Whether `path` leads from `from` along the links, over one of them at least.
pub open spec fn leads(links: Seq<Seq<usize>>, from: int, path: Seq<int>) -> bool {
    &&& path.len() > 1
    &&& path[0] == from
    &&& forall|k: int| 0 <= k < path.len() ==> 0 <= #[trigger] path[k] < links.len()
    &&& forall|k: int|
        0 <= k < path.len() - 1 ==> waits_for(links, #[trigger] path[k], path[k + 1])
}

/// Whether there is a link from `id` to `other`.
pub open spec fn waits_for(links: Seq<Seq<usize>>, id: int, other: int) -> bool {
    exists|j: int| 0 <= j < links[id].len() && #[trigger] links[id][j] == other
}

/// Whether links lead from `id` to `other`, over one of them at least.
pub open spec fn depends(links: Seq<Seq<usize>>, id: int, other: int) -> bool {
    exists|path: Seq<int>| #[trigger] leads(links, id, path) && path.last() == other
}

/// How many of `marks` are not set.
spec fn unset(marks: Seq<bool>) -> nat
    decreases marks.len(),
{
    if marks.len() == 0 {
        0
    } else {
        unset(marks.drop_last()) + (if marks.last() {
            0nat
        } else {
            1
        })
    }
}

proof fn lemma_unset(marks: Seq<bool>, i: int)
    requires
        0 <= i < marks.len(),
        !marks[i],
    ensures
        unset(marks.update(i, true)) < unset(marks),
    decreases marks.len(),
{
    let after = marks.update(i, true);
    if i == marks.len() - 1 {
        assert(after.drop_last() =~= marks.drop_last());
    } else {
        assert(after.drop_last() =~= marks.drop_last().update(i, true));
        lemma_unset(marks.drop_last(), i);
    }
}

/// What is linked is led to.
pub proof fn lemma_waits_direct(links: Seq<Seq<usize>>, id: int, t: int)
    requires
        0 <= id < links.len(),
        0 <= t < links.len(),
        waits_for(links, id, t),
    ensures
        depends(links, id, t),
{
    let path = seq![id, t];
    assert(leads(links, id, path));
    assert(path.last() == t);
}

/// What is linked to something that is led to is led to itself.
pub proof fn lemma_waits_further(links: Seq<Seq<usize>>, id: int, s: int, t: int)
    requires
        0 <= t < links.len(),
        depends(links, id, s),
        waits_for(links, s, t),
    ensures
        depends(links, id, t),
{
    let path = choose|path: Seq<int>| #[trigger] leads(links, id, path) && path.last() == s;
    let longer = path.push(t);
    assert forall|k: int| 0 <= k < longer.len() - 1 implies waits_for(links, #[trigger] longer[k], longer[k + 1]) by {
        if k < path.len() - 1 {
            assert(waits_for(links, path[k], path[k + 1]));
        }
    }
    assert(leads(links, id, longer));
    assert(longer.last() == t);
}

proof fn lemma_path_marked(links: Seq<Seq<usize>>, id: int, marks: Seq<bool>, path: Seq<int>, k: int)
    requires
        leads(links, id, path),
        marks.len() == links.len(),
        0 < k < path.len(),
        forall|t: int| 0 <= t < links.len() && #[trigger] waits_for(links, id, t) ==> marks[t],
        forall|s: int, t: int|
            0 <= s < links.len() && 0 <= t < links.len() && marks[s] && #[trigger] waits_for(links, s, t) ==> marks[t],
    ensures
        marks[path[k]],
    decreases k,
{
    assert(waits_for(links, path[k - 1], path[k - 1 + 1]));
    if k > 1 {
        lemma_path_marked(links, id, marks, path, k - 1);
    }
}

/// What links lead to from `id`.
#[verifier::rlimit(40)]
pub fn reachable(links: &Vec<Vec<usize>>, id: usize) -> (r: Vec<bool>)
    requires
        closed_links(links.deep_view()),
        id < links@.len(),
    ensures
        r@.len() == links@.len(),
        forall|t: int| 0 <= t < r@.len() ==> (#[trigger] r@[t] <==> depends(links.deep_view(), id as int, t)),
{
    let ghost all = links.deep_view();
    let mut marks: Vec<bool> = Vec::new();
    let mut n: usize = 0;
    while n < links.len()
        invariant
            n <= links.len(),
            marks@.len() == n,
            forall|t: int| 0 <= t < n ==> !#[trigger] marks@[t],
        decreases links.len() - n,
    {
        marks.push(false);
        n = n + 1;
    }
    let mut stack: Vec<usize> = links[id].duplicate();
    proof {
        assert(stack@ =~= all[id as int]);
        assert forall|k: int| 0 <= k < stack@.len() implies (#[trigger] stack@[k]) < all.len() && depends(
            all,
            id as int,
            stack@[k] as int,
        ) by {
            assert(all[id as int][k] == stack@[k]);
            lemma_waits_direct(all, id as int, stack@[k] as int);
        }
        assert forall|t: int| 0 <= t < all.len() && #[trigger] waits_for(all, id as int, t) implies marks@[t]
            || stack@.contains(t as usize) by {
            let j = choose|j: int| 0 <= j < all[id as int].len() && #[trigger] all[id as int][j] == t;
            assert(stack@[j] == t as usize);
        }
    }
    while stack.len() > 0
        invariant
            all == links.deep_view(),
            closed_links(all),
            id < all.len(),
            marks@.len() == all.len(),
            forall|k: int|
                0 <= k < stack@.len() ==> (#[trigger] stack@[k]) < all.len() && depends(
                    all,
                    id as int,
                    stack@[k] as int,
                ),
            forall|t: int| 0 <= t < marks@.len() && #[trigger] marks@[t] ==> depends(all, id as int, t),
            forall|t: int|
                0 <= t < all.len() && #[trigger] waits_for(all, id as int, t) ==> marks@[t] || stack@.contains(
                    t as usize,
                ),
            forall|s: int, t: int|
                0 <= s < all.len() && 0 <= t < all.len() && marks@[s] && #[trigger] waits_for(all, s, t)
                    ==> marks@[t] || stack@.contains(t as usize),
        decreases unset(marks@), stack.len(),
    {
        let ghost stack0 = stack@;
        let ghost marks0 = marks@;
        let t: usize = stack.pop().unwrap();
        proof {
            assert(stack0[stack0.len() - 1] == t);
            assert forall|u: usize| stack0.contains(u) && u != t implies stack@.contains(u) by {
                let k = choose|k: int| 0 <= k < stack0.len() && stack0[k] == u;
                assert(stack@[k] == u);
            }
        }
        if !marks[t] {
            proof {
                lemma_unset(marks@, t as int);
            }
            marks.set(t, true);
            let ghost popped = stack@;
            let mut j: usize = 0;
            while j < links[t].len()
                invariant
                    all == links.deep_view(),
                    closed_links(all),
                    id < all.len(),
                    t < all.len(),
                    j <= links@[t as int]@.len(),
                    depends(all, id as int, t as int),
                    stack@ == popped + all[t as int].take(j as int),
                    forall|k: int|
                        0 <= k < stack@.len() ==> (#[trigger] stack@[k]) < all.len() && depends(
                            all,
                            id as int,
                            stack@[k] as int,
                        ),
                decreases links@[t as int]@.len() - j,
            {
                let next: usize = links[t][j];
                proof {
                    assert(all[t as int][j as int] == next);
                    assert(waits_for(all, t as int, next as int));
                    lemma_waits_further(all, id as int, t as int, next as int);
                }
                stack.push(next);
                j = j + 1;
                assert(stack@ =~= popped + all[t as int].take(j as int));
            }
            proof {
                let list = all[t as int];
                assert(list.take(list.len() as int) =~= list);
                assert(stack@ =~= popped + list);
                assert forall|u: usize| popped.contains(u) implies stack@.contains(u) by {
                    let k = choose|k: int| 0 <= k < popped.len() && popped[k] == u;
                    assert(stack@[k] == u);
                }
                assert forall|u: int| 0 <= u < all.len() && #[trigger] waits_for(all, t as int, u) implies stack@.contains(
                    u as usize,
                ) by {
                    let k = choose|k: int| 0 <= k < list.len() && #[trigger] list[k] == u;
                    assert(stack@[popped.len() + k] == u as usize);
                }
                assert forall|s: int, u: int|
                    0 <= s < all.len() && 0 <= u < all.len() && marks@[s] && #[trigger] waits_for(all, s, u)
                    implies marks@[u] || stack@.contains(u as usize) by {
                    if s != t {
                        assert(marks0[s]);
                        if !marks0[u] && u != t {
                            assert(stack0.contains(u as usize));
                        }
                    }
                }
            }
        }
    }
    proof {
        assert forall|t: int| 0 <= t < marks@.len() implies (#[trigger] marks@[t] <==> depends(all, id as int, t)) by {
            if depends(all, id as int, t) {
                let path = choose|path: Seq<int>| #[trigger] leads(all, id as int, path) && path.last() == t;
                assert forall|u: int| 0 <= u < all.len() && #[trigger] waits_for(all, id as int, u) implies marks@[u] by {
                    assert(!stack@.contains(u as usize));
                }
                assert forall|s: int, u: int|
                    0 <= s < all.len() && 0 <= u < all.len() && marks@[s] && #[trigger] waits_for(all, s, u)
                    implies marks@[u] by {
                    assert(!stack@.contains(u as usize));
                }
                lemma_path_marked(all, id as int, marks@, path, path.len() - 1);
            }
        }
    }
    marks
}

} // verus!
