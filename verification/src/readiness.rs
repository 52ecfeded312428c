//! Readiness: what the counts and links of a build's tasks say of each other,
//! whatever has happened to the tasks.

use vstd::prelude::*;

use crate::error::Fault;
use crate::executor::{
    all_done, done_among, law_deadlock, next_work, unresolvable, with_answer, with_dependencies, with_new_task,
    with_resolution, with_taken, workable, Builders,
};
use crate::graph::{
    lemma_occurrences, lemma_same_shape, lemma_with_task, occurrences, room_for_ready, waiting, with_failure,
    with_success, with_task, Graph,
};
use crate::model::{no_output, ConfigModel, Outcome};
use crate::reach::{depends, leads, lemma_waits_direct, lemma_waits_further, waits_for};
use crate::table::found;
use crate::task::{new_task, status_of, TaskStatus};

verus! {

/// How often the task `t` is to be told that the task `i` is done.
pub open spec fn told_of(g: Graph, i: int, t: int) -> int {
    occurrences(g.rdeps[i], t, g.rdeps[i].len() as int)
}

/// How often the task `t` depends on the task `i`.
pub open spec fn needed_by(g: Graph, i: int, t: int) -> int {
    occurrences(g.tasks[t].dependencies, i, g.tasks[t].dependencies.len() as int)
}

/// Whether the dependencies of the task `t` are tasks of `g`; it has none before
/// it is resolved.
pub open spec fn sound_links(g: Graph, t: int) -> bool {
    &&& forall|j: int|
        0 <= j < g.tasks[t].dependencies.len() ==> (#[trigger] g.tasks[t].dependencies[j]) < g.tasks.len()
    &&& g.tasks[t].config is None ==> g.tasks[t].dependencies.len() == 0
}

/// Whether a task that is not done counts exactly those of its dependencies
/// that are.
pub open spec fn sound_count(g: Graph, t: int) -> bool {
    g.tasks[t].config is Some && g.tasks[t].result is None ==> g.tasks[t].dependencies_ready == done_among(
        g,
        g.tasks[t].dependencies,
        g.tasks[t].dependencies.len() as int,
    )
}

/// Whether links and counts agree: each task is told of a task as often as it
/// depends on it, and counts those of its dependencies that are done.
pub open spec fn consistent(g: Graph) -> bool {
    &&& g.well_formed()
    &&& forall|t: int| 0 <= t < g.tasks.len() ==> #[trigger] sound_links(g, t)
    &&& forall|i: int, t: int|
        0 <= i < g.tasks.len() && 0 <= t < g.tasks.len() ==> #[trigger] told_of(g, i, t) == needed_by(g, i, t)
    &&& forall|t: int| 0 <= t < g.tasks.len() ==> #[trigger] sound_count(g, t)
}

proof fn lemma_occurs(list: Seq<usize>, t: int, n: int)
    requires
        0 <= n <= list.len(),
    ensures
        occurrences(list, t, n) > 0 <==> exists|j: int| 0 <= j < n && #[trigger] list[j] == t,
    decreases n,
{
    if n > 0 {
        lemma_occurs(list, t, n - 1);
        lemma_occurrences(list, t, n - 1);
    }
}

proof fn lemma_occurrences_prefix(list: Seq<usize>, more: Seq<usize>, t: int, n: int)
    requires
        0 <= n <= list.len(),
    ensures
        occurrences(list + more, t, n) == occurrences(list, t, n),
    decreases n,
{
    if n > 0 {
        lemma_occurrences_prefix(list, more, t, n - 1);
        assert((list + more)[n - 1] == list[n - 1]);
    }
}

/// One more at the end occurs once more.
proof fn lemma_occurrences_push(list: Seq<usize>, x: usize, t: int)
    ensures
        occurrences(list.push(x), t, list.len() as int + 1) == occurrences(list, t, list.len() as int) + (if x == t {
            1int
        } else {
            0
        }),
        occurrences(list + seq![x], t, list.len() as int + 1) == occurrences(list.push(x), t, list.len() as int + 1),
{
    assert(list.push(x) =~= list + seq![x]);
    lemma_occurrences_prefix(list, seq![x], t, list.len() as int);
    assert((list + seq![x])[list.len() as int] == x);
}

/// What is done among tasks depends only on which of them have results.
proof fn lemma_done_same(g: Graph, h: Graph, ids: Seq<usize>, n: int)
    requires
        0 <= n <= ids.len(),
        forall|j: int|
            0 <= j < n ==> (g.tasks[#[trigger] ids[j] as int].result is Some <==> h.tasks[ids[j] as int].result is Some),
    ensures
        done_among(g, ids, n) == done_among(h, ids, n),
    decreases n,
{
    if n > 0 {
        lemma_done_same(g, h, ids, n - 1);
        assert(g.tasks[ids[n - 1] as int].result is Some <==> h.tasks[ids[n - 1] as int].result is Some);
    }
}

/// Once one more task is done, as many more are done as it occurs.
proof fn lemma_done_one_more(g: Graph, h: Graph, id: int, ids: Seq<usize>, n: int)
    requires
        0 <= n <= ids.len(),
        g.tasks[id].result is None,
        h.tasks[id].result is Some,
        forall|j: int|
            0 <= j < n && #[trigger] ids[j] != id ==> (g.tasks[ids[j] as int].result is Some
                <==> h.tasks[ids[j] as int].result is Some),
    ensures
        done_among(h, ids, n) == done_among(g, ids, n) + occurrences(ids, id, n),
    decreases n,
{
    if n > 0 {
        lemma_done_one_more(g, h, id, ids, n - 1);
        if ids[n - 1] != id {
            assert(g.tasks[ids[n - 1] as int].result is Some <==> h.tasks[ids[n - 1] as int].result is Some);
        }
    }
}

proof fn lemma_done_bound(g: Graph, ids: Seq<usize>, n: int)
    requires
        0 <= n <= ids.len(),
    ensures
        0 <= done_among(g, ids, n) <= n,
        done_among(g, ids, n) == n <==> forall|j: int|
            0 <= j < n ==> status_of(g.tasks[#[trigger] ids[j] as int]) == TaskStatus::Done,
    decreases n,
{
    if n > 0 {
        lemma_done_bound(g, ids, n - 1);
        if done_among(g, ids, n) == n {
            assert forall|j: int| 0 <= j < n implies status_of(g.tasks[#[trigger] ids[j] as int]) == TaskStatus::Done by {
                assert(j < n - 1 || j == n - 1);
            }
        }
        if forall|j: int| 0 <= j < n ==> status_of(g.tasks[#[trigger] ids[j] as int]) == TaskStatus::Done {
            assert(status_of(g.tasks[ids[n - 1] as int]) == TaskStatus::Done);
        }
    }
}

/// A task that is resolved and not done can be built exactly when all of its
/// dependencies are done.
pub proof fn law_built_when_ready(g: Graph, t: int)
    requires
        consistent(g),
        0 <= t < g.tasks.len(),
        g.tasks[t].config is Some,
        g.tasks[t].result is None,
    ensures
        status_of(g.tasks[t]) == TaskStatus::Building <==> forall|j: int|
            0 <= j < g.tasks[t].dependencies.len() ==> status_of(g.tasks[#[trigger] g.tasks[t].dependencies[j] as int])
                == TaskStatus::Done,
{
    assert(sound_count(g, t));
    let ids = g.tasks[t].dependencies;
    lemma_done_bound(g, ids, ids.len() as int);
}

/// A build without tasks is consistent.
pub proof fn law_empty_consistent()
    ensures
        consistent(Graph { tasks: Seq::empty(), by_target: Seq::empty(), rdeps: Seq::empty() }),
{
}

/// Taking a task keeps a build consistent.
pub proof fn law_taken_consistent(g: Graph, i: int)
    requires
        consistent(g),
        0 <= i < g.tasks.len(),
    ensures
        consistent(with_taken(g, i)),
{
    let h = with_taken(g, i);
    lemma_same_shape(g, h);
    lemma_same_results(g, h);
}

/// A graph whose tasks keep their links, counts and results stays consistent.
proof fn lemma_same_results(g: Graph, h: Graph)
    requires
        consistent(g),
        h.well_formed(),
        h.rdeps == g.rdeps,
        h.tasks.len() == g.tasks.len(),
        forall|t: int|
            0 <= t < g.tasks.len() ==> {
                &&& (#[trigger] h.tasks[t]).dependencies == g.tasks[t].dependencies
                &&& h.tasks[t].dependencies_ready == g.tasks[t].dependencies_ready
                &&& (h.tasks[t].result is Some <==> g.tasks[t].result is Some)
                &&& (h.tasks[t].config is Some <==> g.tasks[t].config is Some)
            },
    ensures
        consistent(h),
{
    assert forall|t: int| 0 <= t < h.tasks.len() implies #[trigger] sound_links(h, t) by {
        assert(sound_links(g, t));
    }
    assert forall|i: int, t: int| 0 <= i < h.tasks.len() && 0 <= t < h.tasks.len() implies #[trigger] told_of(h, i, t)
        == needed_by(h, i, t) by {
        assert(told_of(g, i, t) == needed_by(g, i, t));
    }
    assert forall|t: int| 0 <= t < h.tasks.len() implies #[trigger] sound_count(h, t) by {
        assert(sound_count(g, t));
        assert(sound_links(g, t));
        let ids = g.tasks[t].dependencies;
        lemma_done_same(g, h, ids, ids.len() as int);
    }
}

/// A success keeps a build consistent.
pub proof fn law_success_consistent(g: Graph, id: int, result: Outcome, hash: u64)
    requires
        consistent(g),
        0 <= id < g.tasks.len(),
        g.tasks[id].result is None,
        room_for_ready(g, id),
    ensures
        consistent(with_success(g, id, result, hash)),
{
    let h = with_success(g, id, result, hash);
    lemma_same_shape(g, h);
    assert forall|t: int| 0 <= t < h.tasks.len() implies #[trigger] sound_links(h, t) by {
        assert(sound_links(g, t));
    }
    assert forall|i: int, t: int| 0 <= i < h.tasks.len() && 0 <= t < h.tasks.len() implies #[trigger] told_of(h, i, t)
        == needed_by(h, i, t) by {
        assert(told_of(g, i, t) == needed_by(g, i, t));
    }
    assert forall|t: int| 0 <= t < h.tasks.len() implies #[trigger] sound_count(h, t) by {
        assert(sound_count(g, t));
        assert(sound_links(g, t));
        assert(told_of(g, id, t) == needed_by(g, id, t));
        lemma_occurrences(g.rdeps[id], t, g.rdeps[id].len() as int);
        assert(g.tasks[t].dependencies_ready + g.rdeps[id].len() <= usize::MAX);
        if h.tasks[t].config is Some && h.tasks[t].result is None {
            let ids = g.tasks[t].dependencies;
            lemma_done_one_more(g, h, id, ids, ids.len() as int);
        }
    }
}

/// A failure keeps a build consistent.
pub proof fn law_failure_consistent(g: Graph, id: int, root_cause: int, result: Outcome)
    requires
        consistent(g),
        0 <= id < g.tasks.len(),
    ensures
        consistent(with_failure(g, id, root_cause, result)),
{
    let h = with_failure(g, id, root_cause, result);
    lemma_same_shape(g, h);
    assert forall|t: int| 0 <= t < h.tasks.len() implies #[trigger] sound_links(h, t) by {
        assert(sound_links(g, t));
    }
    assert forall|i: int, t: int| 0 <= i < h.tasks.len() && 0 <= t < h.tasks.len() implies #[trigger] told_of(h, i, t)
        == needed_by(h, i, t) by {
        assert(told_of(g, i, t) == needed_by(g, i, t));
    }
    assert forall|t: int| 0 <= t < h.tasks.len() implies #[trigger] sound_count(h, t) by {
        assert(sound_count(g, t));
        assert(sound_links(g, t));
        if h.tasks[t].config is Some && h.tasks[t].result is None {
            let ids = g.tasks[t].dependencies;
            assert forall|j: int| 0 <= j < ids.len() implies (g.tasks[#[trigger] ids[j] as int].result is Some
                <==> h.tasks[ids[j] as int].result is Some) by {
                let d = ids[j] as int;
                assert(told_of(g, d, t) == needed_by(g, d, t));
                lemma_occurs(ids, d, ids.len() as int);
                lemma_occurs(g.rdeps[d], t, g.rdeps[d].len() as int);
                assert(waits_for(g.rdeps, d, t));
                if d == id {
                    lemma_waits_direct(g.rdeps, id, t);
                } else if depends(g.rdeps, id, d) {
                    lemma_waits_further(g.rdeps, id, d, t);
                }
            }
            lemma_done_same(g, h, ids, ids.len() as int);
        }
    }
}

/// Asking for a target that nothing waits for keeps a build consistent.
pub proof fn law_root_consistent(g: Graph, builders: Builders, target: Seq<char>)
    requires
        consistent(g),
        g.tasks.len() < usize::MAX,
    ensures
        consistent(with_new_task(g, builders, target, None).0),
{
    let (m, id) = with_task(g, target, None);
    lemma_with_task(g, target, None);
    if let Some(known) = found(g.by_target, target) {
        assert(g.rdeps[known as int] + waiting(None) =~= g.rdeps[known as int]);
        assert(m.rdeps =~= g.rdeps);
    } else {
        lemma_new_links(g, m, id);
        if found(builders, target) is Some {
            law_success_consistent(m, id as int, Outcome::Success(no_output()), 0);
        }
    }
}

/// A graph with one more task that nothing waits for is consistent.
proof fn lemma_new_links(g: Graph, m: Graph, id: usize)
    requires
        consistent(g),
        m.well_formed(),
        id == g.tasks.len(),
        m.tasks == g.tasks.push(m.tasks[id as int]),
        m.tasks[id as int] == new_task(id, m.tasks[id as int].target),
        m.rdeps == g.rdeps.push(Seq::empty()),
    ensures
        consistent(m),
        room_for_ready(m, id as int),
{
    assert forall|t: int| 0 <= t < m.tasks.len() implies #[trigger] sound_links(m, t) by {
        if t < g.tasks.len() {
            assert(sound_links(g, t));
            assert(m.tasks[t] == g.tasks[t]);
            assert forall|j: int| 0 <= j < m.tasks[t].dependencies.len() implies (#[trigger] m.tasks[t].dependencies[j])
                < m.tasks.len() by {
                assert(g.tasks[t].dependencies[j] < g.tasks.len());
            }
        }
    }
    assert forall|i: int, t: int| 0 <= i < m.tasks.len() && 0 <= t < m.tasks.len() implies #[trigger] told_of(m, i, t)
        == needed_by(m, i, t) by {
        if i < g.tasks.len() && t < g.tasks.len() {
            assert(told_of(g, i, t) == needed_by(g, i, t));
            assert(m.tasks[t] == g.tasks[t]);
            assert(m.rdeps[i] == g.rdeps[i]);
        } else if i < g.tasks.len() {
            assert(m.rdeps[i] == g.rdeps[i]);
            lemma_never(g.rdeps[i], t, g.tasks.len() as int);
        } else if t < g.tasks.len() {
            assert(m.tasks[t] == g.tasks[t]);
            assert(sound_links(g, t));
            lemma_never(g.tasks[t].dependencies, i, g.tasks.len() as int);
        }
    }
    assert forall|t: int| 0 <= t < m.tasks.len() implies #[trigger] sound_count(m, t) by {
        if t < g.tasks.len() {
            assert(sound_count(g, t));
            assert(sound_links(g, t));
            assert(m.tasks[t] == g.tasks[t]);
            let ids = g.tasks[t].dependencies;
            assert forall|j: int| 0 <= j < ids.len() implies (g.tasks[#[trigger] ids[j] as int].result is Some
                <==> m.tasks[ids[j] as int].result is Some) by {
                assert(ids[j] < g.tasks.len());
                assert(m.tasks[ids[j] as int] == g.tasks[ids[j] as int]);
            }
            lemma_done_same(g, m, ids, ids.len() as int);
        }
    }
}

/// A number does not occur among smaller ones.
proof fn lemma_never(list: Seq<usize>, t: int, bound: int)
    requires
        forall|j: int| 0 <= j < list.len() ==> (#[trigger] list[j]) < bound,
        t >= bound,
    ensures
        occurrences(list, t, list.len() as int) == 0,
{
    lemma_occurs(list, t, list.len() as int);
    lemma_occurrences(list, t, list.len() as int);
}

/// Whether `g` is consistent but for the task `id`, which is being resolved and
/// is to be told of the tasks `ids`.
spec fn resolving(g: Graph, id: int, ids: Seq<usize>) -> bool {
    &&& g.well_formed()
    &&& 0 <= id < g.tasks.len()
    &&& g.tasks[id].config is None
    &&& forall|k: int| 0 <= k < ids.len() ==> (#[trigger] ids[k]) < g.tasks.len()
    &&& forall|t: int| 0 <= t < g.tasks.len() ==> #[trigger] sound_links(g, t)
    &&& forall|i: int, t: int|
        0 <= i < g.tasks.len() && 0 <= t < g.tasks.len() ==> #[trigger] told_of(g, i, t) == (if t == id {
            occurrences(ids, i, ids.len() as int)
        } else {
            needed_by(g, i, t)
        })
    &&& forall|t: int| 0 <= t < g.tasks.len() && t != id ==> #[trigger] sound_count(g, t)
}

proof fn lemma_known_dependency(g: Graph, id: usize, ids: Seq<usize>, target: Seq<char>)
    requires
        resolving(g, id as int, ids),
        g.tasks.len() < usize::MAX,
        found(g.by_target, target) is Some,
    ensures
        ({
            let (h, dep) = with_task(g, target, Some(id));
            resolving(h, id as int, ids.push(dep))
        }),
{
    let (h, dep) = with_task(g, target, Some(id));
    lemma_with_task(g, target, Some(id));
    assert forall|t: int| 0 <= t < h.tasks.len() implies #[trigger] sound_links(h, t) by {
        assert(sound_links(g, t));
    }
    assert forall|i: int, t: int| 0 <= i < h.tasks.len() && 0 <= t < h.tasks.len() implies #[trigger] told_of(h, i, t)
        == (if t == id {
        occurrences(ids.push(dep), i, ids.len() as int + 1)
    } else {
        needed_by(h, i, t)
    }) by {
        assert(told_of(g, i, t) == (if t == id {
            occurrences(ids, i, ids.len() as int)
        } else {
            needed_by(g, i, t)
        }));
        lemma_occurrences_push(ids, dep, i);
        lemma_occurrences_push(g.rdeps[i], id, t);
        if i == dep {
            assert(h.rdeps[i] == g.rdeps[i] + seq![id]);
        } else {
            assert(h.rdeps[i] == g.rdeps[i]);
        }
    }
    assert forall|t: int| 0 <= t < h.tasks.len() && t != id implies #[trigger] sound_count(h, t) by {
        assert(sound_count(g, t));
        let list = g.tasks[t].dependencies;
        lemma_done_same(g, h, list, list.len() as int);
    }
}

proof fn lemma_new_dependency(g: Graph, id: usize, ids: Seq<usize>, target: Seq<char>)
    requires
        resolving(g, id as int, ids),
        g.tasks.len() < usize::MAX,
        found(g.by_target, target) is None,
    ensures
        ({
            let (h, dep) = with_task(g, target, Some(id));
            resolving(h, id as int, ids.push(dep))
        }),
{
    let (h, dep) = with_task(g, target, Some(id));
    lemma_with_task(g, target, Some(id));
    let n = g.tasks.len() as int;
    assert(forall|t: int| 0 <= t < n ==> h.tasks[t] == g.tasks[t] && h.rdeps[t] == g.rdeps[t]);
    assert(h.rdeps[n] == seq![id]);
    assert forall|t: int| 0 <= t < h.tasks.len() implies #[trigger] sound_links(h, t) by {
        if t < n {
            assert(sound_links(g, t));
            assert forall|j: int| 0 <= j < h.tasks[t].dependencies.len() implies (#[trigger] h.tasks[t].dependencies[j])
                < h.tasks.len() by {
                assert(g.tasks[t].dependencies[j] < n);
            }
        }
    }
    assert forall|i: int, t: int| 0 <= i < h.tasks.len() && 0 <= t < h.tasks.len() implies #[trigger] told_of(h, i, t)
        == (if t == id {
        occurrences(ids.push(dep), i, ids.len() as int + 1)
    } else {
        needed_by(h, i, t)
    }) by {
        lemma_occurrences_push(ids, dep, i);
        lemma_occurrences_push(Seq::empty(), id, t);
        assert(Seq::<usize>::empty() + seq![id] =~= seq![id]);
        if i < n && t < n {
            assert(told_of(g, i, t) == (if t == id {
                occurrences(ids, i, ids.len() as int)
            } else {
                needed_by(g, i, t)
            }));
        } else if i < n {
            lemma_never(g.rdeps[i], t, n);
        } else {
            lemma_never(ids, i, n);
            if t < n {
                assert(sound_links(g, t));
                lemma_never(g.tasks[t].dependencies, i, n);
            }
        }
    }
    assert forall|t: int| 0 <= t < h.tasks.len() && t != id implies #[trigger] sound_count(h, t) by {
        if t < n {
            assert(sound_count(g, t));
            assert(sound_links(g, t));
            let list = g.tasks[t].dependencies;
            assert forall|j: int| 0 <= j < list.len() implies (g.tasks[#[trigger] list[j] as int].result is Some
                <==> h.tasks[list[j] as int].result is Some) by {
                assert(list[j] < n);
            }
            lemma_done_same(g, h, list, list.len() as int);
        }
    }
    assert forall|k: int| 0 <= k < ids.push(dep).len() implies (#[trigger] ids.push(dep)[k]) < h.tasks.len() by {
        if k < ids.len() {
            assert(ids[k] < n);
        }
    }
}

/// A new dependency that is done at once.
proof fn lemma_done_dependency(g: Graph, id: usize, ids: Seq<usize>, dep: int)
    requires
        resolving(g, id as int, ids),
        0 <= dep < g.tasks.len(),
        g.tasks[dep].result is None,
        g.rdeps[dep] == seq![id],
    ensures
        resolving(with_success(g, dep, Outcome::Success(no_output()), 0), id as int, ids),
{
    let h = with_success(g, dep, Outcome::Success(no_output()), 0);
    lemma_same_shape(g, h);
    assert forall|t: int| 0 <= t < h.tasks.len() implies #[trigger] sound_links(h, t) by {
        assert(sound_links(g, t));
    }
    assert forall|i: int, t: int| 0 <= i < h.tasks.len() && 0 <= t < h.tasks.len() implies #[trigger] told_of(h, i, t)
        == (if t == id {
        occurrences(ids, i, ids.len() as int)
    } else {
        needed_by(h, i, t)
    }) by {
        assert(told_of(g, i, t) == (if t == id {
            occurrences(ids, i, ids.len() as int)
        } else {
            needed_by(g, i, t)
        }));
    }
    assert forall|t: int| 0 <= t < h.tasks.len() && t != id implies #[trigger] sound_count(h, t) by {
        assert(sound_count(g, t));
        assert(sound_links(g, t));
        assert(told_of(g, dep, t) == needed_by(g, dep, t));
        lemma_occurrences_push(Seq::empty(), id, t);
        assert(Seq::<usize>::empty() + seq![id] =~= seq![id]);
        let list = g.tasks[t].dependencies;
        lemma_done_one_more(g, h, dep, list, list.len() as int);
    }
}

proof fn lemma_with_dependencies(g: Graph, builders: Builders, deps: Seq<Seq<char>>, id: usize, n: int)
    requires
        consistent(g),
        id < g.tasks.len(),
        g.tasks[id as int].config is None,
        0 <= n <= deps.len(),
        g.tasks.len() + n < usize::MAX,
    ensures
        ({
            let (h, ids) = with_dependencies(g, builders, deps, id, n);
            &&& resolving(h, id as int, ids)
            &&& ids.len() == n
            &&& h.tasks.len() <= g.tasks.len() + n
        }),
    decreases n,
{
    if n == 0 {
        assert(sound_links(g, id as int));
        assert forall|i: int, t: int| 0 <= i < g.tasks.len() && 0 <= t < g.tasks.len() implies #[trigger] told_of(g, i, t)
            == (if t == id {
            0
        } else {
            needed_by(g, i, t)
        }) by {
            assert(told_of(g, i, t) == needed_by(g, i, t));
        }
    } else {
        lemma_with_dependencies(g, builders, deps, id, n - 1);
        let (h, ids) = with_dependencies(g, builders, deps, id, n - 1);
        let target = deps[n - 1];
        let (m, dep) = with_task(h, target, Some(id));
        if found(h.by_target, target) is Some {
            lemma_known_dependency(h, id, ids, target);
        } else {
            lemma_new_dependency(h, id, ids, target);
            if found(builders, target) is Some {
                lemma_done_dependency(m, id, ids.push(dep), dep as int);
            }
        }
    }
}

/// Resolving a task keeps a build consistent.
pub proof fn law_resolution_consistent(g: Graph, builders: Builders, id: usize, config: ConfigModel, deps: Seq<Seq<char>>)
    requires
        consistent(g),
        id < g.tasks.len(),
        g.tasks[id as int].config is None,
        g.tasks.len() + deps.len() < usize::MAX,
    ensures
        consistent(with_resolution(g, builders, id, config, deps)),
{
    lemma_with_dependencies(g, builders, deps, id, deps.len() as int);
    let (m, ids) = with_dependencies(g, builders, deps, id, deps.len() as int);
    let h = with_resolution(g, builders, id, config, deps);
    lemma_same_shape(m, h);
    assert forall|t: int| 0 <= t < h.tasks.len() implies #[trigger] sound_links(h, t) by {
        assert(sound_links(m, t));
    }
    assert forall|i: int, t: int| 0 <= i < h.tasks.len() && 0 <= t < h.tasks.len() implies #[trigger] told_of(h, i, t)
        == needed_by(h, i, t) by {
        assert(told_of(m, i, t) == (if t == id {
            occurrences(ids, i, ids.len() as int)
        } else {
            needed_by(m, i, t)
        }));
    }
    assert forall|t: int| 0 <= t < h.tasks.len() implies #[trigger] sound_count(h, t) by {
        let list = h.tasks[t].dependencies;
        assert(sound_links(m, t));
        assert forall|j: int| 0 <= j < list.len() implies (m.tasks[#[trigger] list[j] as int].result is Some
            <==> h.tasks[list[j] as int].result is Some) by {
            assert(list[j] < m.tasks.len());
        }
        lemma_done_same(m, h, list, list.len() as int);
        if t == id {
            lemma_done_bound(m, ids, ids.len() as int);
        } else {
            assert(sound_count(m, t));
        }
    }
}

/// Whatever the resolvers answer keeps a build consistent.
pub proof fn law_answer_consistent(
    g: Graph,
    builders: Builders,
    id: usize,
    answer: Option<Result<ConfigModel, Fault>>,
    deps: Seq<Seq<char>>,
)
    requires
        consistent(g),
        id < g.tasks.len(),
        g.tasks[id as int].config is None,
        g.tasks.len() + deps.len() < usize::MAX,
    ensures
        consistent(with_answer(g, builders, id, answer, deps)),
{
    match answer {
        None => law_failure_consistent(g, id as int, id as int, unresolvable(g.tasks[id as int].target)),
        Some(Err(e)) => law_failure_consistent(
            g,
            id as int,
            id as int,
            Outcome::Failure("target resolution failed:\n"@ + e.message),
        ),
        Some(Ok(config)) => law_resolution_consistent(g, builders, id, config, deps),
    }
}

/// A task that the task `t` waits for, where there is one.
spec fn awaited(g: Graph, t: int) -> int {
    let j = choose|j: int|
        0 <= j < g.tasks[t].dependencies.len() && status_of(g.tasks[#[trigger] g.tasks[t].dependencies[j] as int])
            != TaskStatus::Done;
    g.tasks[t].dependencies[j] as int
}

/// The tasks that are reached from `t` in `n` steps, each the one that the task
/// before it waits for.
spec fn trail(g: Graph, t: int, n: nat) -> Seq<int>
    decreases n,
{
    if n == 0 {
        seq![t]
    } else {
        let before = trail(g, t, (n - 1) as nat);
        before.push(awaited(g, before.last()))
    }
}

/// Whether every task that is not done waits for another that is not.
spec fn stuck(g: Graph) -> bool {
    forall|t: int|
        0 <= t < g.tasks.len() && status_of(#[trigger] g.tasks[t]) != TaskStatus::Done ==> status_of(g.tasks[t])
            == TaskStatus::Blocked
}

proof fn lemma_awaited(g: Graph, t: int)
    requires
        consistent(g),
        stuck(g),
        0 <= t < g.tasks.len(),
        status_of(g.tasks[t]) != TaskStatus::Done,
    ensures
        0 <= awaited(g, t) < g.tasks.len(),
        status_of(g.tasks[awaited(g, t)]) != TaskStatus::Done,
        waits_for(g.rdeps, awaited(g, t), t),
{
    assert(sound_links(g, t));
    assert(status_of(g.tasks[t]) == TaskStatus::Blocked);
    law_built_when_ready(g, t);
    let list = g.tasks[t].dependencies;
    let j = choose|j: int|
        0 <= j < list.len() && status_of(g.tasks[#[trigger] list[j] as int]) != TaskStatus::Done;
    let d = list[j] as int;
    assert(awaited(g, t) == d);
    assert(told_of(g, d, t) == needed_by(g, d, t));
    lemma_occurs(list, d, list.len() as int);
    lemma_occurs(g.rdeps[d], t, g.rdeps[d].len() as int);
}

proof fn lemma_trail(g: Graph, t: int, n: nat)
    requires
        consistent(g),
        stuck(g),
        0 <= t < g.tasks.len(),
        status_of(g.tasks[t]) != TaskStatus::Done,
    ensures
        trail(g, t, n).len() == n + 1,
        forall|k: int|
            0 <= k <= n ==> 0 <= #[trigger] trail(g, t, n)[k] < g.tasks.len() && status_of(g.tasks[trail(g, t, n)[k]])
                != TaskStatus::Done,
        forall|k: int| 0 <= k < n ==> waits_for(g.rdeps, trail(g, t, n)[k + 1], #[trigger] trail(g, t, n)[k]),
    decreases n,
{
    if n > 0 {
        lemma_trail(g, t, (n - 1) as nat);
        let before = trail(g, t, (n - 1) as nat);
        assert(before[n - 1] == before.last());
        lemma_awaited(g, before.last());
    }
}

/// A walk of more steps than there are numbers meets one of them again.
proof fn lemma_meets_again(all: Seq<int>, n: nat) -> (r: (int, int))
    requires
        all.len() > n,
        forall|k: int| 0 <= k < all.len() ==> 0 <= #[trigger] all[k] < n,
    ensures
        0 <= r.0 < r.1 < all.len(),
        all[r.0] == all[r.1],
{
    if all.no_duplicates() {
        all.unique_seq_to_set();
        vstd::set_lib::lemma_int_range(0, n as int);
        assert(all.to_set().subset_of(vstd::set_lib::set_int_range(0, n as int)));
        vstd::set_lib::lemma_len_subset(all.to_set(), vstd::set_lib::set_int_range(0, n as int));
    }
    let (i, j) = choose|i: int, j: int| 0 <= i < j < all.len() && #[trigger] all[i] == #[trigger] all[j];
    (i, j)
}

/// A walk against the links that meets a number again goes round.
proof fn lemma_goes_round(links: Seq<Seq<usize>>, all: Seq<int>, i: int, j: int)
    requires
        0 <= i < j < all.len(),
        all[i] == all[j],
        forall|k: int| 0 <= k < all.len() ==> 0 <= #[trigger] all[k] < links.len(),
        forall|k: int| 0 <= k < all.len() - 1 ==> waits_for(links, all[k + 1], #[trigger] all[k]),
    ensures
        depends(links, all[j], all[j]),
{
    let back = Seq::new((j - i + 1) as nat, |k: int| all[j - k]);
    assert forall|k: int| 0 <= k < back.len() - 1 implies waits_for(links, #[trigger] back[k], back[k + 1]) by {
        assert(waits_for(links, all[j - k - 1 + 1], all[j - k - 1]));
    }
    assert(leads(links, all[j], back));
    assert(back.last() == all[i]);
}

proof fn lemma_stuck(g: Graph)
    requires
        next_work(g).1 is Deadlocked,
    ensures
        stuck(g),
        !all_done(g),
{
    law_deadlock(g);
    assert forall|t: int|
        0 <= t < g.tasks.len() && status_of(#[trigger] g.tasks[t]) != TaskStatus::Done implies status_of(g.tasks[t])
        == TaskStatus::Blocked by {
        assert(!(g.tasks[t].available && workable(g.tasks[t])));
        assert(!(!g.tasks[t].available && workable(g.tasks[t])));
    }
}

/// A build is said to be deadlocked only where a target depends on itself, over
/// whatever other targets.
pub proof fn law_deadlock_is_a_cycle(g: Graph)
    requires
        consistent(g),
    ensures
        next_work(g).1 is Deadlocked ==> exists|t: int|
            0 <= t < g.tasks.len() && #[trigger] depends(g.rdeps, t, t),
{
    if next_work(g).1 is Deadlocked {
        lemma_stuck(g);
        let t = choose|t: int| 0 <= t < g.tasks.len() && status_of(#[trigger] g.tasks[t]) != TaskStatus::Done;
        let n = g.tasks.len();
        lemma_trail(g, t, n);
        let all = trail(g, t, n);
        let (i, j) = lemma_meets_again(all, n);
        lemma_goes_round(g.rdeps, all, i, j);
        assert(depends(g.rdeps, all[j], all[j]));
    }
}

} // verus!
