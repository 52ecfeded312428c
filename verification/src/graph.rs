//! The graph of tasks: one task for each target, and which tasks wait for which.

use vstd::prelude::*;

use crate::model::{BuildResult, ConfigModel, Outcome};
use crate::reach::{depends, reachable};
use crate::table::{found, law_with_row, with_row, Table};
use crate::task::{new_task, Task, TaskModel};
use crate::text::{cat2, keep, Duplicate};

verus! {

pub struct TaskGraph {
    pub tasks: Vec<Task>,
    pub by_target: Table<usize>,
    pub rdeps: Vec<Vec<usize>>,
}

/// What a `TaskGraph` says: its tasks, the number of each target's task, and
/// for each task the tasks that wait for it.
#[verifier::ext_equal]
pub struct Graph {
    pub tasks: Seq<TaskModel>,
    pub by_target: Seq<(Seq<char>, usize)>,
    pub rdeps: Seq<Seq<usize>>,
}

impl DeepView for TaskGraph {
    type V = Graph;

    open spec fn deep_view(&self) -> Graph {
        Graph {
            tasks: self.tasks.deep_view(),
            by_target: self.by_target.deep_view(),
            rdeps: self.rdeps.deep_view(),
        }
    }
}

impl Graph {
    /// Each task has its own number, and each target has the task that has it.
    pub open spec fn indexed(self) -> bool {
        &&& self.tasks.len() == self.rdeps.len()
        &&& forall|i: int| 0 <= i < self.tasks.len() ==> (#[trigger] self.tasks[i]).id == i
        &&& forall|i: int|
            0 <= i < self.tasks.len() ==> found(self.by_target, (#[trigger] self.tasks[i]).target) == Some(i as usize)
        &&& forall|target: Seq<char>| (#[trigger] found(self.by_target, target)) matches Some(id) ==> id < self.tasks.len()
            && self.tasks[id as int].target == target
    }

    /// The graph is indexed, and only tasks of the graph wait.
    pub open spec fn well_formed(self) -> bool {
        &&& self.indexed()
        &&& forall|i: int, j: int|
            0 <= i < self.rdeps.len() && 0 <= j < self.rdeps[i].len() ==> (#[trigger] self.rdeps[i][j])
                < self.tasks.len()
    }
}

/// No two tasks of a graph have the same target.
pub proof fn law_targets_distinct(g: Graph, i: int, j: int)
    requires
        g.well_formed(),
        0 <= i < g.tasks.len() <= usize::MAX,
        0 <= j < g.tasks.len(),
        g.tasks[i].target == g.tasks[j].target,
    ensures
        i == j,
{
    assert(found(g.by_target, g.tasks[i].target) == Some(i as usize));
    assert(found(g.by_target, g.tasks[j].target) == Some(j as usize));
}

/// The tasks that wait for a task that `rdep` has just asked for.
pub open spec fn waiting(rdep: Option<usize>) -> Seq<usize> {
    match rdep {
        Some(r) => seq![r],
        None => Seq::empty(),
    }
}

/// `g` with a task for `target` that `rdep` waits for, and the task's number.
pub open spec fn with_task(g: Graph, target: Seq<char>, rdep: Option<usize>) -> (Graph, usize) {
    match found(g.by_target, target) {
        Some(id) => (
            Graph { rdeps: g.rdeps.update(id as int, g.rdeps[id as int] + waiting(rdep)), ..g },
            id,
        ),
        None => {
            let id = g.tasks.len() as usize;
            (
                Graph {
                    tasks: g.tasks.push(new_task(id, target)),
                    by_target: with_row(g.by_target, target, id),
                    rdeps: g.rdeps.push(waiting(rdep)),
                },
                id,
            )
        },
    }
}

/// Asking for a target a second time gives the task that it has; where nothing
/// more waits for it, the graph stays as it is.
pub proof fn law_with_task_again(g: Graph, target: Seq<char>, rdep: Option<usize>)
    requires
        g.well_formed(),
        g.tasks.len() < usize::MAX,
    ensures
        with_task(with_task(g, target, rdep).0, target, None) == with_task(g, target, rdep),
{
    let (h, id) = with_task(g, target, rdep);
    law_with_row(g.by_target, target, g.tasks.len() as usize, target);
    assert(h.rdeps[id as int] + waiting(None) =~= h.rdeps[id as int]);
    assert(h.rdeps.update(id as int, h.rdeps[id as int]) =~= h.rdeps);
}

/// A graph stays indexed where a task is asked for, whatever waits for it: a
/// known target keeps its number, a new one is appended, and only the list of
/// what waits for that task changes.
pub proof fn law_task_indexed(g: Graph, target: Seq<char>, rdep: Option<usize>)
    requires
        g.indexed(),
        g.tasks.len() < usize::MAX,
    ensures
        with_task(g, target, rdep).0.indexed(),
        with_task(g, target, rdep).1 < with_task(g, target, rdep).0.tasks.len(),
        match found(g.by_target, target) {
            Some(known) => {
                &&& with_task(g, target, rdep).1 == known
                &&& with_task(g, target, rdep).0.tasks == g.tasks
                &&& with_task(g, target, rdep).0.by_target == g.by_target
                &&& with_task(g, target, rdep).0.rdeps[known as int] == g.rdeps[known as int] + waiting(rdep)
            },
            None => {
                &&& with_task(g, target, rdep).1 == g.tasks.len()
                &&& with_task(g, target, rdep).0.tasks.drop_last() == g.tasks
                &&& with_task(g, target, rdep).0.rdeps.last() == waiting(rdep)
            },
        },
        forall|i: int|
            0 <= i < g.rdeps.len() && i != with_task(g, target, rdep).1 ==> #[trigger] with_task(
                g,
                target,
                rdep,
            ).0.rdeps[i] == g.rdeps[i],
{
    let (h, id) = with_task(g, target, rdep);
    assert forall|name: Seq<char>| (#[trigger] found(h.by_target, name)) matches Some(n) ==> n < h.tasks.len()
        && h.tasks[n as int].target == name by {
        law_with_row(g.by_target, target, id, name);
        if let Some(n) = found(g.by_target, name) {
            assert(h.tasks[n as int] == g.tasks[n as int]);
        }
    }
    assert forall|i: int| 0 <= i < h.tasks.len() implies found(h.by_target, (#[trigger] h.tasks[i]).target) == Some(
        i as usize,
    ) by {
        law_with_row(g.by_target, target, id, h.tasks[i].target);
        if i < g.tasks.len() {
            assert(h.tasks[i] == g.tasks[i]);
        }
    }
    assert forall|i: int| 0 <= i < h.tasks.len() implies (#[trigger] h.tasks[i]).id == i by {
        if i < g.tasks.len() {
            assert(h.tasks[i] == g.tasks[i]);
        }
    }
    assert(found(g.by_target, target) is None ==> h.tasks.drop_last() =~= g.tasks);
}

/// A graph stays well formed where one of its tasks asks for a task.
pub proof fn lemma_with_task(g: Graph, target: Seq<char>, rdep: Option<usize>)
    requires
        g.well_formed(),
        g.tasks.len() < usize::MAX,
        rdep matches Some(r) ==> r < g.tasks.len(),
    ensures
        with_task(g, target, rdep).0.well_formed(),
        with_task(g, target, rdep).1 < with_task(g, target, rdep).0.tasks.len(),
{
    let (h, id) = with_task(g, target, rdep);
    law_task_indexed(g, target, rdep);
    assert forall|i: int, j: int| 0 <= i < h.rdeps.len() && 0 <= j < h.rdeps[i].len() implies (#[trigger] h.rdeps[i][j])
        < h.tasks.len() by {
        if i < g.rdeps.len() && j < g.rdeps[i].len() {
            assert(h.rdeps[i][j] == g.rdeps[i][j]);
        }
    }
}

/// What a task says of a dependency that failed.
pub open spec fn dependency_failure(root_cause: Seq<char>) -> Outcome {
    Outcome::Failure("failed to build dependency: "@ + root_cause)
}

/// `g` after the task `id` failed with `result` because of the task `root_cause`:
/// every task that depends on it has failed with it, and no other has changed.
pub open spec fn with_failure(g: Graph, id: int, root_cause: int, result: Outcome) -> Graph {
    Graph {
        tasks: Seq::new(
            g.tasks.len(),
            |t: int|
                if t == id {
                    TaskModel { result: Some(result), available: true, ..g.tasks[t] }
                } else if depends(g.rdeps, id, t) {
                    TaskModel {
                        result: Some(dependency_failure(g.tasks[root_cause].target)),
                        available: true,
                        ..g.tasks[t]
                    }
                } else {
                    g.tasks[t]
                },
        ),
        ..g
    }
}

/// How often `t` occurs among the first `n` of `list`.
pub open spec fn occurrences(list: Seq<usize>, t: int, n: int) -> int
    decreases n,
{
    if n <= 0 {
        0
    } else {
        occurrences(list, t, n - 1) + (if list[n - 1] == t {
            1int
        } else {
            0
        })
    }
}

/// `g` after the task `id` was built with `result`: every task that waits for
/// it has one more dependency ready, for each time that it asked for it.
pub open spec fn with_success(g: Graph, id: int, result: Outcome, hash: u64) -> Graph {
    let done = TaskModel {
        result: Some(result),
        available: true,
        config: match g.tasks[id].config {
            Some(config) => Some(ConfigModel { hash, ..config }),
            None => None,
        },
        ..g.tasks[id]
    };
    let tasks = g.tasks.update(id, done);
    let list = g.rdeps[id];
    Graph {
        tasks: Seq::new(
            tasks.len(),
            |t: int|
                TaskModel {
                    dependencies_ready: (tasks[t].dependencies_ready + occurrences(list, t, list.len() as int)) as usize,
                    ..tasks[t]
                },
        ),
        ..g
    }
}

/// Whether every task can count the dependencies that the task `id` makes ready.
pub open spec fn room_for_ready(g: Graph, id: int) -> bool {
    forall|t: int|
        0 <= t < g.tasks.len() ==> (#[trigger] g.tasks[t]).dependencies_ready + g.rdeps[id].len() <= usize::MAX
}

/// A number occurs at most as often as there are places for it.
pub proof fn lemma_occurrences(list: Seq<usize>, t: int, n: int)
    requires
        0 <= n,
    ensures
        0 <= occurrences(list, t, n) <= n,
    decreases n,
{
    if n > 0 {
        lemma_occurrences(list, t, n - 1);
    }
}

impl TaskGraph {
    pub fn new() -> (r: Self)
        ensures
            r.deep_view() == (Graph { tasks: Seq::empty(), by_target: Seq::empty(), rdeps: Seq::empty() }),
            r.deep_view().well_formed(),
    {
        let r = TaskGraph { tasks: Vec::new(), by_target: Table::new(), rdeps: Vec::new() };
        assert(r.deep_view() =~= Graph { tasks: Seq::empty(), by_target: Seq::empty(), rdeps: Seq::empty() });
        r
    }

    pub fn add_task(&mut self, target: String, rdep: Option<usize>) -> (id: usize)
        requires
            old(self).deep_view().indexed(),
            old(self).deep_view().tasks.len() < usize::MAX,
        ensures
            (final(self).deep_view(), id) == with_task(old(self).deep_view(), target@, rdep),
            final(self).deep_view().indexed(),
            old(self).deep_view().well_formed() && (rdep matches Some(r) ==> r < old(self).deep_view().tasks.len())
                ==> final(self).deep_view().well_formed(),
            id < final(self).deep_view().tasks.len(),
    {
        let ghost g = self.deep_view();
        let known = match self.by_target.get(target.as_str()) {
            Some(id) => Some(*id),
            None => None,
        };
        if let Some(id) = known {
            assert(found(g.by_target, target@) == Some(id));
            if let Some(r) = rdep {
                let mut list = self.rdeps[id].duplicate();
                keep(&mut list, r);
                self.rdeps.set(id, list);
            }
            proof {
                let h = self.deep_view();
                assert(g.rdeps[id as int] + waiting(rdep) =~= h.rdeps[id as int]);
                assert(h.rdeps =~= g.rdeps.update(id as int, g.rdeps[id as int] + waiting(rdep)));
                law_task_indexed(g, target@, rdep);
                if g.well_formed() && (rdep matches Some(r) ==> r < g.tasks.len()) {
                    lemma_with_task(g, target@, rdep);
                }
            }
            return id;
        }
        let mut list: Vec<usize> = Vec::new();
        if let Some(r) = rdep {
            list.push(r);
        }
        assert(list.deep_view() =~= waiting(rdep));
        let id: usize = self.tasks.len();
        keep(&mut self.rdeps, list);
        keep(&mut self.tasks, Task::new(id, target.clone()));
        self.by_target.insert(target, id);
        proof {
            let h = self.deep_view();
            assert(h == with_task(g, target@, rdep).0);
            law_task_indexed(g, target@, rdep);
            if g.well_formed() && (rdep matches Some(r) ==> r < g.tasks.len()) {
                lemma_with_task(g, target@, rdep);
            }
        }
        id
    }

    /// Records that the task `id` failed, and with it every task that depends on it.
    pub fn mark_task_failure(&mut self, id: usize, root_cause: usize, result: BuildResult)
        requires
            old(self).deep_view().well_formed(),
            id < old(self).deep_view().tasks.len(),
            root_cause < old(self).deep_view().tasks.len(),
        ensures
            final(self).deep_view() == with_failure(
                old(self).deep_view(),
                id as int,
                root_cause as int,
                result.deep_view(),
            ),
            final(self).deep_view().well_formed(),
    {
        let ghost g = self.deep_view();
        let ghost all = with_failure(g, id as int, root_cause as int, result.deep_view());
        let marks = reachable(&self.rdeps, id);
        let message = cat2("failed to build dependency: ", self.tasks[root_cause].target.as_str());
        let mut t: usize = 0;
        while t < self.tasks.len()
            invariant
                t <= self.tasks.len(),
                self.tasks.deep_view().len() == g.tasks.len(),
                self.rdeps.deep_view() == g.rdeps,
                self.by_target.deep_view() == g.by_target,
                marks@.len() == g.tasks.len(),
                forall|u: int| 0 <= u < marks@.len() ==> (#[trigger] marks@[u] <==> depends(g.rdeps, id as int, u)),
                Outcome::Failure(message@) == dependency_failure(g.tasks[root_cause as int].target),
                all == with_failure(g, id as int, root_cause as int, result.deep_view()),
                forall|u: int| 0 <= u < t ==> #[trigger] self.tasks.deep_view()[u] == all.tasks[u],
                forall|u: int| t <= u < g.tasks.len() ==> #[trigger] self.tasks.deep_view()[u] == g.tasks[u],
            decreases self.tasks.len() - t,
        {
            let ghost before = self.tasks.deep_view();
            assert(before[t as int] == g.tasks[t as int]);
            if t == id || marks[t] {
                let mut task = self.tasks[t].duplicate();
                task.result = Some(
                    if t == id {
                        result.duplicate()
                    } else {
                        BuildResult::Failure(message.clone())
                    },
                );
                task.available = true;
                self.tasks.set(t, task);
                assert(self.tasks.deep_view() =~= before.update(t as int, task.deep_view()));
            }
            assert(self.tasks.deep_view()[t as int] =~= all.tasks[t as int]);
            t = t + 1;
        }
        proof {
            assert(self.tasks.deep_view() =~= all.tasks);
            let h = self.deep_view();
            assert(h =~= all);
            lemma_same_shape(g, h);
        }
    }

    /// Records that the task `id` was built.
    pub fn mark_build_success(&mut self, id: usize, result: BuildResult, hash: u64)
        requires
            old(self).deep_view().well_formed(),
            id < old(self).deep_view().tasks.len(),
            room_for_ready(old(self).deep_view(), id as int),
        ensures
            final(self).deep_view() == with_success(old(self).deep_view(), id as int, result.deep_view(), hash),
            final(self).deep_view().well_formed(),
    {
        let ghost g = self.deep_view();
        let ghost all = with_success(g, id as int, result.deep_view(), hash);
        let ghost list = g.rdeps[id as int];
        let mut task = self.tasks[id].duplicate();
        task.result = Some(result);
        task.available = true;
        let config = match task.config {
            Some(config) => {
                let mut config = config;
                config.hash = hash;
                Some(config)
            },
            None => None,
        };
        task.config = config;
        let ghost done = task.deep_view();
        self.tasks.set(id, task);
        let ghost tasks = g.tasks.update(id as int, done);
        assert(self.tasks.deep_view() =~= tasks);
        assert(done =~= (TaskModel {
            result: Some(result.deep_view()),
            available: true,
            config: match g.tasks[id as int].config {
                Some(config) => Some(ConfigModel { hash, ..config }),
                None => None,
            },
            ..g.tasks[id as int]
        }));
        let mut j: usize = 0;
        while j < self.rdeps[id].len()
            invariant
                g.well_formed(),
                id < g.tasks.len(),
                room_for_ready(g, id as int),
                list == g.rdeps[id as int],
                self.rdeps.deep_view() == g.rdeps,
                self.by_target.deep_view() == g.by_target,
                j <= list.len(),
                self.rdeps@.len() == g.rdeps.len(),
                self.rdeps@[id as int].deep_view() == list,
                tasks.len() == g.tasks.len(),
                self.tasks.deep_view().len() == tasks.len(),
                forall|t: int| 0 <= t < tasks.len() ==> (#[trigger] tasks[t]).dependencies_ready == g.tasks[t].dependencies_ready,
                forall|t: int|
                    0 <= t < tasks.len() ==> #[trigger] self.tasks.deep_view()[t] == (TaskModel {
                        dependencies_ready: (tasks[t].dependencies_ready + occurrences(list, t, j as int)) as usize,
                        ..tasks[t]
                    }),
            decreases list.len() - j,
        {
            let r: usize = self.rdeps[id][j];
            let ghost before = self.tasks.deep_view();
            proof {
                assert(g.rdeps[id as int][j as int] == r);
                lemma_occurrences(list, r as int, j as int);
                assert(g.tasks[r as int].dependencies_ready + list.len() <= usize::MAX);
                assert(before[r as int] == self.tasks@[r as int].deep_view());
                assert(tasks[r as int].dependencies_ready == g.tasks[r as int].dependencies_ready);
            }
            let mut waiting_task = self.tasks[r].duplicate();
            waiting_task.dependencies_ready = waiting_task.dependencies_ready + 1;
            self.tasks.set(r, waiting_task);
            assert(self.tasks.deep_view() =~= before.update(r as int, waiting_task.deep_view()));
            j = j + 1;
        }
        proof {
            assert forall|t: int| 0 <= t < tasks.len() implies #[trigger] self.tasks.deep_view()[t] == all.tasks[t] by {}
            assert(self.tasks.deep_view() =~= all.tasks);
            let h = self.deep_view();
            assert(h =~= all);
            lemma_same_shape(g, h);
        }
    }
}

/// A graph whose tasks keep their numbers and targets stays well formed.
pub proof fn lemma_same_shape(g: Graph, h: Graph)
    requires
        g.well_formed(),
        h.by_target == g.by_target,
        h.rdeps == g.rdeps,
        h.tasks.len() == g.tasks.len(),
        forall|t: int|
            0 <= t < g.tasks.len() ==> (#[trigger] h.tasks[t]).id == g.tasks[t].id && h.tasks[t].target == g.tasks[t].target,
    ensures
        h.well_formed(),
{
    assert forall|i: int| 0 <= i < h.tasks.len() implies (#[trigger] h.tasks[i]).id == i by {
        assert(g.tasks[i].id == i);
    }
    assert forall|i: int| 0 <= i < h.tasks.len() implies found(h.by_target, (#[trigger] h.tasks[i]).target) == Some(
        i as usize,
    ) by {
        assert(found(g.by_target, g.tasks[i].target) == Some(i as usize));
    }
    assert forall|target: Seq<char>| (#[trigger] found(h.by_target, target)) matches Some(id) ==> id < h.tasks.len()
        && h.tasks[id as int].target == target by {
        if let Some(id) = found(g.by_target, target) {
            assert(g.tasks[id as int].target == target);
        }
    }
    assert forall|i: int, j: int| 0 <= i < h.rdeps.len() && 0 <= j < h.rdeps[i].len() implies (#[trigger] h.rdeps[i][j])
        < h.tasks.len() by {
        assert(g.rdeps[i][j] < g.tasks.len());
    }
}

} // verus!
