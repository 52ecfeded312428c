//! Invocations: what is built when targets of a workspace are asked for.

use vstd::prelude::*;

use crate::assembly::{assembled, executor_for, Assembled, WorkspaceExecutor};
use crate::executor::{with_new_task, Builders};
use crate::graph::Graph;
use crate::host::{Halt, Known, Stop, World};
use crate::workspace::{expanded_targets, expanded_tests, workspace_from, Workspace};

verus! {

/// A build that is about to begin: what is built, the executor that does so,
/// and its tasks for what is built.
pub struct Invocation {
    pub targets: Vec<String>,
    pub executor: WorkspaceExecutor,
    pub roots: Vec<usize>,
}

/// What an `Invocation` is.
#[verifier::ext_equal]
pub struct Invoked {
    pub targets: Seq<Seq<char>>,
    pub executor: Assembled,
    pub tasks: Graph,
    pub roots: Seq<usize>,
}

pub open spec fn invoked(invocation: Invocation) -> Invoked {
    Invoked {
        targets: invocation.targets.deep_view(),
        executor: assembled(invocation.executor),
        tasks: invocation.executor.tasks.deep_view(),
        roots: invocation.roots@,
    }
}

/// A graph without tasks.
pub open spec fn no_tasks() -> Graph {
    Graph { tasks: Seq::empty(), by_target: Seq::empty(), rdeps: Seq::empty() }
}

/// The tasks for the first `n` of `targets`, and their numbers.
pub open spec fn root_tasks(builders: Builders, targets: Seq<Seq<char>>, n: int) -> (Graph, Seq<usize>)
    decreases n,
{
    if n <= 0 {
        (no_tasks(), Seq::empty())
    } else {
        let (g, ids) = root_tasks(builders, targets, n - 1);
        let (h, id) = with_new_task(g, builders, targets[n - 1], None);
        (h, ids.push(id))
    }
}

/// What is built in the directory `cwd` where `patterns` are asked for: all that
/// they stand for, or the tests among that.
pub open spec fn invocation(w: World, cwd: Seq<char>, patterns: Seq<Seq<char>>, tests: bool) -> Result<Invoked, Halt> {
    match workspace_from(w, cwd) {
        Err(stop) => Err(stop),
        Ok(ws) => match if tests {
            expanded_tests(w, ws, patterns)
        } else {
            expanded_targets(w, ws, patterns)
        } {
            Err(stop) => Err(stop),
            Ok(targets) => match executor_for(w, ws) {
                Err(stop) => Err(stop),
                Ok(executor) => {
                    let (tasks, roots) = root_tasks(executor.builder_names, targets, targets.len() as int);
                    Ok(Invoked { targets, executor, tasks, roots })
                },
            },
        },
    }
}

/// Whether `r` is what `expected` says. An executor to begin with is sound, and
/// every root is one of its tasks.
pub open spec fn begins_as(r: Result<Invocation, Stop>, expected: Result<Invoked, Halt>) -> bool {
    match r {
        Err(stop) => expected == Err::<Invoked, Halt>(stop.deep_view()),
        Ok(made) => {
            &&& expected == Ok::<Invoked, Halt>(invoked(made))
            &&& made.executor.well_formed()
            &&& forall|k: int|
                0 <= k < made.roots@.len() ==> (#[trigger] made.roots@[k]) < made.executor.tasks.deep_view().tasks.len()
        },
    }
}

/// An executor with tasks for `targets`.
fn begin(executor: WorkspaceExecutor, targets: Vec<String>) -> (r: Invocation)
    requires
        executor.well_formed(),
        executor.tasks.deep_view() == no_tasks(),
    ensures
        r.targets == targets,
        assembled(r.executor) == assembled(executor),
        r.executor.well_formed(),
        (r.executor.tasks.deep_view(), r.roots@) == root_tasks(
            executor.builder_names.deep_view(),
            targets.deep_view(),
            targets@.len() as int,
        ),
        forall|k: int|
            0 <= k < r.roots@.len() ==> (#[trigger] r.roots@[k]) < r.executor.tasks.deep_view().tasks.len(),
{
    let ghost first = executor;
    let ghost list = targets.deep_view();
    let mut executor = executor;
    let mut roots: Vec<usize> = Vec::new();
    let mut i: usize = 0;
    while i < targets.len()
        invariant
            i <= targets.len(),
            list == targets.deep_view(),
            executor.well_formed(),
            assembled(executor) == assembled(first),
            executor.builder_names == first.builder_names,
            (executor.tasks.deep_view(), roots@) == root_tasks(first.builder_names.deep_view(), list, i as int),
            executor.tasks.deep_view().tasks.len() <= i,
            forall|k: int|
                0 <= k < roots@.len() ==> (#[trigger] roots@[k]) < executor.tasks.deep_view().tasks.len(),
        decreases targets.len() - i,
    {
        assert(list[i as int] == targets@[i as int]@);
        let ghost before = executor.tasks.deep_view();
        let id: usize = executor.add_task(targets[i].clone(), None);
        proof {
            lemma_one_more(before, first.builder_names.deep_view(), list[i as int]);
        }
        roots.push(id);
        i = i + 1;
    }
    Invocation { targets, executor, roots }
}

/// A task that nothing waits for adds at most one to the tasks.
proof fn lemma_one_more(g: Graph, builders: Builders, target: Seq<char>)
    requires
        g.well_formed(),
    ensures
        g.tasks.len() <= with_new_task(g, builders, target, None).0.tasks.len() <= g.tasks.len() + 1,
{
}

/// What is built in the directory `cwd` where the targets `patterns` are asked
/// for.
pub fn build_targets_from_current_workspace(known: &Known, cwd: &str, patterns: &Vec<String>) -> (r: Result<
    Invocation,
    Stop,
>)
    ensures
        begins_as(r, invocation(known.deep_view(), cwd@, patterns.deep_view(), false)),
{
    let workspace = Workspace::load_from(known, cwd)?;
    let targets = workspace.expand_target_patterns(known, patterns)?;
    let executor = workspace.executor(known)?;
    Ok(begin(executor, targets))
}

/// The tests that are built in the directory `cwd` where the targets `patterns`
/// are asked for.
pub fn build_tests_from_current_workspace(known: &Known, cwd: &str, patterns: &Vec<String>) -> (r: Result<
    Invocation,
    Stop,
>)
    ensures
        begins_as(r, invocation(known.deep_view(), cwd@, patterns.deep_view(), true)),
{
    let workspace = Workspace::load_from(known, cwd)?;
    let targets = workspace.expand_test_patterns(known, patterns)?;
    let executor = workspace.executor(known)?;
    Ok(begin(executor, targets))
}

} // verus!
