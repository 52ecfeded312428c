//! The executor: which task is worked on next, and what its outcome changes.

use vstd::prelude::*;

use crate::context::{
    collected_config, context_hash, facts_in, fresh_context, with_rows, BuildConfigKey, Context, ContextModel, Logs,
};
use crate::digest::{append_u64, bytes_of_u64, number_in, parse_number, short_digest, short_digest_of};
use crate::error::{error, fault, outcome, Error, ErrorKind, Fault};
use crate::graph::{room_for_ready, waiting, with_failure, with_success, with_task, Graph, TaskGraph};
use crate::model::{
    merged_results, no_output, BuildOutput, BuildResult, Config, ConfigModel, DependencyPlan, ExternalRequirement, Outcome,
    Output, Plan, Requirement,
};
use crate::table::{found, with_row, Table};
use crate::task::{stage_of, status_of, Task, TaskModel, TaskStatus};
use crate::text::{cat2, cat3, join, joined, keep, lines, lines_in, same, Duplicate};

verus! {

/// A build: its context, its tasks, and the plugins that work on them. Plugins
/// are only kept here; what they answer is handed to the methods.
pub struct Executor<R, P, B> {
    pub context: Context,
    pub tasks: TaskGraph,
    pub logs: Logs,
    pub resolvers: Vec<R>,
    pub dependency_planners: Vec<(String, P)>,
    pub builder_names: Table<usize>,
    pub builders: Vec<B>,
}

/// What a worker does next.
pub enum WorkItem {
    Task(Task),
    Done,
    Deadlocked(String),
    Wait,
}

/// What a `WorkItem` says.
#[verifier::ext_equal]
pub enum Work {
    Task(TaskModel),
    Done,
    Deadlocked(Seq<char>),
    Wait,
}

impl DeepView for WorkItem {
    type V = Work;

    open spec fn deep_view(&self) -> Work {
        match self {
            WorkItem::Task(task) => Work::Task(task.deep_view()),
            WorkItem::Done => Work::Done,
            WorkItem::Deadlocked(reason) => Work::Deadlocked(reason@),
            WorkItem::Wait => Work::Wait,
        }
    }
}

/// What has come of a build: the first task that is not done, or the result.
pub enum Collected {
    Waiting(usize),
    Finished(BuildResult),
}

/// What a `Collected` says.
#[verifier::ext_equal]
pub enum Collection {
    Waiting(usize),
    Finished(Outcome),
}

impl DeepView for Collected {
    type V = Collection;

    open spec fn deep_view(&self) -> Collection {
        match self {
            Collected::Waiting(id) => Collection::Waiting(*id),
            Collected::Finished(result) => Collection::Finished(result.deep_view()),
        }
    }
}

/// Where the plugin that builds a target comes from: it is registered, or it
/// is to be loaded from a file that was built.
pub enum PluginSource {
    Registered(usize),
    Load(String),
}

/// What a `PluginSource` says.
#[verifier::ext_equal]
pub enum Source {
    Registered(usize),
    Load(Seq<char>),
}

impl DeepView for PluginSource {
    type V = Source;

    open spec fn deep_view(&self) -> Source {
        match self {
            PluginSource::Registered(i) => Source::Registered(*i),
            PluginSource::Load(path) => Source::Load(path@),
        }
    }
}

/// What a target is built from: the outputs of its dependencies, and a hash of
/// their configurations.
pub struct BuildInputs {
    pub dep_hash: u64,
    pub outputs: Table<BuildOutput>,
}

/// The numbers of the plugins that build, by the target that each is.
pub type Builders = Seq<(Seq<char>, usize)>;

/// `g` with a task for `target` that `rdep` waits for; a new task for a target
/// that is a registered plugin is done at once.
pub open spec fn with_new_task(g: Graph, builders: Builders, target: Seq<char>, rdep: Option<usize>) -> (Graph, usize) {
    let (h, id) = with_task(g, target, rdep);
    if found(g.by_target, target) is None && found(builders, target) is Some {
        (with_success(h, id as int, Outcome::Success(no_output()), 0), id)
    } else {
        (h, id)
    }
}

/// `g` with tasks for the first `n` of `deps`, all of which the task `id` waits
/// for, and their numbers.
pub open spec fn with_dependencies(g: Graph, builders: Builders, deps: Seq<Seq<char>>, id: usize, n: int) -> (
    Graph,
    Seq<usize>,
)
    decreases n,
{
    if n <= 0 {
        (g, Seq::empty())
    } else {
        let (before, ids) = with_dependencies(g, builders, deps, id, n - 1);
        let (after, dep) = with_new_task(before, builders, deps[n - 1], Some(id));
        (after, ids.push(dep))
    }
}

/// How many of the first `n` of `ids` are done.
pub open spec fn done_among(g: Graph, ids: Seq<usize>, n: int) -> int
    decreases n,
{
    if n <= 0 {
        0
    } else {
        done_among(g, ids, n - 1) + (if status_of(g.tasks[ids[n - 1] as int]) == TaskStatus::Done {
            1int
        } else {
            0
        })
    }
}

/// `g` after the task `id` was resolved to `config` with the dependencies `deps`.
pub open spec fn with_resolution(g: Graph, builders: Builders, id: usize, config: ConfigModel, deps: Seq<Seq<char>>) -> Graph {
    let (h, ids) = with_dependencies(g, builders, deps, id, deps.len() as int);
    let task = TaskModel {
        dependencies: ids,
        dependencies_ready: done_among(h, ids, ids.len() as int) as usize,
        config: Some(config),
        available: true,
        ..h.tasks[id as int]
    };
    Graph { tasks: h.tasks.update(id as int, task), ..h }
}

/// What a task fails with where no plugin resolves its target.
pub open spec fn unresolvable(target: Seq<char>) -> Outcome {
    Outcome::Failure("no resolver available for target "@ + target)
}

/// `g` after the task `id` was given to the resolvers, with the answer of the
/// first that resolves its target, if there is one.
pub open spec fn with_answer(
    g: Graph,
    builders: Builders,
    id: usize,
    answer: Option<Result<ConfigModel, Fault>>,
    deps: Seq<Seq<char>>,
) -> Graph {
    match answer {
        None => with_failure(g, id as int, id as int, unresolvable(g.tasks[id as int].target)),
        Some(Err(e)) => with_failure(
            g,
            id as int,
            id as int,
            Outcome::Failure("target resolution failed:\n"@ + e.message),
        ),
        Some(Ok(config)) => with_resolution(g, builders, id, config, deps),
    }
}

/// Whether work can be done on a task.
pub open spec fn workable(task: TaskModel) -> bool {
    status_of(task) == TaskStatus::Resolving || status_of(task) == TaskStatus::Building
}

/// The first of the tasks `tasks[i..]` that waits to be worked on; their number
/// where there is none.
pub open spec fn first_workable(tasks: Seq<TaskModel>, i: int) -> int
    decreases tasks.len() - i,
{
    if i >= tasks.len() {
        tasks.len() as int
    } else if tasks[i].available && workable(tasks[i]) {
        i
    } else {
        first_workable(tasks, i + 1)
    }
}

/// `g` with the task `i` taken.
pub open spec fn with_taken(g: Graph, i: int) -> Graph {
    Graph { tasks: g.tasks.update(i, TaskModel { available: false, ..g.tasks[i] }), ..g }
}

/// Whether all tasks are done.
pub open spec fn all_done(g: Graph) -> bool {
    forall|i: int| 0 <= i < g.tasks.len() ==> status_of(#[trigger] g.tasks[i]) == TaskStatus::Done
}

/// Whether a task is being worked on.
pub open spec fn some_running(g: Graph) -> bool {
    exists|i: int| 0 <= i < g.tasks.len() && !(#[trigger] g.tasks[i]).available && workable(g.tasks[i])
}

/// The targets of those of the first `n` tasks that are not done.
pub open spec fn unfinished(tasks: Seq<TaskModel>, n: int) -> Seq<Seq<char>>
    decreases n,
{
    if n <= 0 {
        Seq::empty()
    } else if status_of(tasks[n - 1]) != TaskStatus::Done {
        unfinished(tasks, n - 1).push(tasks[n - 1].target)
    } else {
        unfinished(tasks, n - 1)
    }
}

/// What a worker does next on `g`, and the graph once it has taken it on.
pub open spec fn next_work(g: Graph) -> (Graph, Work) {
    let i = first_workable(g.tasks, 0);
    if i < g.tasks.len() {
        let h = with_taken(g, i);
        (h, Work::Task(h.tasks[i]))
    } else if all_done(g) {
        (g, Work::Done)
    } else if some_running(g) {
        (g, Work::Wait)
    } else {
        (
            g,
            Work::Deadlocked(
                "build graph deadlocked; waiting on "@ + joined(unfinished(g.tasks, g.tasks.len() as int), ", "@),
            ),
        )
    }
}

proof fn lemma_first_workable(tasks: Seq<TaskModel>, i: int)
    requires
        0 <= i <= tasks.len(),
    ensures
        i <= first_workable(tasks, i) <= tasks.len(),
        first_workable(tasks, i) < tasks.len() ==> tasks[first_workable(tasks, i)].available && workable(
            tasks[first_workable(tasks, i)],
        ),
    decreases tasks.len() - i,
{
    if i < tasks.len() && !(tasks[i].available && workable(tasks[i])) {
        lemma_first_workable(tasks, i + 1);
    }
}

/// A task that was taken is not taken again before it is made available.
pub proof fn law_taken_once(g: Graph)
    ensures
        next_work(g).1 is Task ==> {
            let i = first_workable(g.tasks, 0);
            &&& g.tasks[i].available
            &&& !next_work(g).0.tasks[i].available
            &&& first_workable(next_work(g).0.tasks, 0) != i
        },
{
    lemma_first_workable(g.tasks, 0);
    lemma_first_workable(next_work(g).0.tasks, 0);
}

/// A build is said to be deadlocked only while no task is worked on, none can
/// be, and not all are done.
pub proof fn law_deadlock(g: Graph)
    ensures
        next_work(g).1 is Deadlocked ==> {
            &&& !some_running(g)
            &&& !all_done(g)
            &&& forall|i: int| 0 <= i < g.tasks.len() ==> !((#[trigger] g.tasks[i]).available && workable(g.tasks[i]))
        },
{
    lemma_no_workable(g.tasks, 0);
}

proof fn lemma_no_workable(tasks: Seq<TaskModel>, i: int)
    requires
        0 <= i <= tasks.len(),
    ensures
        first_workable(tasks, i) >= tasks.len() ==> forall|j: int|
            i <= j < tasks.len() ==> !((#[trigger] tasks[j]).available && workable(tasks[j])),
    decreases tasks.len() - i,
{
    if i < tasks.len() {
        lemma_no_workable(tasks, i + 1);
    }
}

/// The first of the tasks `tasks[i..]` that is to be resolved before external
/// dependencies are planned: a target that is not locked and that a planner
/// plans is left until then.
pub open spec fn first_to_plan(
    tasks: Seq<TaskModel>,
    lockfile: Seq<(Seq<char>, Seq<char>)>,
    can_plan: Seq<bool>,
    i: int,
) -> int
    decreases tasks.len() - i,
{
    if i >= tasks.len() {
        tasks.len() as int
    } else if tasks[i].available && status_of(tasks[i]) == TaskStatus::Resolving && !(can_plan[i] && found(
        lockfile,
        tasks[i].target,
    ) is None) {
        i
    } else {
        first_to_plan(tasks, lockfile, can_plan, i + 1)
    }
}

/// `rows` with one more requirement under its ecosystem.
pub open spec fn with_required(rows: Seq<(Seq<char>, Seq<Requirement>)>, r: Requirement) -> Seq<
    (Seq<char>, Seq<Requirement>),
> {
    with_row(rows, r.ecosystem, found(rows, r.ecosystem).unwrap_or(Seq::empty()).push(r))
}

/// `rows` with the first `n` of `requirements`.
pub open spec fn with_all_required(
    rows: Seq<(Seq<char>, Seq<Requirement>)>,
    requirements: Seq<Requirement>,
    n: int,
) -> Seq<(Seq<char>, Seq<Requirement>)>
    decreases n,
{
    if n <= 0 {
        rows
    } else {
        with_required(with_all_required(rows, requirements, n - 1), requirements[n - 1])
    }
}

/// What the first `n` tasks require, by ecosystem.
pub open spec fn required_by(tasks: Seq<TaskModel>, n: int) -> Seq<(Seq<char>, Seq<Requirement>)>
    decreases n,
{
    if n <= 0 {
        Seq::empty()
    } else {
        let before = required_by(tasks, n - 1);
        match tasks[n - 1].config {
            Some(config) => with_all_required(
                before,
                config.external_requirements,
                config.external_requirements.len() as int,
            ),
            None => before,
        }
    }
}

/// What the planner of an ecosystem is asked to plan; the planner goes by its
/// number, and there may be none.
pub struct PlanRequest {
    pub ecosystem: String,
    pub planner: Option<usize>,
    pub requirements: Vec<ExternalRequirement>,
}

/// What a `PlanRequest` says.
#[verifier::ext_equal]
pub struct PlanQuestion {
    pub ecosystem: Seq<char>,
    pub planner: Option<usize>,
    pub requirements: Seq<Requirement>,
}

impl DeepView for PlanRequest {
    type V = PlanQuestion;

    open spec fn deep_view(&self) -> PlanQuestion {
        PlanQuestion {
            ecosystem: self.ecosystem@,
            planner: self.planner,
            requirements: self.requirements.deep_view(),
        }
    }
}

/// The position of the first `name` in `list[i..]`.
pub open spec fn first_called(list: Seq<Seq<char>>, name: Seq<char>, i: int) -> Option<usize>
    decreases list.len() - i,
{
    if i >= list.len() {
        None
    } else if list[i] == name {
        Some(i as usize)
    } else {
        first_called(list, name, i + 1)
    }
}

/// What is asked of the planners of the ecosystems `planners`: one question for
/// each ecosystem that a task requires something of, none once a task has failed.
pub open spec fn plan_questions(g: Graph, planners: Seq<Seq<char>>) -> Seq<PlanQuestion> {
    if failed_task(g) {
        Seq::empty()
    } else {
        required_by(g.tasks, g.tasks.len() as int).map_values(
            |row: (Seq<char>, Seq<Requirement>)|
                PlanQuestion { ecosystem: row.0, planner: first_called(planners, row.0, 0), requirements: row.1 },
        )
    }
}

/// What the planner of an ecosystem answered; nothing where there is no planner.
pub struct PlanReply {
    pub ecosystem: String,
    pub plan: Option<Result<DependencyPlan, Error>>,
}

/// What a `PlanReply` says.
#[verifier::ext_equal]
pub struct Reply {
    pub ecosystem: Seq<char>,
    pub plan: Option<Result<Plan, Fault>>,
}

impl DeepView for PlanReply {
    type V = Reply;

    open spec fn deep_view(&self) -> Reply {
        Reply {
            ecosystem: self.ecosystem@,
            plan: match self.plan {
                Some(plan) => Some(outcome(plan)),
                None => None,
            },
        }
    }
}

/// `plan` with what the replies `replies[i..]` add.
pub open spec fn with_replies(plan: Plan, replies: Seq<Reply>, i: int) -> Result<Plan, Fault>
    decreases replies.len() - i,
{
    if i >= replies.len() {
        Ok(plan)
    } else {
        match replies[i].plan {
            None => Err(
                fault(
                    ErrorKind::NotFound,
                    "no dependency planner registered for ecosystem "@ + replies[i].ecosystem,
                ),
            ),
            Some(Err(e)) => Err(e),
            Some(Ok(more)) => with_replies(
                Plan {
                    lockfile: with_rows(plan.lockfile, more.lockfile),
                    locked_dependencies: with_rows(plan.locked_dependencies, more.locked_dependencies),
                },
                replies,
                i + 1,
            ),
        }
    }
}

/// Whether a task of `g` has failed.
pub open spec fn failed_task(g: Graph) -> bool {
    exists|i: int| 0 <= i < g.tasks.len() && (#[trigger] g.tasks[i]).result matches Some(Outcome::Failure(_))
}

/// `context` with what the planners answered.
pub open spec fn planned(context: ContextModel, failed: bool, replies: Seq<Reply>) -> Result<ContextModel, Fault> {
    let start = Plan { lockfile: context.lockfile, locked_dependencies: context.locked_dependencies };
    if failed || replies.len() == 0 {
        Ok(context)
    } else {
        match with_replies(start, replies, 0) {
            Err(e) => Err(e),
            Ok(plan) => Ok(
                ContextModel {
                    lockfile: plan.lockfile,
                    locked_dependencies: plan.locked_dependencies,
                    hash: context_hash(context.config, context.tool_fingerprints) as u64,
                    ..context
                },
            ),
        }
    }
}

/// What a build does once the planners have answered: it is over, or the
/// workers go to work.
pub enum RunStep {
    Finished(BuildResult),
    Work,
}

/// What a `RunStep` says.
#[verifier::ext_equal]
pub enum Stage {
    Finished(Outcome),
    Work,
}

impl DeepView for RunStep {
    type V = Stage;

    open spec fn deep_view(&self) -> Stage {
        match self {
            RunStep::Finished(result) => Stage::Finished(result.deep_view()),
            RunStep::Work => Stage::Work,
        }
    }
}

/// What a build with the tasks `g` does once planning has come to `planning`.
pub open spec fn next_stage(g: Graph, roots: Seq<usize>, planning: Result<ContextModel, Fault>) -> Stage {
    match planning {
        Err(e) => Stage::Finished(Outcome::Failure("dependency planning failed:\n"@ + e.message)),
        Ok(_) => if all_done(g) {
            match collected(g.tasks, roots, 0) {
                Collection::Finished(result) => Stage::Finished(result),
                Collection::Waiting(_) => Stage::Work,
            }
        } else {
            Stage::Work
        },
    }
}

/// What is known of a target when its build begins: the plugin that builds
/// it, what it is called, and what it is built from.
pub struct BuildStart {
    pub plugin: PluginSource,
    pub kind: String,
    pub inputs: BuildInputs,
}

/// A task after the hash of its configuration has become `hash`.
pub open spec fn hashed(task: TaskModel, hash: u64) -> TaskModel {
    TaskModel {
        config: match task.config {
            Some(config) => Some(ConfigModel { hash, ..config }),
            None => None,
        },
        ..task
    }
}

/// What has come of a build whose roots are `roots`.
pub open spec fn collected(tasks: Seq<TaskModel>, roots: Seq<usize>, i: int) -> Collection
    decreases tasks.len() - i,
{
    if i >= tasks.len() {
        Collection::Finished(merged_results(roots.map_values(|root: usize| tasks[root as int].result.unwrap())))
    } else {
        match tasks[i].result {
            None => Collection::Waiting(i as usize),
            Some(Outcome::Failure(reason)) => Collection::Finished(Outcome::Failure(reason)),
            Some(Outcome::Success(_)) => collected(tasks, roots, i + 1),
        }
    }
}

/// A build whose tasks are all done has a result.
pub proof fn law_done_is_collected(g: Graph, roots: Seq<usize>)
    requires
        all_done(g),
    ensures
        collected(g.tasks, roots, 0) is Finished,
{
    lemma_collected(g, roots, 0);
}

proof fn lemma_collected(g: Graph, roots: Seq<usize>, i: int)
    requires
        all_done(g),
        0 <= i <= g.tasks.len(),
    ensures
        collected(g.tasks, roots, i) is Finished,
    decreases g.tasks.len() - i,
{
    if i < g.tasks.len() {
        assert(status_of(g.tasks[i]) == TaskStatus::Done);
        lemma_collected(g, roots, i + 1);
    }
}

/// Whether all of `tasks[i..]` have been built.
pub open spec fn all_succeeded(tasks: Seq<TaskModel>, i: int) -> bool {
    forall|j: int|
        i <= j < tasks.len() ==> (#[trigger] tasks[j]).result is Some && tasks[j].result->0 is Success
}

/// A build succeeds just where all of its tasks have been built.
pub proof fn law_success_is_of_all(g: Graph, roots: Seq<usize>)
    requires
        forall|k: int| 0 <= k < roots.len() ==> (#[trigger] roots[k]) < g.tasks.len(),
    ensures
        all_succeeded(g.tasks, 0) <==> collected(g.tasks, roots, 0) is Finished && collected(
            g.tasks,
            roots,
            0,
        )->Finished_0 is Success,
{
    lemma_success(g.tasks, roots, 0);
}

proof fn lemma_success(tasks: Seq<TaskModel>, roots: Seq<usize>, i: int)
    requires
        0 <= i <= tasks.len(),
        forall|k: int| 0 <= k < roots.len() ==> (#[trigger] roots[k]) < tasks.len(),
        forall|j: int| 0 <= j < i ==> (#[trigger] tasks[j]).result is Some && tasks[j].result->0 is Success,
    ensures
        all_succeeded(tasks, i) <==> collected(tasks, roots, i) is Finished && collected(
            tasks,
            roots,
            i,
        )->Finished_0 is Success,
    decreases tasks.len() - i,
{
    if i >= tasks.len() {
        let results = roots.map_values(|root: usize| tasks[root as int].result.unwrap());
        assert forall|k: int| 0 <= k < results.len() implies (#[trigger] results[k]) is Success by {
            assert(roots[k] < tasks.len());
        }
        lemma_merged_success(results);
    } else if tasks[i].result is Some && tasks[i].result->0 is Success {
        lemma_success(tasks, roots, i + 1);
    } else {
        assert(!all_succeeded(tasks, i));
    }
}

proof fn lemma_merged_success(results: Seq<Outcome>)
    requires
        forall|k: int| 0 <= k < results.len() ==> (#[trigger] results[k]) is Success,
    ensures
        merged_results(results) is Success,
    decreases results.len(),
{
    if results.len() > 0 {
        assert(results.last() is Success);
        lemma_merged_success(results.drop_last());
    }
}

/// Where the plugin `name` comes from; `None` where it is neither registered
/// nor built.
pub open spec fn source_of(builders: Builders, g: Graph, name: Seq<char>) -> Option<Source> {
    match found(builders, name) {
        Some(i) => Some(Source::Registered(i)),
        None => match found(g.by_target, name) {
            None => None,
            Some(id) => match g.tasks[id as int].result {
                Some(Outcome::Success(output)) => if output.outputs.len() > 0 {
                    Some(Source::Load(output.outputs[0]))
                } else {
                    None
                },
                _ => None,
            },
        },
    }
}

/// The hashes of the configurations of the first `n` of `deps`, one behind the
/// other; `None` where one of them has not been built.
pub open spec fn input_bytes(g: Graph, deps: Seq<Seq<char>>, n: int) -> Option<Seq<u8>>
    decreases n,
{
    if n <= 0 {
        Some(Seq::empty())
    } else {
        match (input_bytes(g, deps, n - 1), built_task(g, deps[n - 1])) {
            (Some(before), Some((task, _))) => match task.config {
                Some(config) => Some(before + bytes_of_u64(config.hash)),
                None => Some(before),
            },
            _ => None,
        }
    }
}

/// The task of `target` and its output, where it has been built.
pub open spec fn built_task(g: Graph, target: Seq<char>) -> Option<(TaskModel, Output)> {
    match found(g.by_target, target) {
        None => None,
        Some(id) => match g.tasks[id as int].result {
            Some(Outcome::Success(output)) => Some((g.tasks[id as int], output)),
            _ => None,
        },
    }
}

/// The outputs of the first `n` of `deps`, by target.
pub open spec fn input_outputs(g: Graph, deps: Seq<Seq<char>>, n: int) -> Seq<(Seq<char>, Output)>
    decreases n,
{
    if n <= 0 {
        Seq::empty()
    } else {
        match built_task(g, deps[n - 1]) {
            Some((task, output)) => with_row(input_outputs(g, deps, n - 1), task.target, output),
            None => input_outputs(g, deps, n - 1),
        }
    }
}

/// Whether `inputs` are what a target with the dependencies `deps` is built from.
pub open spec fn inputs_of(g: Graph, deps: Seq<Seq<char>>, inputs: Option<BuildInputs>) -> bool {
    match input_bytes(g, deps, deps.len() as int) {
        None => inputs is None,
        Some(bytes) => {
            &&& inputs is Some
            &&& inputs->0.dep_hash == short_digest(bytes)
            &&& inputs->0.outputs.deep_view() == input_outputs(g, deps, deps.len() as int)
        },
    }
}

proof fn lemma_inputs_missing(g: Graph, deps: Seq<Seq<char>>, n: int)
    requires
        0 <= n <= deps.len(),
        input_bytes(g, deps, n) is None,
    ensures
        input_bytes(g, deps, deps.len() as int) is None,
    decreases deps.len() - n,
{
    if n < deps.len() {
        lemma_inputs_missing(g, deps, n + 1);
    }
}

/// What is called the kind of a target: its plugin where it names none.
pub open spec fn kind_of(config: ConfigModel) -> Seq<char> {
    if config.kind.len() == 0 {
        config.build_plugin
    } else {
        config.kind
    }
}

pub fn target_kind(config: &Config) -> (r: String)
    ensures
        r@ == kind_of(config.deep_view()),
{
    if config.kind.as_str().is_empty() {
        config.build_plugin.clone()
    } else {
        config.kind.clone()
    }
}

/// `g` after the build of the task `id` ended with `result`.
pub open spec fn with_build(g: Graph, id: int, result: Outcome, hash: u64) -> Graph {
    match result {
        Outcome::Success(_) => with_success(g, id, result, hash),
        Outcome::Failure(_) => with_failure(g, id, id, result),
    }
}

/// Each line of `message` behind four spaces.
pub open spec fn indented(message: Seq<char>) -> Seq<Seq<char>> {
    lines_in(message).map_values(|line: Seq<char>| "    "@ + line)
}

/// The lines of all of `messages`, indented.
pub open spec fn all_indented(messages: Seq<Seq<char>>, n: int) -> Seq<Seq<char>>
    decreases n,
{
    if n <= 0 {
        Seq::empty()
    } else {
        all_indented(messages, n - 1) + indented(messages[n - 1])
    }
}

/// What is reported of a task that failed.
pub open spec fn report(task: TaskModel, result: Outcome, logs: Option<Seq<Seq<char>>>) -> Seq<Seq<char>> {
    let head = seq![
        "\n[cbs] error: "@ + (if stage_of(task) == TaskStatus::Resolving {
            "resolve"@
        } else {
            "build"@
        }) + " failed"@,
        "  target: "@ + task.target,
    ];
    let reason = match result {
        Outcome::Failure(message) => seq!["  reason:"@] + indented(message),
        Outcome::Success(_) => Seq::empty(),
    };
    let log = match logs {
        Some(messages) => seq!["  logs:"@] + all_indented(messages, messages.len() as int),
        None => Seq::empty(),
    };
    head + reason + log
}

fn add_indented(out: &mut Vec<String>, message: &str)
    ensures
        final(out).deep_view() == old(out).deep_view() + indented(message@),
{
    let list = lines(message);
    let ghost all = indented(message@);
    let mut i: usize = 0;
    assert(out.deep_view() =~= old(out).deep_view() + all.take(0));
    while i < list.len()
        invariant
            i <= list.len(),
            list.deep_view() == lines_in(message@),
            all == indented(message@),
            out.deep_view() == old(out).deep_view() + all.take(i as int),
        decreases list.len() - i,
    {
        assert(all[i as int] == "    "@ + list.deep_view()[i as int]);
        keep(out, cat2("    ", list[i].as_str()));
        i = i + 1;
        assert(out.deep_view() =~= old(out).deep_view() + all.take(i as int));
    }
    assert(all.take(i as int) =~= all);
}

/// How many workers a build has: as many as `jobs` asks for, where it is a
/// number above zero, and else as many as can run at once.
pub open spec fn workers(jobs: Option<Seq<char>>, available: usize) -> int {
    match jobs {
        None => available as int,
        Some(text) => match number_in(text, usize::MAX as int) {
            Ok(n) => if n > 0 {
                n
            } else {
                available as int
            },
            Err(_) => available as int,
        },
    }
}

pub fn worker_count(jobs: Option<&str>, available: usize) -> (r: usize)
    ensures
        r == workers(jobs.deep_view(), available),
{
    match jobs {
        None => available,
        Some(text) => match parse_number(text, usize::MAX as u64) {
            Ok(n) => if n > 0 {
                n as usize
            } else {
                available
            },
            Err(_) => available,
        },
    }
}

impl<R, P, B> Executor<R, P, B> {
    /// Whether the graph is well formed and every registered plugin is there.
    pub open spec fn well_formed(&self) -> bool {
        &&& self.tasks.deep_view().well_formed()
        &&& forall|name: Seq<char>| (#[trigger] found(self.builder_names.deep_view(), name)) matches Some(i) ==> i
            < self.builders@.len()
    }

    pub fn new() -> (r: Self)
        ensures
            r.well_formed(),
            r.context.deep_view() == (ContextModel {
                hash: context_hash(Seq::empty(), Seq::empty()) as u64,
                ..fresh_context("/tmp/cache"@, Seq::empty())
            }),
            r.tasks.deep_view() == (Graph { tasks: Seq::empty(), by_target: Seq::empty(), rdeps: Seq::empty() }),
            r.logs.deep_view() == Seq::<(Seq<char>, Seq<Seq<char>>)>::empty(),
            r.resolvers@ == Seq::<R>::empty(),
            r.dependency_planners@ == Seq::<(String, P)>::empty(),
            r.builder_names.deep_view() == Seq::<(Seq<char>, usize)>::empty(),
            r.builders@ == Seq::<B>::empty(),
    {
        let config: Vec<(BuildConfigKey, String)> = Vec::new();
        Self::with_config(config)
    }

    pub fn with_config(config: Vec<(BuildConfigKey, String)>) -> (r: Self)
        ensures
            r.well_formed(),
            r.context.deep_view() == (ContextModel {
                hash: context_hash(collected_config(facts_in(config@)), Seq::empty()) as u64,
                ..fresh_context("/tmp/cache"@, collected_config(facts_in(config@)))
            }),
            r.tasks.deep_view() == (Graph { tasks: Seq::empty(), by_target: Seq::empty(), rdeps: Seq::empty() }),
            r.logs.deep_view() == Seq::<(Seq<char>, Seq<Seq<char>>)>::empty(),
            r.resolvers@ == Seq::<R>::empty(),
            r.dependency_planners@ == Seq::<(String, P)>::empty(),
            r.builder_names.deep_view() == Seq::<(Seq<char>, usize)>::empty(),
            r.builders@ == Seq::<B>::empty(),
    {
        let mut context = Context::new("/tmp/cache".to_owned(), config);
        let _hash: u64 = context.calculate_hash();
        Self::with_context(context)
    }

    pub fn with_context(context: Context) -> (r: Self)
        ensures
            r.well_formed(),
            r.context == context,
            r.tasks.deep_view() == (Graph { tasks: Seq::empty(), by_target: Seq::empty(), rdeps: Seq::empty() }),
            r.logs.deep_view() == Seq::<(Seq<char>, Seq<Seq<char>>)>::empty(),
            r.resolvers@ == Seq::<R>::empty(),
            r.dependency_planners@ == Seq::<(String, P)>::empty(),
            r.builder_names.deep_view() == Seq::<(Seq<char>, usize)>::empty(),
            r.builders@ == Seq::<B>::empty(),
    {
        Executor {
            context,
            tasks: TaskGraph::new(),
            logs: Table::new(),
            resolvers: Vec::new(),
            dependency_planners: Vec::new(),
            builder_names: Table::new(),
            builders: Vec::new(),
        }
    }

    pub fn add_resolver_plugin(&mut self, resolver: R)
        ensures
            *final(self) == (Executor { resolvers: final(self).resolvers, ..*old(self) }),
            final(self).resolvers@ == old(self).resolvers@.push(resolver),
    {
        self.resolvers.push(resolver);
    }

    /// Registers the planner of an ecosystem.
    pub fn add_dependency_planner_plugin(&mut self, ecosystem: String, planner: P)
        ensures
            *final(self) == (Executor { dependency_planners: final(self).dependency_planners, ..*old(self) }),
            final(self).dependency_planners@ == old(self).dependency_planners@.push((ecosystem, planner)),
    {
        self.dependency_planners.push((ecosystem, planner));
    }

    /// Registers the plugin that the target `target` is.
    pub fn add_builder_plugin(&mut self, target: String, builder: B)
        requires
            old(self).well_formed(),
        ensures
            final(self).well_formed(),
            *final(self) == (Executor {
                builders: final(self).builders,
                builder_names: final(self).builder_names,
                ..*old(self)
            }),
            final(self).builders@ == old(self).builders@.push(builder),
            final(self).builder_names.deep_view() == with_row(
                old(self).builder_names.deep_view(),
                target@,
                old(self).builders@.len() as usize,
            ),
    {
        let i: usize = self.builders.len();
        let ghost before = self.builder_names.deep_view();
        self.builders.push(builder);
        self.builder_names.insert(target, i);
        proof {
            assert forall|name: Seq<char>|
                (#[trigger] found(self.builder_names.deep_view(), name)) matches Some(k) ==> k < self.builders@.len() by {
                crate::table::law_with_row(before, target@, i, name);
            }
        }
    }

    /// The ecosystems of the registered planners.
    pub open spec fn planned_ecosystems(&self) -> Seq<Seq<char>> {
        self.dependency_planners@.map_values(|planner: (String, P)| planner.0@)
    }

    /// The number of the first registered planner of an ecosystem.
    pub fn planner_for(&self, ecosystem: &str) -> (r: Option<usize>)
        ensures
            r == first_called(self.planned_ecosystems(), ecosystem@, 0),
            match r {
                Some(i) => i < self.dependency_planners@.len() && self.dependency_planners@[i as int].0@ == ecosystem@
                    && forall|j: int| 0 <= j < i ==> (#[trigger] self.dependency_planners@[j]).0@ != ecosystem@,
                None => forall|j: int|
                    0 <= j < self.dependency_planners@.len() ==> (#[trigger] self.dependency_planners@[j]).0@ != ecosystem@,
            },
    {
        let ghost list = self.planned_ecosystems();
        let mut i: usize = 0;
        while i < self.dependency_planners.len()
            invariant
                i <= self.dependency_planners@.len(),
                list == self.planned_ecosystems(),
                first_called(list, ecosystem@, 0) == first_called(list, ecosystem@, i as int),
                forall|j: int| 0 <= j < i ==> (#[trigger] self.dependency_planners@[j]).0@ != ecosystem@,
            decreases self.dependency_planners.len() - i,
        {
            assert(list[i as int] == self.dependency_planners@[i as int].0@);
            if same(self.dependency_planners[i].0.as_str(), ecosystem) {
                return Some(i);
            }
            i = i + 1;
        }
        None
    }

    pub fn add_task(&mut self, target: String, rdep: Option<usize>) -> (id: usize)
        requires
            old(self).well_formed(),
            old(self).tasks.deep_view().tasks.len() < usize::MAX,
            rdep matches Some(r) ==> r < old(self).tasks.deep_view().tasks.len(),
            rdep is Some ==> forall|t: int|
                0 <= t < old(self).tasks.deep_view().tasks.len() ==> (
                #[trigger] old(self).tasks.deep_view().tasks[t]).dependencies_ready < usize::MAX,
        ensures
            final(self).well_formed(),
            *final(self) == (Executor { tasks: final(self).tasks, ..*old(self) }),
            (final(self).tasks.deep_view(), id) == with_new_task(
                old(self).tasks.deep_view(),
                old(self).builder_names.deep_view(),
                target@,
                rdep,
            ),
            id < final(self).tasks.deep_view().tasks.len(),
    {
        let ghost g = self.tasks.deep_view();
        let is_builder = self.builder_names.has(target.as_str());
        let exists_already = self.tasks.by_target.has(target.as_str());
        let id: usize = self.tasks.add_task(target, rdep);
        if !exists_already && is_builder {
            proof {
                let h = self.tasks.deep_view();
                assert forall|t: int| 0 <= t < h.tasks.len() implies (#[trigger] h.tasks[t]).dependencies_ready
                    + h.rdeps[id as int].len() <= usize::MAX by {
                    if t < g.tasks.len() {
                        assert(h.tasks[t] == g.tasks[t]);
                    }
                }
            }
            self.tasks.mark_build_success(id, BuildResult::noop(), 0);
        }
        id
    }

    /// Records that the task `id` was built.
    pub fn mark_build_success(&mut self, id: usize, result: BuildResult, hash: u64)
        requires
            old(self).well_formed(),
            id < old(self).tasks.deep_view().tasks.len(),
            room_for_ready(old(self).tasks.deep_view(), id as int),
        ensures
            final(self).well_formed(),
            *final(self) == (Executor { tasks: final(self).tasks, ..*old(self) }),
            final(self).tasks.deep_view() == with_success(
                old(self).tasks.deep_view(),
                id as int,
                result.deep_view(),
                hash,
            ),
    {
        self.tasks.mark_build_success(id, result, hash);
    }

    /// Records that the task `id` failed; the result says what to report.
    pub fn mark_task_failure(&mut self, id: usize, result: BuildResult) -> (r: Vec<String>)
        requires
            old(self).well_formed(),
            id < old(self).tasks.deep_view().tasks.len(),
        ensures
            final(self).well_formed(),
            *final(self) == (Executor { tasks: final(self).tasks, ..*old(self) }),
            final(self).tasks.deep_view() == with_failure(
                old(self).tasks.deep_view(),
                id as int,
                id as int,
                result.deep_view(),
            ),
            r.deep_view() == report(
                old(self).tasks.deep_view().tasks[id as int],
                result.deep_view(),
                found(old(self).logs.deep_view(), old(self).tasks.deep_view().tasks[id as int].target),
            ),
    {
        let lines_out = self.failure_report(id, &result);
        self.tasks.mark_task_failure(id, id, result);
        lines_out
    }

    fn failure_report(&self, id: usize, result: &BuildResult) -> (r: Vec<String>)
        requires
            self.well_formed(),
            id < self.tasks.deep_view().tasks.len(),
        ensures
            r.deep_view() == report(
                self.tasks.deep_view().tasks[id as int],
                result.deep_view(),
                found(self.logs.deep_view(), self.tasks.deep_view().tasks[id as int].target),
            ),
    {
        let task = &self.tasks.tasks[id];
        let ghost model = task.deep_view();
        assert(model == self.tasks.deep_view().tasks[id as int]);
        let mut out: Vec<String> = Vec::new();
        let stage = match task.failure_stage() {
            TaskStatus::Resolving => "resolve",
            _ => "build",
        };
        keep(&mut out, cat3("\n[cbs] error: ", stage, " failed"));
        keep(&mut out, cat2("  target: ", task.target.as_str()));
        let ghost head = out.deep_view();
        assert(head =~= seq!["\n[cbs] error: "@ + stage@ + " failed"@, "  target: "@ + model.target]);
        let ghost reason = match result.deep_view() {
            Outcome::Failure(message) => seq!["  reason:"@] + indented(message),
            Outcome::Success(_) => Seq::empty(),
        };
        if let BuildResult::Failure(message) = result {
            keep(&mut out, "  reason:".to_owned());
            add_indented(&mut out, message.as_str());
        }
        assert(out.deep_view() =~= head + reason);
        if let Some(messages) = self.logs.get(task.target.as_str()) {
            keep(&mut out, "  logs:".to_owned());
            let ghost list = messages.deep_view();
            let ghost start = out.deep_view();
            let mut i: usize = 0;
            assert(out.deep_view() =~= start + all_indented(list, 0));
            while i < messages.len()
                invariant
                    i <= messages.len(),
                    list == messages.deep_view(),
                    out.deep_view() == start + all_indented(list, i as int),
                decreases messages.len() - i,
            {
                assert(list[i as int] == messages@[i as int]@);
                add_indented(&mut out, messages[i].as_str());
                i = i + 1;
                assert(out.deep_view() =~= start + all_indented(list, i as int));
            }
            assert(out.deep_view() =~= head + reason + (seq!["  logs:"@] + all_indented(list, list.len() as int)));
        } else {
            assert(out.deep_view() =~= head + reason + Seq::empty());
        }
        out
    }

    /// What a worker does next; a task is handed out only once.
    pub fn next_parallel_task(&mut self) -> (r: WorkItem)
        requires
            old(self).well_formed(),
        ensures
            final(self).well_formed(),
            *final(self) == (Executor { tasks: final(self).tasks, ..*old(self) }),
            (final(self).tasks.deep_view(), r.deep_view()) == next_work(old(self).tasks.deep_view()),
    {
        let ghost g = self.tasks.deep_view();
        let mut i: usize = 0;
        while i < self.tasks.tasks.len()
            invariant
                i <= self.tasks.tasks.len(),
                *self == *old(self),
                g == self.tasks.deep_view(),
                self.well_formed(),
                first_workable(g.tasks, 0) == first_workable(g.tasks, i as int),
            decreases self.tasks.tasks.len() - i,
        {
            assert(g.tasks[i as int] == self.tasks.tasks@[i as int].deep_view());
            if self.tasks.tasks[i].available {
                let status = self.tasks.tasks[i].status();
                if status == TaskStatus::Resolving || status == TaskStatus::Building {
                    let mut task = self.tasks.tasks[i].duplicate();
                    task.available = false;
                    self.tasks.tasks.set(i, task.duplicate());
                    proof {
                        let h = self.tasks.deep_view();
                        assert(h.tasks =~= with_taken(g, i as int).tasks);
                        crate::graph::lemma_same_shape(g, h);
                    }
                    return WorkItem::Task(task);
                }
            }
            i = i + 1;
        }
        let mut done = true;
        let mut running = false;
        let mut waiting_on: Vec<String> = Vec::new();
        let mut j: usize = 0;
        assert(waiting_on.deep_view() =~= Seq::<Seq<char>>::empty());
        while j < self.tasks.tasks.len()
            invariant
                j <= self.tasks.tasks.len(),
                *self == *old(self),
                g == self.tasks.deep_view(),
                self.well_formed(),
                done <==> forall|k: int| 0 <= k < j ==> status_of(#[trigger] g.tasks[k]) == TaskStatus::Done,
                running <==> exists|k: int| 0 <= k < j && !(#[trigger] g.tasks[k]).available && workable(g.tasks[k]),
                waiting_on.deep_view() == unfinished(g.tasks, j as int),
            decreases self.tasks.tasks.len() - j,
        {
            assert(g.tasks[j as int] == self.tasks.tasks@[j as int].deep_view());
            let status = self.tasks.tasks[j].status();
            if !(status == TaskStatus::Done) {
                done = false;
                keep(&mut waiting_on, self.tasks.tasks[j].target.clone());
            }
            if !self.tasks.tasks[j].available && (status == TaskStatus::Resolving || status == TaskStatus::Building) {
                running = true;
            }
            j = j + 1;
        }
        if done {
            return WorkItem::Done;
        }
        if running {
            return WorkItem::Wait;
        }
        WorkItem::Deadlocked(cat2("build graph deadlocked; waiting on ", join(&waiting_on, ", ").as_str()))
    }

    /// The next task to resolve before external dependencies are planned;
    /// `can_plan` says of each task whether a planner plans its target.
    pub fn next_planning_task(&mut self, can_plan: &Vec<bool>) -> (r: Option<Task>)
        requires
            old(self).well_formed(),
            can_plan@.len() == old(self).tasks.deep_view().tasks.len(),
        ensures
            final(self).well_formed(),
            *final(self) == (Executor { tasks: final(self).tasks, ..*old(self) }),
            ({
                let g = old(self).tasks.deep_view();
                let i = first_to_plan(g.tasks, old(self).context.lockfile.deep_view(), can_plan@, 0);
                if i < g.tasks.len() {
                    final(self).tasks.deep_view() == with_taken(g, i) && r.deep_view() == Some(with_taken(g, i).tasks[i])
                } else {
                    final(self).tasks.deep_view() == g && r is None
                }
            }),
    {
        let ghost g = self.tasks.deep_view();
        let ghost lockfile = self.context.lockfile.deep_view();
        let mut i: usize = 0;
        while i < self.tasks.tasks.len()
            invariant
                i <= self.tasks.tasks.len(),
                *self == *old(self),
                g == self.tasks.deep_view(),
                lockfile == self.context.lockfile.deep_view(),
                self.well_formed(),
                can_plan@.len() == g.tasks.len(),
                first_to_plan(g.tasks, lockfile, can_plan@, 0) == first_to_plan(g.tasks, lockfile, can_plan@, i as int),
            decreases self.tasks.tasks.len() - i,
        {
            assert(g.tasks[i as int] == self.tasks.tasks@[i as int].deep_view());
            let status = self.tasks.tasks[i].status();
            if self.tasks.tasks[i].available && status == TaskStatus::Resolving {
                let deferred = can_plan[i] && !self.context.lockfile.has(self.tasks.tasks[i].target.as_str());
                if !deferred {
                    let mut task = self.tasks.tasks[i].duplicate();
                    task.available = false;
                    self.tasks.tasks.set(i, task.duplicate());
                    proof {
                        let h = self.tasks.deep_view();
                        assert(h.tasks =~= with_taken(g, i as int).tasks);
                        crate::graph::lemma_same_shape(g, h);
                    }
                    return Some(task);
                }
            }
            i = i + 1;
        }
        None
    }

    /// Whether all tasks are done.
    pub fn all_tasks_done(&self) -> (r: bool)
        ensures
            r == all_done(self.tasks.deep_view()),
    {
        let ghost g = self.tasks.deep_view();
        let mut i: usize = 0;
        while i < self.tasks.tasks.len()
            invariant
                i <= self.tasks.tasks.len(),
                g == self.tasks.deep_view(),
                forall|k: int| 0 <= k < i ==> status_of(#[trigger] g.tasks[k]) == TaskStatus::Done,
            decreases self.tasks.tasks.len() - i,
        {
            assert(g.tasks[i as int] == self.tasks.tasks@[i as int].deep_view());
            if !(self.tasks.tasks[i].status() == TaskStatus::Done) {
                return false;
            }
            i = i + 1;
        }
        true
    }

    /// Whether a task has failed.
    pub fn any_tasks_failed(&self) -> (r: bool)
        ensures
            r == failed_task(self.tasks.deep_view()),
    {
        let ghost g = self.tasks.deep_view();
        let mut i: usize = 0;
        while i < self.tasks.tasks.len()
            invariant
                i <= self.tasks.tasks.len(),
                g == self.tasks.deep_view(),
                forall|k: int|
                    0 <= k < i ==> !((#[trigger] g.tasks[k]).result matches Some(Outcome::Failure(_))),
            decreases self.tasks.tasks.len() - i,
        {
            assert(g.tasks[i as int] == self.tasks.tasks@[i as int].deep_view());
            if let Some(BuildResult::Failure(_)) = &self.tasks.tasks[i].result {
                return true;
            }
            i = i + 1;
        }
        false
    }

    /// Records what the resolvers answered for the task `id`: `answer` is that of
    /// the first that resolves its target, and `deps` are the targets that the
    /// configuration depends on. The result says what to report.
    #[verifier::rlimit(60)]
    pub fn resolve(&mut self, id: usize, answer: Option<Result<Config, Error>>, deps: Vec<String>) -> (r: Vec<String>)
        requires
            old(self).well_formed(),
            id < old(self).tasks.deep_view().tasks.len(),
            old(self).tasks.deep_view().tasks.len() + deps@.len() < usize::MAX,
            forall|t: int|
                0 <= t < old(self).tasks.deep_view().tasks.len() ==> (
                #[trigger] old(self).tasks.deep_view().tasks[t]).dependencies_ready + deps@.len() < usize::MAX,
        ensures
            final(self).well_formed(),
            *final(self) == (Executor { tasks: final(self).tasks, ..*old(self) }),
            final(self).tasks.deep_view() == with_answer(
                old(self).tasks.deep_view(),
                old(self).builder_names.deep_view(),
                id,
                match answer {
                    Some(config) => Some(outcome(config)),
                    None => None,
                },
                deps.deep_view(),
            ),
            r.deep_view() == (match answer {
                Some(Ok(_)) => Seq::empty(),
                Some(Err(e)) => report(
                    old(self).tasks.deep_view().tasks[id as int],
                    Outcome::Failure("target resolution failed:\n"@ + e.message@),
                    found(old(self).logs.deep_view(), old(self).tasks.deep_view().tasks[id as int].target),
                ),
                None => report(
                    old(self).tasks.deep_view().tasks[id as int],
                    unresolvable(old(self).tasks.deep_view().tasks[id as int].target),
                    found(old(self).logs.deep_view(), old(self).tasks.deep_view().tasks[id as int].target),
                ),
            }),
    {
        let config = match answer {
            None => {
                let message = cat2("no resolver available for target ", self.tasks.tasks[id].target.as_str());
                return self.mark_task_failure(id, BuildResult::Failure(message));
            },
            Some(Err(e)) => {
                let message = cat2("target resolution failed:\n", e.message.as_str());
                return self.mark_task_failure(id, BuildResult::Failure(message));
            },
            Some(Ok(config)) => config,
        };
        self.apply_resolution(id, config, deps);
        let none: Vec<String> = Vec::new();
        assert(none.deep_view() =~= Seq::<Seq<char>>::empty());
        none
    }

    #[verifier::rlimit(60)]
    fn apply_resolution(&mut self, id: usize, config: Config, deps: Vec<String>)
        requires
            old(self).well_formed(),
            id < old(self).tasks.deep_view().tasks.len(),
            old(self).tasks.deep_view().tasks.len() + deps@.len() < usize::MAX,
            forall|t: int|
                0 <= t < old(self).tasks.deep_view().tasks.len() ==> (
                #[trigger] old(self).tasks.deep_view().tasks[t]).dependencies_ready + deps@.len() < usize::MAX,
        ensures
            final(self).well_formed(),
            *final(self) == (Executor { tasks: final(self).tasks, ..*old(self) }),
            final(self).tasks.deep_view() == with_resolution(
                old(self).tasks.deep_view(),
                old(self).builder_names.deep_view(),
                id,
                config.deep_view(),
                deps.deep_view(),
            ),
    {
        let ghost g = self.tasks.deep_view();
        let ghost builders = self.builder_names.deep_view();
        let ghost targets = deps.deep_view();
        let mut ids: Vec<usize> = Vec::new();
        let mut i: usize = 0;
        assert(ids.deep_view() =~= Seq::<usize>::empty());
        while i < deps.len()
            invariant
                i <= deps.len(),
                self.well_formed(),
                *self == (Executor { tasks: self.tasks, ..*old(self) }),
                builders == self.builder_names.deep_view(),
                targets == deps.deep_view(),
                id < self.tasks.deep_view().tasks.len() <= g.tasks.len() + i,
                g.tasks.len() + deps@.len() < usize::MAX,
                forall|k: int| 0 <= k < ids@.len() ==> (#[trigger] ids@[k]) < self.tasks.deep_view().tasks.len(),
                forall|t: int|
                    0 <= t < self.tasks.deep_view().tasks.len() ==> (
                    #[trigger] self.tasks.deep_view().tasks[t]).dependencies_ready + deps@.len() - i < usize::MAX,
                (self.tasks.deep_view(), ids.deep_view()) == with_dependencies(g, builders, targets, id, i as int),
                ids@.len() == i,
            decreases deps.len() - i,
        {
            let ghost before = self.tasks.deep_view();
            assert(targets[i as int] == deps@[i as int]@);
            let dep: usize = self.add_task(deps[i].clone(), Some(id));
            proof {
                lemma_ready_grows(before, builders, targets[i as int], id);
            }
            keep(&mut ids, dep);
            i = i + 1;
        }
        let ghost h = self.tasks.deep_view();
        let mut ready: usize = 0;
        let mut j: usize = 0;
        while j < ids.len()
            invariant
                j <= ids@.len(),
                ready <= j,
                self.well_formed(),
                h == self.tasks.deep_view(),
                forall|k: int| 0 <= k < ids@.len() ==> (#[trigger] ids@[k]) < h.tasks.len(),
                ready == done_among(h, ids.deep_view(), j as int),
            decreases ids.len() - j,
        {
            let dep: usize = ids[j];
            assert(ids.deep_view()[j as int] == dep);
            assert(h.tasks[dep as int] == self.tasks.tasks@[dep as int].deep_view());
            if self.tasks.tasks[dep].status() == TaskStatus::Done {
                ready = ready + 1;
            }
            j = j + 1;
        }
        let mut task = self.tasks.tasks[id].duplicate();
        assert(task.deep_view() == h.tasks[id as int]);
        task.dependencies = ids;
        task.dependencies_ready = ready;
        task.config = Some(config);
        task.available = true;
        let ghost model = task.deep_view();
        self.tasks.tasks.set(id, task);
        proof {
            let after = self.tasks.deep_view();
            assert(after.tasks =~= h.tasks.update(id as int, model));
            crate::graph::lemma_same_shape(h, after);
            assert(model =~= with_resolution(g, builders, id, config.deep_view(), targets).tasks[id as int]);
        }
    }

    /// What all tasks require of other ecosystems.
    pub fn external_requirements(&self) -> (r: Table<Vec<ExternalRequirement>>)
        ensures
            r.deep_view() == required_by(
                self.tasks.deep_view().tasks,
                self.tasks.deep_view().tasks.len() as int,
            ),
    {
        let ghost tasks = self.tasks.deep_view().tasks;
        let mut out: Table<Vec<ExternalRequirement>> = Table::new();
        let mut i: usize = 0;
        while i < self.tasks.tasks.len()
            invariant
                i <= self.tasks.tasks.len(),
                tasks == self.tasks.deep_view().tasks,
                out.deep_view() == required_by(tasks, i as int),
            decreases self.tasks.tasks.len() - i,
        {
            assert(tasks[i as int] == self.tasks.tasks@[i as int].deep_view());
            if let Some(config) = &self.tasks.tasks[i].config {
                let ghost before = out.deep_view();
                let ghost list = config.external_requirements.deep_view();
                let mut j: usize = 0;
                while j < config.external_requirements.len()
                    invariant
                        j <= config.external_requirements.len(),
                        list == config.external_requirements.deep_view(),
                        out.deep_view() == with_all_required(before, list, j as int),
                    decreases config.external_requirements.len() - j,
                {
                    let req = &config.external_requirements[j];
                    assert(list[j as int] == req.deep_view());
                    let mut reqs = match out.get(req.ecosystem.as_str()) {
                        Some(reqs) => reqs.duplicate(),
                        None => Vec::new(),
                    };
                    let ghost start = reqs.deep_view();
                    assert(found(out.deep_view(), req.ecosystem@) is None ==> start =~= Seq::empty());
                    keep(&mut reqs, req.duplicate());
                    out.insert(req.ecosystem.clone(), reqs);
                    j = j + 1;
                }
            }
            i = i + 1;
        }
        out
    }

    /// What is to be planned: for each ecosystem that a task requires something
    /// of, its planner and the requirements.
    pub fn planning_requests(&self) -> (r: Vec<PlanRequest>)
        ensures
            r.deep_view() == plan_questions(self.tasks.deep_view(), self.planned_ecosystems()),
    {
        let mut out: Vec<PlanRequest> = Vec::new();
        if self.any_tasks_failed() {
            assert(out.deep_view() =~= Seq::<PlanQuestion>::empty());
            return out;
        }
        let required = self.external_requirements();
        let ghost all = plan_questions(self.tasks.deep_view(), self.planned_ecosystems());
        let mut i: usize = 0;
        while i < required.rows.len()
            invariant
                i <= required.rows.len(),
                all == plan_questions(self.tasks.deep_view(), self.planned_ecosystems()),
                !failed_task(self.tasks.deep_view()),
                required.deep_view() == required_by(
                    self.tasks.deep_view().tasks,
                    self.tasks.deep_view().tasks.len() as int,
                ),
                out.deep_view() == all.take(i as int),
            decreases required.rows.len() - i,
        {
            let row = &required.rows[i];
            assert(required.deep_view()[i as int] == (row.0@, row.1.deep_view()));
            keep(
                &mut out,
                PlanRequest {
                    ecosystem: row.0.clone(),
                    planner: self.planner_for(row.0.as_str()),
                    requirements: row.1.duplicate(),
                },
            );
            i = i + 1;
            assert(all.take(i as int) =~= all.take(i - 1).push(all[i - 1]));
        }
        assert(all.take(i as int) =~= all);
        out
    }

    /// Takes over the plans that the planners made; there is nothing to take
    /// over once a task has failed. Where a plan is missing or failed, the
    /// context stays as it is.
    pub fn plan_external_dependencies(&mut self, replies: &Vec<PlanReply>) -> (r: Result<(), Error>)
        ensures
            *final(self) == (Executor { context: final(self).context, ..*old(self) }),
            match (
                planned(old(self).context.deep_view(), failed_task(old(self).tasks.deep_view()), replies.deep_view()),
                r,
            ) {
                (Err(e), Err(found)) => e == found.deep_view() && final(self).context == old(self).context,
                (Ok(context), Ok(_)) => final(self).context.deep_view() == context,
                _ => false,
            },
    {
        if replies.len() == 0 || self.any_tasks_failed() {
            return Ok(());
        }
        let ghost before = self.context.deep_view();
        let ghost start = Plan { lockfile: before.lockfile, locked_dependencies: before.locked_dependencies };
        let ghost list = replies.deep_view();
        let mut lockfile = self.context.lockfile.duplicate();
        let mut locked_dependencies = self.context.locked_dependencies.duplicate();
        let mut i: usize = 0;
        while i < replies.len()
            invariant
                i <= replies.len(),
                *self == *old(self),
                list == replies.deep_view(),
                list.len() > 0,
                !failed_task(old(self).tasks.deep_view()),
                with_replies(start, list, 0) == with_replies(
                    Plan { lockfile: lockfile.deep_view(), locked_dependencies: locked_dependencies.deep_view() },
                    list,
                    i as int,
                ),
                start == (Plan {
                    lockfile: old(self).context.deep_view().lockfile,
                    locked_dependencies: old(self).context.deep_view().locked_dependencies,
                }),
            decreases replies.len() - i,
        {
            assert(list[i as int] == replies@[i as int].deep_view());
            match &replies[i].plan {
                None => {
                    return Err(
                        error(
                            ErrorKind::NotFound,
                            cat2(
                                "no dependency planner registered for ecosystem ",
                                replies[i].ecosystem.as_str(),
                            ),
                        ),
                    );
                },
                Some(Err(e)) => {
                    return Err(e.duplicate());
                },
                Some(Ok(plan)) => {
                    crate::context::extend(&mut lockfile, &plan.lockfile.rows);
                    crate::context::extend(&mut locked_dependencies, &plan.locked_dependencies.rows);
                },
            }
            i = i + 1;
        }
        let mut context = self.context.duplicate();
        context.lockfile = lockfile;
        context.locked_dependencies = locked_dependencies;
        let _hash: u64 = context.calculate_hash();
        self.context = context;
        Ok(())
    }

    /// Goes on with a build whose roots are `roots`, once everything that can be
    /// resolved without a plan is, and the planners have answered.
    pub fn run(&mut self, roots: &Vec<usize>, replies: &Vec<PlanReply>) -> (r: RunStep)
        requires
            old(self).well_formed(),
            forall|k: int| 0 <= k < roots@.len() ==> (#[trigger] roots@[k]) < old(self).tasks.deep_view().tasks.len(),
        ensures
            final(self).well_formed(),
            *final(self) == (Executor { context: final(self).context, ..*old(self) }),
            ({
                let g = old(self).tasks.deep_view();
                let planning = planned(old(self).context.deep_view(), failed_task(g), replies.deep_view());
                &&& r.deep_view() == next_stage(g, roots@, planning)
                &&& final(self).context.deep_view() == (match planning {
                    Ok(context) => context,
                    Err(_) => old(self).context.deep_view(),
                })
            }),
    {
        if let Err(e) = self.plan_external_dependencies(replies) {
            return RunStep::Finished(
                BuildResult::Failure(cat2("dependency planning failed:\n", e.message.as_str())),
            );
        }
        if self.all_tasks_done() {
            if let Collected::Finished(result) = self.collect_results(roots) {
                return RunStep::Finished(result);
            }
        }
        RunStep::Work
    }

    /// What has come of a build whose roots are `roots`.
    pub fn collect_results(&self, roots: &Vec<usize>) -> (r: Collected)
        requires
            self.well_formed(),
            forall|k: int| 0 <= k < roots@.len() ==> (#[trigger] roots@[k]) < self.tasks.deep_view().tasks.len(),
        ensures
            r.deep_view() == collected(self.tasks.deep_view().tasks, roots@, 0),
    {
        let ghost tasks = self.tasks.deep_view().tasks;
        let mut i: usize = 0;
        while i < self.tasks.tasks.len()
            invariant
                i <= self.tasks.tasks.len(),
                tasks == self.tasks.deep_view().tasks,
                collected(tasks, roots@, 0) == collected(tasks, roots@, i as int),
                forall|k: int| 0 <= k < i ==> (#[trigger] tasks[k]).result is Some,
            decreases self.tasks.tasks.len() - i,
        {
            assert(tasks[i as int] == self.tasks.tasks@[i as int].deep_view());
            match &self.tasks.tasks[i].result {
                None => {
                    return Collected::Waiting(i);
                },
                Some(BuildResult::Failure(reason)) => {
                    return Collected::Finished(BuildResult::Failure(reason.clone()));
                },
                Some(BuildResult::Success(_)) => {},
            }
            i = i + 1;
        }
        let ghost all = roots@.map_values(|root: usize| tasks[root as int].result.unwrap());
        let mut results: Vec<BuildResult> = Vec::new();
        let mut j: usize = 0;
        while j < roots.len()
            invariant
                j <= roots@.len(),
                tasks == self.tasks.deep_view().tasks,
                forall|k: int| 0 <= k < roots@.len() ==> (#[trigger] roots@[k]) < tasks.len(),
                forall|k: int| 0 <= k < tasks.len() ==> (#[trigger] tasks[k]).result is Some,
                all == roots@.map_values(|root: usize| tasks[root as int].result.unwrap()),
                results.deep_view() == all.take(j as int),
            decreases roots.len() - j,
        {
            let root: usize = roots[j];
            assert(tasks[root as int] == self.tasks.tasks@[root as int].deep_view());
            if let Some(result) = &self.tasks.tasks[root].result {
                keep(&mut results, result.duplicate());
            }
            j = j + 1;
            assert(results.deep_view() =~= all.take(j as int));
        }
        assert(all.take(j as int) =~= all);
        Collected::Finished(BuildResult::merged(&results))
    }

    /// Where the plugin `name` comes from.
    pub fn plugin_source(&self, name: &str) -> (r: Option<PluginSource>)
        requires
            self.well_formed(),
        ensures
            r.deep_view() == source_of(self.builder_names.deep_view(), self.tasks.deep_view(), name@),
    {
        if let Some(i) = self.builder_names.get(name) {
            return Some(PluginSource::Registered(*i));
        }
        if let Some(id) = self.tasks.by_target.get(name) {
            let id: usize = *id;
            assert(found(self.tasks.deep_view().by_target, name@) == Some(id));
            assert(self.tasks.deep_view().tasks[id as int] == self.tasks.tasks@[id as int].deep_view());
            if let Some(BuildResult::Success(output)) = &self.tasks.tasks[id].result {
                if output.outputs.len() > 0 {
                    return Some(PluginSource::Load(output.outputs[0].clone()));
                }
            }
        }
        None
    }

    /// What a target with the dependencies `deps` is built from; nothing where
    /// one of them has not been built.
    pub fn build_inputs(&self, deps: &Vec<String>) -> (r: Option<BuildInputs>)
        requires
            self.well_formed(),
        ensures
            inputs_of(self.tasks.deep_view(), deps.deep_view(), r),
    {
        let ghost g = self.tasks.deep_view();
        let ghost targets = deps.deep_view();
        let mut bytes: Vec<u8> = Vec::new();
        let mut outputs: Table<BuildOutput> = Table::new();
        let mut i: usize = 0;
        assert(bytes@ =~= Seq::<u8>::empty());
        while i < deps.len()
            invariant
                i <= deps.len(),
                self.well_formed(),
                g == self.tasks.deep_view(),
                targets == deps.deep_view(),
                input_bytes(g, targets, i as int) == Some(bytes@),
                outputs.deep_view() == input_outputs(g, targets, i as int),
            decreases deps.len() - i,
        {
            assert(targets[i as int] == deps@[i as int]@);
            let id: usize = match self.tasks.by_target.get(deps[i].as_str()) {
                Some(id) => *id,
                None => {
                    proof {
                        lemma_inputs_missing(g, targets, i + 1);
                    }
                    return None;
                },
            };
            assert(found(g.by_target, targets[i as int]) == Some(id));
            assert(g.tasks[id as int] == self.tasks.tasks@[id as int].deep_view());
            let task = &self.tasks.tasks[id];
            match &task.result {
                Some(BuildResult::Success(output)) => {
                    if let Some(config) = &task.config {
                        append_u64(&mut bytes, config.hash);
                    }
                    outputs.insert(task.target.clone(), output.duplicate());
                },
                _ => {
                    proof {
                        lemma_inputs_missing(g, targets, i + 1);
                    }
                    return None;
                },
            }
            i = i + 1;
        }
        Some(BuildInputs { dep_hash: short_digest_of(&bytes), outputs })
    }

    /// What is known of `task` when its build begins; `deps` are the targets
    /// that its configuration depends on. There is nothing to begin where one
    /// of them, or the plugin, has not been built.
    pub fn start_build(&self, task: &Task, deps: &Vec<String>) -> (r: Option<BuildStart>)
        requires
            self.well_formed(),
            task.config is Some,
        ensures
            ({
                let config = task.deep_view().config->0;
                let source = source_of(self.builder_names.deep_view(), self.tasks.deep_view(), config.build_plugin);
                match r {
                    None => source is None || inputs_of(self.tasks.deep_view(), deps.deep_view(), None),
                    Some(start) => {
                        &&& source == Some(start.plugin.deep_view())
                        &&& start.kind@ == kind_of(config)
                        &&& inputs_of(self.tasks.deep_view(), deps.deep_view(), Some(start.inputs))
                    },
                }
            }),
    {
        match &task.config {
            None => None,
            Some(config) => match self.plugin_source(config.build_plugin.as_str()) {
                None => None,
                Some(plugin) => match self.build_inputs(deps) {
                    None => None,
                    Some(inputs) => Some(BuildStart { plugin, kind: target_kind(config), inputs }),
                },
            },
        }
    }

    /// `task`, and the context that it is built in, once its hash is known.
    pub fn place_build(&self, task: &Task, hash: u64) -> (r: (Context, Task))
        ensures
            r.1.deep_view() == hashed(task.deep_view(), hash),
            r.0.deep_view() == (ContextModel {
                target: Some(task.deep_view().target),
                target_hash: match task.deep_view().config {
                    Some(_) => Some(hash),
                    None => None,
                },
                ..self.context.deep_view()
            }),
    {
        let mut task = task.duplicate();
        task.config = match task.config {
            Some(config) => {
                let mut config = config;
                config.hash = hash;
                Some(config)
            },
            None => None,
        };
        let context = self.context.with_task(&task);
        (context, task)
    }

    /// Records how the build of the task `id` ended. The result says what to
    /// report.
    pub fn build(&mut self, id: usize, result: BuildResult, hash: u64) -> (r: Vec<String>)
        requires
            old(self).well_formed(),
            id < old(self).tasks.deep_view().tasks.len(),
            room_for_ready(old(self).tasks.deep_view(), id as int),
        ensures
            final(self).well_formed(),
            *final(self) == (Executor { tasks: final(self).tasks, ..*old(self) }),
            final(self).tasks.deep_view() == with_build(
                old(self).tasks.deep_view(),
                id as int,
                result.deep_view(),
                hash,
            ),
            r.deep_view() == (match result {
                BuildResult::Success(_) => Seq::empty(),
                BuildResult::Failure(_) => report(
                    old(self).tasks.deep_view().tasks[id as int],
                    result.deep_view(),
                    found(old(self).logs.deep_view(), old(self).tasks.deep_view().tasks[id as int].target),
                ),
            }),
    {
        match &result {
            BuildResult::Success(_) => {
                self.mark_build_success(id, result, hash);
                let none: Vec<String> = Vec::new();
                assert(none.deep_view() =~= Seq::<Seq<char>>::empty());
                none
            },
            BuildResult::Failure(_) => self.mark_task_failure(id, result),
        }
    }
}

/// Adding a dependency adds at most one task, and at most one to what is ready.
proof fn lemma_ready_grows(g: Graph, builders: Builders, target: Seq<char>, id: usize)
    requires
        g.well_formed(),
        g.tasks.len() < usize::MAX,
        id < g.tasks.len(),
        forall|t: int| 0 <= t < g.tasks.len() ==> (#[trigger] g.tasks[t]).dependencies_ready < usize::MAX,
    ensures
        ({
            let h = with_new_task(g, builders, target, Some(id)).0;
            &&& g.tasks.len() <= h.tasks.len() <= g.tasks.len() + 1
            &&& forall|t: int|
                0 <= t < h.tasks.len() ==> (#[trigger] h.tasks[t]).dependencies_ready <= 1 + (if t < g.tasks.len() {
                    g.tasks[t].dependencies_ready as int
                } else {
                    0
                })
        }),
{
    let (m, n) = with_task(g, target, Some(id));
    let h = with_new_task(g, builders, target, Some(id)).0;
    assert forall|t: int| 0 <= t < h.tasks.len() implies (#[trigger] h.tasks[t]).dependencies_ready <= 1 + (if t
        < g.tasks.len() {
        g.tasks[t].dependencies_ready as int
    } else {
        0
    }) by {
        if found(g.by_target, target) is None && found(builders, target) is Some {
            let list = m.rdeps[n as int];
            assert(list =~= seq![id]);
            crate::graph::lemma_occurrences(list, t, 1);
            if t < g.tasks.len() {
                assert(m.tasks[t] == g.tasks[t]);
            }
        } else if t < g.tasks.len() {
            assert(h.tasks[t] == g.tasks[t]);
        }
    }
}

} // verus!
