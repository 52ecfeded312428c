//! Progress: what the events of a build leave in its tasks, its plan and its result.

use vstd::prelude::*;

use crate::context::{law_with_rows, with_rows};
use crate::error::Fault;
use crate::executor::{
    all_done, collected, failed_task, first_called, first_to_plan, first_workable, kind_of, next_work, plan_questions,
    required_by, source_of, some_running, unfinished, with_all_required, with_answer, with_dependencies, with_new_task,
    with_replies, with_required, workable, workers, Builders, Collection, Reply, Source, Work,
};
use crate::digest::number_in;
use crate::graph::{law_task_indexed, lemma_with_task, with_failure, with_success, with_task, Graph};
use crate::model::{merged_results, no_output, with_extras, ConfigModel, Outcome, Plan, Requirement};
use crate::reach::{depends, lemma_waits_direct, lemma_waits_further, waits_for};
use crate::table::{found, found_number, law_with_number, law_with_row};
use crate::task::{status_of, TaskModel, TaskStatus};

verus! {

/// Whether a task was built.
pub open spec fn has_built(task: TaskModel) -> bool {
    task.result matches Some(Outcome::Success(_))
}

/// After a failure the task has failed for its reason, and with it whatever waits for a task
/// that failed with it; each of those names the target that it failed for. A task that does
/// not wait for them, over whatever others, is as it was.
pub proof fn law_failure_spreads(g: Graph, id: int, result: Outcome, s: int, t: int)
    requires
        g.well_formed(),
        0 <= id < g.tasks.len(),
        0 <= s < g.tasks.len(),
        0 <= t < g.tasks.len(),
    ensures
        ({
            let h = with_failure(g, id, id, result);
            let why = Outcome::Failure("failed to build dependency: "@ + g.tasks[id].target);
            &&& h.tasks.len() == g.tasks.len() && h.by_target == g.by_target && h.rdeps == g.rdeps
            &&& h.tasks[id].result == Some(result)
            &&& (s == id || h.tasks[s].result == Some(why) && g.tasks[s].result is None) && waits_for(g.rdeps, s, t) && t != id
                ==> h.tasks[t].result == Some(why)
            &&& h.tasks[t] != g.tasks[t] ==> t == id || depends(g.rdeps, id, t)
            &&& h.tasks[t].config == g.tasks[t].config && h.tasks[t].dependencies == g.tasks[t].dependencies
            &&& h.tasks[t].target == g.tasks[t].target && h.tasks[t].id == g.tasks[t].id
        }),
{
    let h = with_failure(g, id, id, result);
    if waits_for(g.rdeps, s, t) {
        if s == id {
            lemma_waits_direct(g.rdeps, id, t);
        } else if h.tasks[s].result is Some && g.tasks[s].result is None {
            lemma_waits_further(g.rdeps, id, s, t);
        }
    }
}

/// After a success the task is done with its result and the hash that it was built with; no
/// other task is done or configured by it.
pub proof fn law_success_recorded(g: Graph, id: int, result: Outcome, hash: u64, t: int)
    requires
        0 <= id < g.tasks.len(),
        0 <= t < g.tasks.len(),
    ensures
        ({
            let h = with_success(g, id, result, hash);
            &&& h.tasks.len() == g.tasks.len() && h.by_target == g.by_target && h.rdeps == g.rdeps
            &&& h.tasks[id].result == Some(result)
            &&& status_of(h.tasks[id]) == TaskStatus::Done
            &&& g.tasks[id].config matches Some(config) ==> (h.tasks[id].config matches Some(after) && after.hash == hash
                && after.dependencies == config.dependencies && after.sources == config.sources && after.kind == config.kind)
            &&& t != id ==> h.tasks[t].result == g.tasks[t].result && h.tasks[t].config == g.tasks[t].config
            &&& h.tasks[t].dependencies == g.tasks[t].dependencies && h.tasks[t].target == g.tasks[t].target
        }),
{
}

proof fn lemma_dependencies(g: Graph, builders: Builders, deps: Seq<Seq<char>>, id: usize, n: int)
    requires
        g.well_formed(),
        id < g.tasks.len(),
        0 <= n <= deps.len(),
        g.tasks.len() + n < usize::MAX,
    ensures
        ({
            let (h, ids) = with_dependencies(g, builders, deps, id, n);
            &&& h.well_formed()
            &&& ids.len() == n
            &&& g.tasks.len() <= h.tasks.len() <= g.tasks.len() + n
            &&& forall|k: int| 0 <= k < n ==> (#[trigger] ids[k]) < h.tasks.len()
            &&& forall|k: int| 0 <= k < n ==> h.tasks[(#[trigger] ids[k]) as int].target == deps[k]
            &&& forall|t: int| 0 <= t < g.tasks.len() ==> (#[trigger] h.tasks[t]).target == g.tasks[t].target
            &&& forall|t: int| 0 <= t < g.tasks.len() ==> (#[trigger] h.tasks[t]).result == g.tasks[t].result
        }),
    decreases n,
{
    if n > 0 {
        lemma_dependencies(g, builders, deps, id, n - 1);
        let (m, ids) = with_dependencies(g, builders, deps, id, n - 1);
        let target = deps[n - 1];
        lemma_with_task(m, target, Some(id));
        law_task_indexed(m, target, Some(id));
        let (a, dep) = with_task(m, target, Some(id));
        let (h, all) = with_dependencies(g, builders, deps, id, n);
        assert(all == ids.push(dep));
        assert(a.tasks[dep as int].target == target);
        assert forall|t: int| 0 <= t < m.tasks.len() implies (#[trigger] a.tasks[t]) == m.tasks[t] by {
            if found(m.by_target, target) is None {
                assert(a.tasks.drop_last()[t] == m.tasks[t]);
            }
        }
        assert(h.tasks.len() == a.tasks.len());
        assert forall|t: int| 0 <= t < a.tasks.len() implies (#[trigger] h.tasks[t]).target == a.tasks[t].target
            && h.tasks[t].id == a.tasks[t].id by {}
        crate::graph::lemma_same_shape(a, h);
        assert forall|t: int| 0 <= t < m.tasks.len() implies (#[trigger] h.tasks[t]).result == m.tasks[t].result by {
            if found(m.by_target, target) is None {
                assert(dep == m.tasks.len());
            }
        }
        assert forall|k: int| 0 <= k < n implies h.tasks[(#[trigger] all[k]) as int].target == deps[k] by {
            if k < n - 1 {
                assert(all[k] == ids[k]);
                assert(m.tasks[ids[k] as int].target == deps[k]);
            }
        }
        assert forall|k: int| 0 <= k < n implies (#[trigger] all[k]) < h.tasks.len() by {
            if k < n - 1 {
                assert(all[k] == ids[k]);
            }
        }
    }
}

/// After a target was resolved, its task has the configuration, and waits for one task for
/// each dependency, in order, which is that of the dependency's target.
pub proof fn law_resolution_recorded(g: Graph, builders: Builders, id: usize, config: ConfigModel, deps: Seq<Seq<char>>)
    requires
        g.well_formed(),
        id < g.tasks.len(),
        g.tasks.len() + deps.len() < usize::MAX,
    ensures
        ({
            let h = with_answer(g, builders, id, Some(Ok(config)), deps);
            let task = h.tasks[id as int];
            &&& task.config == Some(config)
            &&& task.available
            &&& task.target == g.tasks[id as int].target
            &&& task.dependencies.len() == deps.len()
            &&& forall|k: int|
                0 <= k < deps.len() ==> (#[trigger] task.dependencies[k]) < h.tasks.len() && h.tasks[task.dependencies[k] as int].target
                    == deps[k]
            &&& forall|k: int| 0 <= k < deps.len() ==> found(h.by_target, #[trigger] deps[k]) is Some
        }),
{
    lemma_dependencies(g, builders, deps, id, deps.len() as int);
    let (m, ids) = with_dependencies(g, builders, deps, id, deps.len() as int);
    let h = with_answer(g, builders, id, Some(Ok(config)), deps);
    assert forall|k: int| 0 <= k < deps.len() implies found(h.by_target, #[trigger] deps[k]) is Some by {
        assert(m.tasks[ids[k] as int].target == deps[k]);
        assert(found(m.by_target, m.tasks[ids[k] as int].target) is Some);
    }
}

/// A target that no resolver resolves fails, and so does one whose resolution fails.
pub proof fn law_unresolved(g: Graph, builders: Builders, id: usize, e: Fault, deps: Seq<Seq<char>>)
    requires
        id < g.tasks.len(),
    ensures
        with_answer(g, builders, id, None, deps).tasks[id as int].result == Some(
            Outcome::Failure("no resolver available for target "@ + g.tasks[id as int].target),
        ),
        with_answer(g, builders, id, Some(Err(e)), deps).tasks[id as int].result == Some(
            Outcome::Failure("target resolution failed:\n"@ + e.message),
        ),
{
}

/// A new task is for its target, and is done at once just where the target is a registered
/// plugin.
pub proof fn law_new_task(g: Graph, builders: Builders, target: Seq<char>)
    requires
        g.well_formed(),
        g.tasks.len() < usize::MAX,
        found(g.by_target, target) is None,
    ensures
        ({
            let (h, id) = with_new_task(g, builders, target, None);
            &&& id == g.tasks.len()
            &&& h.tasks.len() == g.tasks.len() + 1
            &&& h.tasks[id as int].target == target
            &&& found(builders, target) is None ==> status_of(h.tasks[id as int]) == TaskStatus::Resolving
                && h.tasks[id as int].available
            &&& found(builders, target) is Some ==> h.tasks[id as int].result == Some(Outcome::Success(no_output()))
        }),
{
    law_task_indexed(g, target, None);
}

/// Work is handed out while there is some: a worker waits, or is done, only where no task is
/// available that can be worked on; it is done just where all tasks are.
pub proof fn law_work_handed_out(g: Graph)
    ensures
        match next_work(g).1 {
            Work::Task(task) => exists|i: int|
                0 <= i < g.tasks.len() && (#[trigger] g.tasks[i]).available && workable(g.tasks[i]) && task == (TaskModel {
                    available: false,
                    ..g.tasks[i]
                }),
            Work::Done => all_done(g),
            Work::Wait => !all_done(g) && some_running(g),
            Work::Deadlocked(_) => !all_done(g) && !some_running(g),
        },
        !(next_work(g).1 is Task) ==> next_work(g).0 == g && forall|i: int|
            0 <= i < g.tasks.len() ==> !((#[trigger] g.tasks[i]).available && workable(g.tasks[i])),
{
    lemma_workable(g.tasks, 0);
}

proof fn lemma_workable(tasks: Seq<TaskModel>, i: int)
    requires
        0 <= i <= tasks.len(),
    ensures
        i <= first_workable(tasks, i) <= tasks.len(),
        first_workable(tasks, i) < tasks.len() ==> tasks[first_workable(tasks, i)].available && workable(
            tasks[first_workable(tasks, i)],
        ),
        forall|j: int| i <= j < first_workable(tasks, i) ==> !((#[trigger] tasks[j]).available && workable(tasks[j])),
    decreases tasks.len() - i,
{
    if i < tasks.len() && !(tasks[i].available && workable(tasks[i])) {
        lemma_workable(tasks, i + 1);
    }
}

/// A build that waits for tasks in a circle names those that are not done.
pub proof fn law_unfinished(tasks: Seq<TaskModel>, n: int, target: Seq<char>)
    requires
        0 <= n <= tasks.len(),
    ensures
        unfinished(tasks, n).contains(target) <==> exists|i: int|
            0 <= i < n && (#[trigger] tasks[i]).target == target && tasks[i].result is None,
    decreases n,
{
    if n > 0 {
        law_unfinished(tasks, n - 1, target);
        let list = unfinished(tasks, n - 1);
        let last = tasks[n - 1].target;
        assert(list.push(last)[list.len() as int] == last);
        if list.contains(target) {
            let k = choose|k: int| 0 <= k < list.len() && list[k] == target;
            assert(list.push(last)[k] == target);
        }
        if list.push(last).contains(target) && !list.contains(target) {
            let k = choose|k: int| 0 <= k < list.push(last).len() && list.push(last)[k] == target;
            if k < list.len() {
                assert(list[k] == target);
            }
        }
        if tasks[n - 1].result is None {
            assert(tasks[n - 1].target == last);
        }
    }
}

/// The task that is resolved before a plan is made is the first that waits to be resolved,
/// but for targets that are not locked and that a planner plans.
pub proof fn law_first_to_plan(tasks: Seq<TaskModel>, lockfile: Seq<(Seq<char>, Seq<char>)>, can_plan: Seq<bool>, i: int)
    requires
        0 <= i <= tasks.len(),
    ensures
        ({
            let at = first_to_plan(tasks, lockfile, can_plan, i);
            &&& i <= at <= tasks.len()
            &&& at < tasks.len() ==> resolved_now(tasks[at], lockfile, can_plan[at])
            &&& forall|j: int| i <= j < at ==> !resolved_now(#[trigger] tasks[j], lockfile, can_plan[j])
        }),
    decreases tasks.len() - i,
{
    if i < tasks.len() {
        law_first_to_plan(tasks, lockfile, can_plan, i + 1);
    }
}

/// Whether a task can be resolved before a plan is made.
pub open spec fn resolved_now(task: TaskModel, lockfile: Seq<(Seq<char>, Seq<char>)>, can_plan: bool) -> bool {
    &&& task.available
    &&& task.result is None && task.config is None
    &&& can_plan ==> found(lockfile, task.target) is Some
}

/// Whether the requirement `r` is among `rows`, under its ecosystem.
pub open spec fn has_required(rows: Seq<(Seq<char>, Seq<Requirement>)>, r: Requirement) -> bool {
    found(rows, r.ecosystem) matches Some(list) && list.contains(r)
}

/// Whether what stands under each ecosystem is of that ecosystem.
pub open spec fn sorted_out(rows: Seq<(Seq<char>, Seq<Requirement>)>) -> bool {
    forall|eco: Seq<char>, k: int|
        #![trigger found(rows, eco)->0[k]]
        found(rows, eco) is Some && 0 <= k < found(rows, eco)->0.len() ==> found(rows, eco)->0[k].ecosystem == eco
}

proof fn lemma_one_required(rows: Seq<(Seq<char>, Seq<Requirement>)>, one: Requirement, r: Requirement)
    ensures
        has_required(with_required(rows, one), r) <==> has_required(rows, r) || r == one,
        sorted_out(rows) ==> sorted_out(with_required(rows, one)),
{
    let before = found(rows, one.ecosystem).unwrap_or(Seq::empty());
    let next = with_required(rows, one);
    law_with_row(rows, one.ecosystem, before.push(one), r.ecosystem);
    if r.ecosystem == one.ecosystem {
        assert(before.push(one)[before.len() as int] == one);
        if before.contains(r) {
            let k = choose|k: int| 0 <= k < before.len() && before[k] == r;
            assert(before.push(one)[k] == r);
        }
        if before.push(one).contains(r) && r != one {
            let k = choose|k: int| 0 <= k < before.push(one).len() && before.push(one)[k] == r;
            assert(before[k] == r);
        }
    }
    if sorted_out(rows) {
        assert forall|eco: Seq<char>, k: int|
            #![trigger found(next, eco)->0[k]]
            found(next, eco) is Some && 0 <= k < found(next, eco)->0.len() implies found(next, eco)->0[k].ecosystem == eco by {
            law_with_row(rows, one.ecosystem, before.push(one), eco);
            if eco == one.ecosystem {
                if k < before.len() {
                    assert(found(rows, eco)->0[k].ecosystem == eco);
                }
            } else {
                assert(found(rows, eco)->0[k].ecosystem == eco);
            }
        }
    }
}

proof fn lemma_all_required(rows: Seq<(Seq<char>, Seq<Requirement>)>, list: Seq<Requirement>, n: int, r: Requirement)
    requires
        0 <= n <= list.len(),
    ensures
        has_required(with_all_required(rows, list, n), r) <==> has_required(rows, r) || list.take(n).contains(r),
        sorted_out(rows) ==> sorted_out(with_all_required(rows, list, n)),
    decreases n,
{
    if n > 0 {
        lemma_all_required(rows, list, n - 1, r);
        lemma_one_required(with_all_required(rows, list, n - 1), list[n - 1], r);
        let front = list.take(n - 1);
        let now = list.take(n);
        assert(now[n - 1] == list[n - 1]);
        if front.contains(r) {
            let k = choose|k: int| 0 <= k < front.len() && front[k] == r;
            assert(now[k] == r);
        }
        if now.contains(r) && r != list[n - 1] {
            let k = choose|k: int| 0 <= k < now.len() && now[k] == r;
            assert(front[k] == r);
        }
    }
}

/// What is asked of the planners is all that the configured tasks require, each under its
/// ecosystem, and nothing else.
pub proof fn law_required(tasks: Seq<TaskModel>, n: int, r: Requirement)
    requires
        0 <= n <= tasks.len(),
    ensures
        has_required(required_by(tasks, n), r) <==> exists|i: int|
            0 <= i < n && (#[trigger] tasks[i]).config is Some && tasks[i].config->0.external_requirements.contains(r),
        sorted_out(required_by(tasks, n)),
    decreases n,
{
    if n > 0 {
        law_required(tasks, n - 1, r);
        if let Some(config) = tasks[n - 1].config {
            let list = config.external_requirements;
            lemma_all_required(required_by(tasks, n - 1), list, list.len() as int, r);
            assert(list.take(list.len() as int) =~= list);
            assert(tasks[n - 1].config is Some);
        }
    }
}

/// The planner of an ecosystem is the first that was registered for it.
pub proof fn law_first_called(list: Seq<Seq<char>>, name: Seq<char>, i: int)
    requires
        0 <= i <= list.len() <= usize::MAX,
    ensures
        match first_called(list, name, i) {
            Some(at) => i <= at < list.len() && list[at as int] == name && forall|j: int|
                i <= j < at ==> #[trigger] list[j] != name,
            None => forall|j: int| i <= j < list.len() ==> #[trigger] list[j] != name,
        },
    decreases list.len() - i,
{
    if i < list.len() && list[i] != name {
        law_first_called(list, name, i + 1);
    }
}

/// The planners are asked once for each ecosystem that something is required of, with all
/// that is required of it; they are not asked once a task has failed.
pub proof fn law_questions(g: Graph, planners: Seq<Seq<char>>, k: int)
    requires
        0 <= k < plan_questions(g, planners).len(),
    ensures
        !failed_task(g),
        plan_questions(g, planners).len() == required_by(g.tasks, g.tasks.len() as int).len(),
        plan_questions(g, planners)[k].ecosystem == required_by(g.tasks, g.tasks.len() as int)[k].0,
        plan_questions(g, planners)[k].requirements == required_by(g.tasks, g.tasks.len() as int)[k].1,
        plan_questions(g, planners)[k].planner == first_called(planners, plan_questions(g, planners)[k].ecosystem, 0),
{
}

/// Whether a planner's reply locks `key`.
pub open spec fn reply_locks(reply: Reply, key: Seq<char>) -> bool {
    reply.plan matches Some(Ok(more)) && exists|i: int| 0 <= i < more.lockfile.len() && (#[trigger] more.lockfile[i]).0 == key
}

/// The replies of the planners can be taken over just where each of them is a plan.
pub proof fn law_replies_accepted(plan: Plan, replies: Seq<Reply>, i: int)
    requires
        0 <= i <= replies.len(),
    ensures
        with_replies(plan, replies, i) is Ok <==> forall|j: int|
            i <= j < replies.len() ==> (#[trigger] replies[j]).plan matches Some(Ok(_)),
    decreases replies.len() - i,
{
    if i < replies.len() {
        if let Some(Ok(more)) = replies[i].plan {
            let next = Plan {
                lockfile: with_rows(plan.lockfile, more.lockfile),
                locked_dependencies: with_rows(plan.locked_dependencies, more.locked_dependencies),
            };
            law_replies_accepted(next, replies, i + 1);
        }
    }
}

/// What is locked once the planners have replied is what the last reply says that locks it;
/// what no reply locks stays as it was.
pub proof fn law_replies_kept(plan: Plan, replies: Seq<Reply>, i: int, key: Seq<char>)
    requires
        0 <= i <= replies.len(),
        with_replies(plan, replies, i) is Ok,
    ensures
        ({
            let end = with_replies(plan, replies, i)->Ok_0;
            ||| exists|j: int|
                i <= j < replies.len() && #[trigger] reply_locks(replies[j], key) && found(end.lockfile, key) == found(
                    with_rows(Seq::empty(), replies[j].plan->0->Ok_0.lockfile),
                    key,
                ) && forall|k: int| j < k < replies.len() ==> !#[trigger] reply_locks(replies[k], key)
            ||| found(end.lockfile, key) == found(plan.lockfile, key) && forall|j: int|
                i <= j < replies.len() ==> !#[trigger] reply_locks(replies[j], key)
        }),
    decreases replies.len() - i,
{
    if i < replies.len() {
        let more = replies[i].plan->0->Ok_0;
        let next = Plan {
            lockfile: with_rows(plan.lockfile, more.lockfile),
            locked_dependencies: with_rows(plan.locked_dependencies, more.locked_dependencies),
        };
        law_replies_kept(next, replies, i + 1, key);
        lemma_same_rows(plan.lockfile, Seq::empty(), more.lockfile, key);
        law_with_rows(plan.lockfile, more.lockfile, key);
        if reply_locks(replies[i], key) {
            let end = with_replies(plan, replies, i)->Ok_0;
            if forall|k: int| i + 1 <= k < replies.len() ==> !#[trigger] reply_locks(replies[k], key) {
                assert(found(end.lockfile, key) == found(next.lockfile, key)) by {
                    if exists|j: int| i + 1 <= j < replies.len() && #[trigger] reply_locks(replies[j], key) {
                        let j = choose|j: int| i + 1 <= j < replies.len() && #[trigger] reply_locks(replies[j], key);
                        assert(!reply_locks(replies[j], key));
                    }
                }
                assert(reply_locks(replies[i], key));
            }
        }
    }
}

/// What is found under a name that is added does not depend on what was there.
proof fn lemma_same_rows<V>(a: Seq<(Seq<char>, V)>, b: Seq<(Seq<char>, V)>, more: Seq<(Seq<char>, V)>, key: Seq<char>)
    ensures
        (exists|i: int| 0 <= i < more.len() && (#[trigger] more[i]).0 == key) ==> found(with_rows(a, more), key) == found(
            with_rows(b, more),
            key,
        ),
    decreases more.len(),
{
    if more.len() > 0 {
        let start = more.drop_last();
        lemma_same_rows(a, b, start, key);
        law_with_row(with_rows(a, start), more.last().0, more.last().1, key);
        law_with_row(with_rows(b, start), more.last().0, more.last().1, key);
        if exists|i: int| 0 <= i < more.len() && (#[trigger] more[i]).0 == key {
            let i = choose|i: int| 0 <= i < more.len() && (#[trigger] more[i]).0 == key;
            if i < more.len() - 1 {
                assert(start[i].0 == key);
            }
        }
    }
}

/// The plugin that builds a target is the registered one of that name, or the first output
/// of the target of that name once it is built.
pub proof fn law_source(builders: Builders, g: Graph, name: Seq<char>)
    ensures
        found(builders, name) matches Some(i) ==> source_of(builders, g, name) == Some(Source::Registered(i)),
        found(builders, name) is None && source_of(builders, g, name) is Some ==> (found(g.by_target, name) matches Some(id)
            && (g.tasks[id as int].result matches Some(Outcome::Success(output)) && output.outputs.len() > 0 && source_of(
            builders,
            g,
            name,
        ) == Some(Source::Load(output.outputs[0])))),
        found(builders, name) is None && source_of(builders, g, name) is None ==> (found(g.by_target, name) matches Some(id)
            ==> !(g.tasks[id as int].result matches Some(Outcome::Success(output)) && output.outputs.len() > 0)),
{
}

/// Whether `v` is among what stands under `key`.
pub open spec fn has_extra(extras: Seq<(u32, Seq<Seq<char>>)>, key: u32, v: Seq<char>) -> bool {
    found_number(extras, key) matches Some(list) && list.contains(v)
}

/// What results say beside their outputs is gathered: each value stays under its number, and
/// none is added.
pub proof fn law_extras_gathered(
    extras: Seq<(u32, Seq<Seq<char>>)>,
    more: Seq<(u32, Seq<Seq<char>>)>,
    key: u32,
    v: Seq<char>,
)
    ensures
        has_extra(with_extras(extras, more), key, v) <==> has_extra(extras, key, v) || exists|i: int|
            0 <= i < more.len() && (#[trigger] more[i]).0 == key && more[i].1.contains(v),
    decreases more.len(),
{
    if more.len() > 0 {
        let start = more.drop_last();
        let before = with_extras(extras, start);
        let (last, values) = more.last();
        law_extras_gathered(extras, start, key, v);
        let joint = match found_number(before, last) {
            Some(list) => list + values,
            None => values,
        };
        law_with_number(before, last, joint, key);
        if key == last {
            if let Some(list) = found_number(before, last) {
                lemma_joint(list, values, v);
            }
        }
        if exists|i: int| 0 <= i < more.len() && (#[trigger] more[i]).0 == key && more[i].1.contains(v) {
            let i = choose|i: int| 0 <= i < more.len() && (#[trigger] more[i]).0 == key && more[i].1.contains(v);
            if i < more.len() - 1 {
                assert(start[i].0 == key);
            }
        }
        if exists|i: int| 0 <= i < start.len() && (#[trigger] start[i]).0 == key && start[i].1.contains(v) {
            let i = choose|i: int| 0 <= i < start.len() && (#[trigger] start[i]).0 == key && start[i].1.contains(v);
            assert(more[i].0 == key);
        }
        assert(more[more.len() - 1].0 == last);
    }
}

proof fn lemma_joint<T>(a: Seq<T>, b: Seq<T>, x: T)
    ensures
        (a + b).contains(x) <==> a.contains(x) || b.contains(x),
{
    let both = a + b;
    if both.contains(x) {
        let i = choose|i: int| 0 <= i < both.len() && both[i] == x;
        assert(if i < a.len() { a[i] == x } else { b[i - a.len()] == x });
    }
    if a.contains(x) {
        let i = choose|i: int| 0 <= i < a.len() && a[i] == x;
        assert(both[i] == x);
    }
    if b.contains(x) {
        let i = choose|i: int| 0 <= i < b.len() && b[i] == x;
        assert(both[a.len() + i] == x);
    }
}

/// Results come to a failure just where one of them is one, and then to the first; else they
/// have all of their outputs together.
pub proof fn law_results_merged(results: Seq<Outcome>, path: Seq<char>)
    ensures
        match merged_results(results) {
            Outcome::Failure(reason) => exists|i: int|
                0 <= i < results.len() && #[trigger] results[i] == Outcome::Failure(reason) && forall|j: int|
                    0 <= j < i ==> (#[trigger] results[j]) is Success,
            Outcome::Success(output) => {
                &&& forall|i: int| 0 <= i < results.len() ==> (#[trigger] results[i]) is Success
                &&& output.outputs.contains(path) <==> exists|i: int|
                    0 <= i < results.len() && (#[trigger] results[i])->Success_0.outputs.contains(path)
            },
        },
    decreases results.len(),
{
    if results.len() > 0 {
        let front = results.drop_last();
        law_results_merged(front, path);
        assert(results[results.len() - 1] == results.last());
        match (merged_results(front), results.last()) {
            (Outcome::Failure(reason), _) => {
                let i = choose|i: int|
                    0 <= i < front.len() && #[trigger] front[i] == Outcome::Failure(reason) && forall|j: int|
                        0 <= j < i ==> (#[trigger] front[j]) is Success;
                assert(results[i] == Outcome::Failure(reason));
                assert forall|j: int| 0 <= j < i implies (#[trigger] results[j]) is Success by {
                    assert(front[j] is Success);
                }
            },
            (Outcome::Success(a), Outcome::Failure(reason)) => {
                assert forall|j: int| 0 <= j < results.len() - 1 implies (#[trigger] results[j]) is Success by {
                    assert(front[j] is Success);
                }
                assert(results[results.len() - 1] == Outcome::Failure(reason));
            },
            (Outcome::Success(a), Outcome::Success(b)) => {
                lemma_joint(a.outputs, b.outputs, path);
                assert forall|j: int| 0 <= j < results.len() implies (#[trigger] results[j]) is Success by {
                    if j < front.len() {
                        assert(front[j] is Success);
                    }
                }
                if a.outputs.contains(path) {
                    let i = choose|i: int|
                        0 <= i < front.len() && (#[trigger] front[i])->Success_0.outputs.contains(path);
                    assert(results[i]->Success_0.outputs.contains(path));
                }
                if exists|i: int| 0 <= i < results.len() && (#[trigger] results[i])->Success_0.outputs.contains(path) {
                    let i = choose|i: int|
                        0 <= i < results.len() && (#[trigger] results[i])->Success_0.outputs.contains(path);
                    if i < front.len() {
                        assert(front[i]->Success_0.outputs.contains(path));
                    }
                }
            },
        }
    }
}

/// A build that fails does so for the reason of its first task that failed, unless an earlier
/// one is not done yet; one that succeeds has the outputs of its roots.
pub proof fn law_collected(tasks: Seq<TaskModel>, roots: Seq<usize>, i: int, path: Seq<char>)
    requires
        0 <= i <= tasks.len() <= usize::MAX,
        forall|k: int| 0 <= k < roots.len() ==> (#[trigger] roots[k]) < tasks.len(),
        forall|j: int| 0 <= j < i ==> has_built(#[trigger] tasks[j]),
    ensures
        match collected(tasks, roots, i) {
            Collection::Waiting(at) => at < tasks.len() && tasks[at as int].result is None,
            Collection::Finished(Outcome::Failure(reason)) => exists|at: int|
                i <= at < tasks.len() && (#[trigger] tasks[at]).result == Some(Outcome::Failure(reason)) && forall|j: int|
                    i <= j < at ==> has_built(#[trigger] tasks[j]),
            Collection::Finished(Outcome::Success(output)) => {
                &&& forall|j: int| 0 <= j < tasks.len() ==> has_built(#[trigger] tasks[j])
                &&& output.outputs.contains(path) <==> exists|k: int|
                    0 <= k < roots.len() && tasks[(#[trigger] roots[k]) as int].result->0->Success_0.outputs.contains(path)
            },
        },
    decreases tasks.len() - i,
{
    if i >= tasks.len() {
        let results = roots.map_values(|root: usize| tasks[root as int].result.unwrap());
        law_results_merged(results, path);
        assert forall|k: int| 0 <= k < roots.len() implies (#[trigger] results[k]) is Success by {
            assert(tasks[roots[k] as int].result is Some);
        }
        if let Outcome::Success(output) = merged_results(results) {
            if output.outputs.contains(path) {
                let k = choose|k: int| 0 <= k < results.len() && (#[trigger] results[k])->Success_0.outputs.contains(path);
                assert(tasks[roots[k] as int].result->0->Success_0.outputs.contains(path));
            }
            if exists|k: int|
                0 <= k < roots.len() && tasks[(#[trigger] roots[k]) as int].result->0->Success_0.outputs.contains(path) {
                let k = choose|k: int|
                    0 <= k < roots.len() && tasks[(#[trigger] roots[k]) as int].result->0->Success_0.outputs.contains(path);
                assert(tasks[roots[k] as int].result is Some);
                assert(results[k]->Success_0.outputs.contains(path));
            }
        }
    } else if let Some(Outcome::Success(_)) = tasks[i].result {
        law_collected(tasks, roots, i + 1, path);
    }
}

/// A build has as many workers as are asked for, where that is a number above zero; else as
/// many as can run at once.
pub proof fn law_workers(jobs: Option<Seq<char>>, available: usize)
    requires
        available > 0,
    ensures
        workers(jobs, available) > 0,
        jobs is None ==> workers(jobs, available) == available,
        jobs matches Some(text) ==> (number_in(text, usize::MAX as int) matches Ok(n) ==> (n > 0 ==> workers(jobs, available)
            == n)),
        jobs matches Some(text) ==> (number_in(text, usize::MAX as int) is Err ==> workers(jobs, available) == available),
{
}

/// A target is called by its kind, or by its plugin where it has no kind.
pub proof fn law_kind(config: ConfigModel)
    ensures
        config.kind.len() > 0 ==> kind_of(config) == config.kind,
        config.kind.len() == 0 ==> kind_of(config) == config.build_plugin,
{
}

} // verus!
