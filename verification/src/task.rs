//! Tasks: the targets of a build, each with how far it has come.

use vstd::prelude::*;

use crate::model::{BuildResult, Config, ConfigModel, Outcome};
use crate::text::Duplicate;

verus! {

#[derive(Clone, Copy, Debug, PartialEq, Eq, Structural)]
pub enum TaskStatus {
    Resolving,
    Blocked,
    Building,
    Done,
}

#[derive(Debug)]
pub struct Task {
    pub id: usize,
    pub target: String,
    pub config: Option<Config>,
    pub dependencies: Vec<usize>,
    pub dependencies_ready: usize,
    pub result: Option<BuildResult>,
    pub available: bool,
}

/// What a `Task` says.
#[verifier::ext_equal]
pub struct TaskModel {
    pub id: usize,
    pub target: Seq<char>,
    pub config: Option<ConfigModel>,
    pub dependencies: Seq<usize>,
    pub dependencies_ready: usize,
    pub result: Option<Outcome>,
    pub available: bool,
}

impl DeepView for Task {
    type V = TaskModel;

    open spec fn deep_view(&self) -> TaskModel {
        TaskModel {
            id: self.id,
            target: self.target@,
            config: self.config.deep_view(),
            dependencies: self.dependencies.deep_view(),
            dependencies_ready: self.dependencies_ready,
            result: self.result.deep_view(),
            available: self.available,
        }
    }
}

impl Duplicate for Task {
    fn duplicate(&self) -> (r: Self) {
        Task {
            id: self.id,
            target: self.target.clone(),
            config: self.config.duplicate(),
            dependencies: self.dependencies.duplicate(),
            dependencies_ready: self.dependencies_ready,
            result: self.result.duplicate(),
            available: self.available,
        }
    }
}

/// A task that nothing has been done for.
pub open spec fn new_task(id: usize, target: Seq<char>) -> TaskModel {
    TaskModel {
        id,
        target,
        config: None,
        dependencies: Seq::empty(),
        dependencies_ready: 0,
        result: None,
        available: true,
    }
}

/// How far a task has come: it is done once it has a result; without a
/// configuration it is to be resolved; it is blocked until all its
/// dependencies are ready.
pub open spec fn status_of(task: TaskModel) -> TaskStatus {
    if task.result is Some {
        TaskStatus::Done
    } else if task.config is None {
        TaskStatus::Resolving
    } else if task.dependencies_ready == task.dependencies.len() {
        TaskStatus::Building
    } else {
        TaskStatus::Blocked
    }
}

/// The stage in which a task that failed did so.
pub open spec fn stage_of(task: TaskModel) -> TaskStatus {
    if task.config is None {
        TaskStatus::Resolving
    } else {
        TaskStatus::Building
    }
}

impl Task {
    pub fn new(id: usize, target: String) -> (r: Self)
        ensures
            r.deep_view() == new_task(id, target@),
    {
        let r = Task {
            id,
            target,
            config: None,
            dependencies: Vec::new(),
            dependencies_ready: 0,
            result: None,
            available: true,
        };
        assert(r.deep_view() =~= new_task(id, target@));
        r
    }

    pub fn status(&self) -> (r: TaskStatus)
        ensures
            r == status_of(self.deep_view()),
    {
        if self.result.is_some() {
            TaskStatus::Done
        } else if self.config.is_none() {
            TaskStatus::Resolving
        } else if self.dependencies_ready == self.dependencies.len() {
            TaskStatus::Building
        } else {
            TaskStatus::Blocked
        }
    }

    pub fn failure_stage(&self) -> (r: TaskStatus)
        ensures
            r == stage_of(self.deep_view()),
    {
        if self.config.is_none() {
            TaskStatus::Resolving
        } else {
            TaskStatus::Building
        }
    }
}

} // verus!
