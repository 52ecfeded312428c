//! What is known of the machine that a workspace is on, and what is asked of it.
//!
//! A computation that depends on files, on the environment or on programs is a
//! function of what is known. Where something is missing it stops with the
//! question; once that is answered, it is done again.

use vstd::prelude::*;

use crate::config_file::{Evaluated, Loaded};
use crate::error::{outcome, Error, Fault};
use crate::plugin_abi::{LoadedAbiPlugin, LoadedModel};
use crate::table::{found, Numbered, Table};
use crate::text::{same, Duplicate};

verus! {

/// The machine.
pub struct Host {
    pub os: String,
    pub arch: String,
    pub windows: bool,
    pub little_endian: bool,
}

/// What a `Host` says.
#[verifier::ext_equal]
pub struct Machine {
    pub os: Seq<char>,
    pub arch: Seq<char>,
    pub windows: bool,
    pub little_endian: bool,
}

impl DeepView for Host {
    type V = Machine;

    open spec fn deep_view(&self) -> Machine {
        Machine { os: self.os@, arch: self.arch@, windows: self.windows, little_endian: self.little_endian }
    }
}

/// An answer, or the error in its place.
pub enum Answer<T> {
    Given(T),
    Failed(Error),
}

impl<T: DeepView> DeepView for Answer<T> {
    type V = Result<T::V, Fault>;

    open spec fn deep_view(&self) -> Result<T::V, Fault> {
        match self {
            Answer::Given(value) => Ok(value.deep_view()),
            Answer::Failed(e) => Err(e.deep_view()),
        }
    }
}

impl<T: Duplicate> Answer<T> {
    /// A copy of the answer, as a result.
    pub fn result(&self) -> (r: Result<T, Error>)
        ensures
            outcome(r) == self.deep_view(),
    {
        match self {
            Answer::Given(value) => Ok(value.duplicate()),
            Answer::Failed(e) => Err(e.duplicate()),
        }
    }
}

/// What came of a program: whether it succeeded, and what it printed, where
/// that is text.
pub struct RunOutput {
    pub success: bool,
    pub stdout: Answer<String>,
}

/// What a `RunOutput` says.
#[verifier::ext_equal]
pub struct Ran {
    pub success: bool,
    pub stdout: Result<Seq<char>, Fault>,
}

impl DeepView for RunOutput {
    type V = Ran;

    open spec fn deep_view(&self) -> Ran {
        Ran { success: self.success, stdout: self.stdout.deep_view() }
    }
}

impl Duplicate for RunOutput {
    fn duplicate(&self) -> (r: Self) {
        RunOutput {
            success: self.success,
            stdout: match &self.stdout {
                Answer::Given(text) => Answer::Given(text.clone()),
                Answer::Failed(e) => Answer::Failed(e.duplicate()),
            },
        }
    }
}

/// A tool that a plugin brings.
pub struct PluginTool {
    pub name: String,
    pub kind: String,
    pub path: String,
    pub fingerprint: String,
}

/// What a `PluginTool` says.
#[verifier::ext_equal]
pub struct BroughtTool {
    pub name: Seq<char>,
    pub kind: Seq<char>,
    pub path: Seq<char>,
    pub fingerprint: Seq<char>,
}

impl DeepView for PluginTool {
    type V = BroughtTool;

    open spec fn deep_view(&self) -> BroughtTool {
        BroughtTool { name: self.name@, kind: self.kind@, path: self.path@, fingerprint: self.fingerprint@ }
    }
}

/// What a plugin answers when it is started.
pub enum PluginInitResponse {
    Success(Vec<PluginTool>, Vec<(String, String)>),
    Failure(String),
}

/// What a `PluginInitResponse` says.
#[verifier::ext_equal]
pub enum Started {
    Success(Seq<BroughtTool>, Seq<(Seq<char>, Seq<char>)>),
    Failure(Seq<char>),
}

impl DeepView for PluginInitResponse {
    type V = Started;

    open spec fn deep_view(&self) -> Started {
        match self {
            PluginInitResponse::Success(tools, fingerprints) => Started::Success(
                tools.deep_view(),
                fingerprints.deep_view(),
            ),
            PluginInitResponse::Failure(reason) => Started::Failure(reason@),
        }
    }
}

/// What a plugin is told when it is started.
pub struct PluginInitRequest {
    pub name: String,
    pub workspace_root: String,
    pub cache_dir: String,
    pub target_config: Numbered<String>,
    pub parameters: Table<String>,
}

/// What a `PluginInitRequest` says.
#[verifier::ext_equal]
pub struct StartRequest {
    pub name: Seq<char>,
    pub workspace_root: Seq<char>,
    pub cache_dir: Seq<char>,
    pub target_config: Seq<(u32, Seq<char>)>,
    pub parameters: Seq<(Seq<char>, Seq<char>)>,
}

impl DeepView for PluginInitRequest {
    type V = StartRequest;

    open spec fn deep_view(&self) -> StartRequest {
        StartRequest {
            name: self.name@,
            workspace_root: self.workspace_root@,
            cache_dir: self.cache_dir@,
            target_config: self.target_config.deep_view(),
            parameters: self.parameters.deep_view(),
        }
    }
}

/// What is known: whether files exist and what they are, what directories and
/// files hold, what configuration files evaluate to, the environment, what
/// programs print, and what plugins are and answered when they were started,
/// one after the other.
pub struct Known {
    pub host: Host,
    pub presence: Table<bool>,
    pub dirs: Table<bool>,
    pub files: Table<bool>,
    pub entries: Table<Answer<Vec<String>>>,
    pub contents: Table<Answer<Vec<u8>>>,
    pub configs: Table<Loaded>,
    pub variables: Table<Option<String>>,
    pub commands: Vec<(Vec<String>, Answer<RunOutput>)>,
    pub plugins: Table<Answer<LoadedAbiPlugin>>,
    pub started: Vec<Answer<PluginInitResponse>>,
}

/// What a `Known` says.
#[verifier::ext_equal]
pub struct World {
    pub host: Machine,
    pub presence: Seq<(Seq<char>, bool)>,
    pub dirs: Seq<(Seq<char>, bool)>,
    pub files: Seq<(Seq<char>, bool)>,
    pub entries: Seq<(Seq<char>, Result<Seq<Seq<char>>, Fault>)>,
    pub contents: Seq<(Seq<char>, Result<Seq<u8>, Fault>)>,
    pub configs: Seq<(Seq<char>, Evaluated)>,
    pub variables: Seq<(Seq<char>, Option<Seq<char>>)>,
    pub commands: Seq<(Seq<Seq<char>>, Result<Ran, Fault>)>,
    pub plugins: Seq<(Seq<char>, Result<LoadedModel, Fault>)>,
    pub started: Seq<Result<Started, Fault>>,
}

impl DeepView for Known {
    type V = World;

    open spec fn deep_view(&self) -> World {
        World {
            host: self.host.deep_view(),
            presence: self.presence.deep_view(),
            dirs: self.dirs.deep_view(),
            files: self.files.deep_view(),
            entries: self.entries.deep_view(),
            contents: self.contents.deep_view(),
            configs: self.configs.deep_view(),
            variables: self.variables.deep_view(),
            commands: self.commands.deep_view(),
            plugins: self.plugins.deep_view(),
            started: self.started.deep_view(),
        }
    }
}

/// What is asked.
pub enum Question {
    Exists(String),
    IsDir(String),
    IsFile(String),
    Entries(String),
    Contents(String),
    Config(String),
    Variable(String),
    Run(Vec<String>),
    Plugin(String, String),
    Start(PluginInitRequest),
}

/// What a `Question` says.
#[verifier::ext_equal]
pub enum Query {
    Exists(Seq<char>),
    IsDir(Seq<char>),
    IsFile(Seq<char>),
    Entries(Seq<char>),
    Contents(Seq<char>),
    Config(Seq<char>),
    Variable(Seq<char>),
    Run(Seq<Seq<char>>),
    Plugin(Seq<char>, Seq<char>),
    Start(StartRequest),
}

impl DeepView for Question {
    type V = Query;

    open spec fn deep_view(&self) -> Query {
        match self {
            Question::Exists(path) => Query::Exists(path@),
            Question::IsDir(path) => Query::IsDir(path@),
            Question::IsFile(path) => Query::IsFile(path@),
            Question::Entries(path) => Query::Entries(path@),
            Question::Contents(path) => Query::Contents(path@),
            Question::Config(path) => Query::Config(path@),
            Question::Variable(name) => Query::Variable(name@),
            Question::Run(command) => Query::Run(command.deep_view()),
            Question::Plugin(path, name) => Query::Plugin(path@, name@),
            Question::Start(request) => Query::Start(request.deep_view()),
        }
    }
}

/// Why a computation stops: it fails, or it has a question.
pub enum Stop {
    Failed(Error),
    Ask(Question),
}

/// What a `Stop` says.
#[verifier::ext_equal]
pub enum Halt {
    Failed(Fault),
    Ask(Query),
}

impl DeepView for Stop {
    type V = Halt;

    open spec fn deep_view(&self) -> Halt {
        match self {
            Stop::Failed(e) => Halt::Failed(e.deep_view()),
            Stop::Ask(question) => Halt::Ask(question.deep_view()),
        }
    }
}

/// What the result of a computation says.
pub open spec fn told<T: DeepView>(r: Result<T, Stop>) -> Result<T::V, Halt> {
    match r {
        Ok(value) => Ok(value.deep_view()),
        Err(stop) => Err(stop.deep_view()),
    }
}

/// The result of a computation that has no questions.
pub open spec fn settled<T>(r: Result<T, Fault>) -> Result<T, Halt> {
    match r {
        Ok(value) => Ok(value),
        Err(e) => Err(Halt::Failed(e)),
    }
}

pub fn settle<T: DeepView>(r: Result<T, Error>) -> (s: Result<T, Stop>)
    ensures
        told(s) == settled(outcome(r)),
{
    match r {
        Ok(value) => Ok(value),
        Err(e) => Err(Stop::Failed(e)),
    }
}

/// What is known under `key`, or the question `query`.
pub open spec fn known_or<T>(rows: Seq<(Seq<char>, T)>, key: Seq<char>, query: Query) -> Result<T, Halt> {
    match found(rows, key) {
        Some(value) => Ok(value),
        None => Err(Halt::Ask(query)),
    }
}

/// The answer known under `key`, or the question `query`.
pub open spec fn answer_or<T>(rows: Seq<(Seq<char>, Result<T, Fault>)>, key: Seq<char>, query: Query) -> Result<T, Halt> {
    match found(rows, key) {
        Some(answer) => settled(answer),
        None => Err(Halt::Ask(query)),
    }
}

/// The answer of the first of `rows[i..]` with the command `command`.
pub open spec fn found_command<T>(rows: Seq<(Seq<Seq<char>>, T)>, command: Seq<Seq<char>>, i: int) -> Option<T>
    decreases rows.len() - i,
{
    if i >= rows.len() {
        None
    } else if rows[i].0 == command {
        Some(rows[i].1)
    } else {
        found_command(rows, command, i + 1)
    }
}

impl World {
    pub open spec fn existing(self, path: Seq<char>) -> Result<bool, Halt> {
        known_or(self.presence, path, Query::Exists(path))
    }

    pub open spec fn dir(self, path: Seq<char>) -> Result<bool, Halt> {
        known_or(self.dirs, path, Query::IsDir(path))
    }

    pub open spec fn file(self, path: Seq<char>) -> Result<bool, Halt> {
        known_or(self.files, path, Query::IsFile(path))
    }

    pub open spec fn listed(self, path: Seq<char>) -> Result<Seq<Seq<char>>, Halt> {
        answer_or(self.entries, path, Query::Entries(path))
    }

    pub open spec fn bytes(self, path: Seq<char>) -> Result<Seq<u8>, Halt> {
        answer_or(self.contents, path, Query::Contents(path))
    }

    pub open spec fn config(self, path: Seq<char>) -> Result<Evaluated, Halt> {
        known_or(self.configs, path, Query::Config(path))
    }

    pub open spec fn variable(self, name: Seq<char>) -> Result<Option<Seq<char>>, Halt> {
        known_or(self.variables, name, Query::Variable(name))
    }

    pub open spec fn run(self, command: Seq<Seq<char>>) -> Result<Ran, Halt> {
        match found_command(self.commands, command, 0) {
            Some(answer) => settled(answer),
            None => Err(Halt::Ask(Query::Run(command))),
        }
    }

    pub open spec fn plugin(self, path: Seq<char>, name: Seq<char>) -> Result<LoadedModel, Halt> {
        answer_or(self.plugins, path, Query::Plugin(path, name))
    }
}

fn same_texts(a: &Vec<String>, b: &Vec<String>) -> (r: bool)
    ensures
        r == (a.deep_view() == b.deep_view()),
{
    if a.len() != b.len() {
        assert(a.deep_view().len() != b.deep_view().len());
        return false;
    }
    let mut i: usize = 0;
    while i < a.len()
        invariant
            i <= a.len() == b.len(),
            forall|j: int| 0 <= j < i ==> a.deep_view()[j] == b.deep_view()[j],
        decreases a.len() - i,
    {
        assert(a.deep_view()[i as int] == a@[i as int]@);
        assert(b.deep_view()[i as int] == b@[i as int]@);
        if !same(a[i].as_str(), b[i].as_str()) {
            return false;
        }
        i = i + 1;
    }
    assert(a.deep_view() =~= b.deep_view());
    true
}

impl Known {
    /// Nothing but the machine is known.
    pub fn new(host: Host) -> (r: Self)
        ensures
            r.deep_view() == (World {
                host: host.deep_view(),
                presence: Seq::empty(),
                dirs: Seq::empty(),
                files: Seq::empty(),
                entries: Seq::empty(),
                contents: Seq::empty(),
                configs: Seq::empty(),
                variables: Seq::empty(),
                commands: Seq::empty(),
                plugins: Seq::empty(),
                started: Seq::empty(),
            }),
    {
        let r = Known {
            host,
            presence: Table::new(),
            dirs: Table::new(),
            files: Table::new(),
            entries: Table::new(),
            contents: Table::new(),
            configs: Table::new(),
            variables: Table::new(),
            commands: Vec::new(),
            plugins: Table::new(),
            started: Vec::new(),
        };
        assert(r.deep_view().commands =~= Seq::empty());
        assert(r.deep_view().started =~= Seq::empty());
        r
    }

    pub fn is_present(&self, path: &str) -> (r: Result<bool, Stop>)
        ensures
            told(r) == self.deep_view().existing(path@),
    {
        match self.presence.get(path) {
            Some(answer) => Ok(*answer),
            None => Err(Stop::Ask(Question::Exists(path.to_owned()))),
        }
    }

    pub fn is_dir(&self, path: &str) -> (r: Result<bool, Stop>)
        ensures
            told(r) == self.deep_view().dir(path@),
    {
        match self.dirs.get(path) {
            Some(answer) => Ok(*answer),
            None => Err(Stop::Ask(Question::IsDir(path.to_owned()))),
        }
    }

    pub fn is_file(&self, path: &str) -> (r: Result<bool, Stop>)
        ensures
            told(r) == self.deep_view().file(path@),
    {
        match self.files.get(path) {
            Some(answer) => Ok(*answer),
            None => Err(Stop::Ask(Question::IsFile(path.to_owned()))),
        }
    }

    pub fn entries(&self, path: &str) -> (r: Result<Vec<String>, Stop>)
        ensures
            told(r) == self.deep_view().listed(path@),
    {
        match self.entries.get(path) {
            Some(answer) => settle(answer.result()),
            None => Err(Stop::Ask(Question::Entries(path.to_owned()))),
        }
    }

    pub fn contents(&self, path: &str) -> (r: Result<&Vec<u8>, Stop>)
        ensures
            told(r) == self.deep_view().bytes(path@),
    {
        match self.contents.get(path) {
            Some(Answer::Given(bytes)) => Ok(bytes),
            Some(Answer::Failed(e)) => Err(Stop::Failed(e.duplicate())),
            None => Err(Stop::Ask(Question::Contents(path.to_owned()))),
        }
    }

    pub fn config(&self, path: &str) -> (r: Result<&Loaded, Stop>)
        ensures
            told(r) == self.deep_view().config(path@),
    {
        match self.configs.get(path) {
            Some(loaded) => Ok(loaded),
            None => Err(Stop::Ask(Question::Config(path.to_owned()))),
        }
    }

    pub fn variable(&self, name: &str) -> (r: Result<Option<String>, Stop>)
        ensures
            told(r) == self.deep_view().variable(name@),
    {
        match self.variables.get(name) {
            Some(value) => Ok(value.duplicate()),
            None => Err(Stop::Ask(Question::Variable(name.to_owned()))),
        }
    }

    pub fn run(&self, command: Vec<String>) -> (r: Result<RunOutput, Stop>)
        ensures
            told(r) == self.deep_view().run(command.deep_view()),
    {
        let ghost rows = self.commands.deep_view();
        let mut i: usize = 0;
        while i < self.commands.len()
            invariant
                i <= self.commands.len(),
                rows == self.commands.deep_view(),
                found_command(rows, command.deep_view(), 0) == found_command(rows, command.deep_view(), i as int),
            decreases self.commands.len() - i,
        {
            assert(rows[i as int] == (self.commands@[i as int].0.deep_view(), self.commands@[i as int].1.deep_view()));
            if same_texts(&self.commands[i].0, &command) {
                return settle(self.commands[i].1.result());
            }
            i = i + 1;
        }
        Err(Stop::Ask(Question::Run(command)))
    }

    pub fn plugin(&self, path: &str, name: &str) -> (r: Result<LoadedAbiPlugin, Stop>)
        ensures
            told(r) == self.deep_view().plugin(path@, name@),
    {
        match self.plugins.get(path) {
            Some(answer) => settle(answer.result()),
            None => Err(Stop::Ask(Question::Plugin(path.to_owned(), name.to_owned()))),
        }
    }
}

} // verus!
