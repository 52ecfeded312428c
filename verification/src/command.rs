//! The command line: what is asked for, and what is said about its outcome.

use vstd::prelude::*;

use crate::digest::{decimal, decimal_of};
use crate::error::{error, fault, outcome, Error, ErrorKind, Fault};
use crate::model::{BuildResult, Outcome};
use crate::path::{components, file_name, file_name_of, join_path, joined_path, parent, parent_of, parts_of, Part};
use crate::text::{cat2, cat3, cat4, cat5, ends, ends_with, join, joined, keep, same, Duplicate};

verus! {

/// What is asked for.
pub enum Command {
    Build(Vec<String>),
    Test(Vec<String>),
    Install(String),
    Run(String, Vec<String>),
}

/// What a `Command` says.
#[verifier::ext_equal]
pub enum Wish {
    Build(Seq<Seq<char>>),
    Test(Seq<Seq<char>>),
    Install(Seq<char>),
    Run(Seq<char>, Seq<Seq<char>>),
}

impl DeepView for Command {
    type V = Wish;

    open spec fn deep_view(&self) -> Wish {
        match self {
            Command::Build(targets) => Wish::Build(targets.deep_view()),
            Command::Test(targets) => Wish::Test(targets.deep_view()),
            Command::Install(target) => Wish::Install(target@),
            Command::Run(target, args) => Wish::Run(target@, args.deep_view()),
        }
    }
}

/// How the program is used.
pub open spec fn usage() -> Fault {
    fault(
        ErrorKind::InvalidInput,
        "usage: cbs build <target-or-pattern>...\n       cbs test <target-or-pattern>...\n       cbs install //package:target | :target\n       cbs run //package:target | :target [-- args...]"@,
    )
}

pub fn usage_error() -> (r: Error)
    ensures
        r.deep_view() == usage(),
{
    error(
        ErrorKind::InvalidInput,
        "usage: cbs build <target-or-pattern>...\n       cbs test <target-or-pattern>...\n       cbs install //package:target | :target\n       cbs run //package:target | :target [-- args...]".to_owned(),
    )
}

/// What is asked for by the given arguments.
pub open spec fn command_in(args: Seq<Seq<char>>) -> Result<Wish, Fault> {
    if args.len() < 2 {
        Err(usage())
    } else if args[0] == "build"@ {
        Ok(Wish::Build(args.skip(1)))
    } else if args[0] == "test"@ {
        Ok(Wish::Test(args.skip(1)))
    } else if args[0] == "install"@ {
        if args.len() == 2 {
            Ok(Wish::Install(args[1]))
        } else {
            Err(usage())
        }
    } else if args[0] == "run"@ {
        if args.len() > 2 && args[2] == "--"@ {
            Ok(Wish::Run(args[1], args.skip(3)))
        } else {
            Ok(Wish::Run(args[1], args.skip(2)))
        }
    } else {
        Err(usage())
    }
}

/// The arguments from position `from` on.
fn rest_of(args: &Vec<String>, from: usize) -> (r: Vec<String>)
    requires
        from <= args@.len(),
    ensures
        r.deep_view() == args.deep_view().skip(from as int),
{
    let ghost list = args.deep_view();
    let mut out: Vec<String> = Vec::new();
    let mut i: usize = from;
    assert(out.deep_view() =~= list.subrange(from as int, from as int));
    while i < args.len()
        invariant
            from <= i <= args.len(),
            list == args.deep_view(),
            out.deep_view() == list.subrange(from as int, i as int),
        decreases args.len() - i,
    {
        assert(list[i as int] == args@[i as int]@);
        keep(&mut out, args[i].clone());
        i = i + 1;
        assert(list.subrange(from as int, i as int) =~= list.subrange(from as int, i - 1).push(list[i - 1]));
    }
    assert(list.subrange(from as int, i as int) =~= list.skip(from as int));
    out
}

pub fn parse_command(args: &Vec<String>) -> (r: Result<Command, Error>)
    ensures
        outcome(r) == command_in(args.deep_view()),
{
    if args.len() < 2 {
        return Err(usage_error());
    }
    assert(args.deep_view()[0] == args@[0]@);
    assert(args.deep_view()[1] == args@[1]@);
    if same(args[0].as_str(), "build") {
        return Ok(Command::Build(rest_of(args, 1)));
    }
    if same(args[0].as_str(), "test") {
        return Ok(Command::Test(rest_of(args, 1)));
    }
    if same(args[0].as_str(), "install") {
        if args.len() == 2 {
            return Ok(Command::Install(args[1].clone()));
        }
        return Err(usage_error());
    }
    if same(args[0].as_str(), "run") {
        if args.len() > 2 {
            assert(args.deep_view()[2] == args@[2]@);
            if same(args[2].as_str(), "--") {
                return Ok(Command::Run(args[1].clone(), rest_of(args, 3)));
            }
        }
        return Ok(Command::Run(args[1].clone(), rest_of(args, 2)));
    }
    Err(usage_error())
}

/// What is said before a command is done.
pub open spec fn announced(wish: Wish) -> Seq<char> {
    match wish {
        Wish::Build(targets) => "[cbs] build requested: "@ + joined(targets, ", "@),
        Wish::Test(targets) => "[cbs] test requested: "@ + joined(targets, ", "@),
        Wish::Install(target) => "[cbs] install requested: "@ + target,
        Wish::Run(target, _) => "[cbs] run requested: "@ + target,
    }
}

pub fn announcement(command: &Command) -> (r: String)
    ensures
        r@ == announced(command.deep_view()),
{
    match command {
        Command::Build(targets) => cat2("[cbs] build requested: ", join(targets, ", ").as_str()),
        Command::Test(targets) => cat2("[cbs] test requested: ", join(targets, ", ").as_str()),
        Command::Install(target) => cat2("[cbs] install requested: ", target.as_str()),
        Command::Run(target, _) => cat2("[cbs] run requested: ", target.as_str()),
    }
}

/// The outputs of a build that succeeded.
pub open spec fn outputs_of(result: Outcome) -> Result<Seq<Seq<char>>, Fault> {
    match result {
        Outcome::Success(output) => Ok(output.outputs),
        Outcome::Failure(reason) => Err(fault(ErrorKind::Other, "build failed: "@ + reason)),
    }
}

pub fn built_outputs(result: BuildResult) -> (r: Result<Vec<String>, Error>)
    ensures
        outcome(r) == outputs_of(result.deep_view()),
{
    match result {
        BuildResult::Success(output) => Ok(output.outputs),
        BuildResult::Failure(reason) => Err(error(ErrorKind::Other, cat2("build failed: ", reason.as_str()))),
    }
}

/// The program that is run for `target`.
pub open spec fn program_of(target: Seq<char>, outputs: Seq<Seq<char>>) -> Result<Seq<char>, Fault> {
    if outputs.len() == 0 {
        Err(fault(ErrorKind::InvalidData, target + " did not produce an executable output"@))
    } else {
        Ok(outputs[0])
    }
}

pub fn executable_of(target: &str, outputs: &Vec<String>) -> (r: Result<String, Error>)
    ensures
        outcome(r) == program_of(target@, outputs.deep_view()),
{
    if outputs.len() == 0 {
        return Err(error(ErrorKind::InvalidData, cat2(target, " did not produce an executable output")));
    }
    assert(outputs.deep_view()[0] == outputs@[0]@);
    Ok(outputs[0].clone())
}

/// The error of a program that did not succeed.
pub fn exit_error(target: &str, status: &str) -> (r: Error)
    ensures
        r.deep_view() == fault(ErrorKind::Other, target@ + " exited with "@ + status@),
{
    error(ErrorKind::Other, cat3(target, " exited with ", status))
}

/// The one output that is installed.
pub open spec fn installed_output(target: Seq<char>, outputs: Seq<Seq<char>>) -> Result<Seq<char>, Fault> {
    if outputs.len() != 1 {
        Err(
            fault(
                ErrorKind::InvalidData,
                target + " must produce exactly one output to install, got "@ + decimal(outputs.len() as int),
            ),
        )
    } else {
        Ok(outputs[0])
    }
}

pub fn install_source(target: &str, outputs: &Vec<String>) -> (r: Result<String, Error>)
    ensures
        outcome(r) == installed_output(target@, outputs.deep_view()),
{
    if outputs.len() != 1 {
        return Err(
            error(
                ErrorKind::InvalidData,
                cat3(
                    target,
                    " must produce exactly one output to install, got ",
                    decimal_of(outputs.len() as u64).as_str(),
                ),
            ),
        );
    }
    assert(outputs.deep_view()[0] == outputs@[0]@);
    Ok(outputs[0].clone())
}

/// Why a file with the permissions `mode` is not installed, if it is not.
pub open spec fn mode_fault(target: Seq<char>, executable: Seq<char>, mode: u32) -> Option<Fault> {
    if mode & 0o111 == 0 {
        Some(fault(ErrorKind::InvalidData, target + " output is not executable: "@ + executable))
    } else {
        None
    }
}

pub fn ensure_executable_output(target: &str, executable: &str, mode: u32) -> (r: Option<Error>)
    ensures
        r.deep_view() == mode_fault(target@, executable@, mode),
{
    if mode & 0o111 == 0 {
        return Some(
            error(ErrorKind::InvalidData, cat3(target, " output is not executable: ", executable)),
        );
    }
    None
}

/// The directory that programs are installed in, and the file that `executable`
/// becomes there.
pub open spec fn destination(executable: Seq<char>, home: Option<Seq<char>>) -> Result<(Seq<char>, Seq<char>), Fault> {
    match file_name_of(executable) {
        None => Err(fault(ErrorKind::InvalidData, executable + " does not have a file name"@)),
        Some(name) => match home {
            None => Err(fault(ErrorKind::NotFound, "HOME is not set; cannot determine install directory"@)),
            Some(home) => Ok((joined_path(home, "bin"@), joined_path(joined_path(home, "bin"@), name))),
        },
    }
}

pub fn install_destination(executable: &str, home: &Option<String>) -> (r: Result<(String, String), Error>)
    ensures
        outcome(r) == destination(executable@, home.deep_view()),
{
    let name = match file_name(executable) {
        Some(name) => name,
        None => return Err(error(ErrorKind::InvalidData, cat2(executable, " does not have a file name"))),
    };
    match home {
        None => Err(
            error(ErrorKind::NotFound, "HOME is not set; cannot determine install directory".to_owned()),
        ),
        Some(home) => {
            let bin = join_path(home.as_str(), "bin");
            let installed = join_path(bin.as_str(), name.as_str());
            Ok((bin, installed))
        },
    }
}

/// The file that a program is copied to before it replaces `installed`.
pub open spec fn temporary_name(installed: Seq<char>, process: u32, moment: Seq<char>) -> Result<Seq<char>, Fault> {
    match file_name_of(installed) {
        None => Err(fault(ErrorKind::InvalidData, installed + " does not have a file name"@)),
        Some(name) => Ok(
            joined_path(
                parent_of(installed).unwrap_or(Seq::empty()),
                "."@ + name + (("."@ + decimal(process as int) + "."@) + moment + ".tmp"@),
            ),
        ),
    }
}

/// The file that the process `process` copies a program to, at the moment
/// `moment`, before it replaces `installed`.
pub fn replacement_temp_path(installed: &str, process: u32, moment: &str) -> (r: Result<String, Error>)
    ensures
        outcome(r) == temporary_name(installed@, process, moment@),
{
    let name = match file_name(installed) {
        Some(name) => name,
        None => return Err(error(ErrorKind::InvalidData, cat2(installed, " does not have a file name"))),
    };
    let dir = match parent(installed) {
        Some(dir) => dir,
        None => String::new(),
    };
    assert(parent_of(installed@) is None ==> dir@ =~= Seq::empty());
    let tail = cat3(cat3(".", decimal_of(process as u64).as_str(), ".").as_str(), moment, ".tmp");
    Ok(join_path(dir.as_str(), cat3(".", name.as_str(), tail.as_str()).as_str()))
}

/// Whether one of `entries` is the directory `dir`.
pub open spec fn holds_dir(entries: Seq<Seq<char>>, dir: Seq<char>) -> bool {
    exists|i: int| 0 <= i < entries.len() && components(#[trigger] entries[i]) == components(dir)
}

fn same_parts(a: &Vec<Part>, b: &Vec<Part>) -> (r: bool)
    ensures
        r == (a.deep_view() == b.deep_view()),
{
    if a.len() != b.len() {
        assert(a.deep_view().len() != b.deep_view().len());
        return false;
    }
    let mut i: usize = 0;
    while i < a.len()
        invariant
            i <= a.len() == b.len(),
            forall|j: int| 0 <= j < i ==> a.deep_view()[j] == b.deep_view()[j],
        decreases a.len() - i,
    {
        assert(a.deep_view()[i as int] == a@[i as int].deep_view());
        assert(b.deep_view()[i as int] == b@[i as int].deep_view());
        if !crate::path::same_part(&a[i], &b[i]) {
            return false;
        }
        i = i + 1;
    }
    assert(a.deep_view() =~= b.deep_view());
    true
}

/// Whether the directory `dir` is one of those in which programs are looked for.
pub fn path_contains_dir(entries: &Vec<String>, dir: &str) -> (r: bool)
    ensures
        r == holds_dir(entries.deep_view(), dir@),
{
    let parts = parts_of(dir);
    let ghost list = entries.deep_view();
    let mut i: usize = 0;
    while i < entries.len()
        invariant
            i <= entries.len(),
            list == entries.deep_view(),
            parts.deep_view() == components(dir@),
            forall|j: int| 0 <= j < i ==> components(#[trigger] list[j]) != components(dir@),
        decreases entries.len() - i,
    {
        assert(list[i as int] == entries@[i as int]@);
        if same_parts(&parts_of(entries[i].as_str()), &parts) {
            return true;
        }
        i = i + 1;
    }
    false
}

/// What is said where installed programs are not found.
pub fn path_warning(bin_dir: &str) -> (r: String)
    ensures
        r@ == "[cbs] warning: ~/bin ("@ + bin_dir@
            + ") is not on PATH; add ~/bin to PATH in ~/.bashrc or ~/.zshrc"@,
{
    cat3(
        "[cbs] warning: ~/bin (",
        bin_dir,
        ") is not on PATH; add ~/bin to PATH in ~/.bashrc or ~/.zshrc",
    )
}

/// Why there is not one program for each test, if there is not.
pub open spec fn count_fault(targets: int, outputs: int) -> Option<Fault> {
    if targets != outputs {
        Some(
            fault(
                ErrorKind::InvalidData,
                "expected one executable per test target, got "@ + decimal(targets) + " target(s) and "@ + decimal(
                    outputs,
                ) + " output(s)"@,
            ),
        )
    } else {
        None
    }
}

pub fn check_counts(targets: usize, outputs: usize) -> (r: Option<Error>)
    ensures
        r.deep_view() == count_fault(targets as int, outputs as int),
{
    if targets != outputs {
        return Some(
            error(
                ErrorKind::InvalidData,
                cat5(
                    "expected one executable per test target, got ",
                    decimal_of(targets as u64).as_str(),
                    " target(s) and ",
                    decimal_of(outputs as u64).as_str(),
                    " output(s)",
                ),
            ),
        );
    }
    None
}

/// What came of the program of a test.
pub enum TestOutcome {
    Passed,
    NotExecuted(String),
    Failed(String, String, String),
}

/// What a `TestOutcome` says.
#[verifier::ext_equal]
pub enum TestEnd {
    Passed,
    NotExecuted(Seq<char>),
    Failed(Seq<char>, Seq<char>, Seq<char>),
}

impl DeepView for TestOutcome {
    type V = TestEnd;

    open spec fn deep_view(&self) -> TestEnd {
        match self {
            TestOutcome::Passed => TestEnd::Passed,
            TestOutcome::NotExecuted(reason) => TestEnd::NotExecuted(reason@),
            TestOutcome::Failed(status, stdout, stderr) => TestEnd::Failed(status@, stdout@, stderr@),
        }
    }
}

/// What a program printed, as it is shown.
pub open spec fn shown_output(printed: Seq<char>) -> Seq<char> {
    if printed.len() == 0 {
        "<empty>\n"@
    } else if ends(printed, "\n"@) {
        printed
    } else {
        printed + "\n"@
    }
}

fn show_output(printed: &str) -> (r: String)
    ensures
        r@ == shown_output(printed@),
{
    if printed.is_empty() {
        "<empty>\n".to_owned()
    } else if ends_with(printed, "\n") {
        printed.to_owned()
    } else {
        cat2(printed, "\n")
    }
}

/// What is said of a test.
pub open spec fn test_text(target: Seq<char>, executable: Seq<char>, end: TestEnd) -> Seq<char> {
    match end {
        TestEnd::Passed => "[cbs] test PASS "@ + target + "\n"@,
        TestEnd::NotExecuted(reason) => ("[cbs] test FAIL "@ + target + "\n"@) + ("--- "@ + target
            + " execution error ---\n"@) + ("failed to execute "@ + executable + ": "@ + reason + "\n"@),
        TestEnd::Failed(status, stdout, stderr) => ("[cbs] test FAIL "@ + target + "\n"@) + ("--- "@ + target
            + " status ---\n"@ + status + "\n"@) + ("--- "@ + target + " stdout ---\n"@ + shown_output(stdout)) + (
        "--- "@ + target + " stderr ---\n"@ + shown_output(stderr)),
    }
}

pub fn test_report(target: &str, executable: &str, end: &TestOutcome) -> (r: String)
    ensures
        r@ == test_text(target@, executable@, end.deep_view()),
{
    match end {
        TestOutcome::Passed => cat3("[cbs] test PASS ", target, "\n"),
        TestOutcome::NotExecuted(reason) => cat3(
            cat3("[cbs] test FAIL ", target, "\n").as_str(),
            cat3("--- ", target, " execution error ---\n").as_str(),
            cat5("failed to execute ", executable, ": ", reason.as_str(), "\n").as_str(),
        ),
        TestOutcome::Failed(status, stdout, stderr) => cat4(
            cat3("[cbs] test FAIL ", target, "\n").as_str(),
            cat5("--- ", target, " status ---\n", status.as_str(), "\n").as_str(),
            cat4("--- ", target, " stdout ---\n", show_output(stdout.as_str()).as_str()).as_str(),
            cat4("--- ", target, " stderr ---\n", show_output(stderr.as_str()).as_str()).as_str(),
        ),
    }
}

/// Those of the first `n` of `targets` whose tests did not pass.
pub open spec fn failed_among(targets: Seq<Seq<char>>, ends: Seq<TestEnd>, n: int) -> Seq<Seq<char>>
    decreases n,
{
    if n <= 0 {
        Seq::empty()
    } else if ends[n - 1] is Passed {
        failed_among(targets, ends, n - 1)
    } else {
        failed_among(targets, ends, n - 1).push(targets[n - 1])
    }
}

/// What is said after all tests: that they passed, or which did not.
pub open spec fn tests_result(targets: Seq<Seq<char>>, ends: Seq<TestEnd>) -> Result<Seq<char>, Fault> {
    let failed = failed_among(targets, ends, targets.len() as int);
    if failed.len() == 0 {
        Ok("[cbs] test result: "@ + decimal(targets.len() as int) + " passed"@)
    } else {
        Err(
            fault(
                ErrorKind::Other,
                decimal(failed.len() as int) + " test(s) failed: "@ + joined(failed, ", "@),
            ),
        )
    }
}

proof fn lemma_failed_among(targets: Seq<Seq<char>>, ends: Seq<TestEnd>, n: int)
    requires
        0 <= n <= targets.len(),
    ensures
        failed_among(targets, ends, n).len() == 0 <==> forall|i: int| 0 <= i < n ==> (#[trigger] ends[i]) is Passed,
    decreases n,
{
    if n > 0 {
        lemma_failed_among(targets, ends, n - 1);
    }
}

/// The tests succeed just where each of them passed.
pub proof fn law_all_passed(targets: Seq<Seq<char>>, ends: Seq<TestEnd>)
    ensures
        tests_result(targets, ends) is Ok <==> forall|i: int| 0 <= i < targets.len() ==> (#[trigger] ends[i]) is Passed,
{
    lemma_failed_among(targets, ends, targets.len() as int);
}

/// What is said after all tests.
pub fn run_tests(targets: &Vec<String>, ends: &Vec<TestOutcome>) -> (r: Result<String, Error>)
    requires
        targets@.len() == ends@.len(),
    ensures
        outcome(r) == tests_result(targets.deep_view(), ends.deep_view()),
{
    let ghost list = targets.deep_view();
    let ghost all = ends.deep_view();
    let mut failed: Vec<String> = Vec::new();
    assert(failed.deep_view() =~= Seq::<Seq<char>>::empty());
    let mut i: usize = 0;
    while i < targets.len()
        invariant
            i <= targets.len() == ends.len(),
            list == targets.deep_view(),
            all == ends.deep_view(),
            failed.deep_view() == failed_among(list, all, i as int),
        decreases targets.len() - i,
    {
        assert(list[i as int] == targets@[i as int]@);
        assert(all[i as int] == ends@[i as int].deep_view());
        match ends[i] {
            TestOutcome::Passed => {},
            _ => {
                keep(&mut failed, targets[i].clone());
            },
        }
        i = i + 1;
    }
    if failed.len() == 0 {
        Ok(cat3("[cbs] test result: ", decimal_of(targets.len() as u64).as_str(), " passed"))
    } else {
        Err(
            error(
                ErrorKind::Other,
                cat3(
                    decimal_of(failed.len() as u64).as_str(),
                    " test(s) failed: ",
                    join(&failed, ", ").as_str(),
                ),
            ),
        )
    }
}

/// What is done once what a command asks for has been built.
pub enum Next {
    Print(Vec<String>),
    Test(Vec<String>, Vec<String>),
    Install(String),
    Execute(String, Vec<String>),
}

/// What a `Next` says.
#[verifier::ext_equal]
pub enum Aftermath {
    Print(Seq<Seq<char>>),
    Test(Seq<Seq<char>>, Seq<Seq<char>>),
    Install(Seq<char>),
    Execute(Seq<char>, Seq<Seq<char>>),
}

impl DeepView for Next {
    type V = Aftermath;

    open spec fn deep_view(&self) -> Aftermath {
        match self {
            Next::Print(outputs) => Aftermath::Print(outputs.deep_view()),
            Next::Test(targets, executables) => Aftermath::Test(targets.deep_view(), executables.deep_view()),
            Next::Install(executable) => Aftermath::Install(executable@),
            Next::Execute(executable, args) => Aftermath::Execute(executable@, args.deep_view()),
        }
    }
}

/// What is done for `wish` once the build of `targets` has come to `result`:
/// the outputs are listed, or, where there are as many as targets, run as
/// tests; or the only one is installed; or the first is run.
pub open spec fn aftermath(wish: Wish, targets: Seq<Seq<char>>, result: Outcome) -> Result<Aftermath, Fault> {
    match outputs_of(result) {
        Err(e) => Err(e),
        Ok(outputs) => match wish {
            Wish::Build(_) => Ok(Aftermath::Print(outputs)),
            Wish::Test(_) => match count_fault(targets.len() as int, outputs.len() as int) {
                Some(e) => Err(e),
                None => Ok(Aftermath::Test(targets, outputs)),
            },
            Wish::Install(target) => match installed_output(target, outputs) {
                Err(e) => Err(e),
                Ok(executable) => Ok(Aftermath::Install(executable)),
            },
            Wish::Run(target, args) => match program_of(target, outputs) {
                Err(e) => Err(e),
                Ok(executable) => Ok(Aftermath::Execute(executable, args)),
            },
        },
    }
}

/// What is done for `command` once the build of `targets` has come to `result`.
pub fn after_build(command: &Command, targets: Vec<String>, result: BuildResult) -> (r: Result<Next, Error>)
    ensures
        outcome(r) == aftermath(command.deep_view(), targets.deep_view(), result.deep_view()),
{
    let outputs = built_outputs(result)?;
    match command {
        Command::Build(_) => Ok(Next::Print(outputs)),
        Command::Test(_) => match check_counts(targets.len(), outputs.len()) {
            Some(e) => Err(e),
            None => Ok(Next::Test(targets, outputs)),
        },
        Command::Install(target) => match install_source(target.as_str(), &outputs) {
            Err(e) => Err(e),
            Ok(executable) => Ok(Next::Install(executable)),
        },
        Command::Run(target, args) => match executable_of(target.as_str(), &outputs) {
            Err(e) => Err(e),
            Ok(executable) => Ok(Next::Execute(executable, args.duplicate())),
        },
    }
}

} // verus!
