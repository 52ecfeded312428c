//! Handling: what a command line asks for and comes to, and what the actions of a build run.

use vstd::prelude::*;

use crate::actions::{
    download_command, failure_logs, process_command, process_failure, shown_args, shown_command, shown_env,
    target_dir_of, tool_command, tool_links, tools_dir,
};
use crate::command::{
    aftermath, command_in, destination, failed_among, mode_fault, shown_output, temporary_name, tests_result, Aftermath,
    TestEnd, Wish,
};
use crate::context::Context;
use crate::digest::{decimal, hex_padded};
use crate::error::{ErrorKind, Fault};
use crate::model::{Outcome, Output};
use crate::path::{components, file_name_of, joined_path, parent_of};
use crate::table::found;
use crate::text::{ends, joined, trimmed, trimmed_end};
use crate::tool_diagnostics::command_rejection;

verus! {

/// What is asked for by a word and what follows it; a word that is not known, and a known
/// one without anything behind it, asks for nothing.
pub proof fn law_command_read(word: Seq<char>, rest: Seq<Seq<char>>)
    requires
        rest.len() > 0,
    ensures
        command_in(seq!["build"@] + rest) == Ok::<Wish, Fault>(Wish::Build(rest)),
        command_in(seq!["test"@] + rest) == Ok::<Wish, Fault>(Wish::Test(rest)),
        rest.len() == 1 ==> command_in(seq!["install"@] + rest) == Ok::<Wish, Fault>(Wish::Install(rest[0])),
        rest.len() != 1 ==> command_in(seq!["install"@] + rest) is Err,
        word != "build"@ && word != "test"@ && word != "install"@ && word != "run"@ ==> command_in(seq![word] + rest) is Err,
        command_in(seq![word]) is Err,
        command_in(Seq::empty()) is Err,
{
    reveal_strlit("build");
    reveal_strlit("test");
    reveal_strlit("install");
    reveal_strlit("run");
    assert("build"@.len() == 5 && "test"@.len() == 4 && "install"@.len() == 7 && "run"@.len() == 3);
    assert((seq!["build"@] + rest).skip(1) =~= rest);
    assert((seq!["test"@] + rest).skip(1) =~= rest);
    assert((seq!["build"@] + rest)[0] == "build"@);
    assert((seq!["test"@] + rest)[0] == "test"@);
    assert((seq!["install"@] + rest)[0] == "install"@);
    assert((seq!["install"@] + rest)[1] == rest[0]);
    assert((seq![word] + rest)[0] == word);
}

/// A program is run with what follows its target, with or without `--` between them.
pub proof fn law_run_read(target: Seq<char>, args: Seq<Seq<char>>)
    ensures
        command_in(seq!["run"@, target, "--"@] + args) == Ok::<Wish, Fault>(Wish::Run(target, args)),
        args.len() == 0 || args[0] != "--"@ ==> command_in(seq!["run"@, target] + args) == Ok::<Wish, Fault>(
            Wish::Run(target, args),
        ),
{
    reveal_strlit("build");
    reveal_strlit("test");
    reveal_strlit("install");
    reveal_strlit("run");
    assert("build"@.len() == 5 && "test"@.len() == 4 && "install"@.len() == 7 && "run"@.len() == 3);
    let a = seq!["run"@, target, "--"@] + args;
    let b = seq!["run"@, target] + args;
    assert(a[0] == "run"@ && a[1] == target && a[2] == "--"@);
    assert(b[0] == "run"@ && b[1] == target);
    assert(a.skip(3) =~= args);
    assert(b.skip(2) =~= args);
    if args.len() > 0 {
        assert(b[2] == args[0]);
    }
}

/// What is done with what was built: a failure is passed on; else the outputs are listed, or
/// run as tests, one for each target; the one output is installed; the first is run with the
/// arguments that were given.
pub proof fn law_aftermath(targets: Seq<Seq<char>>, target: Seq<char>, args: Seq<Seq<char>>, output: Output, reason: Seq<char>, wish: Wish)
    ensures
        aftermath(wish, targets, Outcome::Failure(reason)) is Err,
        aftermath(Wish::Build(targets), targets, Outcome::Success(output)) == Ok::<Aftermath, Fault>(
            Aftermath::Print(output.outputs),
        ),
        aftermath(Wish::Test(args), targets, Outcome::Success(output)) matches Ok(next) ==> next == Aftermath::Test(
            targets,
            output.outputs,
        ),
        aftermath(Wish::Test(args), targets, Outcome::Success(output)) is Ok <==> targets.len() == output.outputs.len(),
        aftermath(Wish::Install(target), targets, Outcome::Success(output)) matches Ok(next) ==> next == Aftermath::Install(
            output.outputs[0],
        ),
        aftermath(Wish::Install(target), targets, Outcome::Success(output)) is Ok <==> output.outputs.len() == 1,
        aftermath(Wish::Run(target, args), targets, Outcome::Success(output)) matches Ok(next) ==> next
            == Aftermath::Execute(output.outputs[0], args),
        aftermath(Wish::Run(target, args), targets, Outcome::Success(output)) is Ok <==> output.outputs.len() > 0,
{
}

/// A program is installed under its own name in the directory of programs of the user's
/// home.
pub proof fn law_destination(executable: Seq<char>, home: Option<Seq<char>>)
    ensures
        destination(executable, home) is Ok <==> file_name_of(executable) is Some && home is Some,
        destination(executable, home) matches Ok((dir, file)) ==> dir == joined_path(home->0, "bin"@) && file == joined_path(
            dir,
            file_name_of(executable)->0,
        ),
{
}

/// A file without a permission to execute it is not installed.
pub proof fn law_executable_mode(target: Seq<char>, executable: Seq<char>, mode: u32)
    ensures
        mode_fault(target, executable, mode) is None <==> mode & 0o100 != 0 || mode & 0o010 != 0 || mode & 0o001 != 0,
{
    assert(mode & 0o111 == 0 <==> mode & 0o100 == 0 && mode & 0o010 == 0 && mode & 0o001 == 0) by (bit_vector);
}

/// The file that a program is copied to first is beside the one that it replaces, and has
/// another name, which is returned.
pub proof fn law_temporary_beside(installed: Seq<char>, process: u32, moment: Seq<char>) -> (name: Seq<char>)
    ensures
        temporary_name(installed, process, moment) is Ok <==> file_name_of(installed) is Some,
        temporary_name(installed, process, moment) matches Ok(path) ==> {
            &&& parent_of(installed) matches Some(dir) ==> path == joined_path(dir, name)
            &&& ends(name, ".tmp"@)
            &&& name.len() > file_name_of(installed)->0.len()
        },
{
    let own = file_name_of(installed).unwrap_or(Seq::empty());
    reveal_strlit(".");
    reveal_strlit(".tmp");
    let full = "."@ + own + (("."@ + decimal(process as int) + "."@) + moment + ".tmp"@);
    assert(full.subrange(full.len() - 4, full.len() as int) =~= ".tmp"@);
    assert(ends(full, ".tmp"@));
    full
}

/// The tests that are said to have failed are those that did not pass.
pub proof fn law_failed_tests(targets: Seq<Seq<char>>, ends_: Seq<TestEnd>, n: int, target: Seq<char>)
    requires
        0 <= n <= targets.len(),
    ensures
        failed_among(targets, ends_, n).contains(target) <==> exists|i: int|
            0 <= i < n && #[trigger] targets[i] == target && !(ends_[i] is Passed),
    decreases n,
{
    if n > 0 {
        law_failed_tests(targets, ends_, n - 1, target);
        let list = failed_among(targets, ends_, n - 1);
        let last = targets[n - 1];
        assert(list.push(last)[list.len() as int] == last);
        if list.contains(target) {
            let k = choose|k: int| 0 <= k < list.len() && list[k] == target;
            assert(list.push(last)[k] == target);
        }
        if list.push(last).contains(target) && target != last {
            let k = choose|k: int| 0 <= k < list.push(last).len() && list.push(last)[k] == target;
            assert(list[k] == target);
        }
    }
}

/// What is said after tests names those that failed, and how many there are.
pub proof fn law_tests_told(targets: Seq<Seq<char>>, ends_: Seq<TestEnd>)
    ensures
        match tests_result(targets, ends_) {
            Ok(text) => text == "[cbs] test result: "@ + decimal(targets.len() as int) + " passed"@,
            Err(e) => {
                let failed = failed_among(targets, ends_, targets.len() as int);
                e.message == decimal(failed.len() as int) + " test(s) failed: "@ + joined(failed, ", "@)
            },
        },
{
}

/// What is shown of an output ends its line, and says so where there is none.
pub proof fn law_output_shown(printed: Seq<char>)
    ensures
        ends(shown_output(printed), "\n"@),
        printed.len() > 0 ==> shown_output(printed).take(printed.len() as int) == printed,
        printed.len() == 0 ==> shown_output(printed) == "<empty>\n"@,
{
    reveal_strlit("\n");
    reveal_strlit("<empty>\n");
    let s = shown_output(printed);
    if printed.len() == 0 {
        assert(s.subrange(s.len() - 1, s.len() as int) =~= "\n"@);
    } else {
        assert(s.take(printed.len() as int) =~= printed);
        if !ends(printed, "\n"@) {
            assert(s.subrange(s.len() - 1, s.len() as int) =~= "\n"@);
        }
    }
}

/// A declared tool is run from the directory of declared tools, with the arguments that are
/// given, and sees no more of the host than a path of declared tools, a directory for
/// temporary files and a home, and the variables that are given.
pub proof fn law_tool_run(c: Context, tool: Seq<char>, present: bool, args: Seq<Seq<char>>, env: Seq<(Seq<char>, Seq<char>)>)
    ensures
        tool_command(c, tool, present, args, env) is Ok <==> present && found(c.tools.deep_view(), tool) is Some,
        tool_command(c, tool, present, args, env) matches Ok(command) ==> {
            &&& command.hermetic
            &&& command.bin == joined_path(tools_dir(c), tool)
            &&& command.args == args
            &&& command.env.len() == 3 + env.len()
            &&& command.env[0] == ("PATH"@, tools_dir(c))
            &&& command.env[1] == ("TMPDIR"@, joined_path(target_dir_of(c), "tmp"@))
            &&& command.env[2] == ("HOME"@, joined_path(target_dir_of(c), "home"@))
            &&& forall|i: int| 0 <= i < env.len() ==> command.env[3 + i] == #[trigger] env[i]
        },
{
}

/// A program that is named without a directory is run as the declared tool of that name; any
/// other is run as it is, unless it is one of the host's.
pub proof fn law_program_run(c: Context, bin: Seq<char>, present: bool, args: Seq<Seq<char>>, env: Seq<(Seq<char>, Seq<char>)>)
    ensures
        components(bin).len() == 1 && found(c.tools.deep_view(), bin) is Some ==> process_command(c, bin, present, args, env)
            == tool_command(c, bin, present, args, env),
        !(components(bin).len() == 1 && found(c.tools.deep_view(), bin) is Some) ==> match process_command(
            c,
            bin,
            present,
            args,
            env,
        ) {
            Ok(command) => command_rejection(bin, "CBS action"@) is None && !command.hermetic && command.bin == bin
                && command.args == args && command.env == env,
            Err(e) => command_rejection(bin, "CBS action"@) == Some(e),
        },
{
}

/// There is a link for each declared tool, under its name, to the program that it is.
pub proof fn law_tool_links(c: Context, k: int)
    requires
        0 <= k < c.tools.deep_view().len(),
    ensures
        tool_links(c).len() == c.tools.deep_view().len(),
        tool_links(c)[k].0 == joined_path(tools_dir(c), c.tools.deep_view()[k].0),
        tool_links(c)[k].1 == c.tools.deep_view()[k].1.0,
        tools_dir(c) == joined_path(joined_path(target_dir_of(c), ".cbs-tools"@), hex_padded(c.hash as int, 16)),
{
}

/// A download is run by the declared `curl`, from the address to the file, and fails where the
/// server says so.
pub proof fn law_download(c: Context, url: Seq<char>, dest: Seq<char>, present: bool)
    ensures
        download_command(c, url, dest, present) is Ok <==> present && found(c.tools.deep_view(), "curl"@) is Some,
        download_command(c, url, dest, present) matches Ok(command) ==> {
            &&& command.hermetic
            &&& command.bin == joined_path(tools_dir(c), "curl"@)
            &&& command.args.contains("--fail"@) && command.args.contains("--location"@)
            &&& command.args.last() == url
            &&& command.args[command.args.len() - 3] == "--output"@ && command.args[command.args.len() - 2] == dest
        },
{
    if let Ok(command) = download_command(c, url, dest, present) {
        assert(command.args[0] == "--fail"@);
        assert(command.args[1] == "--location"@);
    }
}

/// A command is shown by its program, the names of its variables without their values, and
/// its arguments.
pub proof fn law_command_shown(
    bin: Seq<char>,
    env: Seq<(Seq<char>, Seq<char>)>,
    args: Seq<Seq<char>>,
    variable: (Seq<char>, Seq<char>),
    arg: Seq<char>,
)
    ensures
        shown_command(bin, Seq::empty(), Seq::empty()) == bin,
        shown_command(bin, env, args.push(arg)) == shown_command(bin, env, args) + " "@ + arg,
        shown_command(bin, env.push(variable), Seq::empty()) == shown_command(bin, env, Seq::empty()) + " "@ + variable.0
            + "=<env>"@,
{
    lemma_shown_args(args, arg, args.len() as int);
    lemma_shown_env(env, variable, env.len() as int);
    assert(shown_command(bin, Seq::empty(), Seq::empty()) =~= bin);
    assert(shown_command(bin, env, args.push(arg)) =~= shown_command(bin, env, args) + " "@ + arg);
    assert(shown_command(bin, env.push(variable), Seq::empty()) =~= shown_command(bin, env, Seq::empty()) + " "@
        + variable.0 + "=<env>"@);
}

proof fn lemma_shown_args(args: Seq<Seq<char>>, arg: Seq<char>, n: int)
    requires
        0 <= n <= args.len(),
    ensures
        shown_args(args.push(arg), n) == shown_args(args, n),
    decreases n,
{
    if n > 0 {
        lemma_shown_args(args, arg, n - 1);
    }
}

proof fn lemma_shown_env(env: Seq<(Seq<char>, Seq<char>)>, variable: (Seq<char>, Seq<char>), n: int)
    requires
        0 <= n <= env.len(),
    ensures
        shown_env(env.push(variable), n) == shown_env(env, n),
    decreases n,
{
    if n > 0 {
        lemma_shown_env(env, variable, n - 1);
    }
}

/// What a program that failed has printed is logged, but for white space; it is part of the
/// error only where there is no target to log it for.
pub proof fn law_failure_told(target: Option<Seq<char>>, command: Seq<char>, status: Seq<char>, stdout: Seq<char>, stderr: Seq<char>)
    ensures
        trimmed(stdout).len() > 0 ==> failure_logs(stdout, stderr).contains("stdout:\n"@ + trimmed_end(stdout)),
        trimmed(stderr).len() > 0 ==> failure_logs(stdout, stderr).contains("stderr:\n"@ + trimmed_end(stderr)),
        trimmed(stdout).len() == 0 && trimmed(stderr).len() == 0 ==> failure_logs(stdout, stderr).len() == 0,
        process_failure(target, command, status, stderr).kind == ErrorKind::InvalidData,
        target is Some || trimmed(stderr).len() == 0 ==> process_failure(target, command, status, stderr).message
            == "command exited with "@ + status + "\ncommand: "@ + command,
        target is None && trimmed(stderr).len() > 0 ==> process_failure(target, command, status, stderr).message
            == "command exited with "@ + status + "\ncommand: "@ + command + "\nstderr:\n"@ + trimmed_end(stderr),
{
    let logs = failure_logs(stdout, stderr);
    if trimmed(stdout).len() > 0 {
        assert(logs[0] == "stdout:\n"@ + trimmed_end(stdout));
    }
    if trimmed(stderr).len() > 0 {
        assert(logs[logs.len() - 1] == "stderr:\n"@ + trimmed_end(stderr));
    }
}

} // verus!
