//! Actions: the programs that a build runs.

use vstd::prelude::*;

use crate::context::{work_dir, Context};
use crate::digest::{hex_padded, hex_padded_of};
use crate::error::{error, fault, outcome, Error, ErrorKind, Fault};
use crate::path::{components, file_name, file_name_of, join_path, joined_path, parts_of};
use crate::table::found;
use crate::text::{
    cat2, cat3, cat4, debug_of, debug_text, keep, keep_all, split_whitespace, trim, trim_end, trimmed, trimmed_end,
    words,
};
use crate::tool_diagnostics::{command_rejection, diagnose_command, diagnose_host_path_search, search_rejection};

verus! {

pub struct BuildActions {}

/// A program to run: hermetic, if it sees nothing of the host but what `env` says.
pub struct CommandLine {
    pub bin: String,
    pub args: Vec<String>,
    pub env: Vec<(String, String)>,
    pub hermetic: bool,
}

/// What a `CommandLine` says.
#[verifier::ext_equal]
pub struct Command {
    pub bin: Seq<char>,
    pub args: Seq<Seq<char>>,
    pub env: Seq<(Seq<char>, Seq<char>)>,
    pub hermetic: bool,
}

impl DeepView for CommandLine {
    type V = Command;

    open spec fn deep_view(&self) -> Command {
        Command {
            bin: self.bin@,
            args: self.args.deep_view(),
            env: self.env.deep_view(),
            hermetic: self.hermetic,
        }
    }
}

/// Where a target's files are, by its context.
pub open spec fn target_dir_of(c: Context) -> Seq<char> {
    work_dir(c.cache_dir@, c.lockfile.deep_view(), c.target.deep_view(), c.target_hash)
}

/// The directory with the declared tools.
pub open spec fn tools_dir(c: Context) -> Seq<char> {
    joined_path(joined_path(target_dir_of(c), ".cbs-tools"@), hex_padded(c.hash as int, 16))
}

/// The directory with the declared tools.
pub fn declared_tools_dir(context: &Context) -> (r: String)
    requires
        context.target_hash is Some ==> context.target is Some,
    ensures
        r@ == tools_dir(*context),
{
    join_path(
        join_path(context.working_directory().as_str(), ".cbs-tools").as_str(),
        hex_padded_of(context.hash, 16).as_str(),
    )
}

/// The links to the declared tools, each with the program that it leads to.
pub open spec fn tool_links(c: Context) -> Seq<(Seq<char>, Seq<char>)> {
    c.tools.deep_view().map_values(
        |row: (Seq<char>, (Seq<char>, Seq<char>))| (joined_path(tools_dir(c), row.0), row.1.0),
    )
}

/// The links to make in the directory with the declared tools.
pub fn materialize_declared_tools(context: &Context) -> (r: Vec<(String, String)>)
    requires
        context.target_hash is Some ==> context.target is Some,
    ensures
        r.deep_view() == tool_links(*context),
{
    let dir = declared_tools_dir(context);
    let ghost all = tool_links(*context);
    let mut out: Vec<(String, String)> = Vec::new();
    let mut i: usize = 0;
    while i < context.tools.rows.len()
        invariant
            i <= context.tools.rows.len(),
            dir@ == tools_dir(*context),
            all == tool_links(*context),
            out.deep_view() == all.take(i as int),
        decreases context.tools.rows.len() - i,
    {
        let row = &context.tools.rows[i];
        keep(&mut out, (join_path(dir.as_str(), row.0.as_str()), row.1.path.clone()));
        i = i + 1;
        assert(all.take(i as int) =~= all.take(i - 1).push(all[i - 1]));
    }
    assert(all.take(i as int) =~= all);
    out
}

/// The variables that a hermetic program sees.
pub open spec fn hermetic_env(c: Context) -> Seq<(Seq<char>, Seq<char>)> {
    seq![
        ("PATH"@, tools_dir(c)),
        ("TMPDIR"@, joined_path(target_dir_of(c), "tmp"@)),
        ("HOME"@, joined_path(target_dir_of(c), "home"@)),
    ]
}

/// The variables that a hermetic program sees.
pub fn configure_hermetic_env(context: &Context) -> (r: Vec<(String, String)>)
    requires
        context.target_hash is Some ==> context.target is Some,
    ensures
        r.deep_view() == hermetic_env(*context),
{
    let workdir = context.working_directory();
    let mut env: Vec<(String, String)> = Vec::new();
    keep(&mut env, ("PATH".to_owned(), declared_tools_dir(context)));
    keep(&mut env, ("TMPDIR".to_owned(), join_path(workdir.as_str(), "tmp")));
    keep(&mut env, ("HOME".to_owned(), join_path(workdir.as_str(), "home")));
    assert(env.deep_view() =~= hermetic_env(*context));
    env
}

/// The command that runs the declared tool `tool`, of which `present` says
/// whether it is there. What is not declared under that name is not run, be it
/// there or not.
pub open spec fn tool_command(
    c: Context,
    tool: Seq<char>,
    present: bool,
    args: Seq<Seq<char>>,
    env: Seq<(Seq<char>, Seq<char>)>,
) -> Result<Command, Fault> {
    if found(c.tools.deep_view(), tool) is None || !present {
        Err(fault(ErrorKind::NotFound, "tool "@ + debug_text(tool) + " is not declared"@))
    } else {
        Ok(Command { bin: joined_path(tools_dir(c), tool), args, env: hermetic_env(c) + env, hermetic: true })
    }
}

/// Whether `bin` is the bare name of a declared tool.
pub open spec fn names_tool(c: Context, bin: Seq<char>) -> bool {
    components(bin).len() == 1 && found(c.tools.deep_view(), bin) is Some
}

/// The command that runs the program `bin`: the declared tool that it names, or
/// a program that is none of the host's.
pub open spec fn process_command(
    c: Context,
    bin: Seq<char>,
    present: bool,
    args: Seq<Seq<char>>,
    env: Seq<(Seq<char>, Seq<char>)>,
) -> Result<Command, Fault> {
    if names_tool(c, bin) {
        tool_command(c, bin, present, args, env)
    } else {
        match command_rejection(bin, "CBS action"@) {
            Some(e) => Err(e),
            None => Ok(Command { bin, args, env, hermetic: false }),
        }
    }
}

/// Only declared tools are run: what is run as a tool is declared under its name,
/// and so is what is run hermetically. A program that is run in any other way is
/// no bare name and none of the host's programs.
pub proof fn law_only_declared_tools(
    c: Context,
    bin: Seq<char>,
    present: bool,
    args: Seq<Seq<char>>,
    env: Seq<(Seq<char>, Seq<char>)>,
)
    ensures
        tool_command(c, bin, present, args, env) is Ok ==> found(c.tools.deep_view(), bin) is Some,
        process_command(c, bin, present, args, env) matches Ok(command) ==> if command.hermetic {
            found(c.tools.deep_view(), bin) is Some
        } else {
            components(command.bin).len() != 1 && !crate::tool_diagnostics::is_host_path(command.bin)
        },
{
}

/// The arguments that a download is run with.
pub open spec fn download_args(url: Seq<char>, dest: Seq<char>) -> Seq<Seq<char>> {
    seq!["--fail"@, "--location"@, "--silent"@, "--show-error"@, "--output"@, dest, url]
}

/// Where the host might have `curl`.
pub open spec fn host_dirs() -> Seq<Seq<char>> {
    seq!["/usr/bin"@, "/bin"@, "/usr/local/bin"@]
}

/// The command that downloads `url` to `dest`: only a declared `curl` does.
pub open spec fn download_command(c: Context, url: Seq<char>, dest: Seq<char>, present: bool) -> Result<Command, Fault> {
    if found(c.tools.deep_view(), "curl"@) is Some {
        tool_command(c, "curl"@, present, download_args(url, dest), Seq::empty())
    } else {
        Err(search_rejection("curl"@, host_dirs()))
    }
}

/// ` name=<env>` for each of the first `n` variables.
pub open spec fn shown_env(env: Seq<(Seq<char>, Seq<char>)>, n: int) -> Seq<char>
    decreases n,
{
    if n <= 0 {
        Seq::empty()
    } else {
        shown_env(env, n - 1) + " "@ + env[n - 1].0 + "=<env>"@
    }
}

/// Each of the first `n` arguments behind a space.
pub open spec fn shown_args(args: Seq<Seq<char>>, n: int) -> Seq<char>
    decreases n,
{
    if n <= 0 {
        Seq::empty()
    } else {
        shown_args(args, n - 1) + " "@ + args[n - 1]
    }
}

/// How a command is shown: its program, the names of the variables that it was
/// given, and its arguments.
pub open spec fn shown_command(bin: Seq<char>, env: Seq<(Seq<char>, Seq<char>)>, args: Seq<Seq<char>>) -> Seq<char> {
    bin + shown_env(env, env.len() as int) + shown_args(args, args.len() as int)
}

/// How a command with the variables `env` of its own is shown.
pub fn describe_command(bin: &str, env: &Vec<(String, String)>, args: &Vec<String>) -> (r: String)
    ensures
        r@ == shown_command(bin@, env.deep_view(), args.deep_view()),
{
    let ghost vars = env.deep_view();
    let ghost list = args.deep_view();
    let mut out = bin.to_owned();
    let mut i: usize = 0;
    assert(out@ =~= bin@ + shown_env(vars, 0));
    while i < env.len()
        invariant
            i <= env.len(),
            vars == env.deep_view(),
            out@ == bin@ + shown_env(vars, i as int),
        decreases env.len() - i,
    {
        assert(vars[i as int].0 == env@[i as int].0@);
        out.append(" ");
        out.append(env[i].0.as_str());
        out.append("=<env>");
        i = i + 1;
        assert(out@ =~= bin@ + shown_env(vars, i as int));
    }
    let ghost head = out@;
    let mut j: usize = 0;
    assert(out@ =~= head + shown_args(list, 0));
    while j < args.len()
        invariant
            j <= args.len(),
            list == args.deep_view(),
            out@ == head + shown_args(list, j as int),
        decreases args.len() - j,
    {
        assert(list[j as int] == args@[j as int]@);
        out.append(" ");
        out.append(args[j].as_str());
        j = j + 1;
        assert(out@ =~= head + shown_args(list, j as int));
    }
    out
}

/// The name of the program in a shown command.
pub open spec fn program_name(command: Seq<char>) -> Seq<char> {
    if words(command).len() > 0 {
        file_name_of(words(command)[0]).unwrap_or(command)
    } else {
        command
    }
}

pub fn command_name(command: &str) -> (r: String)
    ensures
        r@ == program_name(command@),
{
    let parts = split_whitespace(command);
    if parts.len() > 0 {
        assert(parts.deep_view()[0] == parts@[0]@);
        if let Some(name) = file_name(parts[0].as_str()) {
            return name;
        }
    }
    command.to_owned()
}

/// The line that announces an action.
pub open spec fn announcement(target: Option<Seq<char>>, command: Seq<char>) -> Seq<char> {
    "[cbs] action "@ + target.unwrap_or("workspace"@) + ": "@ + program_name(command)
}

pub fn action_line(context: &Context, command: &str) -> (r: String)
    ensures
        r@ == announcement(context.target.deep_view(), command@),
{
    let target = match &context.target {
        Some(target) => target.as_str(),
        None => "workspace",
    };
    cat4("[cbs] action ", target, ": ", command_name(command).as_str())
}

/// What is logged of a program that failed.
pub open spec fn failure_logs(stdout: Seq<char>, stderr: Seq<char>) -> Seq<Seq<char>> {
    (if trimmed(stdout).len() == 0 {
        Seq::empty()
    } else {
        seq!["stdout:\n"@ + trimmed_end(stdout)]
    }) + (if trimmed(stderr).len() == 0 {
        Seq::empty()
    } else {
        seq!["stderr:\n"@ + trimmed_end(stderr)]
    })
}

/// The error of a program that failed; what it printed is part of it where no
/// target is there to log it for.
pub open spec fn process_failure(target: Option<Seq<char>>, command: Seq<char>, status: Seq<char>, stderr: Seq<char>) -> Fault {
    let message = "command exited with "@ + status + "\ncommand: "@ + command;
    fault(
        ErrorKind::InvalidData,
        if target is None && trimmed(stderr).len() != 0 {
            message + "\nstderr:\n"@ + trimmed_end(stderr)
        } else {
            message
        },
    )
}

/// What is logged of a program that failed, and its error.
pub fn process_error(context: &Context, command: &str, status: &str, stdout: &str, stderr: &str) -> (r: (Vec<String>, Error))
    ensures
        r.0.deep_view() == failure_logs(stdout@, stderr@),
        r.1.deep_view() == process_failure(context.target.deep_view(), command@, status@, stderr@),
{
    let mut logs: Vec<String> = Vec::new();
    if !trim(stdout).as_str().is_empty() {
        keep(&mut logs, cat2("stdout:\n", trim_end(stdout).as_str()));
    }
    let said = !trim(stderr).as_str().is_empty();
    if said {
        keep(&mut logs, cat2("stderr:\n", trim_end(stderr).as_str()));
    }
    assert(logs.deep_view() =~= failure_logs(stdout@, stderr@));
    let mut message = cat4("command exited with ", status, "\ncommand: ", command);
    if context.target.is_none() && said {
        message.append("\nstderr:\n");
        message.append(trim_end(stderr).as_str());
    }
    (logs, error(ErrorKind::InvalidData, message))
}

impl BuildActions {
    pub fn new() -> (r: Self) {
        BuildActions {  }
    }

    /// The command that runs `bin`; `present` says whether the declared tool of
    /// that name is there, if it names one.
    pub fn run_process(&self, context: &Context, bin: &str, present: bool, args: Vec<String>) -> (r: Result<CommandLine, Error>)
        requires
            context.target_hash is Some ==> context.target is Some,
        ensures
            outcome(r) == process_command(*context, bin@, present, args.deep_view(), Seq::empty()),
    {
        let env: Vec<(String, String)> = Vec::new();
        assert(env.deep_view() =~= Seq::<(Seq<char>, Seq<char>)>::empty());
        self.run_process_with_env(context, bin, present, args, env)
    }

    /// The command that runs `bin` with the variables `env`.
    pub fn run_process_with_env(
        &self,
        context: &Context,
        bin: &str,
        present: bool,
        args: Vec<String>,
        env: Vec<(String, String)>,
    ) -> (r: Result<CommandLine, Error>)
        requires
            context.target_hash is Some ==> context.target is Some,
        ensures
            outcome(r) == process_command(*context, bin@, present, args.deep_view(), env.deep_view()),
    {
        let parts = parts_of(bin);
        assert(parts@.len() == components(bin@).len());
        if parts.len() == 1 && context.tools.has(bin) {
            return self.run_tool_with_env(context, bin, present, args, env);
        }
        if let Err(e) = diagnose_command(bin, "CBS action") {
            return Err(e);
        }
        Ok(CommandLine { bin: bin.to_owned(), args, env, hermetic: false })
    }

    /// The command that runs the declared tool `tool`.
    pub fn run_tool(&self, context: &Context, tool: &str, present: bool, args: Vec<String>) -> (r: Result<CommandLine, Error>)
        requires
            context.target_hash is Some ==> context.target is Some,
        ensures
            outcome(r) == tool_command(*context, tool@, present, args.deep_view(), Seq::empty()),
    {
        let env: Vec<(String, String)> = Vec::new();
        assert(env.deep_view() =~= Seq::<(Seq<char>, Seq<char>)>::empty());
        self.run_tool_with_env(context, tool, present, args, env)
    }

    /// The command that runs the declared tool `tool` with the variables `env`.
    pub fn run_tool_with_env(
        &self,
        context: &Context,
        tool: &str,
        present: bool,
        args: Vec<String>,
        env: Vec<(String, String)>,
    ) -> (r: Result<CommandLine, Error>)
        requires
            context.target_hash is Some ==> context.target is Some,
        ensures
            outcome(r) == tool_command(*context, tool@, present, args.deep_view(), env.deep_view()),
    {
        if !context.tools.has(tool) || !present {
            return Err(error(ErrorKind::NotFound, cat3("tool ", debug_of(tool).as_str(), " is not declared")));
        }
        let bin = join_path(declared_tools_dir(context).as_str(), tool);
        let mut vars = configure_hermetic_env(context);
        keep_all(&mut vars, &env);
        Ok(CommandLine { bin, args, env: vars, hermetic: true })
    }

    /// The command that downloads `url` to `dest`; `present` says whether the
    /// declared `curl` is there.
    pub fn download(&self, context: &Context, url: &str, dest: &str, present: bool) -> (r: Result<CommandLine, Error>)
        requires
            context.target_hash is Some ==> context.target is Some,
        ensures
            outcome(r) == download_command(*context, url@, dest@, present),
    {
        if !context.tools.has("curl") {
            let mut dirs: Vec<String> = Vec::new();
            keep(&mut dirs, "/usr/bin".to_owned());
            keep(&mut dirs, "/bin".to_owned());
            keep(&mut dirs, "/usr/local/bin".to_owned());
            assert(dirs.deep_view() =~= host_dirs());
            if let Err(e) = diagnose_host_path_search("curl", &dirs) {
                return Err(e);
            }
        }
        let mut args: Vec<String> = Vec::new();
        keep(&mut args, "--fail".to_owned());
        keep(&mut args, "--location".to_owned());
        keep(&mut args, "--silent".to_owned());
        keep(&mut args, "--show-error".to_owned());
        keep(&mut args, "--output".to_owned());
        keep(&mut args, dest.to_owned());
        keep(&mut args, url.to_owned());
        assert(args.deep_view() =~= download_args(url@, dest@));
        self.run_tool(context, "curl", present, args)
    }
}

} // verus!
