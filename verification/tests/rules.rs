//! Labels, rules, configuration files, contexts, actions and commands.

use cbs::actions::{
    action_line, command_name, configure_hermetic_env, declared_tools_dir, describe_command, materialize_declared_tools,
    process_error, BuildActions,
};
use cbs::command::{
    after_build, announcement, check_counts, ensure_executable_output, executable_of, exit_error, install_destination,
    install_source, parse_command, path_contains_dir, path_warning, replacement_temp_path, run_tests, test_report, Command,
    Next, TestOutcome,
};
use cbs::config_file::{load_build_table, load_workspace_table, resolve_import_path, Loaded};
use cbs::context::{BuildConfigKey, Context, Logs, Tool};
use cbs::error::{error, Error, ErrorKind};
use cbs::labels::{canonical_label, canonical_of, parse_label, parse_label_or_external, recursive_package_pattern, Label};
use cbs::model::{BuildOutput, BuildResult};
use cbs::rules::{
    cargo_requirements, find_named_target, package_path, string_list, target_tables, validate_workspace_relative, RuleContext,
};
use cbs::table::Table;
use cbs::task::Task;
use cbs::tool_diagnostics::{diagnose_command, diagnose_host_path_search};
use cbs::value::{text_at, ConfigTable, ConfigValue};

fn owned(items: &[&str]) -> Vec<String> {
    items.iter().map(|item| item.to_string()).collect()
}

fn text(value: &str) -> ConfigValue {
    ConfigValue::String(value.to_string())
}

fn texts(values: &[&str]) -> ConfigValue {
    ConfigValue::Array(values.iter().map(|value| text(value)).collect())
}

fn rows(list: Vec<(&str, ConfigValue)>) -> ConfigTable {
    let mut table: ConfigTable = Table::new();
    for (key, value) in list {
        table.insert(key.to_string(), value);
    }
    table
}

fn dict(list: Vec<(&str, ConfigValue)>) -> ConfigValue {
    ConfigValue::Table(rows(list))
}

fn message<T>(r: Result<T, Error>) -> String {
    match r {
        Ok(_) => panic!("no error"),
        Err(e) => e.message,
    }
}

#[test]
fn labels_are_read() {
    let label = parse_label("//util/cbs:cbs", "app").unwrap();
    assert_eq!(label.package, "util/cbs");
    assert_eq!(label.name, "cbs");
    let label = parse_label(":lib", "app").unwrap();
    assert_eq!(label.package, "app");
    assert_eq!(label.name, "lib");
    assert_eq!(parse_label("//a/:x", "").unwrap().package, "a");
    for value in ["cbs", "//util/cbs", "//a:", "//a/../b:c", "///a:b", ":"] {
        assert_eq!(parse_label(value, "app").err().unwrap().kind, ErrorKind::InvalidInput);
    }
}

#[test]
fn a_label_has_one_name() {
    assert_eq!(canonical_label(&Label { package: "".to_string(), name: "x".to_string() }), "//:x");
    assert_eq!(canonical_of(":x", "a/b").unwrap(), "//a/b:x");
    let once = canonical_of("//a/:x", "app").unwrap();
    assert_eq!(once, "//a:x");
    assert_eq!(canonical_of(&once, "elsewhere").unwrap(), once);
    assert_eq!(parse_label_or_external("cargo://rand", "app").unwrap(), "cargo://rand");
    assert_eq!(parse_label_or_external(":x", "app").unwrap(), "//app:x");
    assert!(parse_label_or_external("//x", "app").is_err());
}

#[test]
fn patterns_name_packages() {
    assert_eq!(recursive_package_pattern("//...").unwrap(), Some("".to_string()));
    assert_eq!(recursive_package_pattern("//util/bus/...").unwrap(), Some("util/bus".to_string()));
    assert_eq!(recursive_package_pattern("//util/bus:x").unwrap(), None);
    assert_eq!(recursive_package_pattern(":x").unwrap(), None);
    assert!(recursive_package_pattern("//a/../...").is_err());
    assert!(recursive_package_pattern("//a:b/...").is_err());
    assert!(parse_label("//util/bus/...", "app").is_err());
}

#[test]
fn sources_lie_in_their_package() {
    assert_eq!(package_path("/w", "/w/app", "src/lib.rs").unwrap(), "/w/app/src/lib.rs");
    assert_eq!(
        message(package_path("/w", "/w/app", "/etc/x")),
        "workspace paths must be package-relative: /etc/x"
    );
    assert_eq!(
        message(package_path("/w", "/w/app", "../x")),
        "workspace paths must be package-relative: ../x"
    );
    assert_eq!(message(package_path("/w", "/v/app", "x")), "path escapes workspace: /v/app/x");
    assert!(validate_workspace_relative("/w", "/w/a").is_none());
    assert!(validate_workspace_relative("/w", "/w/../a").is_some());
    assert!(validate_workspace_relative("/w", "a/b").is_none());
}

#[test]
fn the_fields_of_targets_are_read() {
    let context = RuleContext {
        workspace_root: "/w".to_string(),
        package: "app".to_string(),
        package_dir: "/w/app".to_string(),
    };
    let target = rows(vec![
        ("name", text("x")),
        ("srcs", texts(&["a.rs", "b/c.rs"])),
        ("deps", texts(&[":y", "//z:z"])),
        ("root_source", text("a.rs")),
        ("codegen", text(":gen")),
        ("flag", ConfigValue::Bool(true)),
    ]);
    assert_eq!(context.source_paths(&target, "srcs").unwrap(), owned(&["/w/app/a.rs", "/w/app/b/c.rs"]));
    assert_eq!(context.source_paths(&target, "none").unwrap(), Vec::<String>::new());
    assert_eq!(context.label_list(&target, "deps").unwrap(), owned(&["//app:y", "//z:z"]));
    let outside = rows(vec![("deps", texts(&["cargo://rand"]))]);
    assert_eq!(
        message(context.label_list(&outside, "deps")),
        "invalid label cargo://rand; expected //package:target or :target"
    );
    assert_eq!(context.optional_source_path(&target, "root_source").unwrap(), Some("/w/app/a.rs".to_string()));
    assert_eq!(context.optional_source_path(&target, "none").unwrap(), None);
    assert_eq!(context.optional_label(&target, "codegen").unwrap(), Some("//app:gen".to_string()));
    assert_eq!(context.required_string(&target, "name").unwrap(), "x");
    assert_eq!(message(context.required_string(&target, "flag")), "missing required string field flag");
    assert_eq!(message(string_list(&target, "name")), "name must be an array of strings");
}

#[test]
fn requirements_on_cargo_are_read() {
    let target = rows(vec![(
        "cargo_deps",
        ConfigValue::Array(vec![
            dict(vec![
                ("package", text("tokio")),
                ("version", text("=1.48.0")),
                ("default-features", ConfigValue::Bool(false)),
                ("features", texts(&["macros"])),
            ]),
            dict(vec![("package", text("x")), ("version", text("1")), ("target", text(":x"))]),
        ]),
    )]);
    let requirements = cargo_requirements(&target, "app").unwrap();
    assert_eq!(requirements.len(), 2);
    assert_eq!(requirements[0].ecosystem, "cargo");
    assert_eq!(requirements[0].target(), "cargo://tokio");
    assert_eq!(requirements[0].features, owned(&["macros"]));
    assert!(!requirements[0].default_features);
    assert_eq!(requirements[1].target(), "//app:x");
    assert!(requirements[1].default_features);
    let none = rows(Vec::new());
    assert_eq!(cargo_requirements(&none, "app").unwrap().len(), 0);
    let broken = rows(vec![("cargo_deps", text("x"))]);
    assert_eq!(message(cargo_requirements(&broken, "app")), "cargo_deps must be an array of tables");
    let broken = rows(vec![("cargo_deps", texts(&["x"]))]);
    assert_eq!(message(cargo_requirements(&broken, "app")), "cargo_deps entries must be tables");
}

#[test]
fn build_files_hold_targets_by_their_kinds() {
    let file = dict(vec![
        ("lib", dict(vec![("_type", text("rust_library")), ("srcs", texts(&["lib.rs"]))])),
        ("bin", dict(vec![("_type", text("rust_binary"))])),
        ("other", dict(vec![("_type", text("rust_library"))])),
        ("_hidden", text("anything")),
    ]);
    let table = load_build_table("BUILD.ccl", &Loaded::Value(file)).unwrap();
    let libraries = target_tables(&table, "rust_library").unwrap();
    assert_eq!(libraries.len(), 2);
    assert_eq!(text_at(&libraries[0], "name"), Some("lib".to_string()));
    assert_eq!(text_at(&libraries[1], "name"), Some("other".to_string()));
    assert_eq!(target_tables(&table, "rust_test").unwrap().len(), 0);
    assert!(find_named_target(&table, "rust_binary", "bin").unwrap().is_some());
    assert!(find_named_target(&table, "rust_binary", "lib").unwrap().is_none());
    let broken = dict(vec![("x", text("y"))]);
    assert_eq!(
        message(load_build_table("BUILD.ccl", &Loaded::Value(broken))),
        "BUILD.ccl target x must be a dictionary"
    );
    let broken = dict(vec![("x", dict(Vec::new()))]);
    assert_eq!(
        message(load_build_table("BUILD.ccl", &Loaded::Value(broken))),
        "BUILD.ccl target x is missing _type"
    );
}

#[test]
fn configuration_files_have_to_be_dictionaries() {
    let table = load_workspace_table("W", &Loaded::Value(dict(vec![("a", text("b"))]))).unwrap();
    assert_eq!(text_at(&table, "a"), Some("b".to_string()));
    let cases = vec![
        (text("x"), "W must evaluate to a dictionary, got a string"),
        (ConfigValue::Bool(true), "W must evaluate to a dictionary, got a bool"),
        (ConfigValue::Number(0), "W must evaluate to a dictionary, got a number"),
        (texts(&[]), "W must evaluate to a dictionary, got an array"),
        (ConfigValue::Null, "W must evaluate to a dictionary, got null"),
    ];
    for (value, expected) in cases {
        assert_eq!(message(load_workspace_table("W", &Loaded::Value(value))), expected);
    }
    assert_eq!(
        message(load_workspace_table("W", &Loaded::Unparsed("here".to_string()))),
        "failed to parse W:\nhere"
    );
    assert_eq!(
        message(load_workspace_table("W", &Loaded::Unevaluated("here".to_string()))),
        "failed to evaluate W:\nhere"
    );
    let gone = Loaded::Unreadable(error(ErrorKind::NotFound, "gone".to_string()));
    assert_eq!(load_workspace_table("W", &gone).err().unwrap().kind, ErrorKind::NotFound);
}

#[test]
fn imports_stay_in_the_workspace() {
    let beside = Some("/w/app/BUILD.ccl".to_string());
    assert!(matches!(
        resolve_import_path("/w", "//util/cbs:build_defs.ccl", &beside),
        Ok(path) if path == "/w/util/cbs/build_defs.ccl"
    ));
    assert!(matches!(resolve_import_path("/w", "x.ccl", &beside), Ok(path) if path == "/w/app/x.ccl"));
    assert!(matches!(resolve_import_path("/w", "x.ccl", &None), Ok(path) if path == "/w/x.ccl"));
    for (name, expected) in [
        ("//x", "invalid CCL import label //x; expected //package:path"),
        ("../x", "CCL import path must be workspace-relative: ../x"),
        ("/etc/x", "CCL import path must be workspace-relative: /etc/x"),
        ("//a/..:x", "CCL import path must be workspace-relative: a/.."),
    ] {
        match resolve_import_path("/w", name, &beside) {
            Err(cbs::ccl::exec::ExecError::ImportResolutionError(found)) => assert_eq!(found, expected),
            _ => panic!("{name} is imported"),
        }
    }
    match resolve_import_path("/w", "x", &Some("/v/y.ccl".to_string())) {
        Err(cbs::ccl::exec::ExecError::ImportResolutionError(found)) => {
            assert_eq!(found, "CCL import path escapes workspace: /v/x")
        }
        _ => panic!("imported"),
    }
}

fn linux() -> Vec<(BuildConfigKey, String)> {
    vec![
        (BuildConfigKey::TargetOS, "linux".to_string()),
        (BuildConfigKey::TargetFamily, "unix".to_string()),
    ]
}

fn two_fingerprints() -> Vec<(String, String)> {
    vec![("b".to_string(), "2".to_string()), ("a".to_string(), "1".to_string())]
}

#[test]
fn a_context_is_hashed_with_its_tools() {
    let mut context = Context::new("/tmp/cache".to_string(), linux()).with_tool_fingerprints(two_fingerprints());
    assert_eq!(context.calculate_hash(), 0x7a047a4c9dba94c3);
    assert_eq!(context.hash, 0x7a047a4c9dba94c3);
    let mut reversed: Vec<(BuildConfigKey, String)> = linux();
    reversed.reverse();
    let mut fingerprints = two_fingerprints();
    fingerprints.reverse();
    let mut same = Context::new("/other".to_string(), reversed).with_tool_fingerprints(fingerprints);
    assert_eq!(same.calculate_hash(), context.hash);
    let mut changed = two_fingerprints();
    changed[0].1 = "3".to_string();
    let mut other = Context::new("/tmp/cache".to_string(), linux()).with_tool_fingerprints(changed);
    assert!(other.calculate_hash() != context.hash);
    assert_eq!(context.get_config(BuildConfigKey::TargetOS), Some(&"linux".to_string()));
    assert_eq!(context.get_config(BuildConfigKey::TargetEnv), None);
}

#[test]
fn a_context_has_its_directories() {
    let mut context = Context::new("/tmp/cache".to_string(), Vec::new());
    assert_eq!(context.hash, 0);
    assert_eq!(context.working_directory(), "/tmp/cache");
    assert_eq!(context.scratch_dir(), "/tmp/cache");
    context.lockfile.insert("cargo://rand".to_string(), "0.8.5".to_string());
    let resolving = context.with_target("cargo://rand");
    assert_eq!(resolving.working_directory(), "/tmp/cache/resolve/cargo___rand-0.8.5");
    assert_eq!(resolving.scratch_dir(), "/tmp/cache/resolve/scratch/cargo___rand-0.8.5");
    let mut task = Task::new(0, "//:hello_world".to_string());
    let mut config = cbs::model::Config::empty();
    config.hash = 0x6ebb3cba5d8c8cf3;
    task.config = Some(config);
    let building = context.with_task(&task);
    assert_eq!(building.working_directory(), "/tmp/cache/build/___hello_world-6ebb3cba5d8c8cf3");
    assert_eq!(building.scratch_dir(), "/tmp/cache/build/scratch/___hello_world-6ebb3cba5d8c8cf3");
    assert_eq!(resolving.get_locked_version("cargo://rand").unwrap(), "0.8.5");
    assert_eq!(resolving.get_locked_version("cargo://none").err().unwrap().kind, ErrorKind::NotFound);
    let mut edges: Table<String> = Table::new();
    edges.insert("libc".to_string(), "cargo://libc@0.2".to_string());
    context.locked_dependencies.insert("cargo://rand".to_string(), edges);
    assert_eq!(context.get_locked_dependency("cargo://rand", "libc"), Some("cargo://libc@0.2".to_string()));
    assert_eq!(context.get_locked_dependency("cargo://rand", "cfg-if"), None);
}

#[test]
fn what_is_said_of_a_target_is_kept() {
    let context = Context::new("/tmp/cache".to_string(), Vec::new());
    let mut logs: Logs = Table::new();
    context.log(&mut logs, "lost".to_string());
    assert_eq!(logs.rows.len(), 0);
    let context = context.with_target("//:x");
    context.log(&mut logs, "first".to_string());
    context.log(&mut logs, "second".to_string());
    assert_eq!(logs.get("//:x"), Some(&owned(&["first", "second"])));
}

fn with_tools(names: &[&str]) -> Context {
    let tools: Vec<(String, Tool)> = names
        .iter()
        .map(|name| (name.to_string(), Tool { path: format!("/opt/{name}"), fingerprint: "f".to_string() }))
        .collect();
    let mut context = Context::new("/tmp/cache".to_string(), Vec::new()).with_tools(tools);
    assert_eq!(context.calculate_hash(), 0xe3b0c44298fc1c14);
    context
}

#[test]
fn only_declared_tools_are_run() {
    let context = with_tools(&["cargo", "tar"]);
    let dir = "/tmp/cache/.cbs-tools/e3b0c44298fc1c14";
    assert_eq!(declared_tools_dir(&context), dir);
    assert_eq!(
        materialize_declared_tools(&context),
        vec![
            (format!("{dir}/cargo"), "/opt/cargo".to_string()),
            (format!("{dir}/tar"), "/opt/tar".to_string()),
        ]
    );
    assert_eq!(
        configure_hermetic_env(&context),
        vec![
            ("PATH".to_string(), dir.to_string()),
            ("TMPDIR".to_string(), "/tmp/cache/tmp".to_string()),
            ("HOME".to_string(), "/tmp/cache/home".to_string()),
        ]
    );
    let actions = BuildActions::new();
    let line = actions.run_process(&context, "tar", true, owned(&["xf", "a"])).unwrap();
    assert_eq!(line.bin, format!("{dir}/tar"));
    assert!(line.hermetic);
    assert_eq!(line.args, owned(&["xf", "a"]));
    let line = actions.run_process(&context, "/tmp/built/x", true, Vec::new()).unwrap();
    assert_eq!(line.bin, "/tmp/built/x");
    assert!(!line.hermetic);
    let e = actions.run_process(&context, "curl", true, Vec::new()).err().unwrap();
    assert_eq!(e.kind, ErrorKind::PermissionDenied);
    assert_eq!(
        e.message,
        "non-hermetic tool use rejected: CBS action uses undeclared bare host tool `curl`"
    );
    assert_eq!(
        message(actions.run_process(&context, "/usr/bin/tar", true, Vec::new())),
        "non-hermetic tool use rejected: CBS action uses undeclared host tool path `/usr/bin/tar`"
    );
    let e = actions.run_tool(&context, "curl \"x\"", false, Vec::new()).err().unwrap();
    assert_eq!(e.kind, ErrorKind::NotFound);
    assert_eq!(e.message, "tool \"curl \\\"x\\\"\" is not declared");
    let e = actions.run_tool(&context, "/usr/bin/tar", true, Vec::new()).err().unwrap();
    assert_eq!(e.kind, ErrorKind::NotFound);
    assert_eq!(e.message, "tool \"/usr/bin/tar\" is not declared");
}

#[test]
fn files_are_downloaded_by_a_declared_tool() {
    let actions = BuildActions::new();
    let line = actions.download(&with_tools(&["curl"]), "https://x/y", "/tmp/z", true).unwrap();
    assert_eq!(
        line.args,
        owned(&["--fail", "--location", "--silent", "--show-error", "--output", "/tmp/z", "https://x/y"])
    );
    assert_eq!(
        message(actions.download(&with_tools(&[]), "https://x/y", "/tmp/z", true)),
        "non-hermetic tool use rejected: searching host paths [/usr/bin, /bin, /usr/local/bin] for undeclared tool `curl`"
    );
}

#[test]
fn programs_of_the_host_are_rejected() {
    assert!(diagnose_command("/opt/x/rustc", "CBS action").is_ok());
    assert!(diagnose_command("./rustc", "CBS action").is_ok());
    for program in ["rustc", "/bin/sh", "/usr/local/bin/x", "/usr/bin/../bin/x"] {
        assert_eq!(diagnose_command(program, "CBS action").err().unwrap().kind, ErrorKind::PermissionDenied);
    }
    assert!(diagnose_command("/usr/binary/x", "CBS action").is_ok());
    assert!(diagnose_host_path_search("x", &owned(&["/bin"])).is_err());
}

#[test]
fn what_a_program_did_is_told() {
    let env = vec![("KEY".to_string(), "secret".to_string())];
    let command = describe_command("/opt/cargo", &env, &owned(&["fetch", "-q"]));
    assert_eq!(command, "/opt/cargo KEY=<env> fetch -q");
    assert_eq!(command_name(&command), "cargo");
    assert_eq!(command_name(""), "");
    let context = with_tools(&[]);
    assert_eq!(action_line(&context, &command), "[cbs] action workspace: cargo");
    assert_eq!(action_line(&context.with_target("//:x"), &command), "[cbs] action //:x: cargo");
    let (logs, e) = process_error(&context, &command, "exit status: 1", "out \n", " err\n");
    assert_eq!(logs, owned(&["stdout:\nout", "stderr:\n err"]));
    assert_eq!(e.kind, ErrorKind::InvalidData);
    assert_eq!(
        e.message,
        "command exited with exit status: 1\ncommand: /opt/cargo KEY=<env> fetch -q\nstderr:\n err"
    );
    let (logs, e) = process_error(&context.with_target("//:x"), &command, "exit status: 1", " ", "err");
    assert_eq!(logs, owned(&["stderr:\nerr"]));
    assert_eq!(e.message, "command exited with exit status: 1\ncommand: /opt/cargo KEY=<env> fetch -q");
}

#[test]
fn commands_are_read_from_arguments() {
    let read = |args: &[&str]| parse_command(&owned(args));
    assert!(matches!(read(&["build", "//a:b", "//..."]), Ok(Command::Build(list)) if list == owned(&["//a:b", "//..."])));
    assert!(matches!(read(&["test", "//..."]), Ok(Command::Test(list)) if list == owned(&["//..."])));
    assert!(matches!(read(&["install", "//a:b"]), Ok(Command::Install(target)) if target == "//a:b"));
    match read(&["run", "//a:b", "--", "x", "--"]) {
        Ok(Command::Run(target, args)) => {
            assert_eq!(target, "//a:b");
            assert_eq!(args, owned(&["x", "--"]));
        }
        _ => panic!("not run"),
    }
    assert!(matches!(read(&["run", "//a:b", "x", "y"]), Ok(Command::Run(_, args)) if args == owned(&["x", "y"])));
    assert!(matches!(read(&["run", "//a:b"]), Ok(Command::Run(_, args)) if args.is_empty()));
    for args in [&[][..], &["build"], &["test"], &["install"], &["install", "a", "b"], &["run"], &["fly", "x"]] {
        let e = read(args).err().unwrap();
        assert_eq!(e.kind, ErrorKind::InvalidInput);
        assert!(e.message.starts_with("usage: cbs build <target-or-pattern>..."));
    }
    assert_eq!(announcement(&Command::Build(owned(&["a", "b"]))), "[cbs] build requested: a, b");
    assert_eq!(announcement(&Command::Test(owned(&["a"]))), "[cbs] test requested: a");
    assert_eq!(announcement(&Command::Install("a".to_string())), "[cbs] install requested: a");
    assert_eq!(announcement(&Command::Run("a".to_string(), Vec::new())), "[cbs] run requested: a");
}

fn built(outputs: &[&str]) -> BuildResult {
    let mut output = BuildOutput::empty();
    output.outputs = owned(outputs);
    BuildResult::Success(output)
}

#[test]
fn what_was_built_is_used_as_asked() {
    let build = Command::Build(owned(&["//a:b"]));
    let test = Command::Test(owned(&["//..."]));
    let install = Command::Install("//a:b".to_string());
    let run = Command::Run("//a:b".to_string(), owned(&["x"]));
    let targets = || owned(&["//a:b"]);
    assert!(matches!(after_build(&build, targets(), built(&["x", "y"])), Ok(Next::Print(list)) if list == owned(&["x", "y"])));
    assert!(matches!(
        after_build(&test, targets(), built(&["x"])),
        Ok(Next::Test(list, programs)) if list == targets() && programs == owned(&["x"])
    ));
    assert_eq!(
        message(after_build(&test, targets(), built(&["x", "y"]))),
        "expected one executable per test target, got 1 target(s) and 2 output(s)"
    );
    assert!(matches!(after_build(&install, targets(), built(&["x"])), Ok(Next::Install(program)) if program == "x"));
    assert_eq!(
        message(after_build(&install, targets(), built(&[]))),
        "//a:b must produce exactly one output to install, got 0"
    );
    assert!(matches!(
        after_build(&run, targets(), built(&["x", "y"])),
        Ok(Next::Execute(program, args)) if program == "x" && args == owned(&["x"])
    ));
    assert_eq!(
        message(after_build(&run, targets(), built(&[]))),
        "//a:b did not produce an executable output"
    );
    for command in [build, test, install, run] {
        let failed = BuildResult::Failure("why".to_string());
        assert_eq!(message(after_build(&command, targets(), failed)), "build failed: why");
    }
}

#[test]
fn programs_are_installed_below_the_home_directory() {
    let home = Some("/home/u".to_string());
    assert_eq!(
        install_destination("/tmp/cache/cbs", &home).unwrap(),
        ("/home/u/bin".to_string(), "/home/u/bin/cbs".to_string())
    );
    let e = install_destination("/tmp/cache/cbs", &None).err().unwrap();
    assert_eq!(e.kind, ErrorKind::NotFound);
    assert_eq!(e.message, "HOME is not set; cannot determine install directory");
    assert_eq!(message(install_destination("/", &home)), "/ does not have a file name");
    assert_eq!(
        replacement_temp_path("/home/u/bin/cbs", 42, "1700").unwrap(),
        "/home/u/bin/.cbs.42.1700.tmp"
    );
    assert!(ensure_executable_output("t", "x", 0o755).is_none());
    assert_eq!(ensure_executable_output("t", "x", 0o644).unwrap().message, "t output is not executable: x");
    assert!(path_contains_dir(&owned(&["/bin", "/home/u/bin/"]), "/home/u/bin"));
    assert!(!path_contains_dir(&owned(&["/bin"]), "/home/u/bin"));
    assert_eq!(
        path_warning("/home/u/bin"),
        "[cbs] warning: ~/bin (/home/u/bin) is not on PATH; add ~/bin to PATH in ~/.bashrc or ~/.zshrc"
    );
    assert_eq!(install_source("t", &owned(&["a"])).unwrap(), "a");
    assert_eq!(executable_of("t", &owned(&["a", "b"])).unwrap(), "a");
    assert_eq!(exit_error("t", "exit status: 3").message, "t exited with exit status: 3");
    assert!(check_counts(2, 2).is_none());
}

#[test]
fn tests_pass_or_fail() {
    let failed = TestOutcome::Failed("exit status: 1".to_string(), "out".to_string(), String::new());
    let lost = TestOutcome::NotExecuted("gone".to_string());
    assert_eq!(test_report("//:t", "/x", &TestOutcome::Passed), "[cbs] test PASS //:t\n");
    assert_eq!(
        test_report("//:t", "/x", &failed),
        "[cbs] test FAIL //:t\n--- //:t status ---\nexit status: 1\n--- //:t stdout ---\nout\n--- //:t stderr ---\n<empty>\n"
    );
    assert_eq!(
        test_report("//:t", "/x", &lost),
        "[cbs] test FAIL //:t\n--- //:t execution error ---\nfailed to execute /x: gone\n"
    );
    let targets = owned(&["a", "b", "c"]);
    assert_eq!(
        run_tests(&targets, &vec![TestOutcome::Passed, TestOutcome::Passed, TestOutcome::Passed]).unwrap(),
        "[cbs] test result: 3 passed"
    );
    assert_eq!(
        message(run_tests(&targets, &vec![failed, TestOutcome::Passed, lost])),
        "2 test(s) failed: a, c"
    );
}
