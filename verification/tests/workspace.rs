//! Workspaces: where they are, which targets patterns stand for, and what their
//! executors work with.

use cbs::assembly::{TargetResolver, WorkspaceExecutor};
use cbs::bus_plugin::bus_manifest;
use cbs::config_file::Loaded;
use cbs::error::{Error, ErrorKind};
use cbs::host::{Answer, Host, Known, PluginInitResponse, Question, RunOutput, Stop};
use cbs::model::BuildResult;
use cbs::packages::{package_of_dir, strip_root};
use cbs::plugin_abi::{loaded_builtin_plugin, CbsPluginV1, CBS_PLUGIN_ABI_VERSION};
use cbs::rust_plugin::rule::rust_manifest;
use cbs::table::Table;
use cbs::value::ConfigValue;
use cbs::workspace::{build_from_current_workspace, BuildInvocationResult, Workspace};

/// A machine with the given directories, files and configuration files.
struct Machine {
    os: &'static str,
    dirs: Vec<String>,
    files: Vec<(String, Vec<u8>)>,
    configs: Vec<(String, ConfigValue)>,
    commands: Vec<(Vec<String>, bool, String)>,
}

fn text(value: &str) -> ConfigValue {
    ConfigValue::String(value.to_string())
}

fn texts(values: &[&str]) -> ConfigValue {
    ConfigValue::Array(values.iter().map(|value| text(value)).collect())
}

fn dict(rows: Vec<(&str, ConfigValue)>) -> ConfigValue {
    let mut table: Table<ConfigValue> = Table::new();
    for (key, value) in rows {
        table.insert(key.to_string(), value);
    }
    ConfigValue::Table(table)
}

fn copy(value: &ConfigValue) -> ConfigValue {
    cbs::text::Duplicate::duplicate(value)
}

fn name_of(path: &str) -> String {
    path.rsplit('/').next().unwrap().to_string()
}

fn parent_of(path: &str) -> String {
    path.rsplit_once('/').unwrap().0.to_string()
}

impl Machine {
    fn answer(&self, known: &mut Known, question: Question) {
        match question {
            Question::Exists(path) => {
                let there = self.dirs.contains(&path)
                    || self.files.iter().any(|file| file.0 == path)
                    || self.configs.iter().any(|config| config.0 == path);
                known.presence.insert(path, there);
            }
            Question::IsDir(path) => {
                let there = self.dirs.iter().any(|dir| dir == path.trim_end_matches('/'));
                known.dirs.insert(path, there);
            }
            Question::IsFile(path) => {
                let there = self.files.iter().any(|file| file.0 == path);
                known.files.insert(path, there);
            }
            Question::Entries(path) => {
                let dir = path.trim_end_matches('/').to_string();
                let mut names: Vec<String> = Vec::new();
                for entry in self.dirs.iter().chain(self.configs.iter().map(|config| &config.0)) {
                    if entry != &dir && parent_of(entry) == dir {
                        names.push(name_of(entry));
                    }
                }
                known.entries.insert(path, Answer::Given(names));
            }
            Question::Contents(path) => {
                let answer = match self.files.iter().find(|file| file.0 == path) {
                    Some(file) => Answer::Given(file.1.clone()),
                    None => Answer::Failed(Error {
                        kind: ErrorKind::NotFound,
                        message: "no such file".to_string(),
                    }),
                };
                known.contents.insert(path, answer);
            }
            Question::Config(path) => {
                let loaded = match self.configs.iter().find(|config| config.0 == path) {
                    Some(config) => Loaded::Value(copy(&config.1)),
                    None => Loaded::Unparsed("nothing there".to_string()),
                };
                known.configs.insert(path, loaded);
            }
            Question::Variable(name) => {
                known.variables.insert(name, None);
            }
            Question::Run(command) => {
                let answer = match self.commands.iter().find(|known| known.0 == command) {
                    Some(found) => Answer::Given(RunOutput {
                        success: found.1,
                        stdout: Answer::Given(found.2.clone()),
                    }),
                    None => Answer::Failed(Error {
                        kind: ErrorKind::NotFound,
                        message: "no such program".to_string(),
                    }),
                };
                known.commands.push((command, answer));
            }
            Question::Plugin(path, name) => {
                let plugin = CbsPluginV1 { abi_version: CBS_PLUGIN_ABI_VERSION, functions: 0 };
                let answer = match name.as_str() {
                    "rust" => Answer::Given(loaded_builtin_plugin(plugin, rust_manifest())),
                    "bus" => Answer::Given(loaded_builtin_plugin(plugin, bus_manifest())),
                    _ => Answer::Failed(Error {
                        kind: ErrorKind::InvalidData,
                        message: "not a plugin".to_string(),
                    }),
                };
                known.plugins.insert(path, answer);
            }
            Question::Start(_) => {
                known.started.push(Answer::Given(PluginInitResponse::Success(Vec::new(), Vec::new())));
            }
        }
    }

    fn known(&self) -> Known {
        Known::new(Host {
            os: self.os.to_string(),
            arch: "x86_64".to_string(),
            windows: false,
            little_endian: true,
        })
    }

    /// Answers questions until there are none.
    fn settle<T>(&self, known: &mut Known, compute: impl Fn(&Known) -> Result<T, Stop>) -> Result<T, Error> {
        loop {
            match compute(known) {
                Ok(value) => return Ok(value),
                Err(Stop::Failed(e)) => return Err(e),
                Err(Stop::Ask(question)) => self.answer(known, question),
            }
        }
    }

    fn load(&self, cwd: &str) -> Result<Workspace, Error> {
        self.settle(&mut self.known(), |known| Workspace::load_from(known, cwd))
    }

    fn targets(&self, workspace: &Workspace, patterns: &[&str]) -> Result<Vec<String>, Error> {
        let patterns: Vec<String> = patterns.iter().map(|pattern| pattern.to_string()).collect();
        self.settle(&mut self.known(), |known| workspace.expand_target_patterns(known, &patterns))
    }

    fn tests(&self, workspace: &Workspace, patterns: &[&str]) -> Result<Vec<String>, Error> {
        let patterns: Vec<String> = patterns.iter().map(|pattern| pattern.to_string()).collect();
        self.settle(&mut self.known(), |known| workspace.expand_test_patterns(known, &patterns))
    }

    fn executor(&self, workspace: &Workspace) -> Result<WorkspaceExecutor, Error> {
        self.settle(&mut self.known(), |known| workspace.executor(known))
    }
}

fn rand_workspace() -> (Machine, String) {
    let root = format!("/{}/{}/{}", "CARGO_MANIFEST_DIR", "test_workspaces", "rand");
    let machine = Machine {
        os: "linux",
        dirs: vec![root.clone(), format!("{root}/app"), format!("{root}/.cbs")],
        files: Vec::new(),
        configs: vec![
            (
                format!("{root}/WORKSPACE.ccl"),
                dict(vec![("workspace", dict(vec![("cache_dir", text(".cbs/cache"))]))]),
            ),
            (
                format!("{root}/app/BUILD.ccl"),
                dict(vec![(
                    "rand_example",
                    dict(vec![("_type", text("rust_binary")), ("srcs", texts(&["rand_example.rs"]))]),
                )]),
            ),
        ],
        commands: Vec::new(),
    };
    (machine, root)
}

#[test]
fn expands_explicit_targets_and_recursive_patterns() {
    let (machine, workspace_root) = rand_workspace();
    let workspace = machine.load(&workspace_root).unwrap();
    assert_eq!(
        machine
            .targets(&workspace, &["//app:rand_example", "//app/...", "//app:rand_example"])
            .unwrap(),
        vec!["//app:rand_example".to_string()]
    );
}

#[test]
fn expands_workspace_recursive_pattern() {
    let (machine, workspace_root) = rand_workspace();
    let workspace = machine.load(&workspace_root).unwrap();
    assert_eq!(
        machine.targets(&workspace, &["//..."]).unwrap(),
        vec!["//app:rand_example".to_string()]
    );
}

fn workspace_with_tests() -> (Machine, String) {
    let root = "/tmp/cbs-workspace-test-expansion".to_string();
    let machine = Machine {
        os: "linux",
        dirs: vec![root.clone(), format!("{root}/app")],
        files: Vec::new(),
        configs: vec![
            (
                format!("{root}/WORKSPACE.ccl"),
                dict(vec![("workspace", dict(vec![("cache_dir", text(".cbs/cache"))]))]),
            ),
            (
                format!("{root}/app/BUILD.ccl"),
                dict(vec![
                    ("lib", dict(vec![("_type", text("rust_library")), ("srcs", texts(&["lib.rs"]))])),
                    ("app", dict(vec![("_type", text("rust_binary")), ("srcs", texts(&["main.rs"]))])),
                    ("unit", dict(vec![("_type", text("rust_test")), ("srcs", texts(&["lib.rs"]))])),
                ]),
            ),
        ],
        commands: Vec::new(),
    };
    (machine, root)
}

#[test]
fn test_expansion_only_returns_test_targets() {
    let (machine, workspace_root) = workspace_with_tests();
    let workspace = machine.load(&workspace_root).unwrap();

    assert_eq!(machine.tests(&workspace, &["//app/..."]).unwrap(), vec!["//app:unit".to_string()]);
    assert_eq!(machine.tests(&workspace, &["//app:app", "//app:lib"]).unwrap(), Vec::<String>::new());
    assert_eq!(machine.tests(&workspace, &["//app:unit"]).unwrap(), vec!["//app:unit".to_string()]);
}

#[test]
fn a_workspace_is_found_from_below() {
    let (machine, root) = workspace_with_tests();
    let workspace = machine.load(&format!("{root}/app")).unwrap();
    assert_eq!(workspace.root, root);
    assert_eq!(workspace.current_package, "app");
    assert_eq!(workspace.config.cache_dir, format!("{root}/.cbs/cache"));
    assert_eq!(machine.targets(&workspace, &[":lib"]).unwrap(), vec!["//app:lib".to_string()]);
    assert_eq!(strip_root("/", "/./app").unwrap(), "app");
    assert_eq!(package_of_dir("/", "/./app").unwrap(), "app");
    assert_eq!(package_of_dir("/ws/.", "/ws//a/b/").unwrap(), "a/b");
    assert_eq!(package_of_dir("/ws", "/ws").unwrap(), "");
    let e = package_of_dir("/ws", "/wsx/app").err().unwrap();
    assert_eq!(e.message, "/wsx/app is not inside workspace /ws");
    let e = machine.load("/tmp").err().unwrap();
    assert_eq!(e.kind, ErrorKind::NotFound);
    assert_eq!(e.message, "no WORKSPACE.ccl found in current directory or any parent");
}

#[test]
fn patterns_that_match_nothing_are_errors() {
    let (machine, root) = workspace_with_tests();
    let workspace = machine.load(&root).unwrap();
    assert_eq!(
        machine.targets(&workspace, &["//nowhere/..."]).err().unwrap().message,
        "target pattern //nowhere/... refers to a missing package directory"
    );
    assert_eq!(
        machine.targets(&workspace, &["app"]).err().unwrap().message,
        "invalid label app; expected //package:target or :target"
    );
    assert_eq!(
        machine.tests(&workspace, &["//app:nothing"]).err().unwrap().message,
        "target //app:nothing not found"
    );
}

#[test]
fn a_workspace_builds_for_its_own_machine_by_default() {
    let (machine, root) = workspace_with_tests();
    let workspace = machine.load(&root).unwrap();
    let facts: Vec<&str> = workspace.config.target_config.iter().map(|fact| fact.1.as_str()).collect();
    assert_eq!(facts, vec!["unix", "linux", "gnu", "x86_64", "unknown", "little"]);
    assert_eq!(workspace.config.rustc, "rustc");
}

#[test]
fn the_plugin_for_rust_is_implicit() {
    let (machine, root) = workspace_with_tests();
    let workspace = machine.load(&root).unwrap();
    assert_eq!(workspace.config.plugins.len(), 1);
    assert_eq!(workspace.config.plugins[0].name, "rust");
    assert_eq!(workspace.config.plugins[0].path, "/tmp/rust.cdylib");
}

#[test]
fn an_executor_has_its_resolvers_in_order() {
    let (machine, root) = workspace_with_tests();
    let workspace = machine.load(&root).unwrap();
    let executor = machine.executor(&workspace).unwrap();
    assert_eq!(executor.resolvers.len(), 3);
    assert!(executor.resolvers[0].can_resolve("//app:lib"));
    assert!(!executor.resolvers[0].can_resolve("cargo://rand"));
    assert!(executor.resolvers[1].can_resolve("cargo://rand"));
    assert!(executor.resolvers[2].can_resolve("@rust_compiler"));
    assert_eq!(executor.dependency_planners.len(), 1);
    assert_eq!(executor.dependency_planners[0].0, "cargo");
    match &executor.resolvers[2] {
        TargetResolver::Tools(configs) => {
            assert_eq!(configs.get("@rust_plugin").unwrap().location, Some("/tmp/rust.cdylib".to_string()));
        }
        _ => panic!("tools come last"),
    }
}

#[test]
fn a_target_is_put_to_the_plugin_that_knows_its_kind() {
    let (machine, root) = workspace_with_tests();
    let workspace = machine.load(&root).unwrap();
    let executor = machine.executor(&workspace).unwrap();
    match &executor.resolvers[0] {
        TargetResolver::Workspace(resolver) => {
            let call = machine
                .settle(&mut machine.known(), |known| resolver.resolve(known, "//app:unit"))
                .ok()
                .unwrap();
            assert_eq!(call.request.kind, "rust_test");
            assert_eq!(call.request.name, "unit");
            assert_eq!(call.request.sources, vec![format!("{root}/app/lib.rs")]);
            let e = machine
                .settle(&mut machine.known(), |known| resolver.resolve(known, "//app:none"))
                .err()
                .unwrap();
            assert_eq!(e.message, format!("target //app:none not found in {root}/app/BUILD.ccl"));
            let e = machine
                .settle(&mut machine.known(), |known| resolver.resolve(known, "//lost:none"))
                .err()
                .unwrap();
            assert_eq!(e.message, format!("no BUILD.ccl found in {root}/lost"));
        }
        _ => panic!("the workspace comes first"),
    }
}

fn workspace_with(rows: Vec<(&str, ConfigValue)>) -> (Machine, String) {
    let (mut machine, root) = workspace_with_tests();
    machine.configs[0].1 = dict(rows);
    (machine, root)
}

#[test]
fn a_rust_toolchain_is_two_tools() {
    let (mut machine, root) = workspace_with(vec![(
        "tools",
        dict(vec![("rust", dict(vec![("_type", text("rust_toolchain")), ("root", text("/opt/rust")), ("version", text("1.91.1"))]))]),
    )]);
    machine.files.push(("/opt/rust/bin/rustc".to_string(), b"abc".to_vec()));
    machine.files.push(("/opt/rust/bin/cargo".to_string(), Vec::new()));
    machine.commands.push((
        vec!["/opt/rust/bin/rustc".to_string(), "-Vv".to_string()],
        true,
        "rustc 1.91.1\nrelease: 1.91.1\nhost: x86_64-unknown-linux-gnu\n".to_string(),
    ));
    let workspace = machine.load(&root).unwrap();
    let rustc = workspace.config.tools.get("rustc").unwrap();
    assert_eq!(rustc.path, "/opt/rust/bin/rustc");
    assert_eq!(
        rustc.fingerprint,
        "rust_toolchain:/opt/rust/bin/rustc:sha256=ba7816bf8f01cfea414140de5dae2223b00361a396177a9cb410ff61f20015ad;rust-toolchain:version=1.91.1:host=x86_64-unknown-linux-gnu:dist-sha256=unspecified"
    );
    assert_eq!(workspace.config.rustc, "/opt/rust/bin/rustc");
    assert_eq!(workspace.config.tool_fingerprints.len(), 2);

    machine.commands[0].2 = "release: 1.90.0\n".to_string();
    assert_eq!(
        machine.load(&root).err().unwrap().message,
        "rust_toolchain \"rust\" expected Rust 1.91.1, found 1.90.0"
    );
}

#[test]
fn a_tool_must_have_its_digest() {
    let (mut machine, root) = workspace_with(vec![(
        "tools",
        dict(vec![("cc", dict(vec![
            ("_type", text("xcode_tool")),
            ("path", text("/opt/cc")),
            ("sha256", text("BA7816BF8F01CFEA414140DE5DAE2223B00361A396177A9CB410FF61F20015AD")),
        ]))]),
    )]);
    assert_eq!(
        machine.load(&root).err().unwrap().message,
        "tool cc at /opt/cc is not a readable file, cannot verify sha256"
    );
    machine.files.push(("/opt/cc".to_string(), b"abc".to_vec()));
    let workspace = machine.load(&root).unwrap();
    assert_eq!(
        workspace.config.tools.get("cc").unwrap().fingerprint,
        "xcode_tool:/opt/cc:sha256=ba7816bf8f01cfea414140de5dae2223b00361a396177a9cb410ff61f20015ad"
    );
    machine.files[0].1 = b"abcd".to_vec();
    assert_eq!(
        machine.load(&root).err().unwrap().message,
        "sha256 mismatch for tool cc at /opt/cc: expected BA7816BF8F01CFEA414140DE5DAE2223B00361A396177A9CB410FF61F20015AD, got 88d4266fd4e6338d13b845fcf289579d209c897823b9217da3e161936f031589"
    );
}

#[test]
fn tools_are_declared_as_they_should_be() {
    let cases: Vec<(ConfigValue, &str)> = vec![
        (text("x"), "tools must be a table"),
        (dict(vec![("cc", text("x"))]), "tools.cc must be a table"),
        (dict(vec![("cc", dict(vec![]))]), "tools.cc must specify _type"),
        (dict(vec![("cc", dict(vec![("_type", text("host_tool"))]))]), "tools.cc has unsupported type \"host_tool\""),
        (
            dict(vec![("cc", dict(vec![("_type", text("xcode_tool"))]))]),
            "tools.cc must specify path or a platform-specific tool field",
        ),
        (
            dict(vec![("cc", dict(vec![("_type", text("xcode_tool")), ("program", text("cc"))]))]),
            "tools.cc uses program = \"cc\", but generic host program search is no longer supported; use an explicit toolchain type or path",
        ),
        (
            dict(vec![
                ("cc", dict(vec![("_type", text("xcode_tool")), ("path", text("/opt/cc"))])),
                ("linux", dict(vec![("cc", dict(vec![("_type", text("xcode_tool")), ("path", text("/opt/cc"))]))])),
            ]),
            "tool \"cc\" is declared more than once",
        ),
    ];
    for (tools, message) in cases {
        let (machine, root) = workspace_with(vec![("tools", tools)]);
        assert_eq!(machine.load(&root).err().unwrap().message, message);
    }
}

#[test]
fn a_mac_has_more_facts() {
    let (mut machine, root) = workspace_with(vec![]);
    machine.os = "macos";
    machine.commands.push((
        vec!["/usr/bin/xcode-select".to_string(), "-p".to_string()],
        true,
        "/Applications/Xcode\n".to_string(),
    ));
    let workspace = machine.load(&root).unwrap();
    let facts: Vec<&str> = workspace.config.target_config.iter().map(|fact| fact.1.as_str()).collect();
    assert_eq!(
        facts,
        vec![
            "unix",
            "macos",
            "",
            "x86_64",
            "apple",
            "little",
            "/Applications/Xcode",
            "/Library/Developer/CommandLineTools/SDKs/MacOSX.sdk",
        ]
    );
}

#[test]
fn a_requirement_on_xcode_is_fingerprinted() {
    let (mut machine, root) = workspace_with(vec![(
        "platform_requirements",
        dict(vec![("macos", dict(vec![("xcode", dict(vec![
            ("_type", text("xcode_tool")),
            ("tool", text("clang")),
            ("sdk", text("macos")),
        ]))]))]),
    )]);
    assert_eq!(machine.load(&root).unwrap().config.tool_fingerprints.len(), 0);

    machine.os = "macos";
    assert_eq!(
        machine.load(&root).err().unwrap().message,
        "failed to resolve Xcode tool \"clang\" for tools.xcode; install Xcode or Command Line Tools: xcrun could not find clang"
    );
    machine.commands.push((
        vec!["/usr/bin/xcrun".to_string(), "--find".to_string(), "clang".to_string()],
        true,
        "/x/clang\n".to_string(),
    ));
    machine.commands.push((
        vec!["/usr/bin/xcode-select".to_string(), "-p".to_string()],
        true,
        "/x/dev\n".to_string(),
    ));
    machine.commands.push((
        vec!["/usr/bin/xcrun".to_string(), "--show-sdk-path".to_string()],
        true,
        "/x/sdk\n".to_string(),
    ));
    assert_eq!(
        machine.load(&root).err().unwrap().message,
        "macOS Xcode requirement xcode is missing developer_dir /x/dev. Install Xcode or Command Line Tools and update WORKSPACE.ccl."
    );
    machine.dirs.push("/x/dev".to_string());
    machine.dirs.push("/x/sdk".to_string());
    machine.files.push(("/x/dev/Toolchains/XcodeDefault.xctoolchain/usr/bin/clang".to_string(), Vec::new()));
    machine.files.push(("/x/sdk/usr/include/TargetConditionals.h".to_string(), b"abc".to_vec()));
    let workspace = machine.load(&root).unwrap();
    assert_eq!(
        workspace.config.tool_fingerprints,
        vec![(
            "platform_requirement:macos:xcode".to_string(),
            "xcode_tool:/x/clang:sha256=unverified;macos_xcode:developer_dir=/x/dev:sdk_path=/x/sdk:TargetConditionals.h=ba7816bf8f01cfea414140de5dae2223b00361a396177a9cb410ff61f20015ad".to_string()
        )]
    );
}

#[test]
fn plugins_are_declared_as_they_should_be() {
    let cases: Vec<(ConfigValue, &str)> = vec![
        (text("x"), "plugins must be an array of tables"),
        (texts(&["x"]), "plugins entries must be tables"),
        (ConfigValue::Array(vec![dict(vec![])]), "missing required string field name"),
        (
            ConfigValue::Array(vec![dict(vec![("name", text("p")), ("path", text("/p")), ("parameters", text("x"))])]),
            "plugin parameters must be a table",
        ),
        (
            ConfigValue::Array(vec![dict(vec![
                ("name", text("p")),
                ("path", text("/p")),
                ("parameters", dict(vec![("a", texts(&[]))])),
            ])]),
            "plugin parameter a must be a string",
        ),
        (
            ConfigValue::Array(vec![dict(vec![("name", text("p")), ("path", text("/p"))])]),
            "failed to initialize workspace plugin p at /p: not a plugin",
        ),
    ];
    for (plugins, message) in cases {
        let (machine, root) = workspace_with(vec![("plugins", plugins)]);
        assert_eq!(machine.load(&root).err().unwrap().message, message);
    }
    let (machine, root) = workspace_with(vec![(
        "plugins",
        ConfigValue::Array(vec![dict(vec![("name", text("bus")), ("path", text("/tmp/bus.cdylib"))])]),
    )]);
    let workspace = machine.load(&root).unwrap();
    assert_eq!(workspace.config.plugins.len(), 2);
    assert_eq!(workspace.config.plugins[1].name, "bus");
}

#[test]
fn what_came_of_a_build_is_its_result() {
    let built = BuildInvocationResult {
        targets: vec!["//:a".to_string()],
        result: BuildResult::Failure("no".to_string()),
    };
    match build_from_current_workspace(Ok(built)) {
        Ok(BuildResult::Failure(reason)) => assert_eq!(reason, "no"),
        _ => panic!("no failure"),
    }
    let lost = Error { kind: ErrorKind::Other, message: "lost".to_string() };
    assert!(build_from_current_workspace(Err(lost)).is_err());
}
