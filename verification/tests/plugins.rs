//! The plugins for Rust and for bus schemas, and what passes between them and
//! the rest.

use cbs::build_output_kind::TRANSITIVE_PRODUCTS;
use cbs::bus_plugin::{build_bus_request, bus_manifest, parse_bus_rule_request};
use cbs::cargo::recipes::{encode_native_static_lib, CargoNativeStaticLib};
use cbs::config_extra_keys::{
    CRATE_NAME, CRATE_ROOT, CRATE_TYPE, DEPENDENCY_ALIASES, EDITION, FEATURES, NATIVE_STATIC_LIBS, ROOT_SOURCE, RUSTC_CFGS,
    RUSTC_ENV,
};
use cbs::context::{BuildConfigKey, Context, Tool};
use cbs::error::{error, ErrorKind};
use cbs::model::{BuildOutput, BuildResult, Config, DependencyPlan, ExternalRequirement};
use cbs::plugin_abi::{
    config_of_response, delegate_failure, load_build_plugin, loaded_builtin_plugin, plan_of_response, plugin_context,
    step_of_response, AbiBuildPlugin, AbiDependencyPlanner, AbiResolverPlugin, AbiRulePlugin, BuildRequest, BuildResponse,
    BuildStep, CbsPluginV1, ConfigResponse, ParseRuleRequest, PlanResponse, CBS_PLUGIN_ABI_VERSION,
};
use cbs::rules::RuleContext;
use cbs::rust_plugin::compile::{
    build_rust_request, describe_failure, library_output_file, materialize_declared_tools, metadata_from_working_directory,
    ready_to_build, run_process,
};
use cbs::rust_plugin::link::{dependency_aliases, libraries, runtime_dependencies, rustc_env, transitive_deps};
use cbs::rust_plugin::names::{executable_root_source, library_root_source, rust_name, target_shortname};
use cbs::rust_plugin::native::{build_native_static_libs, parse_native_static_lib, sanitize_path, split_recipe_list};
use cbs::rust_plugin::rule::{package_source_path, parse_rust_rule_request, plan_refusal, resolve_refusal, rust_manifest};
use cbs::table::Table;
use cbs::task::Task;
use cbs::value::{ConfigTable, ConfigValue};

fn owned(items: &[&str]) -> Vec<String> {
    items.iter().map(|item| item.to_string()).collect()
}

fn built(outputs: &[&str], products: &[&str]) -> BuildOutput {
    let mut output = BuildOutput::empty();
    output.outputs = owned(outputs);
    if !products.is_empty() {
        output.extras.insert(TRANSITIVE_PRODUCTS, owned(products));
    }
    output
}

fn request(target: &str, config: Config) -> BuildRequest {
    let mut dependencies: Table<BuildOutput> = Table::new();
    dependencies.insert("@rust_compiler".to_string(), built(&["/opt/rustc"], &[]));
    dependencies.insert("//a:dep".to_string(), built(&["/c/dep/libdep.rlib"], &["native_z:/c/z/libz.a", "low:/c/low/l.rlib"]));
    dependencies.insert("cargo://rand@0.8.5".to_string(), built(&["/c/rand/librand.rlib"], &[]));
    dependencies.insert("@gen".to_string(), built(&["/c/gen/gen"], &[]));
    BuildRequest {
        target: target.to_string(),
        config,
        dependencies,
        working_directory: "/tmp/cache/build/x-abc123".to_string(),
        tool_paths: Table::new(),
    }
}

fn library() -> Config {
    let mut config = Config::empty();
    config.kind = "rust_library".to_string();
    config.sources = owned(&["/w/a/lib.rs", "/w/a/other.rs"]);
    config.build_dependencies = owned(&["@rust_compiler"]);
    config
}

#[test]
fn a_library_is_compiled() {
    let mut config = library();
    config.dependencies = owned(&["//a:dep", "cargo://rand@0.8.5"]);
    config.extras.insert(FEATURES, owned(&["std"]));
    config.extras.insert(RUSTC_CFGS, owned(&["has_std"]));
    config.extras.insert(RUSTC_ENV, owned(&["CARGO_PKG_NAME=x", "nothing"]));
    config.extras.insert(DEPENDENCY_ALIASES, owned(&["cargo://rand@0.8.5=random"]));
    config.extras.insert(CRATE_TYPE, owned(&["proc-macro"]));
    let request = request("//a:x", config);
    assert!(ready_to_build(&request));
    let build = match build_rust_request(&request, "macos") {
        Ok(build) => build,
        Err(message) => panic!("{message}"),
    };
    assert_eq!(build.compiler, "/opt/rustc");
    let file = "/tmp/cache/build/x-abc123/libx-abc123.dylib";
    assert_eq!(
        build.args[..22],
        owned(&[
            "--extern", "dep=/c/dep/libdep.rlib", "--extern", "random=/c/rand/librand.rlib",
            "-L", "/c/z", "-L", "/c/low", "-L", "/c/dep", "-L", "/c/rand",
            "-L", "native=/c/z", "-l", "static=z",
            "--cfg", "feature=\"std\"", "--cfg", "has_std", "--extern", "proc_macro",
        ])[..]
    );
    assert_eq!(build.args[22], "/w/a/lib.rs");
    assert!(build.args.contains(&file.to_string()));
    assert!(build.args.contains(&"--cap-lints".to_string()));
    assert_eq!(build.env, vec![("CARGO_PKG_NAME".to_string(), "x".to_string())]);
    assert_eq!(build.output.outputs, owned(&[file]));
    assert_eq!(
        build.output.extras.get(TRANSITIVE_PRODUCTS),
        Some(&owned(&[
            "native_z:/c/z/libz.a",
            "low:/c/low/l.rlib",
            "dep:/c/dep/libdep.rlib",
            "random:/c/rand/librand.rlib",
        ]))
    );
}

#[test]
fn a_program_and_a_test_are_compiled() {
    let mut config = library();
    config.kind = "rust_binary".to_string();
    config.sources = owned(&["/w/a/main.rs"]);
    config.extras.insert(EDITION, owned(&["2018"]));
    let build = match build_rust_request(&request("//a:x", config), "linux") {
        Ok(build) => build,
        Err(message) => panic!("{message}"),
    };
    assert_eq!(
        build.args,
        owned(&["/w/a/main.rs", "-o", "/tmp/cache/build/x-abc123/x", "--edition=2018", "--color=always"])
    );
    let mut config = library();
    config.kind = "rust_test".to_string();
    let build = match build_rust_request(&request("//a:x", config), "linux") {
        Ok(build) => build,
        Err(message) => panic!("{message}"),
    };
    assert!(build.args.contains(&"--test".to_string()));
    assert!(build.args.contains(&"--edition=2021".to_string()));
}

#[test]
fn what_cannot_be_compiled_is_said() {
    let failure = |config: Config| match build_rust_request(&request("//a:x", config), "linux") {
        Ok(_) => panic!("compiled"),
        Err(message) => message,
    };
    let mut config = library();
    config.build_dependencies = Vec::new();
    assert_eq!(failure(config), "the rust compiler must be specified as a build_dependency!");
    let mut config = library();
    config.kind = "rust \"thing\"".to_string();
    assert!(failure(config).contains("\"rust \\\"thing\\\"\""));
    let mut config = library();
    config.extras.insert(CRATE_ROOT, owned(&["/c"]));
    config.extras.insert(NATIVE_STATIC_LIBS, owned(&["|a.c"]));
    assert_eq!(
        failure(config),
        "failed to build native static libs: Custom { kind: InvalidData, error: \"native static lib is missing a name\" }"
    );
    let mut config = library();
    config.dependencies = owned(&["//lost:x"]);
    assert!(!ready_to_build(&request("//a:x", config)));
    let mut config = library();
    config.dependencies = owned(&["//lost:x"]);
    config.sources = owned(&["/w/a/other.rs"]);
    assert!(ready_to_build(&request("//a:x", config)));
    let mut config = library();
    config.dependencies = owned(&["//lost:x"]);
    config.sources = owned(&["/w/a/other.rs"]);
    assert_eq!(failure(config), "no lib.rs or x.rs source file specified!");
}

#[test]
fn crates_are_named_after_their_targets() {
    assert_eq!(target_shortname("//a/b:my-lib"), "my-lib");
    assert_eq!(rust_name("//a/b:my-lib"), "my_lib");
    assert_eq!(metadata_from_working_directory("/c/build/___x-abc"), "abc");
    assert_eq!(metadata_from_working_directory("/c/build/x"), "cbs");
    let file = |kind: &str, os: &str| library_output_file("/w", "x", "m", kind, os);
    assert_eq!(file("rlib", "linux"), "/w/libx-m.rlib");
    assert_eq!(file("cdylib", "linux"), "/w/libx-m.so");
    assert_eq!(file("dylib", "windows"), "/w/libx-m.dll");
    assert_eq!(file("proc-macro", "macos"), "/w/libx-m.dylib");
    assert_eq!(file("staticlib", "linux"), "/w/libx-m.a");
}

#[test]
fn the_root_of_a_crate_is_found() {
    let mut config = library();
    assert_eq!(library_root_source(&config, "x").unwrap(), "/w/a/lib.rs");
    config.sources = owned(&["/w/a/other.rs", "/w/a/x.rs"]);
    assert_eq!(library_root_source(&config, "x").unwrap(), "/w/a/x.rs");
    assert_eq!(executable_root_source(&config, "x", false).unwrap(), "/w/a/x.rs");
    config.sources = owned(&["/w/a/b/x.rs", "/w/a/main.rs"]);
    assert_eq!(executable_root_source(&config, "x", false).unwrap(), "/w/a/main.rs");
    config.extras.insert(ROOT_SOURCE, owned(&["/w/a/root.rs"]));
    assert_eq!(library_root_source(&config, "x").unwrap(), "/w/a/root.rs");
    assert_eq!(executable_root_source(&config, "x", true).unwrap(), "/w/a/root.rs");
    let mut config = library();
    config.sources = owned(&["/w/a/y.rs", "/w/a/z.rs"]);
    assert!(library_root_source(&config, "x").is_err());
    config.sources = owned(&["/w/p/mylib.rs", "/w/p/flags.rs"]);
    assert_eq!(library_root_source(&config, "flags").unwrap(), "/w/p/flags.rs");
    config.sources = owned(&["main.rs"]);
    assert_eq!(executable_root_source(&config, "x", false).unwrap(), "main.rs");
    config.sources = owned(&["/w/a/other.rs"]);
    assert!(executable_root_source(&config, "x", false).is_err());
}

#[test]
fn what_is_linked_is_what_a_target_depends_on() {
    let mut config = library();
    config.dependencies = owned(&["//a:dep"]);
    let request = request("//a:x", config);
    assert_eq!(runtime_dependencies(&request.config), owned(&["//a:dep"]));
    assert_eq!(
        libraries(&request.config, &request.dependencies),
        vec![("dep".to_string(), "/c/dep/libdep.rlib".to_string())]
    );
    assert_eq!(transitive_deps(&request.config, &request.dependencies).len(), 3);
    assert_eq!(dependency_aliases(&request.config).rows.len(), 0);
    assert_eq!(rustc_env(&request.config).len(), 0);
}

fn native_lib() -> CargoNativeStaticLib {
    CargoNativeStaticLib {
        name: "ring_core".to_string(),
        sources: owned(&["crypto/mem.c", "pregenerated/aes.S"]),
        include_dirs: owned(&["include"]),
        flags: owned(&["-Wall"]),
    }
}

#[test]
fn a_native_library_is_read_as_it_was_written() {
    let lib = parse_native_static_lib(&encode_native_static_lib(&native_lib())).unwrap();
    assert_eq!(lib.name, "ring_core");
    assert_eq!(lib.sources, native_lib().sources);
    assert_eq!(lib.include_dirs, native_lib().include_dirs);
    assert_eq!(lib.flags, native_lib().flags);
    assert_eq!(parse_native_static_lib("x").unwrap().sources.len(), 0);
    let e = parse_native_static_lib("|a.c").err().unwrap();
    assert_eq!(e.kind, ErrorKind::InvalidData);
    assert_eq!(e.message, "native static lib is missing a name");
    assert_eq!(split_recipe_list(""), Vec::<String>::new());
}

#[test]
fn native_libraries_are_compiled_and_archived() {
    let mut config = library();
    assert_eq!(build_native_static_libs(&config, "/b").unwrap().len(), 0);
    config.extras.insert(CRATE_ROOT, owned(&["/c/ring"]));
    config.extras.insert(NATIVE_STATIC_LIBS, vec![encode_native_static_lib(&native_lib())]);
    let libs = build_native_static_libs(&config, "/b").unwrap();
    assert_eq!(libs.len(), 1);
    let first = format!("/b/native/ring_core/0-{}.o", sanitize_path("crypto/mem.c"));
    assert_eq!(
        libs[0].compiles[0],
        owned(&["-c", "/c/ring/crypto/mem.c", "-o", &first, "-I", "/c/ring/include", "-Wall"])
    );
    assert_eq!(libs[0].archive[..3], owned(&["crs", "/b/native/ring_core/libring_core.a", &first])[..]);
    assert_eq!(libs[0].path, "/b/native/ring_core/libring_core.a");
}

#[test]
fn the_plugin_runs_only_declared_tools() {
    let mut tools: Table<String> = Table::new();
    tools.insert("cc".to_string(), "/opt/cc".to_string());
    assert_eq!(
        materialize_declared_tools("/b", &tools),
        vec![("/b/.cbs-tools/cc".to_string(), "/opt/cc".to_string())]
    );
    let env = vec![("K".to_string(), "v".to_string())];
    let command = match run_process("cc", &owned(&["-c"]), &env, "/b", &tools) {
        Ok(command) => command,
        Err(message) => panic!("{message}"),
    };
    assert_eq!(command.bin, "/b/.cbs-tools/cc");
    assert_eq!(command.env[0], ("PATH".to_string(), "/b/.cbs-tools".to_string()));
    assert_eq!(command.env[3], ("K".to_string(), "v".to_string()));
    assert!(matches!(run_process("ar", &Vec::new(), &env, "/b", &tools), Err(message)
        if message == "non-hermetic tool use rejected: rust plugin action uses undeclared bare host tool `ar`"));
    assert!(matches!(run_process("/opt/rustc", &Vec::new(), &env, "/b", &tools), Ok(command) if command.bin == "/opt/rustc"));
    assert_eq!(
        describe_failure("rustc", "exit status: 1", " \n", "error \n"),
        "rustc exited with exit status: 1\nstderr:\nerror"
    );
}

fn rule(kind: &str, sources: &[&str]) -> ParseRuleRequest {
    ParseRuleRequest {
        workspace_root: "/w".to_string(),
        package: "a".to_string(),
        package_dir: "/w/a".to_string(),
        kind: kind.to_string(),
        name: "x".to_string(),
        sources: owned(sources),
        dependencies: owned(&["//b:b"]),
        cargo_requirements: Vec::new(),
        string_fields: Table::new(),
        label_fields: Table::new(),
    }
}

#[test]
fn rules_of_rust_make_configurations() {
    let mut request = rule("rust_library", &["/w/a/lib.rs"]);
    request.string_fields.insert("edition".to_string(), "2021".to_string());
    request.string_fields.insert("root_source".to_string(), "lib.rs".to_string());
    let config = config_of_response(parse_rust_rule_request(request)).unwrap();
    assert_eq!(config.build_plugin, "@rust_plugin");
    assert_eq!(config.build_dependencies, owned(&["@rust_compiler"]));
    assert_eq!(config.kind, "rust_library");
    assert_eq!(config.dependencies, owned(&["//b:b"]));
    assert_eq!(config.extras.get(EDITION), Some(&owned(&["2021"])));
    assert_eq!(config.extras.get(ROOT_SOURCE), Some(&owned(&["/w/a/lib.rs"])));
    assert_eq!(config.extras.get(CRATE_NAME), None);
    let mut request = rule("rust_library", &[]);
    request.string_fields.insert("root_source".to_string(), "../lib.rs".to_string());
    match parse_rust_rule_request(request) {
        ConfigResponse::Failure(reason) => {
            assert_eq!(reason, "workspace paths must be package-relative: ../lib.rs")
        }
        ConfigResponse::Success(_) => panic!("a configuration"),
    }
    assert_eq!(package_source_path("/w/a", "b.rs").unwrap(), "/w/a/b.rs");
    assert_eq!(rust_manifest().test_rule_kinds, owned(&["rust_test"]));
    assert_eq!(plan_refusal("cargo"), None);
    assert_eq!(plan_refusal("npm"), Some("rust plugin does not plan ecosystem npm".to_string()));
    assert_eq!(resolve_refusal("cargo://x"), None);
    assert_eq!(resolve_refusal("npm://x"), Some("rust plugin does not resolve target npm://x".to_string()));
}

#[test]
fn rules_of_the_bus_make_configurations() {
    let config = config_of_response(parse_bus_rule_request(rule("rust_bus_library", &["/w/a/x.bus"]))).unwrap();
    assert_eq!(config.build_plugin, "@bus_plugin");
    assert_eq!(config.build_dependencies, owned(&["@rust_compiler", "//util/bus/codegen:codegen"]));
    assert!(config.dependencies.contains(&"//util/bus:bus".to_string()));
    assert_eq!(config.external_requirements.len(), 1);
    assert_eq!(config.external_requirements[0].package, "futures");
    assert_eq!(config.extras.get(EDITION), Some(&owned(&["2021"])));
    let e = config_of_response(parse_bus_rule_request(rule("rust_bus_library", &[]))).err().unwrap();
    assert_eq!(e.message, "rust_bus_library currently expects exactly one .bus source");
    assert_eq!(bus_manifest().rule_kinds, owned(&["rust_bus_library"]));
}

#[test]
fn a_schema_is_built_from_generated_code() {
    let mut config = Config::empty();
    config.kind = "rust_bus_library".to_string();
    config.sources = owned(&["/w/a/x.bus"]);
    config.build_dependencies = owned(&["@rust_compiler", "@gen"]);
    let build = match build_bus_request(&request("//a:my-x", config)) {
        Ok(build) => build,
        Err(message) => panic!("{message}"),
    };
    assert_eq!(build.codegen, "/c/gen/gen");
    assert_eq!(build.args, owned(&["--language=rust", "/w/a/x.bus"]));
    assert_eq!(build.generated, "/tmp/cache/build/x-abc123/my_x.rs");
    assert_eq!(build.config.kind, "rust_library");
    assert_eq!(build.config.build_plugin, "@rust_plugin");
    assert_eq!(build.config.extras.get(ROOT_SOURCE), Some(&vec![build.generated.clone()]));
    let failure = |kind: &str, deps: &[&str], sources: &[&str]| {
        let mut config = Config::empty();
        config.kind = kind.to_string();
        config.build_dependencies = owned(deps);
        config.sources = owned(sources);
        match build_bus_request(&request("//a:x", config)) {
            Ok(_) => panic!("built"),
            Err(message) => message,
        }
    };
    assert_eq!(failure("other\n", &[], &[]), "unsupported target kind: \"other\\n\"");
    assert_eq!(
        failure("rust_bus_library", &["@rust_compiler"], &[]),
        "rust_bus_library requires a bus codegen build dependency"
    );
    assert_eq!(
        failure("rust_bus_library", &["@rust_compiler", "@lost"], &[]),
        "bus codegen dependency @lost did not produce an executable"
    );
    assert_eq!(
        failure("rust_bus_library", &["@rust_compiler", "@gen"], &[]),
        "rust_bus_library currently expects exactly one .bus source"
    );
}

fn plugin(version: u32) -> CbsPluginV1 {
    CbsPluginV1 { abi_version: version, functions: 4 }
}

#[test]
fn plugins_of_another_version_are_refused() {
    let current = CBS_PLUGIN_ABI_VERSION;
    assert!(AbiBuildPlugin::new(plugin(current)).is_ok());
    let e = AbiBuildPlugin::new(plugin(current + 1)).err().unwrap();
    assert!(e.message.contains(&format!("{}", current + 1)));
    assert!(AbiRulePlugin::new(plugin(0), Vec::new(), Vec::new()).is_err());
    assert!(AbiDependencyPlanner::new(plugin(0), "cargo".to_string()).is_err());
    assert!(AbiResolverPlugin::new(plugin(0), Vec::new()).is_err());
    assert!(load_build_plugin(&loaded_builtin_plugin(plugin(0), rust_manifest())).is_err());
    assert_eq!(AbiBuildPlugin::with_library(plugin(current), 3).unwrap().library, Some(3));
    let resolver = AbiResolverPlugin::new(plugin(current), owned(&["cargo://", "npm://"])).unwrap();
    assert!(resolver.can_resolve("npm://x"));
    assert!(!resolver.can_resolve("//npm:x"));
}

#[test]
fn a_plugin_is_asked_with_what_it_needs() {
    let tool = Tool { path: "/opt/cargo".to_string(), fingerprint: "f".to_string() };
    let mut context = Context::new("/tmp/cache".to_string(), vec![(BuildConfigKey::TargetOS, "linux".to_string())])
        .with_tools(vec![("cargo".to_string(), tool)]);
    context.lockfile.insert("cargo://x".to_string(), "1".to_string());
    let sent = plugin_context(&context.with_target("cargo://x"));
    assert_eq!(sent.cache_dir, "/tmp/cache");
    assert_eq!(sent.target, Some("cargo://x".to_string()));
    assert_eq!(sent.get_locked_version("cargo://x").unwrap(), "1");
    let planner = AbiDependencyPlanner::new(plugin(CBS_PLUGIN_ABI_VERSION), "cargo".to_string()).unwrap();
    let requirement = ExternalRequirement {
        ecosystem: "cargo".to_string(),
        package: "x".to_string(),
        version: "1".to_string(),
        features: Vec::new(),
        default_features: true,
        target: None,
    };
    let request = planner.plan(&context, &vec![requirement]);
    assert_eq!(request.ecosystem, "cargo");
    assert_eq!(request.requirements[0].target(), "cargo://x");
    let resolver = AbiResolverPlugin::new(plugin(CBS_PLUGIN_ABI_VERSION), owned(&["cargo://"])).unwrap();
    assert_eq!(resolver.resolve(&context, "cargo://x").target, "cargo://x");
    let builder = AbiBuildPlugin::new(plugin(CBS_PLUGIN_ABI_VERSION)).unwrap();
    let mut task = Task::new(0, "//:x".to_string());
    match builder.build(&context, &task, &Table::new()) {
        Err(BuildResult::Failure(reason)) => assert_eq!(reason, "ABI build requires a resolved config"),
        _ => panic!("a request"),
    }
    task.config = Some(library());
    let request = match builder.build(&context.with_task(&task), &task, &Table::new()) {
        Ok(request) => request,
        Err(_) => panic!("no request"),
    };
    assert_eq!(request.working_directory, "/tmp/cache/build/___x-0");
    assert_eq!(request.tool_paths.get("cargo"), Some(&"/opt/cargo".to_string()));
}

#[test]
fn a_rule_is_asked_with_the_fields_of_its_target() {
    let rules = AbiRulePlugin::new(plugin(CBS_PLUGIN_ABI_VERSION), owned(&["rust_library"]), owned(&["codegen"])).unwrap();
    assert_eq!(rules.rule_kinds(), &owned(&["rust_library"]));
    let context = RuleContext {
        workspace_root: "/w".to_string(),
        package: "a".to_string(),
        package_dir: "/w/a".to_string(),
    };
    let mut target: ConfigTable = Table::new();
    target.insert("name".to_string(), ConfigValue::String("x".to_string()));
    target.insert("edition".to_string(), ConfigValue::String("2021".to_string()));
    target.insert("codegen".to_string(), ConfigValue::String(":gen".to_string()));
    target.insert("srcs".to_string(), ConfigValue::Array(vec![ConfigValue::String("lib.rs".to_string())]));
    let request = rules.config_from_target(&context, "rust_library", &target).unwrap();
    assert_eq!(request.name, "x");
    assert_eq!(request.sources, owned(&["/w/a/lib.rs"]));
    assert_eq!(request.string_fields.get("edition"), Some(&"2021".to_string()));
    assert_eq!(request.label_fields.get("codegen"), Some(&"//a:gen".to_string()));
}

#[test]
fn the_answers_of_plugins_are_taken() {
    assert!(plan_of_response(PlanResponse::Success(DependencyPlan::empty())).is_ok());
    assert_eq!(plan_of_response(PlanResponse::Failure("no".to_string())).err().unwrap().message, "no");
    assert_eq!(config_of_response(ConfigResponse::Failure("no".to_string())).err().unwrap().message, "no");
    assert!(matches!(
        step_of_response(Ok(BuildResponse::Success(built(&["/x"], &[])))),
        BuildStep::Done(BuildResult::Success(_))
    ));
    assert!(matches!(
        step_of_response(Ok(BuildResponse::Failure("no".to_string()))),
        BuildStep::Done(BuildResult::Failure(reason)) if reason == "no"
    ));
    assert!(matches!(step_of_response(Ok(BuildResponse::Delegate(library()))), BuildStep::Delegate(_)));
    assert!(matches!(
        step_of_response(Err(error(ErrorKind::Other, "lost".to_string()))),
        BuildStep::Done(BuildResult::Failure(reason)) if reason.contains("lost")
    ));
    assert!(matches!(
        delegate_failure(&error(ErrorKind::Other, "lost".to_string())),
        BuildResult::Failure(reason) if reason.contains("lost")
    ));
}
