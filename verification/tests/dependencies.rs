//! Plans for packages of Cargo's, and the configurations of their targets.

use cbs::build_config_key;
use cbs::cargo::cache::{plan_from_value, read_cached_dependency_plan, write_cached_dependency_plan};
use cbs::cargo::cfg::resolve_cfg_directive;
use cbs::cargo::features::expand_features;
use cbs::cargo::lock::{cargo_target_name, parse_cargo_target, parse_lock_dependency, versioned_target};
use cbs::cargo::manifest::parse_cargo_toml;
use cbs::cargo::plan::{manifest_paths, metadata_to_dependency_plan, plan_id, synthetic_manifest, ManifestFile};
use cbs::cargo::recipes::{build_recipe, CargoBuildRecipe};
use cbs::cargo::resolver::{
    get_rust_files, hermetic_cargo_out_dir, hermetic_cargo_source, CargoDependencyPlanner, CargoResolver, DirEntry, FetchStep,
    PlanStep,
};
use cbs::config_extra_keys;
use cbs::documents::read_json_text;
use cbs::error::{error, ErrorKind};
use cbs::model::{DependencyPlan, ExternalRequirement, PluginContext};
use cbs::table::{Numbered, Table};

fn owned(items: &[&str]) -> Vec<String> {
    items.iter().map(|item| item.to_string()).collect()
}

fn context(facts: &[(u32, &str)]) -> PluginContext {
    let mut target_config: Numbered<String> = Numbered::new();
    for (key, value) in facts {
        target_config.insert(*key, value.to_string());
    }
    PluginContext {
        cache_dir: "/tmp/cache".to_string(),
        context_hash: 7,
        target_config,
        lockfile: Table::new(),
        locked_dependencies: Table::new(),
        target: None,
    }
}

fn linux() -> PluginContext {
    context(&[
        (build_config_key::TARGET_FAMILY, "unix"),
        (build_config_key::TARGET_OS, "linux"),
        (build_config_key::TARGET_ENV, "gnu"),
        (build_config_key::TARGET_ARCH, "x86_64"),
        (build_config_key::TARGET_VENDOR, "unknown"),
    ])
}

fn requirement(package: &str, version: &str, features: &[&str], default_features: bool) -> ExternalRequirement {
    ExternalRequirement {
        ecosystem: "cargo".to_string(),
        package: package.to_string(),
        version: version.to_string(),
        features: owned(features),
        default_features,
        target: Some(format!("cargo://{package}")),
    }
}

#[test]
fn conditions_are_decided_by_the_target() {
    let holds = |directive: &str| resolve_cfg_directive(&linux(), directive).unwrap();
    assert!(holds("unix"));
    assert!(!holds("windows"));
    assert!(holds("target_os = \"linux\""));
    assert!(holds("all(unix, target_os = \"linux\", not(target_env = \"musl\"))"));
    assert!(!holds("all(unix, windows)"));
    assert!(holds("any(windows, unix)"));
    assert!(!holds("any()"));
    assert!(holds("all()"));
    assert!(holds("not(windows)"));
    assert!(!holds("panic = \"abort\""));
    assert!(holds("all()") && !holds("any()"));
    assert!(holds("all(unix, not(any(windows, all(unix, windows))))"));
    assert!(!holds("all(unix, windows)") && holds("any(windows, unix)"));
    assert!(resolve_cfg_directive(&linux(), "not()").is_err());
    let e = resolve_cfg_directive(&linux(), "not(unix, windows)").err().unwrap();
    assert_eq!(e.message, "not() expects one cfg argument: not(unix, windows)");
}

#[test]
fn features_bring_their_members() {
    let mut features: Table<Vec<String>> = Table::new();
    features.insert("default".to_string(), owned(&["std"]));
    features.insert("std".to_string(), owned(&["alloc", "dep:libc"]));
    features.insert("alloc".to_string(), Vec::new());
    features.insert("other".to_string(), Vec::new());
    let all = expand_features(&features, &owned(&["default"]));
    assert!(all.contains(&"default".to_string()));
    assert!(all.contains(&"std".to_string()));
    assert!(all.contains(&"alloc".to_string()));
    assert!(!all.contains(&"other".to_string()));
    let none: Vec<String> = Vec::new();
    assert_eq!(expand_features(&features, &none), none);
}

#[test]
fn a_plan_has_a_manifest_of_its_own() {
    let manifest = synthetic_manifest(&vec![
        requirement("tokio", "=1.48.0", &["rt", "macros"], false),
        requirement("bytes", "1\"x\\", &[], true),
        requirement("tokio", "=1.48.0", &["rt", "net"], true),
    ])
    .unwrap();
    assert_eq!(
        manifest,
        "[package]\nname = \"cbs-cargo-plan\"\nversion = \"0.0.0\"\nedition = \"2021\"\npublish = false\n\n[dependencies]\n\"bytes\" = { package = \"bytes\", version = \"1\\\"x\\\\\", default-features = true, features = [] }\n\"tokio\" = { package = \"tokio\", version = \"=1.48.0\", default-features = true, features = [\"macros\", \"net\", \"rt\"] }\n"
    );
    let turned = synthetic_manifest(&vec![
        requirement("tokio", "=1.48.0", &["rt", "net"], true),
        requirement("tokio", "=1.48.0", &["rt", "macros"], false),
        requirement("tokio", "=1.48.0", &["rt", "net"], true),
        requirement("bytes", "1\"x\\", &[], true),
    ]);
    assert_eq!(turned.unwrap(), manifest);
    let conflict = synthetic_manifest(&vec![requirement("x", "1", &[], true), requirement("x", "2", &[], true)]);
    let e = conflict.err().unwrap();
    assert_eq!(e.kind, ErrorKind::InvalidInput);
    assert_eq!(e.message, "conflicting cargo requirements for x: 1 and 2");
    let mut other = requirement("x", "1", &[], true);
    other.ecosystem = "npm".to_string();
    assert_eq!(
        synthetic_manifest(&vec![other]).err().unwrap().message,
        "cargo dependency planner cannot resolve npm requirement x"
    );
}

#[test]
fn a_plan_has_an_identity() {
    let tokio = requirement("tokio", "=1.48.0", &["macros", "rt"], false);
    assert_eq!(plan_id(7, &vec![tokio]), "9e77d5108094d100");
}

#[test]
fn cargo_is_run_for_a_plan() {
    let planner = CargoDependencyPlanner::new();
    assert_eq!(planner.ecosystem(), "cargo");
    assert!(matches!(planner.plan(&linux(), &Vec::new()), Ok(PlanStep::Done(plan)) if plan.lockfile.rows.is_empty()));
    let tokio = requirement("tokio", "=1.48.0", &["macros", "rt"], false);
    let request = match planner.plan(&linux(), &vec![tokio]) {
        Ok(PlanStep::Run(request)) => request,
        _ => panic!("not run"),
    };
    let dir = "/tmp/cache/dependency-plans/cargo/9e77d5108094d100";
    assert_eq!(request.workdir, dir);
    assert_eq!(request.plan_cache, format!("{dir}/plan.json"));
    assert_eq!(
        request.args,
        owned(&[
            "metadata",
            "--format-version=1",
            "--manifest-path",
            &format!("{dir}/Cargo.toml"),
            "--filter-platform",
            "x86_64-unknown-linux-gnu",
        ])
    );
    assert!(planner.kept_plan(None).unwrap().is_none());
    assert!(planner.kept_plan(Some(Ok("{}".to_string()))).unwrap().is_some());
    assert!(planner.kept_plan(Some(Ok("{".to_string()))).is_err());
    let lost = error(ErrorKind::NotFound, "gone".to_string());
    assert_eq!(planner.kept_plan(Some(Err(lost))).err().unwrap().message, "gone");
    let failed = error(ErrorKind::PermissionDenied, "no cargo".to_string());
    let e = planner.finish_plan(&linux(), &Table::new(), &Vec::new(), Err(failed)).err().unwrap();
    assert_eq!(e.kind, ErrorKind::PermissionDenied);
    assert_eq!(e.message, "cargo metadata failed: no cargo");
}

const METADATA: &str = r#"{
  "packages": [
    {"id": "root", "name": "cbs-cargo-plan", "version": "0.0.0", "manifest_path": "/p/Cargo.toml"},
    {"id": "r8", "name": "rand_core", "version": "0.8.0", "manifest_path": "/r8/Cargo.toml"},
    {"id": "r9", "name": "rand_core", "version": "0.9.0", "manifest_path": "/r9/Cargo.toml"},
    {"id": "s", "name": "some-lib", "version": "1.0.0", "manifest_path": "/s/Cargo.toml"}
  ],
  "resolve": {
    "root": "root",
    "nodes": [
      {"id": "root", "deps": []},
      {"id": "r8", "features": [], "deps": []},
      {"id": "r9", "features": ["std"], "deps": []},
      {"id": "s", "features": ["default", "std"], "deps": [{"pkg": "r9", "name": "rand_core"}, {"pkg": "lost"}]}
    ]
  }
}"#;

fn manifests(build_script: bool) -> Table<ManifestFile> {
    let mut files: Table<ManifestFile> = Table::new();
    for (path, name) in [("/r8/Cargo.toml", "rand_core"), ("/r9/Cargo.toml", "rand_core"), ("/s/Cargo.toml", "some-lib")] {
        let content = format!("[package]\nname = \"{name}\"\nversion = \"1.0.0\"\n");
        files.insert(path.to_string(), ManifestFile { content: Ok(content), build_script });
    }
    files
}

#[test]
fn metadata_of_cargo_becomes_a_plan() {
    let requirements = vec![requirement("some-lib", "1", &[], true)];
    let plan = metadata_to_dependency_plan(&linux(), &manifests(false), &requirements, &METADATA.as_bytes().to_vec()).unwrap();
    assert_eq!(plan.lockfile.get("cargo://some-lib"), Some(&"1.0.0,default,std".to_string()));
    assert_eq!(plan.lockfile.get("cargo://rand_core@0.8.0"), Some(&"0.8.0".to_string()));
    assert_eq!(plan.lockfile.get("cargo://rand_core@0.9.0"), Some(&"0.9.0,std".to_string()));
    assert_eq!(plan.lockfile.get("cargo://rand_core"), None);
    assert_eq!(plan.lockfile.get("cargo://cbs-cargo-plan"), None);
    let edges = plan.locked_dependencies.get("cargo://some-lib").unwrap();
    assert_eq!(edges.get("rand_core"), Some(&"cargo://rand_core@0.9.0".to_string()));
    assert_eq!(edges.get("rand-core"), Some(&"cargo://rand_core@0.9.0".to_string()));
    assert_eq!(
        manifest_paths(&read_json_text(METADATA).unwrap()),
        owned(&["/p/Cargo.toml", "/r8/Cargo.toml", "/r9/Cargo.toml", "/s/Cargo.toml"])
    );
}

#[test]
fn packages_with_build_scripts_need_recipes() {
    let r = metadata_to_dependency_plan(&linux(), &manifests(true), &Vec::new(), &METADATA.as_bytes().to_vec());
    let e = r.err().unwrap();
    assert_eq!(e.kind, ErrorKind::PermissionDenied);
    assert_eq!(
        e.message,
        "rand_core 0.8.0 declares build.rs, but no hermetic Cargo build recipe is available"
    );
    for (text, expected) in [
        ("{}", "metadata missing packages"),
        ("{\"packages\":[]}", "metadata resolve missing nodes"),
        ("{\"packages\":[],\"resolve\":{\"nodes\":[{}]}}", "metadata node missing id"),
    ] {
        let r = metadata_to_dependency_plan(&linux(), &manifests(false), &Vec::new(), &text.as_bytes().to_vec());
        assert_eq!(r.err().unwrap().message, expected);
    }
}

#[test]
fn a_plan_is_read_as_it_was_kept() {
    let requirements = vec![requirement("some-lib", "1", &[], true)];
    let plan = metadata_to_dependency_plan(&linux(), &manifests(false), &requirements, &METADATA.as_bytes().to_vec()).unwrap();
    let again = read_cached_dependency_plan(&write_cached_dependency_plan(&plan)).unwrap();
    assert_eq!(again.lockfile.rows, plan.lockfile.rows);
    assert_eq!(again.locked_dependencies.rows.len(), plan.locked_dependencies.rows.len());
    assert_eq!(
        again.locked_dependencies.get("cargo://some-lib").unwrap().rows,
        plan.locked_dependencies.get("cargo://some-lib").unwrap().rows
    );
    let empty = write_cached_dependency_plan(&DependencyPlan::empty());
    assert_eq!(read_cached_dependency_plan(&empty).unwrap().lockfile.rows.len(), 0);
    let broken = read_json_text("{\"lockfile\":{\"x\":1}}").unwrap();
    assert_eq!(plan_from_value(&broken).err().unwrap().message, "cache value for x must be a string");
}

#[test]
fn some_packages_have_recipes() {
    assert!(build_recipe(&linux(), "libc", "0.2.151").is_some());
    assert!(build_recipe(&linux(), "libc", "0.2.152").is_none());
    assert_eq!(build_recipe(&linux(), "indexmap", "1.9.3").unwrap().rustc_cfgs, owned(&["has_std"]));
    assert!(build_recipe(&linux(), "ring", "0.17.14").is_none());
    let apple = context(&[
        (build_config_key::TARGET_FAMILY, "unix"),
        (build_config_key::TARGET_OS, "macos"),
        (build_config_key::TARGET_ARCH, "aarch64"),
        (build_config_key::TARGET_VENDOR, "apple"),
        (build_config_key::TARGET_ENDIAN, "little"),
    ]);
    let ring = build_recipe(&apple, "ring", "0.17.14").unwrap();
    assert_eq!(ring.native_static_libs.len(), 1);
    assert_eq!(ring.native_static_libs[0].name, "ring_core_0_17_14_");
    assert_eq!(ring.native_static_libs[0].sources.len(), 23);
    assert_eq!(ring.native_static_libs[0].flags.len(), 19);
}

#[test]
fn targets_name_packages_and_versions() {
    assert_eq!(parse_cargo_target("cargo://rand").unwrap(), ("rand".to_string(), None));
    assert_eq!(
        parse_cargo_target("cargo://rand@0.8.5").unwrap(),
        ("rand".to_string(), Some("0.8.5".to_string()))
    );
    assert!(parse_cargo_target("//app:rand").is_err());
    assert_eq!(cargo_target_name("rand", "0.8.5", 1), "cargo://rand");
    assert_eq!(cargo_target_name("rand", "0.8.5", 2), "cargo://rand@0.8.5");
    assert_eq!(versioned_target("rand", "0.8.5"), "cargo://rand@0.8.5");
    assert_eq!(parse_lock_dependency("bytes"), ("bytes".to_string(), None));
    assert_eq!(parse_lock_dependency("bytes 0.5.6"), ("bytes".to_string(), Some("0.5.6".to_string())));
}

#[test]
fn a_package_becomes_a_target() {
    let target = "cargo://some-lib";
    let mut context = linux();
    context.lockfile.insert(target.to_string(), "1.0.0,default".to_string());
    context.target = Some(target.to_string());
    let mut edges: Table<String> = Table::new();
    edges.insert("serde".to_string(), "cargo://serde@1.0.0".to_string());
    context.locked_dependencies.insert(target.to_string(), edges);
    let resolver = CargoResolver::new();
    assert!(resolver.can_resolve(target));
    assert!(!resolver.can_resolve("//app:x"));
    let request = resolver.crate_request(&context, target).unwrap();
    assert_eq!(request.crate_version, "1.0.0");
    assert_eq!(request.features, owned(&["default"]));
    assert_eq!(request.url, "https://crates.io/api/v1/crates/some-lib/1.0.0/download");
    let dir = request.workdir.clone();
    assert_eq!(request.tar_dest, format!("{dir}/crate.tar"));
    match request.next_step(false, true, true) {
        FetchStep::Download { url, dest } => assert_eq!((url, dest), (request.url.clone(), request.tar_dest.clone())),
        _ => panic!("no download"),
    }
    assert!(matches!(request.next_step(true, true, true), FetchStep::Ready));
    assert!(matches!(request.next_step(true, false, true), FetchStep::Clear(gone) if gone == request.dest));
    match request.next_step(true, false, false) {
        FetchStep::Unpack { dest, args } => {
            assert_eq!(dest, request.dest);
            assert_eq!(args, owned(&["xzvf", &request.tar_dest, "-C", &request.dest, "--strip-components=1"]));
        }
        _ => panic!("not unpacked"),
    }
    assert!(resolver.resolve(&context, "cargo://lost", "", false, Vec::new()).is_err());
    let manifest = "[package]\nname = \"some-lib\"\nversion = \"1.0.0\"\nedition = \"2021\"\n[dependencies]\nserde-alias = { package = \"serde\", version = \"1\" }\nlog = \"0.4\"\n";
    let config = resolver
        .resolve(&context, target, manifest, false, owned(&["/c/src/lib.rs"]))
        .unwrap();
    assert_eq!(config.kind, "rust_library");
    assert_eq!(config.build_plugin, "@rust_plugin");
    assert_eq!(config.dependencies.len(), 2);
    assert!(config.dependencies.contains(&"cargo://serde@1.0.0".to_string()));
    assert!(config.dependencies.contains(&"cargo://log".to_string()));
    let aliases = config.extras.get(config_extra_keys::DEPENDENCY_ALIASES).unwrap();
    assert!(aliases.contains(&"cargo://serde@1.0.0=serde_alias".to_string()));
    assert_eq!(config.extras.get(config_extra_keys::EDITION), Some(&owned(&["2021"])));
    assert_eq!(config.extras.get(config_extra_keys::CRATE_ROOT), Some(&vec![format!("{dir}/crate")]));
    let env = config.extras.get(config_extra_keys::RUSTC_ENV).unwrap();
    assert!(env.contains(&"CARGO_PKG_VERSION_MAJOR=1".to_string()));
    assert_eq!(config.sources, owned(&["/c/src/lib.rs"]));
    let e = resolver.resolve(&context, target, manifest, true, Vec::new()).err().unwrap();
    assert_eq!(e.kind, ErrorKind::PermissionDenied);
    assert_eq!(
        e.message,
        "cargo://some-lib declares build.rs, but no hermetic Cargo build recipe was provided"
    );
    let recipe = CargoBuildRecipe { rustc_cfgs: owned(&["mine"]), native_static_libs: Vec::new() };
    let with_recipe = CargoResolver::new().with_build_recipes(vec![(target.to_string(), recipe)]);
    let config = with_recipe.resolve(&context, target, manifest, true, Vec::new()).unwrap();
    assert_eq!(config.extras.get(config_extra_keys::RUSTC_CFGS), Some(&owned(&["mine"])));
    let own = CargoResolver::new().with_locked_dependencies(vec![(
        target.to_string(),
        vec![("log".to_string(), "cargo://log@0.4.1".to_string())],
    )]);
    let config = own.resolve(&context, target, manifest, false, Vec::new()).unwrap();
    assert!(config.dependencies.contains(&"cargo://log@0.4.1".to_string()));
    assert!(CargoResolver::new().crate_request(&context, "cargo://lost").is_err());
    assert_eq!(CargoResolver::new().crate_request(&context, "cargo://lost@2.0").unwrap().crate_version, "2.0");
}

#[test]
fn some_packages_get_files_that_their_scripts_would_write() {
    assert!(hermetic_cargo_source("serde_core", "1.0.228").unwrap().contains("pub mod __private228"));
    assert_eq!(hermetic_cargo_source("log", "0.4.0"), None);
    assert_eq!(hermetic_cargo_out_dir("/w", "serde_core", "1.0.228"), Some("/w/out".to_string()));
    assert_eq!(hermetic_cargo_out_dir("/w", "log", "0.4.0"), None);
}

fn entry(path: &str, symlink: bool, entries: Vec<DirEntry>) -> DirEntry {
    DirEntry { path: path.to_string(), symlink, entries }
}

#[test]
fn the_sources_of_a_package_are_found() {
    let mut out: Vec<String> = Vec::new();
    let entries = vec![
        entry("/c/src/lib.rs", false, Vec::new()),
        entry("/c/src/notes.md", false, Vec::new()),
        entry("/c/src/link.rs", true, Vec::new()),
        entry("/c/src/inner", false, vec![entry("/c/src/inner/a.rs", false, Vec::new())]),
    ];
    get_rust_files(&entries, &mut out);
    assert_eq!(out, owned(&["/c/src/lib.rs", "/c/src/inner/a.rs"]));
}

#[test]
fn manifests_that_are_none_are_refused() {
    let read = |text: &str| parse_cargo_toml(&linux(), "/p/Cargo.toml", text, false, &Vec::new());
    assert!(read("[package").is_err());
    assert_eq!(read("").err().unwrap().kind, ErrorKind::InvalidData);
}
