//! Manifests, lock files and the features of Cargo's packages.

use cbs::build_config_key;
use cbs::cargo::lock::{lockstring, parse_lockstring};
use cbs::cargo::manifest::{parse_cargo_toml, CargoDependency};
use cbs::cargo::resolver::CargoResolver;
use cbs::model::PluginContext;
use cbs::table::{Numbered, Table};

fn context(config: Vec<(u32, String)>) -> PluginContext {
    let mut target_config: Numbered<String> = Numbered::new();
    for (key, value) in config {
        target_config.insert(key, value);
    }
    PluginContext {
        cache_dir: "/tmp".to_string(),
        context_hash: 0,
        target_config,
        lockfile: Table::new(),
        locked_dependencies: Table::new(),
        target: None,
    }
}

#[test]
fn test_parse_manifest_features_aliases_and_target_cfgs() {
    let dir = "/tmp/manifest";
    let context = context(vec![
        (build_config_key::TARGET_FAMILY, "unix".to_string()),
        (build_config_key::TARGET_OS, "linux".to_string()),
        (build_config_key::TARGET_ENV, "gnu".to_string()),
    ]);
    let manifest = parse_cargo_toml(
        &context,
        &format!("{dir}/Cargo.toml"),
        r#"
[package]
name = "demo-crate"
version = "1.0.0"
edition = "2021"

[lib]
name = "demo_lib"
path = "src/custom.rs"
proc-macro = true

[dependencies]
bytes = "1"
serde_alias = { package = "serde", version = "1", optional = true }

[target.'cfg(all(unix, target_os = "linux", not(target_env = "musl")))'.dependencies]
libc = { version = "0.2", optional = true }

[target.'cfg(windows)'.dependencies]
winapi = "0.3"

[features]
default = ["std"]
std = ["serde_alias", "dep:libc"]
"#,
        false,
        &vec!["default".to_string()],
    )
    .unwrap();
    assert_eq!(manifest.crate_name, "demo_lib");
    assert_eq!(manifest.crate_type, "proc-macro");
    assert_eq!(manifest.edition, "2021");
    assert_eq!(manifest.root_source, format!("{dir}/{}", "src/custom.rs"));
    assert!(!manifest.has_build_script);
    assert_eq!(manifest.features, vec!["default".to_string(), "std".to_string()]);
    assert_eq!(
        manifest.dependencies,
        vec![
            CargoDependency { alias: "bytes".to_string(), package: "bytes".to_string() },
            CargoDependency { alias: "serde_alias".to_string(), package: "serde".to_string() },
            CargoDependency { alias: "libc".to_string(), package: "libc".to_string() },
        ]
    );
}

#[test]
fn test_parse_manifest_detects_build_script() {
    let filename = "/tmp/build-script/Cargo.toml";
    let build_script_exists = true;
    let context = context(Vec::new());
    let manifest = parse_cargo_toml(
        &context,
        filename,
        "\n[package]\nname = \"demo\"\nversion = \"1.0.0\"\n",
        build_script_exists,
        &Vec::new(),
    )
    .unwrap();
    assert!(manifest.has_build_script);

    let manifest = parse_cargo_toml(
        &context,
        filename,
        "\n[package]\nname = \"demo\"\nversion = \"1.0.0\"\nbuild = false\n",
        build_script_exists,
        &Vec::new(),
    )
    .unwrap();
    assert!(!manifest.has_build_script);
}

#[test]
fn test_cargo_lock_uses_version_qualified_duplicate_targets() {
    let (resolver, lock_entries) = CargoResolver::from_cargo_lock(
        r#"
version = 3

[[package]]
name = "bytes"
version = "0.5.6"
source = "registry+https://github.com/rust-lang/crates.io-index"

[[package]]
name = "bytes"
version = "1.0.0"
source = "registry+https://github.com/rust-lang/crates.io-index"

[[package]]
name = "hyper"
version = "0.13.10"
source = "registry+https://github.com/rust-lang/crates.io-index"
dependencies = [
 "bytes 0.5.6",
]
"#,
    )
    .unwrap();
    assert_eq!(lock_entries.get("cargo://bytes@0.5.6").unwrap(), "0.5.6");
    assert_eq!(lock_entries.get("cargo://bytes@1.0.0").unwrap(), "1.0.0");
    assert_eq!(lock_entries.get("cargo://hyper").unwrap(), "0.13.10");
    assert_eq!(
        resolver.locked_dependencies.get("cargo://hyper").and_then(|deps| deps.get("bytes")),
        Some(&"cargo://bytes@0.5.6".to_string())
    );
}

#[test]
fn a_lock_string_is_read_as_it_was_written() {
    let features = vec!["default".to_string(), "std".to_string()];
    assert_eq!(lockstring("1.5.0", &features), "1.5.0,default,std");
    assert_eq!(parse_lockstring("1.5.0,default,std"), ("1.5.0".to_string(), features));
    assert_eq!(parse_lockstring(&lockstring("1.5.0", &Vec::new())), ("1.5.0".to_string(), Vec::new()));
}
