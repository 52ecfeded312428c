//! Rules: what Rust's targets say.

use vstd::prelude::*;

use crate::config_extra_keys::{CRATE_NAME, CRATE_TYPE, EDITION, ROOT_SOURCE};
use crate::error::{error, fault, outcome, Error, ErrorKind, Fault};
use crate::model::{empty_config, Config, ConfigModel};
use crate::path::{absolute, climbs, has_parent_step, is_absolute, join_path, joined_path};
use crate::plugin_abi::{ConfigResponse, ParseRuleRequest, PluginManifest, Manifest, RuleRequest};
use crate::table::{found, with_number, Numbered};
use crate::text::{begins, begins_with, cat2, keep, same};

verus! {

/// What the plugin says of itself.
pub open spec fn rust_manifest_model() -> Manifest {
    Manifest {
        name: "rust"@,
        rule_kinds: seq!["rust_library"@, "rust_binary"@, "rust_test"@],
        test_rule_kinds: seq!["rust_test"@],
        build_plugins: seq!["@rust_plugin"@],
        label_fields: Seq::empty(),
        dependency_ecosystems: seq!["cargo"@],
        target_prefixes: seq!["cargo://"@],
    }
}

/// The text alone.
pub fn single(text: &str) -> (r: Vec<String>)
    ensures
        r.deep_view() == seq![text@],
{
    let mut out: Vec<String> = Vec::new();
    keep(&mut out, text.to_owned());
    assert(out.deep_view() =~= seq![text@]);
    out
}

pub fn rust_manifest() -> (r: PluginManifest)
    ensures
        r.deep_view() == rust_manifest_model(),
{
    let mut kinds = single("rust_library");
    keep(&mut kinds, "rust_binary".to_owned());
    keep(&mut kinds, "rust_test".to_owned());
    let none: Vec<String> = Vec::new();
    assert(kinds.deep_view() =~= seq!["rust_library"@, "rust_binary"@, "rust_test"@]);
    assert(none.deep_view() =~= Seq::<Seq<char>>::empty());
    PluginManifest {
        name: "rust".to_owned(),
        rule_kinds: kinds,
        test_rule_kinds: single("rust_test"),
        build_plugins: single("@rust_plugin"),
        label_fields: none,
        dependency_ecosystems: single("cargo"),
        target_prefixes: single("cargo://"),
    }
}

/// The source `path` of a package.
pub open spec fn source_in_package(package_dir: Seq<char>, path: Seq<char>) -> Result<Seq<char>, Fault> {
    if absolute(path) || climbs(path) {
        Err(fault(ErrorKind::InvalidInput, "workspace paths must be package-relative: "@ + path))
    } else {
        Ok(joined_path(package_dir, path))
    }
}

pub fn package_source_path(package_dir: &str, path: &str) -> (r: Result<String, Error>)
    ensures
        outcome(r) == source_in_package(package_dir@, path@),
{
    if is_absolute(path) || has_parent_step(path) {
        return Err(error(ErrorKind::InvalidInput, cat2("workspace paths must be package-relative: ", path)));
    }
    Ok(join_path(package_dir, path))
}

/// `extras` with the field `field`, where a target has it.
pub open spec fn with_field(
    extras: Seq<(u32, Seq<Seq<char>>)>,
    fields: Seq<(Seq<char>, Seq<char>)>,
    field: Seq<char>,
    key: u32,
) -> Seq<(u32, Seq<Seq<char>>)> {
    match found(fields, field) {
        Some(text) => with_number(extras, key, seq![text]),
        None => extras,
    }
}

fn add_field(extras: &mut Numbered<Vec<String>>, request: &ParseRuleRequest, field: &str, key: u32)
    ensures
        final(extras).deep_view() == with_field(
            old(extras).deep_view(),
            request.deep_view().string_fields,
            field@,
            key,
        ),
{
    if let Some(text) = request.string_fields.get(field) {
        extras.insert(key, single(text.as_str()));
    }
}

/// What a target of Rust's says beside what all targets say.
pub open spec fn rule_extras(request: RuleRequest) -> Seq<(u32, Seq<Seq<char>>)> {
    let fields = request.string_fields;
    with_field(
        with_field(with_field(Seq::empty(), fields, "edition"@, EDITION), fields, "crate_name"@, CRATE_NAME),
        fields,
        "crate_type"@,
        CRATE_TYPE,
    )
}

/// The configuration of a target of Rust's with the given extras.
pub open spec fn rust_config(request: RuleRequest, extras: Seq<(u32, Seq<Seq<char>>)>) -> ConfigModel {
    ConfigModel {
        dependencies: request.dependencies,
        external_requirements: request.cargo_requirements,
        build_plugin: "@rust_plugin"@,
        sources: request.sources,
        build_dependencies: seq!["@rust_compiler"@],
        kind: request.kind,
        extras,
        ..empty_config()
    }
}

/// The configuration of a target of Rust's, or why it has none.
pub open spec fn rust_rule(request: RuleRequest) -> Result<ConfigModel, Seq<char>> {
    match found(request.string_fields, "root_source"@) {
        None => Ok(rust_config(request, rule_extras(request))),
        Some(root) => match source_in_package(request.package_dir, root) {
            Err(e) => Err(e.message),
            Ok(path) => Ok(rust_config(request, with_number(rule_extras(request), ROOT_SOURCE, seq![path]))),
        },
    }
}

/// What the answer of a plugin that makes a configuration says.
pub open spec fn response_told(response: ConfigResponse) -> Result<ConfigModel, Seq<char>> {
    match response {
        ConfigResponse::Success(config) => Ok(config.deep_view()),
        ConfigResponse::Failure(reason) => Err(reason@),
    }
}

pub fn parse_rust_rule_request(request: ParseRuleRequest) -> (r: ConfigResponse)
    ensures
        response_told(r) == rust_rule(request.deep_view()),
{
    let mut extras: Numbered<Vec<String>> = Numbered::new();
    add_field(&mut extras, &request, "edition", EDITION);
    add_field(&mut extras, &request, "crate_name", CRATE_NAME);
    add_field(&mut extras, &request, "crate_type", CRATE_TYPE);
    if let Some(root) = request.string_fields.get("root_source") {
        match package_source_path(request.package_dir.as_str(), root.as_str()) {
            Ok(path) => {
                extras.insert(ROOT_SOURCE, single(path.as_str()));
            },
            Err(e) => return ConfigResponse::Failure(e.message),
        }
    }
    let ghost model = request.deep_view();
    let config = Config {
        dependencies: request.dependencies,
        external_requirements: request.cargo_requirements,
        build_plugin: "@rust_plugin".to_owned(),
        sources: request.sources,
        build_dependencies: single("@rust_compiler"),
        kind: request.kind,
        extras,
        ..Config::empty()
    };
    assert(config.deep_view() =~= rust_config(model, extras.deep_view()));
    ConfigResponse::Success(config)
}

/// Why the plugin does not plan the dependencies of `ecosystem`, if it does not.
pub fn plan_refusal(ecosystem: &str) -> (r: Option<String>)
    ensures
        r.deep_view() == (if ecosystem@ == "cargo"@ {
            None
        } else {
            Some("rust plugin does not plan ecosystem "@ + ecosystem@)
        }),
{
    if same(ecosystem, "cargo") {
        None
    } else {
        Some(cat2("rust plugin does not plan ecosystem ", ecosystem))
    }
}

/// Why the plugin does not resolve `target`, if it does not.
pub fn resolve_refusal(target: &str) -> (r: Option<String>)
    ensures
        r.deep_view() == (if begins(target@, "cargo://"@) {
            None
        } else {
            Some("rust plugin does not resolve target "@ + target@)
        }),
{
    if begins_with(target, "cargo://") {
        None
    } else {
        Some(cat2("rust plugin does not resolve target ", target))
    }
}

} // verus!
