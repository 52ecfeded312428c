//! The plugin for the bus: its targets are schemas, from which code in Rust is
//! generated that the plugin for Rust then compiles.

use vstd::prelude::*;

use crate::config_extra_keys::{CRATE_NAME, EDITION, ROOT_SOURCE};
use crate::model::{empty_config, Config, ConfigModel, ExternalRequirement, Requirement};
use crate::path::{join_path, joined_path};
use crate::plugin_abi::{BuildRequest, ConfigResponse, Manifest, ParseRuleRequest, PluginManifest, RuleRequest};
use crate::rust_plugin::link::Deps;
use crate::rust_plugin::names::{extra, extra_of, short_name, target_shortname};
use crate::rust_plugin::rule::{response_told, single};
use crate::table::{found, with_number, Numbered, Table};
use crate::text::{cat2, cat3, debug_of, debug_text, holds_text, keep, replace_char, same, swapped, Duplicate};

verus! {

/// What the plugin says of itself.
pub open spec fn bus_manifest_model() -> Manifest {
    Manifest {
        name: "bus"@,
        rule_kinds: seq!["rust_bus_library"@],
        test_rule_kinds: Seq::empty(),
        build_plugins: seq!["@bus_plugin"@],
        label_fields: seq!["bus_runtime"@, "codegen"@],
        dependency_ecosystems: Seq::empty(),
        target_prefixes: Seq::empty(),
    }
}

pub fn bus_manifest() -> (r: PluginManifest)
    ensures
        r.deep_view() == bus_manifest_model(),
{
    let mut fields = single("bus_runtime");
    keep(&mut fields, "codegen".to_owned());
    assert(fields.deep_view() =~= seq!["bus_runtime"@, "codegen"@]);
    let r = PluginManifest {
        name: "bus".to_owned(),
        rule_kinds: single("rust_bus_library"),
        test_rule_kinds: Vec::new(),
        build_plugins: single("@bus_plugin"),
        label_fields: fields,
        dependency_ecosystems: Vec::new(),
        target_prefixes: Vec::new(),
    };
    assert(r.deep_view() =~= bus_manifest_model());
    r
}

/// What a schema's code depends on.
pub open spec fn with_runtime(dependencies: Seq<Seq<char>>, runtime: Seq<char>) -> Seq<Seq<char>> {
    if dependencies.contains(runtime) {
        dependencies
    } else {
        dependencies.push(runtime)
    }
}

/// The requirement on the package `futures`.
pub open spec fn futures() -> Requirement {
    Requirement {
        ecosystem: "cargo"@,
        package: "futures"@,
        version: "=0.3.31"@,
        features: seq!["std"@],
        default_features: false,
        target: Some("cargo://futures"@),
    }
}

/// Whether one of `requirements` is on the package `package`.
pub open spec fn requires_package(requirements: Seq<Requirement>, package: Seq<char>) -> bool {
    exists|i: int| 0 <= i < requirements.len() && (#[trigger] requirements[i]).package == package
}

/// `requirements` with one on the package `futures`.
pub open spec fn with_futures(requirements: Seq<Requirement>) -> Seq<Requirement> {
    if requires_package(requirements, "futures"@) {
        requirements
    } else {
        requirements.push(futures())
    }
}

fn has_requirement(requirements: &Vec<ExternalRequirement>, package: &str) -> (r: bool)
    ensures
        r == requires_package(requirements.deep_view(), package@),
{
    let ghost list = requirements.deep_view();
    let mut i: usize = 0;
    while i < requirements.len()
        invariant
            i <= requirements.len(),
            list == requirements.deep_view(),
            forall|j: int| 0 <= j < i ==> (#[trigger] list[j]).package != package@,
        decreases requirements.len() - i,
    {
        assert(list[i as int] == requirements@[i as int].deep_view());
        if same(requirements[i].package.as_str(), package) {
            return true;
        }
        i = i + 1;
    }
    false
}

/// The configuration of a schema, or why it has none.
pub open spec fn bus_rule(request: RuleRequest) -> Result<ConfigModel, Seq<char>> {
    if request.sources.len() != 1 {
        Err("rust_bus_library currently expects exactly one .bus source"@)
    } else {
        Ok(
            ConfigModel {
                dependencies: with_runtime(
                    request.dependencies,
                    found(request.label_fields, "bus_runtime"@).unwrap_or("//util/bus:bus"@),
                ),
                external_requirements: with_futures(request.cargo_requirements),
                build_plugin: "@bus_plugin"@,
                sources: request.sources,
                build_dependencies: seq![
                    "@rust_compiler"@,
                    found(request.label_fields, "codegen"@).unwrap_or("//util/bus/codegen:codegen"@),
                ],
                kind: request.kind,
                extras: with_number(
                    with_number(Seq::empty(), CRATE_NAME, seq![request.name]),
                    EDITION,
                    seq![found(request.string_fields, "edition"@).unwrap_or("2021"@)],
                ),
                ..empty_config()
            },
        )
    }
}

fn field_or(fields: &Table<String>, key: &str, default: &str) -> (r: String)
    ensures
        r@ == found(fields.deep_view(), key@).unwrap_or(default@),
{
    match fields.get(key) {
        Some(text) => text.clone(),
        None => default.to_owned(),
    }
}

pub fn parse_bus_rule_request(request: ParseRuleRequest) -> (r: ConfigResponse)
    ensures
        response_told(r) == bus_rule(request.deep_view()),
{
    let ghost model = request.deep_view();
    if request.sources.len() != 1 {
        return ConfigResponse::Failure("rust_bus_library currently expects exactly one .bus source".to_owned());
    }
    let runtime = field_or(&request.label_fields, "bus_runtime", "//util/bus:bus");
    let codegen = field_or(&request.label_fields, "codegen", "//util/bus/codegen:codegen");
    let edition = field_or(&request.string_fields, "edition", "2021");
    let mut dependencies = request.dependencies;
    if !holds_text(&dependencies, runtime.as_str()) {
        keep(&mut dependencies, runtime);
    }
    let mut requirements = request.cargo_requirements;
    if !has_requirement(&requirements, "futures") {
        let requirement = ExternalRequirement {
            ecosystem: "cargo".to_owned(),
            package: "futures".to_owned(),
            version: "=0.3.31".to_owned(),
            features: single("std"),
            default_features: false,
            target: Some("cargo://futures".to_owned()),
        };
        assert(requirement.deep_view() =~= futures());
        keep(&mut requirements, requirement);
    }
    let mut extras: Numbered<Vec<String>> = Numbered::new();
    extras.insert(CRATE_NAME, single(request.name.as_str()));
    extras.insert(EDITION, single(edition.as_str()));
    let mut build_dependencies = single("@rust_compiler");
    keep(&mut build_dependencies, codegen);
    let config = Config {
        dependencies,
        external_requirements: requirements,
        build_plugin: "@bus_plugin".to_owned(),
        sources: request.sources,
        build_dependencies,
        kind: request.kind,
        extras,
        ..Config::empty()
    };
    assert(config.deep_view() =~= bus_rule(model)->Ok_0);
    ConfigResponse::Success(config)
}

/// The command that generates code from a schema, the file that the code goes
/// to, and what is then built.
pub struct BusBuild {
    pub codegen: String,
    pub args: Vec<String>,
    pub generated: String,
    pub config: Config,
}

/// What a `BusBuild` says.
#[verifier::ext_equal]
pub struct BusSteps {
    pub codegen: Seq<char>,
    pub args: Seq<Seq<char>>,
    pub generated: Seq<char>,
    pub config: ConfigModel,
}

impl DeepView for BusBuild {
    type V = BusSteps;

    open spec fn deep_view(&self) -> BusSteps {
        BusSteps {
            codegen: self.codegen@,
            args: self.args.deep_view(),
            generated: self.generated@,
            config: self.config.deep_view(),
        }
    }
}

/// What a build, or the message in its place, says.
pub open spec fn bus_told(r: Result<BusBuild, String>) -> Result<BusSteps, Seq<char>> {
    match r {
        Ok(build) => Ok(build.deep_view()),
        Err(message) => Err(message@),
    }
}

/// The program that generates code: the first output of `target`.
pub open spec fn generator(deps: Deps, target: Seq<char>) -> Result<Seq<char>, Seq<char>> {
    match found(deps, target) {
        Some(output) if output.outputs.len() > 0 => Ok(output.outputs[0]),
        _ => Err("bus codegen dependency "@ + target + " did not produce an executable"@),
    }
}

/// What is built from the generated code.
pub open spec fn delegated(config: ConfigModel, generated: Seq<char>) -> ConfigModel {
    ConfigModel {
        build_plugin: "@rust_plugin"@,
        kind: "rust_library"@,
        sources: seq![generated],
        build_dependencies: seq!["@rust_compiler"@],
        extras: with_number(config.extras, ROOT_SOURCE, seq![generated]),
        ..config
    }
}

/// How a schema is built.
pub open spec fn bus_steps(
    target: Seq<char>,
    config: ConfigModel,
    deps: Deps,
    working_directory: Seq<char>,
) -> Result<BusSteps, Seq<char>> {
    if config.kind != "rust_bus_library"@ {
        Err("unsupported target kind: "@ + debug_text(config.kind))
    } else if config.build_dependencies.len() < 2 {
        Err("rust_bus_library requires a bus codegen build dependency"@)
    } else {
        match generator(deps, config.build_dependencies[1]) {
            Err(message) => Err(message),
            Ok(codegen) => if config.sources.len() != 1 {
                Err("rust_bus_library currently expects exactly one .bus source"@)
            } else {
                let crate_name = extra_of(config, CRATE_NAME).unwrap_or(swapped(short_name(target), '-', '_'));
                let generated = joined_path(working_directory, crate_name + ".rs"@);
                Ok(
                    BusSteps {
                        codegen,
                        args: seq!["--language=rust"@, config.sources[0]],
                        generated,
                        config: delegated(config, generated),
                    },
                )
            },
        }
    }
}

fn find_generator(deps: &Table<crate::model::BuildOutput>, target: &str) -> (r: Result<String, String>)
    ensures
        crate::rust_plugin::names::text_told(r) == generator(deps.deep_view(), target@),
{
    if let Some(output) = deps.get(target) {
        if output.outputs.len() > 0 {
            assert(output.deep_view().outputs[0] == output.outputs@[0]@);
            return Ok(output.outputs[0].clone());
        }
    }
    Err(cat3("bus codegen dependency ", target, " did not produce an executable"))
}

fn delegate(config: &Config, generated: &str) -> (r: Config)
    ensures
        r.deep_view() == delegated(config.deep_view(), generated@),
{
    let mut r = config.duplicate();
    r.build_plugin = "@rust_plugin".to_owned();
    r.kind = "rust_library".to_owned();
    r.sources = single(generated);
    r.build_dependencies = single("@rust_compiler");
    r.extras.insert(ROOT_SOURCE, single(generated));
    assert(r.deep_view() =~= delegated(config.deep_view(), generated@));
    r
}

pub fn build_bus_request(request: &BuildRequest) -> (r: Result<BusBuild, String>)
    ensures
        bus_told(r) == bus_steps(
            request.target@,
            request.config.deep_view(),
            request.dependencies.deep_view(),
            request.working_directory@,
        ),
{
    let config = &request.config;
    if !same(config.kind.as_str(), "rust_bus_library") {
        return Err(cat2("unsupported target kind: ", debug_of(config.kind.as_str()).as_str()));
    }
    if config.build_dependencies.len() < 2 {
        return Err("rust_bus_library requires a bus codegen build dependency".to_owned());
    }
    assert(config.deep_view().build_dependencies[1] == config.build_dependencies@[1]@);
    let codegen = match find_generator(&request.dependencies, config.build_dependencies[1].as_str()) {
        Ok(codegen) => codegen,
        Err(message) => return Err(message),
    };
    if config.sources.len() != 1 {
        return Err("rust_bus_library currently expects exactly one .bus source".to_owned());
    }
    assert(config.deep_view().sources[0] == config.sources@[0]@);
    let crate_name = match extra(config, CRATE_NAME) {
        Some(name) => name,
        None => replace_char(target_shortname(request.target.as_str()).as_str(), '-', '_'),
    };
    let generated = join_path(request.working_directory.as_str(), cat2(crate_name.as_str(), ".rs").as_str());
    let mut args = single("--language=rust");
    keep(&mut args, config.sources[0].clone());
    assert(args.deep_view() =~= seq!["--language=rust"@, config.deep_view().sources[0]]);
    let made = delegate(config, generated.as_str());
    Ok(BusBuild { codegen, args, generated, config: made })
}

} // verus!
