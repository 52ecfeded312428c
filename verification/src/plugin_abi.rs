//! Plugins: what they say of themselves, what they are asked, and what their
//! answers mean. The functions of a plugin are known by a number, as is the
//! library that holds them.

use vstd::prelude::*;

use crate::context::{work_dir, Context};
use crate::digest::{decimal, decimal_of};
use crate::error::{error, fault, outcome, Error, ErrorKind, Fault};
use crate::model::{
    BuildOutput, BuildResult, Config, ConfigModel, DependencyPlan, ExternalRequirement, Outcome, Output, PluginContext,
    Plan, Requirement,
};
use crate::rules::{
    label_under, labels_under, required_text, sources_under, target_requirements, Rows, RuleContext,
};
use crate::table::{with_row, Table};
use crate::task::Task;
use crate::text::{begins, begins_with, cat2, cat4, keep, Duplicate};
use crate::value::{text_in, ConfigTable};

verus! {

/// The version of the interface to plugins.
pub const CBS_PLUGIN_ABI_VERSION: u32 = 1;

/// A plugin: the version of the interface that it was made for, and the number
/// of its functions.
#[derive(Clone, Copy, Debug, PartialEq, Eq, Structural)]
pub struct CbsPluginV1 {
    pub abi_version: u32,
    pub functions: usize,
}

/// What a plugin says of itself.
pub struct PluginManifest {
    pub name: String,
    pub rule_kinds: Vec<String>,
    pub test_rule_kinds: Vec<String>,
    pub build_plugins: Vec<String>,
    pub label_fields: Vec<String>,
    pub dependency_ecosystems: Vec<String>,
    pub target_prefixes: Vec<String>,
}

/// What a `PluginManifest` says.
#[verifier::ext_equal]
pub struct Manifest {
    pub name: Seq<char>,
    pub rule_kinds: Seq<Seq<char>>,
    pub test_rule_kinds: Seq<Seq<char>>,
    pub build_plugins: Seq<Seq<char>>,
    pub label_fields: Seq<Seq<char>>,
    pub dependency_ecosystems: Seq<Seq<char>>,
    pub target_prefixes: Seq<Seq<char>>,
}

impl DeepView for PluginManifest {
    type V = Manifest;

    open spec fn deep_view(&self) -> Manifest {
        Manifest {
            name: self.name@,
            rule_kinds: self.rule_kinds.deep_view(),
            test_rule_kinds: self.test_rule_kinds.deep_view(),
            build_plugins: self.build_plugins.deep_view(),
            label_fields: self.label_fields.deep_view(),
            dependency_ecosystems: self.dependency_ecosystems.deep_view(),
            target_prefixes: self.target_prefixes.deep_view(),
        }
    }
}

impl Duplicate for PluginManifest {
    fn duplicate(&self) -> (r: Self) {
        PluginManifest {
            name: self.name.clone(),
            rule_kinds: self.rule_kinds.duplicate(),
            test_rule_kinds: self.test_rule_kinds.duplicate(),
            build_plugins: self.build_plugins.duplicate(),
            label_fields: self.label_fields.duplicate(),
            dependency_ecosystems: self.dependency_ecosystems.duplicate(),
            target_prefixes: self.target_prefixes.duplicate(),
        }
    }
}

/// A plugin that was loaded, with the number of its library, if it has one.
pub struct LoadedAbiPlugin {
    pub plugin: CbsPluginV1,
    pub manifest: PluginManifest,
    pub library: Option<usize>,
}

/// What a `LoadedAbiPlugin` is.
#[verifier::ext_equal]
pub struct LoadedModel {
    pub plugin: CbsPluginV1,
    pub manifest: Manifest,
    pub library: Option<usize>,
}

impl DeepView for LoadedAbiPlugin {
    type V = LoadedModel;

    open spec fn deep_view(&self) -> LoadedModel {
        LoadedModel { plugin: self.plugin, manifest: self.manifest.deep_view(), library: self.library }
    }
}

impl Duplicate for LoadedAbiPlugin {
    fn duplicate(&self) -> (r: Self) {
        LoadedAbiPlugin { plugin: self.plugin, manifest: self.manifest.duplicate(), library: self.library }
    }
}

/// A plugin that is part of the program: it has no library.
pub fn loaded_builtin_plugin(plugin: CbsPluginV1, manifest: PluginManifest) -> (r: LoadedAbiPlugin)
    ensures
        r.deep_view() == (LoadedModel { plugin, manifest: manifest.deep_view(), library: None }),
{
    LoadedAbiPlugin { plugin, manifest, library: None }
}

/// Why a plugin cannot be used, if it cannot.
pub open spec fn abi_fault(plugin: CbsPluginV1) -> Option<Fault> {
    if plugin.abi_version != CBS_PLUGIN_ABI_VERSION {
        Some(
            fault(
                ErrorKind::InvalidData,
                "unsupported plugin ABI version "@ + decimal(plugin.abi_version as int) + "; expected "@ + decimal(
                    CBS_PLUGIN_ABI_VERSION as int,
                ),
            ),
        )
    } else {
        None
    }
}

fn validate_abi(plugin: CbsPluginV1) -> (r: Option<Error>)
    ensures
        r.deep_view() == abi_fault(plugin),
{
    if plugin.abi_version != CBS_PLUGIN_ABI_VERSION {
        return Some(
            error(
                ErrorKind::InvalidData,
                cat4(
                    "unsupported plugin ABI version ",
                    decimal_of(plugin.abi_version as u64).as_str(),
                    "; expected ",
                    decimal_of(CBS_PLUGIN_ABI_VERSION as u64).as_str(),
                ),
            ),
        );
    }
    None
}

/// What `made` is where the plugin can be used.
pub open spec fn if_usable<T>(plugin: CbsPluginV1, made: T) -> Result<T, Fault> {
    match abi_fault(plugin) {
        Some(e) => Err(e),
        None => Ok(made),
    }
}

/// What a plugin is asked about a target of one of its kinds.
pub struct ParseRuleRequest {
    pub workspace_root: String,
    pub package: String,
    pub package_dir: String,
    pub kind: String,
    pub name: String,
    pub sources: Vec<String>,
    pub dependencies: Vec<String>,
    pub cargo_requirements: Vec<ExternalRequirement>,
    pub string_fields: Table<String>,
    pub label_fields: Table<String>,
}

/// What a `ParseRuleRequest` says.
#[verifier::ext_equal]
pub struct RuleRequest {
    pub workspace_root: Seq<char>,
    pub package: Seq<char>,
    pub package_dir: Seq<char>,
    pub kind: Seq<char>,
    pub name: Seq<char>,
    pub sources: Seq<Seq<char>>,
    pub dependencies: Seq<Seq<char>>,
    pub cargo_requirements: Seq<Requirement>,
    pub string_fields: Seq<(Seq<char>, Seq<char>)>,
    pub label_fields: Seq<(Seq<char>, Seq<char>)>,
}

impl DeepView for ParseRuleRequest {
    type V = RuleRequest;

    open spec fn deep_view(&self) -> RuleRequest {
        RuleRequest {
            workspace_root: self.workspace_root@,
            package: self.package@,
            package_dir: self.package_dir@,
            kind: self.kind@,
            name: self.name@,
            sources: self.sources.deep_view(),
            dependencies: self.dependencies.deep_view(),
            cargo_requirements: self.cargo_requirements.deep_view(),
            string_fields: self.string_fields.deep_view(),
            label_fields: self.label_fields.deep_view(),
        }
    }
}

/// The answer of a plugin that makes a configuration.
pub enum ConfigResponse {
    Success(Config),
    Failure(String),
}

/// The configuration that a plugin answers with: its hash is not the plugin's
/// to choose.
pub open spec fn answered_config(response: ConfigResponse) -> Result<ConfigModel, Fault> {
    match response {
        ConfigResponse::Success(config) => Ok(ConfigModel { hash: 0, ..config.deep_view() }),
        ConfigResponse::Failure(reason) => Err(fault(ErrorKind::InvalidData, reason@)),
    }
}

pub fn config_of_response(response: ConfigResponse) -> (r: Result<Config, Error>)
    ensures
        outcome(r) == answered_config(response),
{
    match response {
        ConfigResponse::Success(config) => Ok(Config { hash: 0, ..config }),
        ConfigResponse::Failure(reason) => Err(error(ErrorKind::InvalidData, reason)),
    }
}

/// The rows of `rows[..n]` that are texts.
pub open spec fn text_rows(rows: Rows, n: int) -> Seq<(Seq<char>, Seq<char>)>
    decreases n,
{
    if n <= 0 {
        Seq::empty()
    } else {
        match text_in(Some(rows[n - 1].1)) {
            Some(text) => with_row(text_rows(rows, n - 1), rows[n - 1].0, text),
            None => text_rows(rows, n - 1),
        }
    }
}

fn string_fields(target: &ConfigTable) -> (r: Table<String>)
    ensures
        r.deep_view() == text_rows(target.deep_view(), target.deep_view().len() as int),
{
    let ghost rows = target.deep_view();
    let mut out: Table<String> = Table::new();
    let mut i: usize = 0;
    while i < target.rows.len()
        invariant
            i <= target.rows.len(),
            rows == target.deep_view(),
            out.deep_view() == text_rows(rows, i as int),
        decreases target.rows.len() - i,
    {
        assert(rows[i as int] == (target.rows@[i as int].0@, target.rows@[i as int].1.deep_view()));
        if let Some(text) = target.rows[i].1.as_str() {
            out.insert(target.rows[i].0.clone(), text.to_owned());
        }
        i = i + 1;
    }
    out
}

/// `done` with the labels under `fields[i..]`.
pub open spec fn label_rows(
    package: Seq<char>,
    rows: Rows,
    fields: Seq<Seq<char>>,
    i: int,
    done: Seq<(Seq<char>, Seq<char>)>,
) -> Result<Seq<(Seq<char>, Seq<char>)>, Fault>
    decreases fields.len() - i,
{
    if i >= fields.len() {
        Ok(done)
    } else {
        match label_under(package, rows, fields[i]) {
            Err(e) => Err(e),
            Ok(None) => label_rows(package, rows, fields, i + 1, done),
            Ok(Some(label)) => label_rows(package, rows, fields, i + 1, with_row(done, fields[i], label)),
        }
    }
}

fn label_fields(context: &RuleContext, target: &ConfigTable, fields: &Vec<String>) -> (r: Result<Table<String>, Error>)
    ensures
        outcome(r) == label_rows(context.package@, target.deep_view(), fields.deep_view(), 0, Seq::empty()),
{
    let ghost list = fields.deep_view();
    let mut out: Table<String> = Table::new();
    let mut i: usize = 0;
    while i < fields.len()
        invariant
            i <= fields.len(),
            list == fields.deep_view(),
            label_rows(context.package@, target.deep_view(), list, 0, Seq::empty()) == label_rows(
                context.package@,
                target.deep_view(),
                list,
                i as int,
                out.deep_view(),
            ),
        decreases fields.len() - i,
    {
        assert(list[i as int] == fields@[i as int]@);
        if let Some(label) = context.optional_label(target, fields[i].as_str())? {
            out.insert(fields[i].clone(), label);
        }
        i = i + 1;
    }
    Ok(out)
}

/// What a plugin with the given label fields is asked about the target `rows`.
pub open spec fn rule_request(
    workspace_root: Seq<char>,
    package: Seq<char>,
    package_dir: Seq<char>,
    fields: Seq<Seq<char>>,
    kind: Seq<char>,
    rows: Rows,
) -> Result<RuleRequest, Fault> {
    match required_text(rows, "name"@) {
        Err(e) => Err(e),
        Ok(name) => match sources_under(workspace_root, package_dir, rows, "srcs"@) {
            Err(e) => Err(e),
            Ok(sources) => match labels_under(package, rows, "deps"@) {
                Err(e) => Err(e),
                Ok(dependencies) => match target_requirements(rows, package) {
                    Err(e) => Err(e),
                    Ok(cargo_requirements) => match label_rows(package, rows, fields, 0, Seq::empty()) {
                        Err(e) => Err(e),
                        Ok(label_fields) => Ok(
                            RuleRequest {
                                workspace_root,
                                package,
                                package_dir,
                                kind,
                                name,
                                sources,
                                dependencies,
                                cargo_requirements,
                                string_fields: text_rows(rows, rows.len() as int),
                                label_fields,
                            },
                        ),
                    },
                },
            },
        },
    }
}

/// A plugin that knows kinds of targets.
pub struct AbiRulePlugin {
    pub plugin: CbsPluginV1,
    pub rule_kinds: Vec<String>,
    pub label_fields: Vec<String>,
    pub library: Option<usize>,
}

/// What an `AbiRulePlugin` is.
#[verifier::ext_equal]
pub struct RulePluginModel {
    pub plugin: CbsPluginV1,
    pub rule_kinds: Seq<Seq<char>>,
    pub label_fields: Seq<Seq<char>>,
    pub library: Option<usize>,
}

impl DeepView for AbiRulePlugin {
    type V = RulePluginModel;

    open spec fn deep_view(&self) -> RulePluginModel {
        RulePluginModel {
            plugin: self.plugin,
            rule_kinds: self.rule_kinds.deep_view(),
            label_fields: self.label_fields.deep_view(),
            library: self.library,
        }
    }
}

impl Duplicate for AbiRulePlugin {
    fn duplicate(&self) -> (r: Self) {
        AbiRulePlugin {
            plugin: self.plugin,
            rule_kinds: self.rule_kinds.duplicate(),
            label_fields: self.label_fields.duplicate(),
            library: self.library,
        }
    }
}

impl AbiRulePlugin {
    pub fn new(plugin: CbsPluginV1, rule_kinds: Vec<String>, label_fields: Vec<String>) -> (r: Result<Self, Error>)
        ensures
            outcome(r) == if_usable(
                plugin,
                RulePluginModel {
                    plugin,
                    rule_kinds: rule_kinds.deep_view(),
                    label_fields: label_fields.deep_view(),
                    library: None,
                },
            ),
    {
        match validate_abi(plugin) {
            Some(e) => Err(e),
            None => Ok(AbiRulePlugin { plugin, rule_kinds, label_fields, library: None }),
        }
    }

    pub fn with_library(
        plugin: CbsPluginV1,
        rule_kinds: Vec<String>,
        label_fields: Vec<String>,
        library: usize,
    ) -> (r: Result<Self, Error>)
        ensures
            outcome(r) == if_usable(
                plugin,
                RulePluginModel {
                    plugin,
                    rule_kinds: rule_kinds.deep_view(),
                    label_fields: label_fields.deep_view(),
                    library: Some(library),
                },
            ),
    {
        let made = AbiRulePlugin::new(plugin, rule_kinds, label_fields)?;
        Ok(AbiRulePlugin { library: Some(library), ..made })
    }

    pub fn rule_kinds(&self) -> (r: &Vec<String>)
        ensures
            *r == self.rule_kinds,
    {
        &self.rule_kinds
    }

    /// What the plugin is asked about the target `target` of the kind `kind`.
    pub fn config_from_target(&self, context: &RuleContext, kind: &str, target: &ConfigTable) -> (r: Result<
        ParseRuleRequest,
        Error,
    >)
        ensures
            outcome(r) == rule_request(
                context.workspace_root@,
                context.package@,
                context.package_dir@,
                self.label_fields.deep_view(),
                kind@,
                target.deep_view(),
            ),
    {
        let name = context.required_string(target, "name")?;
        let sources = context.source_paths(target, "srcs")?;
        let dependencies = context.label_list(target, "deps")?;
        let cargo_requirements = context.cargo_requirements(target)?;
        let label_fields = label_fields(context, target, &self.label_fields)?;
        Ok(
            ParseRuleRequest {
                workspace_root: context.workspace_root.clone(),
                package: context.package.clone(),
                package_dir: context.package_dir.clone(),
                kind: kind.to_owned(),
                name,
                sources,
                dependencies,
                cargo_requirements,
                string_fields: string_fields(target),
                label_fields,
            },
        )
    }
}

/// What a plugin is told of the context.
pub fn plugin_context(context: &Context) -> (r: PluginContext)
    ensures
        r.cache_dir@ == context.cache_dir@,
        r.context_hash == context.hash,
        r.target_config.deep_view() == context.config.deep_view(),
        r.lockfile.deep_view() == context.lockfile.deep_view(),
        r.locked_dependencies.deep_view() == context.locked_dependencies.deep_view(),
        r.target.deep_view() == context.target.deep_view(),
{
    PluginContext {
        cache_dir: context.cache_dir.clone(),
        context_hash: context.hash,
        target_config: context.config.duplicate(),
        lockfile: context.lockfile.duplicate(),
        locked_dependencies: context.locked_dependencies.duplicate(),
        target: context.target.duplicate(),
    }
}

/// What a plugin is asked that plans dependencies.
pub struct PlanDependenciesRequest {
    pub ecosystem: String,
    pub requirements: Vec<ExternalRequirement>,
    pub context: PluginContext,
}

/// The answer of a plugin that plans dependencies.
pub enum PlanResponse {
    Success(DependencyPlan),
    Failure(String),
}

/// The plan that a plugin answers with.
pub open spec fn answered_plan(response: PlanResponse) -> Result<Plan, Fault> {
    match response {
        PlanResponse::Success(plan) => Ok(plan.deep_view()),
        PlanResponse::Failure(reason) => Err(fault(ErrorKind::InvalidData, reason@)),
    }
}

pub fn plan_of_response(response: PlanResponse) -> (r: Result<DependencyPlan, Error>)
    ensures
        outcome(r) == answered_plan(response),
{
    match response {
        PlanResponse::Success(plan) => Ok(plan),
        PlanResponse::Failure(reason) => Err(error(ErrorKind::InvalidData, reason)),
    }
}

/// A plugin that plans the dependencies of an ecosystem.
pub struct AbiDependencyPlanner {
    pub plugin: CbsPluginV1,
    pub ecosystem: String,
    pub library: Option<usize>,
}

/// What an `AbiDependencyPlanner` is.
#[verifier::ext_equal]
pub struct PlannerModel {
    pub plugin: CbsPluginV1,
    pub ecosystem: Seq<char>,
    pub library: Option<usize>,
}

impl DeepView for AbiDependencyPlanner {
    type V = PlannerModel;

    open spec fn deep_view(&self) -> PlannerModel {
        PlannerModel { plugin: self.plugin, ecosystem: self.ecosystem@, library: self.library }
    }
}

impl AbiDependencyPlanner {
    pub fn new(plugin: CbsPluginV1, ecosystem: String) -> (r: Result<Self, Error>)
        ensures
            outcome(r) == if_usable(plugin, PlannerModel { plugin, ecosystem: ecosystem@, library: None }),
    {
        match validate_abi(plugin) {
            Some(e) => Err(e),
            None => Ok(AbiDependencyPlanner { plugin, ecosystem, library: None }),
        }
    }

    pub fn with_library(plugin: CbsPluginV1, ecosystem: String, library: usize) -> (r: Result<Self, Error>)
        ensures
            outcome(r) == if_usable(plugin, PlannerModel { plugin, ecosystem: ecosystem@, library: Some(library) }),
    {
        let made = AbiDependencyPlanner::new(plugin, ecosystem)?;
        Ok(AbiDependencyPlanner { library: Some(library), ..made })
    }

    pub fn ecosystem(&self) -> (r: &str)
        ensures
            r@ == self.ecosystem@,
    {
        self.ecosystem.as_str()
    }

    /// What the plugin is asked about `requirements`.
    pub fn plan(&self, context: &Context, requirements: &Vec<ExternalRequirement>) -> (r: PlanDependenciesRequest)
        ensures
            r.ecosystem@ == self.ecosystem@,
            r.requirements.deep_view() == requirements.deep_view(),
            r.context.cache_dir@ == context.cache_dir@,
            r.context.context_hash == context.hash,
            r.context.target_config.deep_view() == context.config.deep_view(),
            r.context.lockfile.deep_view() == context.lockfile.deep_view(),
            r.context.locked_dependencies.deep_view() == context.locked_dependencies.deep_view(),
            r.context.target.deep_view() == context.target.deep_view(),
    {
        PlanDependenciesRequest {
            ecosystem: self.ecosystem.clone(),
            requirements: requirements.duplicate(),
            context: plugin_context(context),
        }
    }
}

/// What a plugin is asked that resolves targets.
pub struct ResolveTargetRequest {
    pub target: String,
    pub context: PluginContext,
}

/// A plugin that resolves the targets whose names begin in certain ways.
pub struct AbiResolverPlugin {
    pub plugin: CbsPluginV1,
    pub target_prefixes: Vec<String>,
    pub library: Option<usize>,
}

/// What an `AbiResolverPlugin` is.
#[verifier::ext_equal]
pub struct ResolverModel {
    pub plugin: CbsPluginV1,
    pub target_prefixes: Seq<Seq<char>>,
    pub library: Option<usize>,
}

impl DeepView for AbiResolverPlugin {
    type V = ResolverModel;

    open spec fn deep_view(&self) -> ResolverModel {
        ResolverModel {
            plugin: self.plugin,
            target_prefixes: self.target_prefixes.deep_view(),
            library: self.library,
        }
    }
}

/// Whether `target` begins with one of `prefixes`.
pub open spec fn has_prefix(prefixes: Seq<Seq<char>>, target: Seq<char>) -> bool {
    exists|i: int| 0 <= i < prefixes.len() && begins(target, #[trigger] prefixes[i])
}

impl AbiResolverPlugin {
    pub fn new(plugin: CbsPluginV1, target_prefixes: Vec<String>) -> (r: Result<Self, Error>)
        ensures
            outcome(r) == if_usable(
                plugin,
                ResolverModel { plugin, target_prefixes: target_prefixes.deep_view(), library: None },
            ),
    {
        match validate_abi(plugin) {
            Some(e) => Err(e),
            None => Ok(AbiResolverPlugin { plugin, target_prefixes, library: None }),
        }
    }

    pub fn with_library(plugin: CbsPluginV1, target_prefixes: Vec<String>, library: usize) -> (r: Result<Self, Error>)
        ensures
            outcome(r) == if_usable(
                plugin,
                ResolverModel { plugin, target_prefixes: target_prefixes.deep_view(), library: Some(library) },
            ),
    {
        let made = AbiResolverPlugin::new(plugin, target_prefixes)?;
        Ok(AbiResolverPlugin { library: Some(library), ..made })
    }

    pub fn can_resolve(&self, target: &str) -> (r: bool)
        ensures
            r == has_prefix(self.target_prefixes.deep_view(), target@),
    {
        let ghost list = self.target_prefixes.deep_view();
        let mut i: usize = 0;
        while i < self.target_prefixes.len()
            invariant
                i <= self.target_prefixes.len(),
                list == self.target_prefixes.deep_view(),
                forall|j: int| 0 <= j < i ==> !begins(target@, #[trigger] list[j]),
            decreases self.target_prefixes.len() - i,
        {
            assert(list[i as int] == self.target_prefixes@[i as int]@);
            if begins_with(target, self.target_prefixes[i].as_str()) {
                return true;
            }
            i = i + 1;
        }
        false
    }

    /// What the plugin is asked about `target`.
    pub fn resolve(&self, context: &Context, target: &str) -> (r: ResolveTargetRequest)
        ensures
            r.target@ == target@,
            r.context.cache_dir@ == context.cache_dir@,
            r.context.context_hash == context.hash,
            r.context.target_config.deep_view() == context.config.deep_view(),
            r.context.lockfile.deep_view() == context.lockfile.deep_view(),
            r.context.locked_dependencies.deep_view() == context.locked_dependencies.deep_view(),
            r.context.target.deep_view() == Some(target@),
    {
        let with_target = context.with_target(target);
        assert(with_target.deep_view().cache_dir == context.deep_view().cache_dir);
        ResolveTargetRequest { target: target.to_owned(), context: plugin_context(&with_target) }
    }
}

/// What a plugin is asked that builds.
pub struct BuildRequest {
    pub target: String,
    pub config: Config,
    pub dependencies: Table<BuildOutput>,
    pub working_directory: String,
    pub tool_paths: Table<String>,
}

/// The answer of a plugin that builds: what it built, why it did not, or what
/// the plugin for Rust is to build in its place.
pub enum BuildResponse {
    Success(BuildOutput),
    Failure(String),
    Delegate(Config),
}

/// What a `BuildResponse` says.
#[verifier::ext_equal]
pub enum Built {
    Success(Output),
    Failure(Seq<char>),
    Delegate(ConfigModel),
}

impl DeepView for BuildResponse {
    type V = Built;

    open spec fn deep_view(&self) -> Built {
        match self {
            BuildResponse::Success(output) => Built::Success(output.deep_view()),
            BuildResponse::Failure(reason) => Built::Failure(reason@),
            BuildResponse::Delegate(config) => Built::Delegate(config.deep_view()),
        }
    }
}

/// What comes of an answer: the result of the build, or the configuration that
/// the plugin for Rust is to build.
pub enum BuildStep {
    Done(BuildResult),
    Delegate(Config),
}

/// What a `BuildStep` says.
#[verifier::ext_equal]
pub enum NextStep {
    Done(Outcome),
    Delegate(ConfigModel),
}

impl DeepView for BuildStep {
    type V = NextStep;

    open spec fn deep_view(&self) -> NextStep {
        match self {
            BuildStep::Done(result) => NextStep::Done(result.deep_view()),
            BuildStep::Delegate(config) => NextStep::Delegate(config.deep_view()),
        }
    }
}

/// What comes of the answer `response`, which may be unreadable.
pub open spec fn after_response(response: Result<Built, Fault>) -> NextStep {
    match response {
        Ok(Built::Success(output)) => NextStep::Done(Outcome::Success(output)),
        Ok(Built::Failure(reason)) => NextStep::Done(Outcome::Failure(reason)),
        Ok(Built::Delegate(config)) => NextStep::Delegate(ConfigModel { hash: 0, ..config }),
        Err(e) => NextStep::Done(Outcome::Failure("failed to decode ABI plugin response: "@ + e.message)),
    }
}

pub fn step_of_response(response: Result<BuildResponse, Error>) -> (r: BuildStep)
    ensures
        r.deep_view() == after_response(outcome(response)),
{
    match response {
        Ok(BuildResponse::Success(output)) => BuildStep::Done(BuildResult::Success(output)),
        Ok(BuildResponse::Failure(reason)) => BuildStep::Done(BuildResult::Failure(reason)),
        Ok(BuildResponse::Delegate(config)) => BuildStep::Delegate(Config { hash: 0, ..config }),
        Err(e) => BuildStep::Done(
            BuildResult::Failure(cat2("failed to decode ABI plugin response: ", e.message.as_str())),
        ),
    }
}

/// The result of a build where the plugin for Rust could not be loaded.
pub fn delegate_failure(e: &Error) -> (r: BuildResult)
    ensures
        r.deep_view() == Outcome::Failure("failed to load delegated rust plugin: "@ + e.message@),
{
    BuildResult::Failure(cat2("failed to load delegated rust plugin: ", e.message.as_str()))
}

/// The paths of the given tools.
pub open spec fn path_rows(tools: Seq<(Seq<char>, (Seq<char>, Seq<char>))>) -> Seq<(Seq<char>, Seq<char>)> {
    tools.map_values(|row: (Seq<char>, (Seq<char>, Seq<char>))| (row.0, row.1.0))
}

fn tool_paths(context: &Context) -> (r: Table<String>)
    ensures
        r.deep_view() == path_rows(context.tools.deep_view()),
{
    let ghost tools = context.tools.deep_view();
    let mut rows: Vec<(String, String)> = Vec::new();
    let mut i: usize = 0;
    assert(rows.deep_view() =~= path_rows(tools).take(0));
    while i < context.tools.rows.len()
        invariant
            i <= context.tools.rows.len(),
            tools == context.tools.deep_view(),
            rows.deep_view() == path_rows(tools).take(i as int),
        decreases context.tools.rows.len() - i,
    {
        assert(tools[i as int] == (context.tools.rows@[i as int].0@, context.tools.rows@[i as int].1.deep_view()));
        keep(&mut rows, (context.tools.rows[i].0.clone(), context.tools.rows[i].1.path.clone()));
        i = i + 1;
        assert(path_rows(tools).take(i as int) =~= path_rows(tools).take(i - 1).push(path_rows(tools)[i - 1]));
    }
    assert(path_rows(tools).take(i as int) =~= path_rows(tools));
    Table { rows }
}

/// A plugin that builds.
pub struct AbiBuildPlugin {
    pub plugin: CbsPluginV1,
    pub library: Option<usize>,
}

/// What an `AbiBuildPlugin` is: the plugin and its library.
impl DeepView for AbiBuildPlugin {
    type V = (CbsPluginV1, Option<usize>);

    open spec fn deep_view(&self) -> (CbsPluginV1, Option<usize>) {
        (self.plugin, self.library)
    }
}

impl AbiBuildPlugin {
    pub fn new(plugin: CbsPluginV1) -> (r: Result<Self, Error>)
        ensures
            outcome(r) == if_usable(plugin, (plugin, None::<usize>)),
    {
        match validate_abi(plugin) {
            Some(e) => Err(e),
            None => Ok(AbiBuildPlugin { plugin, library: None }),
        }
    }

    pub fn with_library(plugin: CbsPluginV1, library: usize) -> (r: Result<Self, Error>)
        ensures
            outcome(r) == if_usable(plugin, (plugin, Some(library))),
    {
        let made = AbiBuildPlugin::new(plugin)?;
        Ok(AbiBuildPlugin { library: Some(library), ..made })
    }

    /// What the plugin is asked to build for `task`, or the failure of a task
    /// without a configuration.
    pub fn build(&self, context: &Context, task: &Task, dependencies: &Table<BuildOutput>) -> (r: Result<BuildRequest, BuildResult>)
        requires
            context.target_hash is Some ==> context.target is Some,
        ensures
            match (task.deep_view().config, r) {
                (None, Err(result)) => result.deep_view() == Outcome::Failure("ABI build requires a resolved config"@),
                (Some(config), Ok(request)) => {
                    &&& request.target@ == task.target@
                    &&& request.config.deep_view() == config
                    &&& request.dependencies.deep_view() == dependencies.deep_view()
                    &&& request.working_directory@ == work_dir(
                        context.cache_dir@,
                        context.lockfile.deep_view(),
                        context.target.deep_view(),
                        context.target_hash,
                    )
                    &&& request.tool_paths.deep_view() == path_rows(context.tools.deep_view())
                },
                _ => false,
            },
    {
        match &task.config {
            None => Err(BuildResult::Failure("ABI build requires a resolved config".to_owned())),
            Some(config) => Ok(
                BuildRequest {
                    target: task.target.clone(),
                    config: config.duplicate(),
                    dependencies: dependencies.duplicate(),
                    working_directory: context.working_directory(),
                    tool_paths: tool_paths(context),
                },
            ),
        }
    }
}

/// The build plugin in a library that was loaded.
pub fn load_build_plugin(loaded: &LoadedAbiPlugin) -> (r: Result<AbiBuildPlugin, Error>)
    ensures
        outcome(r) == if_usable(loaded.plugin, (loaded.plugin, loaded.library)),
{
    match loaded.library {
        Some(library) => AbiBuildPlugin::with_library(loaded.plugin, library),
        None => AbiBuildPlugin::new(loaded.plugin),
    }
}

} // verus!
