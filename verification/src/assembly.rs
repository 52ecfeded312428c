//! The executor of a workspace: the plugins that it works with, and what the
//! workspace answers for its own targets.

use vstd::prelude::*;

use crate::context::{
    collected_config, context_hash, copy_facts, fresh_context, with_rows, Context, ContextModel, Tool,
};
use crate::error::{error, fault, outcome, Error, ErrorKind, Fault};
use crate::executor::Executor;
use crate::graph::Graph;
use crate::host::{settle, told, Halt, Known, Stop, World};
use crate::labels::{label_in, parse_label};
use crate::model::{empty_config, BuildOutput, BuildResult, Config, ConfigModel, Outcome, Output};
use crate::packages::{build_file, build_file_of, build_table, targets_in};
use crate::path::{join_path, joined_path};
use crate::plugin_abi::{
    if_usable, load_build_plugin, rule_request, AbiBuildPlugin, AbiDependencyPlanner, AbiResolverPlugin, AbiRulePlugin, CbsPluginV1,
    LoadedAbiPlugin, LoadedModel, ParseRuleRequest, PlannerModel, ResolverModel, RulePluginModel, RuleRequest,
};
use crate::rules::{escape, find_named_target, named_target, validate_workspace_relative, Rows, RuleContext};
use crate::table::{with_row, Table};
use crate::text::{begins, begins_with, cat2, cat3, cat4, keep, Duplicate};
use crate::tools::{Declared, DeclaredTools, WorkspaceToolConfig};
use crate::value::ConfigTable;
use crate::workspace::{loaded_plugins, LoadedPlugins, LoadedWorkspacePlugin, Workspace, WorkspaceModel};

verus! {

/// What resolves the targets of a workspace: the plugins that know their kinds
/// are asked.
pub struct WorkspaceResolver {
    pub root: String,
    pub current_package: String,
    pub rule_plugins: Vec<AbiRulePlugin>,
}

/// What a `WorkspaceResolver` is.
#[verifier::ext_equal]
pub struct LocalResolver {
    pub root: Seq<char>,
    pub current_package: Seq<char>,
    pub rule_plugins: Seq<RulePluginModel>,
}

impl DeepView for WorkspaceResolver {
    type V = LocalResolver;

    open spec fn deep_view(&self) -> LocalResolver {
        LocalResolver {
            root: self.root@,
            current_package: self.current_package@,
            rule_plugins: self.rule_plugins.deep_view(),
        }
    }
}

/// The plugin that is to be asked about a target, and what it is asked.
pub struct RuleCall {
    pub plugin: CbsPluginV1,
    pub request: ParseRuleRequest,
}

/// What a `RuleCall` says: the plugin, and the request.
impl DeepView for RuleCall {
    type V = (CbsPluginV1, RuleRequest);

    open spec fn deep_view(&self) -> (CbsPluginV1, RuleRequest) {
        (self.plugin, self.request.deep_view())
    }
}

/// The first of the kinds `kinds[i..]` with a target called `name`, and the
/// target.
pub open spec fn kind_with(rows: Rows, name: Seq<char>, kinds: Seq<Seq<char>>, i: int) -> Result<
    Option<(Seq<char>, Rows)>,
    Fault,
>
    decreases kinds.len() - i,
{
    if i >= kinds.len() {
        Ok(None)
    } else {
        match named_target(rows, kinds[i], name) {
            Err(e) => Err(e),
            Ok(Some(target)) => Ok(Some((kinds[i], target))),
            Ok(None) => kind_with(rows, name, kinds, i + 1),
        }
    }
}

fn find_kind(table: &ConfigTable, name: &str, kinds: &Vec<String>) -> (r: Result<Option<(String, ConfigTable)>, Error>)
    ensures
        outcome(r) == kind_with(table.deep_view(), name@, kinds.deep_view(), 0),
{
    let ghost rows = table.deep_view();
    let ghost list = kinds.deep_view();
    let mut i: usize = 0;
    while i < kinds.len()
        invariant
            i <= kinds.len(),
            rows == table.deep_view(),
            list == kinds.deep_view(),
            kind_with(rows, name@, list, 0) == kind_with(rows, name@, list, i as int),
        decreases kinds.len() - i,
    {
        assert(list[i as int] == kinds@[i as int]@);
        if let Some(target) = find_named_target(table, kinds[i].as_str(), name)? {
            return Ok(Some((kinds[i].clone(), target)));
        }
        i = i + 1;
    }
    Ok(None)
}

/// What the first of the plugins `plugins[i..]` that knows the target `name` is
/// asked, if one does.
pub open spec fn call_for(
    root: Seq<char>,
    package: Seq<char>,
    dir: Seq<char>,
    rows: Rows,
    name: Seq<char>,
    plugins: Seq<RulePluginModel>,
    i: int,
) -> Result<Option<(CbsPluginV1, RuleRequest)>, Fault>
    decreases plugins.len() - i,
{
    if i >= plugins.len() {
        Ok(None)
    } else {
        match kind_with(rows, name, plugins[i].rule_kinds, 0) {
            Err(e) => Err(e),
            Ok(None) => call_for(root, package, dir, rows, name, plugins, i + 1),
            Ok(Some((kind, target))) => match rule_request(root, package, dir, plugins[i].label_fields, kind, target) {
                Err(e) => Err(e),
                Ok(request) => Ok(Some((plugins[i].plugin, request))),
            },
        }
    }
}

/// What is asked about `target`, a target of the workspace, and of which
/// plugin.
pub open spec fn rule_call(w: World, resolver: LocalResolver, target: Seq<char>) -> Result<(CbsPluginV1, RuleRequest), Halt> {
    match label_in(target, resolver.current_package) {
        Err(e) => Err(Halt::Failed(e)),
        Ok(label) => {
            let dir = joined_path(resolver.root, label.package);
            match escape(resolver.root, dir) {
                Some(e) => Err(Halt::Failed(e)),
                None => match build_file_of(w, dir) {
                    Err(stop) => Err(stop),
                    Ok(None) => Err(
                        Halt::Failed(fault(ErrorKind::NotFound, "no BUILD.ccl found in "@ + dir)),
                    ),
                    Ok(Some(file)) => match targets_in(w, file) {
                        Err(stop) => Err(stop),
                        Ok(rows) => match call_for(
                            resolver.root,
                            label.package,
                            dir,
                            rows,
                            label.name,
                            resolver.rule_plugins,
                            0,
                        ) {
                            Err(e) => Err(Halt::Failed(e)),
                            Ok(Some(call)) => Ok(call),
                            Ok(None) => Err(
                                Halt::Failed(
                                    fault(ErrorKind::NotFound, "target "@ + target + " not found in "@ + file),
                                ),
                            ),
                        },
                    },
                },
            }
        },
    }
}

impl WorkspaceResolver {
    pub fn can_resolve(&self, target: &str) -> (r: bool)
        ensures
            r == (begins(target@, "//"@) || begins(target@, ":"@)),
    {
        begins_with(target, "//") || begins_with(target, ":")
    }

    /// What is asked about `target`, and of which plugin.
    pub fn resolve(&self, known: &Known, target: &str) -> (r: Result<RuleCall, Stop>)
        ensures
            told(r) == rule_call(known.deep_view(), self.deep_view(), target@),
    {
        let label = settle(parse_label(target, self.current_package.as_str()))?;
        let dir = join_path(self.root.as_str(), label.package.as_str());
        if let Some(e) = validate_workspace_relative(self.root.as_str(), dir.as_str()) {
            return Err(Stop::Failed(e));
        }
        let file = match build_file(known, dir.as_str())? {
            Some(file) => file,
            None => return Err(
                Stop::Failed(error(ErrorKind::NotFound, cat2("no BUILD.ccl found in ", dir.as_str()))),
            ),
        };
        let table = build_table(known, file.as_str())?;
        let context = RuleContext {
            workspace_root: self.root.clone(),
            package: label.package.clone(),
            package_dir: dir.clone(),
        };
        let ghost rows = table.deep_view();
        let ghost list = self.rule_plugins.deep_view();
        let ghost whole = call_for(self.root@, label.package@, dir@, rows, label.name@, list, 0);
        let mut i: usize = 0;
        while i < self.rule_plugins.len()
            invariant
                i <= self.rule_plugins.len(),
                rows == table.deep_view(),
                list == self.rule_plugins.deep_view(),
                context.workspace_root@ == self.root@,
                context.package@ == label.package@,
                context.package_dir@ == dir@,
                rule_call(known.deep_view(), self.deep_view(), target@) == (match whole {
                    Err(e) => Err(Halt::Failed(e)),
                    Ok(Some(call)) => Ok(call),
                    Ok(None) => Err(
                        Halt::Failed(fault(ErrorKind::NotFound, "target "@ + target@ + " not found in "@ + file@)),
                    ),
                }),
                whole == call_for(self.root@, label.package@, dir@, rows, label.name@, list, i as int),
            decreases self.rule_plugins.len() - i,
        {
            assert(list[i as int] == self.rule_plugins@[i as int].deep_view());
            let plugin = &self.rule_plugins[i];
            match find_kind(&table, label.name.as_str(), plugin.rule_kinds()) {
                Err(e) => return Err(Stop::Failed(e)),
                Ok(None) => {},
                Ok(Some((kind, found))) => return match plugin.config_from_target(&context, kind.as_str(), &found) {
                    Err(e) => Err(Stop::Failed(e)),
                    Ok(request) => Ok(RuleCall { plugin: plugin.plugin, request }),
                },
            }
            i = i + 1;
        }
        Err(
            Stop::Failed(error(ErrorKind::NotFound, cat4("target ", target, " not found in ", file.as_str()))),
        )
    }
}

/// What resolves targets: the workspace its own, plugins those whose names
/// begin in certain ways, and a table those that stand for tools.
pub enum TargetResolver {
    Workspace(WorkspaceResolver),
    Plugin(AbiResolverPlugin),
    Tools(Table<Config>),
}

/// What a `TargetResolver` is.
#[verifier::ext_equal]
pub enum ResolverKind {
    Workspace(LocalResolver),
    Plugin(ResolverModel),
    Tools(Seq<(Seq<char>, ConfigModel)>),
}

impl DeepView for TargetResolver {
    type V = ResolverKind;

    open spec fn deep_view(&self) -> ResolverKind {
        match self {
            TargetResolver::Workspace(resolver) => ResolverKind::Workspace(resolver.deep_view()),
            TargetResolver::Plugin(resolver) => ResolverKind::Plugin(resolver.deep_view()),
            TargetResolver::Tools(configs) => ResolverKind::Tools(configs.deep_view()),
        }
    }
}

/// Whether a resolver resolves `target`.
pub open spec fn resolves(resolver: ResolverKind, target: Seq<char>) -> bool {
    match resolver {
        ResolverKind::Workspace(_) => begins(target, "//"@) || begins(target, ":"@),
        ResolverKind::Plugin(plugin) => crate::plugin_abi::has_prefix(plugin.target_prefixes, target),
        ResolverKind::Tools(configs) => crate::table::found(configs, target) is Some,
    }
}

impl TargetResolver {
    pub fn can_resolve(&self, target: &str) -> (r: bool)
        ensures
            r == resolves(self.deep_view(), target@),
    {
        match self {
            TargetResolver::Workspace(resolver) => resolver.can_resolve(target),
            TargetResolver::Plugin(resolver) => resolver.can_resolve(target),
            TargetResolver::Tools(configs) => configs.has(target),
        }
    }
}

/// What builds targets: files stand for themselves, anything else is built by a
/// plugin. Nothing is built by a plugin that could not be loaded.
pub enum Builder {
    Filesystem,
    Plugin(AbiBuildPlugin),
    Unloaded(String),
}

/// What a `Builder` is.
#[verifier::ext_equal]
pub enum BuilderKind {
    Filesystem,
    Plugin(CbsPluginV1, Option<usize>),
    Unloaded(Seq<char>),
}

impl DeepView for Builder {
    type V = BuilderKind;

    open spec fn deep_view(&self) -> BuilderKind {
        match self {
            Builder::Filesystem => BuilderKind::Filesystem,
            Builder::Plugin(plugin) => BuilderKind::Plugin(plugin.plugin, plugin.library),
            Builder::Unloaded(message) => BuilderKind::Unloaded(message@),
        }
    }
}

/// The builder that the file `path` holds, where `library` is what came of
/// loading it, if there is such a file.
pub open spec fn builder_at(path: Seq<char>, library: Option<Result<LoadedModel, Fault>>) -> BuilderKind {
    match library {
        None => BuilderKind::Unloaded("plugin path "@ + path + " does not exist"@),
        Some(Err(e)) => BuilderKind::Unloaded(e.message),
        Some(Ok(library)) => match if_usable(library.plugin, (library.plugin, library.library)) {
            Err(e) => BuilderKind::Unloaded(e.message),
            Ok((plugin, library)) => BuilderKind::Plugin(plugin, library),
        },
    }
}

/// The builder that the file `path` holds; `library` is what came of loading it,
/// if there is such a file.
pub fn load_plugin(path: &str, library: &Option<Result<LoadedAbiPlugin, Error>>) -> (r: Builder)
    ensures
        r.deep_view() == builder_at(
            path@,
            match *library {
                None => None,
                Some(loaded) => Some(outcome(loaded)),
            },
        ),
{
    match library {
        None => Builder::Unloaded(cat3("plugin path ", path, " does not exist")),
        Some(Err(e)) => Builder::Unloaded(e.message.clone()),
        Some(Ok(loaded)) => match load_build_plugin(loaded) {
            Err(e) => Builder::Unloaded(e.message),
            Ok(plugin) => Builder::Plugin(plugin),
        },
    }
}

/// What a build by a plugin that could not be loaded comes to.
pub fn unloaded_result(message: &str) -> (r: BuildResult)
    ensures
        r.deep_view() == Outcome::Failure("failed to load build plugin: "@ + message@),
{
    BuildResult::Failure(cat2("failed to load build plugin: ", message))
}

/// What the build of a file that is there already leaves behind: the file.
pub open spec fn located(location: Option<Seq<char>>) -> Output {
    Output {
        outputs: match location {
            Some(path) => seq![path],
            None => Seq::empty(),
        },
        extras: Seq::empty(),
    }
}

pub fn located_result(config: &Config) -> (r: BuildResult)
    ensures
        r.deep_view() == Outcome::Success(located(config.deep_view().location)),
{
    let mut output = BuildOutput::empty();
    if let Some(path) = &config.location {
        keep(&mut output.outputs, path.clone());
    }
    assert(output.deep_view() =~= located(config.deep_view().location));
    BuildResult::Success(output)
}

/// The executor of a workspace.
pub type WorkspaceExecutor = Executor<TargetResolver, AbiDependencyPlanner, Builder>;

/// What an executor works with, before it has tasks.
#[verifier::ext_equal]
pub struct Assembled {
    pub context: ContextModel,
    pub resolvers: Seq<ResolverKind>,
    pub planners: Seq<(Seq<char>, PlannerModel)>,
    pub builder_names: Seq<(Seq<char>, usize)>,
    pub builders: Seq<Builder>,
}

pub open spec fn assembled(executor: WorkspaceExecutor) -> Assembled {
    Assembled {
        context: executor.context.deep_view(),
        resolvers: executor.resolvers.deep_view(),
        planners: executor.dependency_planners.deep_view(),
        builder_names: executor.builder_names.deep_view(),
        builders: executor.builders@,
    }
}

/// `done` with the plugins `plugins[i..]` that know kinds of targets.
pub open spec fn rule_plugins_of(plugins: LoadedPlugins, i: int, done: Seq<RulePluginModel>) -> Result<
    Seq<RulePluginModel>,
    Fault,
>
    decreases plugins.len() - i,
{
    if i >= plugins.len() {
        Ok(done)
    } else {
        let loaded = plugins[i].1;
        if loaded.manifest.rule_kinds.len() == 0 {
            rule_plugins_of(plugins, i + 1, done)
        } else {
            match if_usable(
                loaded.plugin,
                RulePluginModel {
                    plugin: loaded.plugin,
                    rule_kinds: loaded.manifest.rule_kinds,
                    label_fields: loaded.manifest.label_fields,
                    library: loaded.library,
                },
            ) {
                Err(e) => Err(e),
                Ok(plugin) => rule_plugins_of(plugins, i + 1, done.push(plugin)),
            }
        }
    }
}

fn rule_plugins(plugins: &Vec<LoadedWorkspacePlugin>) -> (r: Result<Vec<AbiRulePlugin>, Error>)
    ensures
        outcome(r) == rule_plugins_of(plugins.deep_view(), 0, Seq::empty()),
{
    let ghost list = plugins.deep_view();
    let mut out: Vec<AbiRulePlugin> = Vec::new();
    assert(out.deep_view() =~= Seq::<RulePluginModel>::empty());
    let mut i: usize = 0;
    while i < plugins.len()
        invariant
            i <= plugins.len(),
            list == plugins.deep_view(),
            rule_plugins_of(list, 0, Seq::empty()) == rule_plugins_of(list, i as int, out.deep_view()),
        decreases plugins.len() - i,
    {
        assert(list[i as int] == plugins@[i as int].deep_view());
        let loaded = &plugins[i].loaded;
        if loaded.manifest.rule_kinds.len() > 0 {
            let kinds = loaded.manifest.rule_kinds.duplicate();
            let fields = loaded.manifest.label_fields.duplicate();
            let plugin = match loaded.library {
                Some(library) => AbiRulePlugin::with_library(loaded.plugin, kinds, fields, library)?,
                None => AbiRulePlugin::new(loaded.plugin, kinds, fields)?,
            };
            keep(&mut out, plugin);
        }
        i = i + 1;
    }
    Ok(out)
}

/// The planners of the ecosystems `ecosystems[i..]`, behind `done`.
pub open spec fn planners_of(loaded: LoadedModel, i: int, done: Seq<(Seq<char>, PlannerModel)>) -> Result<
    Seq<(Seq<char>, PlannerModel)>,
    Fault,
>
    decreases loaded.manifest.dependency_ecosystems.len() - i,
{
    if i >= loaded.manifest.dependency_ecosystems.len() {
        Ok(done)
    } else {
        let ecosystem = loaded.manifest.dependency_ecosystems[i];
        match if_usable(loaded.plugin, PlannerModel { plugin: loaded.plugin, ecosystem, library: loaded.library }) {
            Err(e) => Err(e),
            Ok(planner) => planners_of(loaded, i + 1, done.push((ecosystem, planner))),
        }
    }
}

/// The resolver that a plugin is, behind `done`, where it resolves targets.
pub open spec fn with_resolver_of(loaded: LoadedModel, done: Seq<ResolverKind>) -> Result<Seq<ResolverKind>, Fault> {
    if loaded.manifest.target_prefixes.len() == 0 {
        Ok(done)
    } else {
        match if_usable(
            loaded.plugin,
            ResolverModel {
                plugin: loaded.plugin,
                target_prefixes: loaded.manifest.target_prefixes,
                library: loaded.library,
            },
        ) {
            Err(e) => Err(e),
            Ok(resolver) => Ok(done.push(ResolverKind::Plugin(resolver))),
        }
    }
}

/// The planners and resolvers that the plugins `plugins[i..]` are, behind those
/// in `done`.
pub open spec fn with_plugins(
    plugins: LoadedPlugins,
    i: int,
    done: (Seq<(Seq<char>, PlannerModel)>, Seq<ResolverKind>),
) -> Result<(Seq<(Seq<char>, PlannerModel)>, Seq<ResolverKind>), Fault>
    decreases plugins.len() - i,
{
    if i >= plugins.len() {
        Ok(done)
    } else {
        match planners_of(plugins[i].1, 0, done.0) {
            Err(e) => Err(e),
            Ok(planners) => match with_resolver_of(plugins[i].1, done.1) {
                Err(e) => Err(e),
                Ok(resolvers) => with_plugins(plugins, i + 1, (planners, resolvers)),
            },
        }
    }
}

/// The configuration of a tool in a file.
pub open spec fn file_config(path: Seq<char>) -> ConfigModel {
    ConfigModel { build_plugin: "@filesystem"@, location: Some(path), ..empty_config() }
}

fn config_of_file(path: String) -> (r: Config)
    ensures
        r.deep_view() == file_config(path@),
{
    let r = Config { build_plugin: "@filesystem".to_owned(), location: Some(path), ..Config::empty() };
    assert(r.deep_view() =~= file_config(path@));
    r
}

/// `configs` with those of the targets `names[i..]`, all in the file `path`.
pub open spec fn with_file_targets(
    configs: Seq<(Seq<char>, ConfigModel)>,
    names: Seq<Seq<char>>,
    path: Seq<char>,
    i: int,
) -> Seq<(Seq<char>, ConfigModel)>
    decreases names.len() - i,
{
    if i >= names.len() {
        configs
    } else {
        with_file_targets(with_row(configs, names[i], file_config(path)), names, path, i + 1)
    }
}

/// `configs` with those of the build plugins in `plugins[i..]`.
pub open spec fn with_build_plugins(configs: Seq<(Seq<char>, ConfigModel)>, plugins: LoadedPlugins, i: int) -> Seq<
    (Seq<char>, ConfigModel),
>
    decreases plugins.len() - i,
{
    if i >= plugins.len() {
        configs
    } else {
        with_build_plugins(
            with_file_targets(configs, plugins[i].1.manifest.build_plugins, plugins[i].0, 0),
            plugins,
            i + 1,
        )
    }
}

/// The targets that stand for tools: the compiler, the plugin for Rust, and the
/// plugins that build.
pub open spec fn tool_configs_of(rustc: Seq<char>, plugins: LoadedPlugins) -> Seq<(Seq<char>, ConfigModel)> {
    with_build_plugins(
        with_row(
            with_row(Seq::empty(), "@rust_compiler"@, file_config(rustc)),
            "@rust_plugin"@,
            file_config("/tmp/rust.cdylib"@),
        ),
        plugins,
        0,
    )
}

fn tool_configs(rustc: &str, plugins: &Vec<LoadedWorkspacePlugin>) -> (r: Table<Config>)
    ensures
        r.deep_view() == tool_configs_of(rustc@, plugins.deep_view()),
{
    let ghost list = plugins.deep_view();
    let mut configs: Table<Config> = Table::new();
    configs.insert("@rust_compiler".to_owned(), config_of_file(rustc.to_owned()));
    configs.insert("@rust_plugin".to_owned(), config_of_file("/tmp/rust.cdylib".to_owned()));
    let mut i: usize = 0;
    while i < plugins.len()
        invariant
            i <= plugins.len(),
            list == plugins.deep_view(),
            tool_configs_of(rustc@, list) == with_build_plugins(configs.deep_view(), list, i as int),
        decreases plugins.len() - i,
    {
        assert(list[i as int] == plugins@[i as int].deep_view());
        let names = &plugins[i].loaded.manifest.build_plugins;
        let path = &plugins[i].path;
        let ghost start = configs.deep_view();
        let ghost targets = names.deep_view();
        let mut k: usize = 0;
        while k < names.len()
            invariant
                k <= names.len(),
                targets == names.deep_view(),
                with_file_targets(start, targets, path@, 0) == with_file_targets(
                    configs.deep_view(),
                    targets,
                    path@,
                    k as int,
                ),
            decreases names.len() - k,
        {
            assert(targets[k as int] == names@[k as int]@);
            configs.insert(names[k].clone(), config_of_file(path.clone()));
            k = k + 1;
        }
        i = i + 1;
    }
    configs
}

/// The tools of a context.
pub open spec fn tools_for_context(tools: DeclaredTools) -> Seq<(Seq<char>, (Seq<char>, Seq<char>))> {
    tools.map_values(|row: (Seq<char>, Declared)| (row.0, (row.1.path, row.1.fingerprint)))
}

pub fn context_tools(tools: &Table<WorkspaceToolConfig>) -> (r: Vec<(String, Tool)>)
    ensures
        r.deep_view() == tools_for_context(tools.deep_view()),
{
    let ghost rows = tools.deep_view();
    let mut out: Vec<(String, Tool)> = Vec::new();
    let mut i: usize = 0;
    assert(out.deep_view() =~= tools_for_context(rows).take(0));
    while i < tools.rows.len()
        invariant
            i <= tools.rows.len(),
            rows == tools.deep_view(),
            out.deep_view() == tools_for_context(rows).take(i as int),
        decreases tools.rows.len() - i,
    {
        assert(rows[i as int] == (tools.rows@[i as int].0@, tools.rows@[i as int].1.deep_view()));
        let tool = &tools.rows[i].1;
        keep(
            &mut out,
            (
                tools.rows[i].0.clone(),
                Tool { path: tool.path.clone(), fingerprint: tool.fingerprint.clone() },
            ),
        );
        i = i + 1;
        assert(tools_for_context(rows).take(i as int) =~= tools_for_context(rows).take(i - 1).push(
            tools_for_context(rows)[i - 1],
        ));
    }
    assert(tools_for_context(rows).take(i as int) =~= tools_for_context(rows));
    out
}

/// The context of builds in a workspace.
pub open spec fn context_of(ws: WorkspaceModel) -> ContextModel {
    let config = collected_config(ws.config.target_config);
    ContextModel {
        tools: with_rows(Seq::empty(), tools_for_context(ws.config.tools)),
        tool_fingerprints: ws.config.tool_fingerprints,
        hash: context_hash(config, ws.config.tool_fingerprints) as u64,
        ..fresh_context(ws.config.cache_dir, config)
    }
}

/// What the executor of a workspace works with.
pub open spec fn executor_for(w: World, ws: WorkspaceModel) -> Result<Assembled, Halt> {
    match loaded_plugins(w, ws.config.plugins, 0, Seq::empty()) {
        Err(stop) => Err(stop),
        Ok(plugins) => match rule_plugins_of(plugins, 0, Seq::empty()) {
            Err(e) => Err(Halt::Failed(e)),
            Ok(rule_plugins) => {
                let local = ResolverKind::Workspace(
                    LocalResolver { root: ws.root, current_package: ws.current_package, rule_plugins },
                );
                match with_plugins(plugins, 0, (Seq::empty(), seq![local])) {
                    Err(e) => Err(Halt::Failed(e)),
                    Ok((planners, resolvers)) => Ok(
                        Assembled {
                            context: context_of(ws),
                            resolvers: resolvers.push(
                                ResolverKind::Tools(tool_configs_of(ws.config.rustc, plugins)),
                            ),
                            planners,
                            builder_names: with_row(Seq::empty(), "@filesystem"@, 0),
                            builders: seq![Builder::Filesystem],
                        },
                    ),
                }
            },
        },
    }
}

/// What an executor, or what stands in its place, says.
pub open spec fn executor_told(r: Result<WorkspaceExecutor, Stop>) -> Result<Assembled, Halt> {
    match r {
        Ok(executor) => Ok(assembled(executor)),
        Err(stop) => Err(stop.deep_view()),
    }
}

/// The parts of an executor that plugins are added to.
pub open spec fn plugged(executor: WorkspaceExecutor) -> (Seq<(Seq<char>, PlannerModel)>, Seq<ResolverKind>) {
    (executor.dependency_planners.deep_view(), executor.resolvers.deep_view())
}

fn add_planners(executor: WorkspaceExecutor, plugin: &LoadedWorkspacePlugin) -> (r: Result<WorkspaceExecutor, Error>)
    ensures
        match (planners_of(plugin.deep_view().1, 0, executor.dependency_planners.deep_view()), r) {
            (Err(e), Err(found)) => found.deep_view() == e,
            (Ok(planners), Ok(made)) => made.dependency_planners.deep_view() == planners && made == (Executor {
                dependency_planners: made.dependency_planners,
                ..executor
            }),
            _ => false,
        },
{
    let loaded = &plugin.loaded;
    let ghost model = loaded.deep_view();
    let mut made = executor;
    let mut i: usize = 0;
    while i < loaded.manifest.dependency_ecosystems.len()
        invariant
            i <= loaded.manifest.dependency_ecosystems.len(),
            model == loaded.deep_view(),
            model == plugin.deep_view().1,
            made == (Executor { dependency_planners: made.dependency_planners, ..executor }),
            planners_of(model, 0, executor.dependency_planners.deep_view()) == planners_of(
                model,
                i as int,
                made.dependency_planners.deep_view(),
            ),
        decreases loaded.manifest.dependency_ecosystems.len() - i,
    {
        let name = &loaded.manifest.dependency_ecosystems[i];
        assert(model.manifest.dependency_ecosystems[i as int] == name@);
        let planner = match loaded.library {
            Some(library) => AbiDependencyPlanner::with_library(loaded.plugin, name.clone(), library)?,
            None => AbiDependencyPlanner::new(loaded.plugin, name.clone())?,
        };
        let ghost before = made.dependency_planners.deep_view();
        let ghost row = (name@, planner.deep_view());
        made.add_dependency_planner_plugin(name.clone(), planner);
        assert(made.dependency_planners.deep_view() =~= before.push(row));
        i = i + 1;
    }
    Ok(made)
}

fn add_resolver(executor: WorkspaceExecutor, plugin: &LoadedWorkspacePlugin) -> (r: Result<WorkspaceExecutor, Error>)
    ensures
        match (with_resolver_of(plugin.deep_view().1, executor.resolvers.deep_view()), r) {
            (Err(e), Err(found)) => found.deep_view() == e,
            (Ok(resolvers), Ok(made)) => made.resolvers.deep_view() == resolvers && made == (Executor {
                resolvers: made.resolvers,
                ..executor
            }),
            _ => false,
        },
{
    let loaded = &plugin.loaded;
    if loaded.manifest.target_prefixes.len() == 0 {
        return Ok(executor);
    }
    let prefixes = loaded.manifest.target_prefixes.duplicate();
    let resolver = match loaded.library {
        Some(library) => AbiResolverPlugin::with_library(loaded.plugin, prefixes, library)?,
        None => AbiResolverPlugin::new(loaded.plugin, prefixes)?,
    };
    let mut made = executor;
    let ghost kind = ResolverKind::Plugin(resolver.deep_view());
    let ghost before = made.resolvers.deep_view();
    made.add_resolver_plugin(TargetResolver::Plugin(resolver));
    assert(made.resolvers.deep_view() =~= before.push(kind));
    Ok(made)
}

fn add_plugin_resolvers_and_planners(executor: WorkspaceExecutor, plugins: &Vec<LoadedWorkspacePlugin>) -> (r: Result<
    WorkspaceExecutor,
    Error,
>)
    ensures
        match (with_plugins(plugins.deep_view(), 0, plugged(executor)), r) {
            (Err(e), Err(found)) => found.deep_view() == e,
            (Ok(parts), Ok(made)) => plugged(made) == parts && made == (Executor {
                dependency_planners: made.dependency_planners,
                resolvers: made.resolvers,
                ..executor
            }),
            _ => false,
        },
{
    let ghost list = plugins.deep_view();
    let mut made = executor;
    let mut i: usize = 0;
    while i < plugins.len()
        invariant
            i <= plugins.len(),
            list == plugins.deep_view(),
            made == (Executor {
                dependency_planners: made.dependency_planners,
                resolvers: made.resolvers,
                ..executor
            }),
            with_plugins(list, 0, plugged(executor)) == with_plugins(list, i as int, plugged(made)),
        decreases plugins.len() - i,
    {
        assert(list[i as int] == plugins@[i as int].deep_view());
        made = add_planners(made, &plugins[i])?;
        made = add_resolver(made, &plugins[i])?;
        i = i + 1;
    }
    Ok(made)
}

impl Workspace {
    /// The executor of the workspace, which has no tasks and no logs yet.
    pub fn executor(&self, known: &Known) -> (r: Result<WorkspaceExecutor, Stop>)
        ensures
            executor_told(r) == executor_for(known.deep_view(), self.deep_view()),
            r matches Ok(executor) ==> executor.well_formed() && executor.tasks.deep_view() == (Graph {
                tasks: Seq::empty(),
                by_target: Seq::empty(),
                rdeps: Seq::empty(),
            }) && executor.logs.deep_view() == Seq::<(Seq<char>, Seq<Seq<char>>)>::empty(),
    {
        let facts = copy_facts(&self.config.target_config);
        let mut context = Context::new(self.config.cache_dir.clone(), facts).with_tools(
            context_tools(&self.config.tools),
        ).with_tool_fingerprints(self.config.tool_fingerprints.duplicate());
        let _hash: u64 = context.calculate_hash();
        assert(context.deep_view() =~= context_of(self.deep_view()));
        let mut executor: WorkspaceExecutor = Executor::with_context(context);
        let plugins = self.load_workspace_plugins(known)?;
        let rule_plugins = match rule_plugins(&plugins) {
            Ok(plugins) => plugins,
            Err(e) => return Err(Stop::Failed(e)),
        };
        executor.add_builder_plugin("@filesystem".to_owned(), Builder::Filesystem);
        let resolver = WorkspaceResolver {
            root: self.root.clone(),
            current_package: self.current_package.clone(),
            rule_plugins,
        };
        let ghost local = ResolverKind::Workspace(resolver.deep_view());
        executor.add_resolver_plugin(TargetResolver::Workspace(resolver));
        assert(executor.resolvers.deep_view() =~= seq![local]);
        assert(executor.dependency_planners.deep_view() =~= Seq::empty());
        let mut executor = match add_plugin_resolvers_and_planners(executor, &plugins) {
            Ok(executor) => executor,
            Err(e) => return Err(Stop::Failed(e)),
        };
        let configs = tool_configs(self.config.rustc.as_str(), &plugins);
        let ghost tools = ResolverKind::Tools(configs.deep_view());
        let ghost before = executor.resolvers.deep_view();
        executor.add_resolver_plugin(TargetResolver::Tools(configs));
        assert(executor.resolvers.deep_view() =~= before.push(tools));
        assert(executor.builders@ =~= seq![Builder::Filesystem]);
        Ok(executor)
    }
}

} // verus!
