//! The configuration of a workspace: its cache, its plugins, its tools, and the
//! machine that it builds for.

use vstd::prelude::*;

use crate::config_file::{load_workspace_table, loaded_rows};
use crate::context::{collect_config, collected_config, facts_in, sort_pairs, sorted_pairs, BuildConfigKey};
use crate::error::{error, fault, invalid_data, outcome, Error, ErrorKind, Fault};
use crate::host::{
    settle, told, Answer, BroughtTool, Halt, Known, PluginInitRequest, PluginInitResponse, PluginTool, Query, Question,
    StartRequest, Started, Stop, World,
};
use crate::path::{join_path, joined_path};
use crate::platform::{platform_fingerprints, platform_requirement_fingerprints, target_config, target_facts};
use crate::plugin_abi::{LoadedAbiPlugin, LoadedModel};
use crate::rules::{required_string, required_text, Rows};
use crate::table::{found, Table};
use crate::text::{cat3, cat4, cat5, keep, keep_all, same, Duplicate};
use crate::tools::{
    explain, explained, insert_workspace_tools, root_relative, tool_path, with_more_tools, workspace_declared,
    workspace_tools, Declared, DeclaredTools, WorkspaceToolConfig,
};
use crate::value::{items_in, member, rows_in, table_at, text_at, text_in, ConfigTable, ConfigValue, Node};

verus! {

/// A plugin of a workspace: its name, where it is, and what it is told.
pub struct WorkspacePluginConfig {
    pub name: String,
    pub path: String,
    pub parameters: Table<String>,
}

/// What a `WorkspacePluginConfig` says.
#[verifier::ext_equal]
pub struct PluginRow {
    pub name: Seq<char>,
    pub path: Seq<char>,
    pub parameters: Seq<(Seq<char>, Seq<char>)>,
}

impl DeepView for WorkspacePluginConfig {
    type V = PluginRow;

    open spec fn deep_view(&self) -> PluginRow {
        PluginRow { name: self.name@, path: self.path@, parameters: self.parameters.deep_view() }
    }
}

/// `done` with the texts `rows[i..]`.
pub open spec fn parameters_in(rows: Rows, i: int, done: Seq<(Seq<char>, Seq<char>)>) -> Result<
    Seq<(Seq<char>, Seq<char>)>,
    Fault,
>
    decreases rows.len() - i,
{
    if i >= rows.len() {
        Ok(done)
    } else {
        match text_in(Some(rows[i].1)) {
            None => Err(fault(ErrorKind::InvalidData, "plugin parameter "@ + rows[i].0 + " must be a string"@)),
            Some(text) => parameters_in(rows, i + 1, crate::table::with_row(done, rows[i].0, text)),
        }
    }
}

/// What a plugin is told.
pub open spec fn told_to_plugin(rows: Rows) -> Result<Seq<(Seq<char>, Seq<char>)>, Fault> {
    match found(rows, "parameters"@) {
        None => Ok(Seq::empty()),
        Some(value) => match rows_in(Some(value)) {
            None => Err(fault(ErrorKind::InvalidData, "plugin parameters must be a table"@)),
            Some(parameters) => parameters_in(parameters, 0, Seq::empty()),
        },
    }
}

pub fn plugin_parameters(plugin: &ConfigTable) -> (r: Result<Table<String>, Error>)
    ensures
        outcome(r) == told_to_plugin(plugin.deep_view()),
{
    let mut out: Table<String> = Table::new();
    let value = match plugin.get("parameters") {
        None => return Ok(out),
        Some(value) => value,
    };
    let parameters = match value.as_table() {
        None => return Err(invalid_data("plugin parameters must be a table")),
        Some(parameters) => parameters,
    };
    let ghost rows = parameters.deep_view();
    let mut i: usize = 0;
    while i < parameters.rows.len()
        invariant
            i <= parameters.rows.len(),
            rows == parameters.deep_view(),
            told_to_plugin(plugin.deep_view()) == parameters_in(rows, i as int, out.deep_view()),
        decreases parameters.rows.len() - i,
    {
        assert(rows[i as int] == (parameters.rows@[i as int].0@, parameters.rows@[i as int].1.deep_view()));
        let key = &parameters.rows[i].0;
        match parameters.rows[i].1.as_str() {
            None => return Err(
                error(ErrorKind::InvalidData, cat3("plugin parameter ", key.as_str(), " must be a string")),
            ),
            Some(text) => {
                out.insert(key.clone(), text.to_owned());
            },
        }
        i = i + 1;
    }
    Ok(out)
}

/// The plugin that an entry of `plugins` states.
pub open spec fn plugin_in(root: Seq<char>, entry: Node) -> Result<PluginRow, Fault> {
    match rows_in(Some(entry)) {
        None => Err(fault(ErrorKind::InvalidData, "plugins entries must be tables"@)),
        Some(rows) => match required_text(rows, "name"@) {
            Err(e) => Err(e),
            Ok(name) => match required_text(rows, "path"@) {
                Err(e) => Err(e),
                Ok(path) => match told_to_plugin(rows) {
                    Err(e) => Err(e),
                    Ok(parameters) => Ok(PluginRow { name, path: joined_path(root, path), parameters }),
                },
            },
        },
    }
}

fn workspace_plugin(root: &str, entry: &ConfigValue) -> (r: Result<WorkspacePluginConfig, Error>)
    ensures
        outcome(r) == plugin_in(root@, entry.deep_view()),
{
    let plugin = match entry.as_table() {
        Some(plugin) => plugin,
        None => return Err(invalid_data("plugins entries must be tables")),
    };
    let name = required_string(plugin, "name")?;
    let path = required_string(plugin, "path")?;
    let parameters = plugin_parameters(plugin)?;
    Ok(WorkspacePluginConfig { name, path: join_path(root, path.as_str()), parameters })
}

/// `done` with the plugins that `entries[i..]` state.
pub open spec fn plugins_in(root: Seq<char>, entries: Seq<Node>, i: int, done: Seq<PluginRow>) -> Result<
    Seq<PluginRow>,
    Fault,
>
    decreases entries.len() - i,
{
    if i >= entries.len() {
        Ok(done)
    } else {
        match plugin_in(root, entries[i]) {
            Err(e) => Err(e),
            Ok(plugin) => plugins_in(root, entries, i + 1, done.push(plugin)),
        }
    }
}

/// The plugins that a workspace declares.
pub open spec fn declared_plugins(root: Seq<char>, rows: Rows) -> Result<Seq<PluginRow>, Fault> {
    match found(rows, "plugins"@) {
        None => Ok(Seq::empty()),
        Some(value) => match items_in(Some(value)) {
            None => Err(fault(ErrorKind::InvalidData, "plugins must be an array of tables"@)),
            Some(entries) => plugins_in(root, entries, 0, Seq::empty()),
        },
    }
}

/// The plugin for Rust, which every workspace has.
pub open spec fn rust_plugin() -> PluginRow {
    PluginRow { name: "rust"@, path: "/tmp/rust.cdylib"@, parameters: Seq::empty() }
}

/// Whether one of `plugins` is called `name`.
pub open spec fn has_plugin(plugins: Seq<PluginRow>, name: Seq<char>) -> bool {
    exists|i: int| 0 <= i < plugins.len() && (#[trigger] plugins[i]).name == name
}

/// `plugins` with the plugin for Rust, where it is not one of them.
pub open spec fn with_rust_plugin(plugins: Seq<PluginRow>) -> Seq<PluginRow> {
    if has_plugin(plugins, "rust"@) {
        plugins
    } else {
        seq![rust_plugin()] + plugins
    }
}

/// The plugins of a workspace.
pub open spec fn all_plugins(root: Seq<char>, rows: Rows) -> Result<Seq<PluginRow>, Fault> {
    match declared_plugins(root, rows) {
        Err(e) => Err(e),
        Ok(plugins) => Ok(with_rust_plugin(plugins)),
    }
}

/// Every workspace has a plugin for Rust.
pub proof fn law_rust_plugin(root: Seq<char>, rows: Rows)
    ensures
        all_plugins(root, rows) matches Ok(plugins) ==> has_plugin(plugins, "rust"@),
{
    if let Ok(plugins) = declared_plugins(root, rows) {
        if !has_plugin(plugins, "rust"@) {
            assert(with_rust_plugin(plugins)[0].name == "rust"@);
        }
    }
}

fn declares_plugin(plugins: &Vec<WorkspacePluginConfig>, name: &str) -> (r: bool)
    ensures
        r == has_plugin(plugins.deep_view(), name@),
{
    let ghost list = plugins.deep_view();
    let mut i: usize = 0;
    while i < plugins.len()
        invariant
            i <= plugins.len(),
            list == plugins.deep_view(),
            forall|j: int| 0 <= j < i ==> (#[trigger] list[j]).name != name@,
        decreases plugins.len() - i,
    {
        assert(list[i as int] == plugins@[i as int].deep_view());
        if same(plugins[i].name.as_str(), name) {
            return true;
        }
        i = i + 1;
    }
    false
}

pub fn workspace_plugins(root: &str, table: &ConfigTable) -> (r: Result<Vec<WorkspacePluginConfig>, Error>)
    ensures
        outcome(r) == all_plugins(root@, table.deep_view()),
{
    let mut out: Vec<WorkspacePluginConfig> = Vec::new();
    assert(out.deep_view() =~= Seq::<PluginRow>::empty());
    if let Some(value) = table.get("plugins") {
        let entries = match value.as_array() {
            None => return Err(invalid_data("plugins must be an array of tables")),
            Some(entries) => entries,
        };
        let ghost list = entries.deep_view();
        let mut i: usize = 0;
        while i < entries.len()
            invariant
                i <= entries.len(),
                list == entries.deep_view(),
                declared_plugins(root@, table.deep_view()) == plugins_in(root@, list, i as int, out.deep_view()),
            decreases entries.len() - i,
        {
            assert(list[i as int] == entries@[i as int].deep_view());
            let plugin = workspace_plugin(root, &entries[i])?;
            keep(&mut out, plugin);
            i = i + 1;
        }
    }
    let ghost declared = out.deep_view();
    if !declares_plugin(&out, "rust") {
        let rust = WorkspacePluginConfig {
            name: "rust".to_owned(),
            path: "/tmp/rust.cdylib".to_owned(),
            parameters: Table::new(),
        };
        let ghost first = rust.deep_view();
        out.insert(0, rust);
        assert(first =~= rust_plugin());
        assert(out.deep_view() =~= seq![rust_plugin()] + declared);
    }
    Ok(out)
}

/// The plugin that `row` states, where it is the one that its file holds.
pub open spec fn loaded_named(w: World, row: PluginRow, verb: Seq<char>) -> Result<LoadedModel, Halt> {
    match explained(
        w.plugin(row.path, row.name),
        "failed to "@ + verb + " workspace plugin "@ + row.name + (" at "@ + row.path + ": "@),
    ) {
        Err(stop) => Err(stop),
        Ok(loaded) => if loaded.manifest.name != row.name {
            Err(
                Halt::Failed(
                    fault(
                        ErrorKind::InvalidData,
                        "workspace plugin "@ + row.name + " loaded manifest for "@ + loaded.manifest.name,
                    ),
                ),
            )
        } else {
            Ok(loaded)
        },
    }
}

pub fn load_named(known: &Known, plugin: &WorkspacePluginConfig, verb: &str) -> (r: Result<LoadedAbiPlugin, Stop>)
    ensures
        told(r) == loaded_named(known.deep_view(), plugin.deep_view(), verb@),
{
    let loaded = explain(
        known.plugin(plugin.path.as_str(), plugin.name.as_str()),
        cat5(
            "failed to ",
            verb,
            " workspace plugin ",
            plugin.name.as_str(),
            cat3(" at ", plugin.path.as_str(), ": ").as_str(),
        ),
    )?;
    if !same(loaded.manifest.name.as_str(), plugin.name.as_str()) {
        return Err(
            Stop::Failed(
                error(
                    ErrorKind::InvalidData,
                    cat4(
                        "workspace plugin ",
                        plugin.name.as_str(),
                        " loaded manifest for ",
                        loaded.manifest.name.as_str(),
                    ),
                ),
            ),
        );
    }
    Ok(loaded)
}

/// A tool that a plugin brings, as a tool of the workspace.
pub open spec fn as_declared(tool: BroughtTool) -> Declared {
    Declared { name: tool.name, kind: tool.kind, path: tool.path, sha256: None, fingerprint: tool.fingerprint }
}

/// Tools that a plugin brings, as tools of the workspace.
pub open spec fn all_declared(tools: Seq<BroughtTool>) -> Seq<Declared> {
    tools.map_values(|tool: BroughtTool| as_declared(tool))
}

fn add_brought(tools: &mut Vec<WorkspaceToolConfig>, brought: &Vec<PluginTool>)
    ensures
        final(tools).deep_view() == old(tools).deep_view() + all_declared(brought.deep_view()),
{
    let ghost list = brought.deep_view();
    let mut i: usize = 0;
    assert(tools.deep_view() =~= old(tools).deep_view() + all_declared(list).take(0));
    while i < brought.len()
        invariant
            i <= brought.len(),
            list == brought.deep_view(),
            tools.deep_view() == old(tools).deep_view() + all_declared(list).take(i as int),
        decreases brought.len() - i,
    {
        assert(list[i as int] == brought@[i as int].deep_view());
        let tool = &brought[i];
        keep(
            tools,
            WorkspaceToolConfig {
                name: tool.name.clone(),
                kind: tool.kind.clone(),
                path: tool.path.clone(),
                sha256: None,
                fingerprint: tool.fingerprint.clone(),
            },
        );
        i = i + 1;
        assert(all_declared(list).take(i as int) =~= all_declared(list).take(i - 1).push(all_declared(list)[i - 1]));
        assert(tools.deep_view() =~= old(tools).deep_view() + all_declared(list).take(i as int));
    }
    assert(all_declared(list).take(i as int) =~= all_declared(list));
}

/// What the plugins of a workspace bring: tools and fingerprints.
#[verifier::ext_equal]
pub struct Brought {
    pub tools: Seq<Declared>,
    pub fingerprints: Seq<(Seq<char>, Seq<char>)>,
}

pub struct PluginWorkspaceTools {
    pub tools: Vec<WorkspaceToolConfig>,
    pub fingerprints: Vec<(String, String)>,
}

impl DeepView for PluginWorkspaceTools {
    type V = Brought;

    open spec fn deep_view(&self) -> Brought {
        Brought { tools: self.tools.deep_view(), fingerprints: self.fingerprints.deep_view() }
    }
}

/// `done` with what the plugins `plugins[i..]` bring when they are started.
pub open spec fn brought_by(
    w: World,
    root: Seq<char>,
    cache_dir: Seq<char>,
    facts: Seq<(u32, Seq<char>)>,
    plugins: Seq<PluginRow>,
    i: int,
    done: Brought,
) -> Result<Brought, Halt>
    decreases plugins.len() - i,
{
    if i >= plugins.len() {
        Ok(done)
    } else {
        match loaded_named(w, plugins[i], "initialize"@) {
            Err(stop) => Err(stop),
            Ok(_) => if i >= w.started.len() {
                Err(
                    Halt::Ask(
                        Query::Start(
                            StartRequest {
                                name: plugins[i].name,
                                workspace_root: root,
                                cache_dir,
                                target_config: facts,
                                parameters: plugins[i].parameters,
                            },
                        ),
                    ),
                )
            } else {
                match w.started[i] {
                    Err(e) => Err(Halt::Failed(e)),
                    Ok(Started::Failure(reason)) => Err(
                        Halt::Failed(
                            fault(
                                ErrorKind::InvalidData,
                                "workspace plugin "@ + plugins[i].name + " initialization failed: "@ + reason,
                            ),
                        ),
                    ),
                    Ok(Started::Success(tools, fingerprints)) => brought_by(
                        w,
                        root,
                        cache_dir,
                        facts,
                        plugins,
                        i + 1,
                        Brought {
                            tools: done.tools + all_declared(tools),
                            fingerprints: done.fingerprints + fingerprints,
                        },
                    ),
                }
            },
        }
    }
}

pub fn plugin_workspace_tools(
    known: &Known,
    root: &str,
    cache_dir: &str,
    target_config: &Vec<(BuildConfigKey, String)>,
    plugins: &Vec<WorkspacePluginConfig>,
) -> (r: Result<PluginWorkspaceTools, Stop>)
    ensures
        told(r) == brought_by(
            known.deep_view(),
            root@,
            cache_dir@,
            collected_config(facts_in(target_config@)),
            plugins.deep_view(),
            0,
            Brought { tools: Seq::empty(), fingerprints: Seq::empty() },
        ),
{
    let facts = collect_config(target_config);
    let ghost w = known.deep_view();
    let ghost list = plugins.deep_view();
    let mut tools: Vec<WorkspaceToolConfig> = Vec::new();
    let mut fingerprints: Vec<(String, String)> = Vec::new();
    assert(tools.deep_view() =~= Seq::empty());
    assert(fingerprints.deep_view() =~= Seq::empty());
    let mut i: usize = 0;
    while i < plugins.len()
        invariant
            i <= plugins.len(),
            w == known.deep_view(),
            list == plugins.deep_view(),
            facts.deep_view() == collected_config(facts_in(target_config@)),
            brought_by(
                w,
                root@,
                cache_dir@,
                facts.deep_view(),
                list,
                0,
                Brought { tools: Seq::empty(), fingerprints: Seq::empty() },
            ) == brought_by(
                w,
                root@,
                cache_dir@,
                facts.deep_view(),
                list,
                i as int,
                Brought { tools: tools.deep_view(), fingerprints: fingerprints.deep_view() },
            ),
        decreases plugins.len() - i,
    {
        assert(list[i as int] == plugins@[i as int].deep_view());
        let plugin = &plugins[i];
        let _loaded = load_named(known, plugin, "initialize")?;
        if i >= known.started.len() {
            return Err(
                Stop::Ask(
                    Question::Start(
                        PluginInitRequest {
                            name: plugin.name.clone(),
                            workspace_root: root.to_owned(),
                            cache_dir: cache_dir.to_owned(),
                            target_config: facts.duplicate(),
                            parameters: plugin.parameters.duplicate(),
                        },
                    ),
                ),
            );
        }
        assert(w.started[i as int] == known.started@[i as int].deep_view());
        match &known.started[i] {
            Answer::Failed(e) => return Err(Stop::Failed(e.duplicate())),
            Answer::Given(PluginInitResponse::Failure(reason)) => return Err(
                Stop::Failed(
                    error(
                        ErrorKind::InvalidData,
                        cat4(
                            "workspace plugin ",
                            plugin.name.as_str(),
                            " initialization failed: ",
                            reason.as_str(),
                        ),
                    ),
                ),
            ),
            Answer::Given(PluginInitResponse::Success(more, prints)) => {
                add_brought(&mut tools, more);
                keep_all(&mut fingerprints, prints);
            },
        }
        i = i + 1;
    }
    Ok(PluginWorkspaceTools { tools, fingerprints })
}

/// The fingerprints of `tools`.
pub open spec fn prints_of(tools: DeclaredTools) -> Seq<(Seq<char>, Seq<char>)> {
    tools.map_values(|row: (Seq<char>, Declared)| (row.0, row.1.fingerprint))
}

/// The fingerprints of `tools` and those of the platform, in the order of their
/// names.
pub fn tool_fingerprints(tools: &Table<WorkspaceToolConfig>, platform_fingerprints: &Vec<(String, String)>) -> (r: Vec<
    (String, String),
>)
    ensures
        r.deep_view() == sorted_pairs(prints_of(tools.deep_view()) + platform_fingerprints.deep_view()),
{
    let ghost rows = tools.deep_view();
    let mut out: Vec<(String, String)> = Vec::new();
    let mut i: usize = 0;
    assert(out.deep_view() =~= prints_of(rows).take(0));
    while i < tools.rows.len()
        invariant
            i <= tools.rows.len(),
            rows == tools.deep_view(),
            out.deep_view() == prints_of(rows).take(i as int),
        decreases tools.rows.len() - i,
    {
        assert(rows[i as int] == (tools.rows@[i as int].0@, tools.rows@[i as int].1.deep_view()));
        keep(&mut out, (tools.rows[i].0.clone(), tools.rows[i].1.fingerprint.clone()));
        i = i + 1;
        assert(prints_of(rows).take(i as int) =~= prints_of(rows).take(i - 1).push(prints_of(rows)[i - 1]));
    }
    assert(prints_of(rows).take(i as int) =~= prints_of(rows));
    keep_all(&mut out, platform_fingerprints);
    sort_pairs(&out)
}

/// Where `value` is: it is a tool, or the path of a program.
pub open spec fn tool_or_path(root: Seq<char>, tools: DeclaredTools, value: Seq<char>) -> Seq<char> {
    match found(tools, value) {
        Some(tool) => tool.path,
        None => tool_path(root, value),
    }
}

pub fn resolve_tool_or_path(root: &str, tools: &Table<WorkspaceToolConfig>, value: &str) -> (r: String)
    ensures
        r@ == tool_or_path(root@, tools.deep_view(), value@),
{
    match tools.get(value) {
        Some(tool) => tool.path.clone(),
        None => root_relative(root, value),
    }
}

pub struct WorkspaceConfig {
    pub cache_dir: String,
    pub rustc: String,
    pub tools: Table<WorkspaceToolConfig>,
    pub tool_fingerprints: Vec<(String, String)>,
    pub target_config: Vec<(BuildConfigKey, String)>,
    pub plugins: Vec<WorkspacePluginConfig>,
}

/// What a `WorkspaceConfig` says.
#[verifier::ext_equal]
pub struct Configured {
    pub cache_dir: Seq<char>,
    pub rustc: Seq<char>,
    pub tools: DeclaredTools,
    pub tool_fingerprints: Seq<(Seq<char>, Seq<char>)>,
    pub target_config: Seq<(BuildConfigKey, Seq<char>)>,
    pub plugins: Seq<PluginRow>,
}

impl DeepView for WorkspaceConfig {
    type V = Configured;

    open spec fn deep_view(&self) -> Configured {
        Configured {
            cache_dir: self.cache_dir@,
            rustc: self.rustc@,
            tools: self.tools.deep_view(),
            tool_fingerprints: self.tool_fingerprints.deep_view(),
            target_config: facts_in(self.target_config@),
            plugins: self.plugins.deep_view(),
        }
    }
}

/// Where a workspace keeps what it builds.
pub open spec fn cache_of(root: Seq<char>, rows: Rows) -> Seq<char> {
    match text_in(member(found(rows, "workspace"@), "cache_dir"@)) {
        Some(dir) => joined_path(root, dir),
        None => joined_path(joined_path(root, ".cbs"@), "cache"@),
    }
}

fn workspace_cache(root: &str, table: &ConfigTable) -> (r: String)
    ensures
        r@ == cache_of(root@, table.deep_view()),
{
    if let Some(workspace) = table_at(table, "workspace") {
        if let Some(dir) = text_at(workspace, "cache_dir") {
            return join_path(root, dir.as_str());
        }
    }
    join_path(join_path(root, ".cbs").as_str(), "cache")
}

/// What the Rust compiler of a workspace is called.
pub open spec fn compiler_of(w: World, rows: Rows) -> Result<Seq<char>, Halt> {
    match text_in(member(member(found(rows, "toolchain"@), "rust"@), "rustc"@)) {
        Some(rustc) => Ok(rustc),
        None => match w.variable("RUSTC"@) {
            Err(stop) => Err(stop),
            Ok(Some(rustc)) => Ok(rustc),
            Ok(None) => Ok("rustc"@),
        },
    }
}

fn compiler_name(known: &Known, table: &ConfigTable) -> (r: Result<String, Stop>)
    ensures
        told(r) == compiler_of(known.deep_view(), table.deep_view()),
{
    if let Some(toolchain) = table_at(table, "toolchain") {
        if let Some(rust) = table_at(toolchain, "rust") {
            if let Some(rustc) = text_at(rust, "rustc") {
                return Ok(rustc);
            }
        }
    }
    match known.variable("RUSTC")? {
        Some(rustc) => Ok(rustc),
        None => Ok("rustc".to_owned()),
    }
}

/// The configuration that the table `rows` of a workspace's file states.
pub open spec fn configured_by(w: World, root: Seq<char>, rows: Rows) -> Result<Configured, Halt> {
    let cache_dir = cache_of(root, rows);
    match target_facts(w, rows) {
        Err(stop) => Err(stop),
        Ok(facts) => match all_plugins(root, rows) {
            Err(e) => Err(Halt::Failed(e)),
            Ok(plugins) => match workspace_declared(w, root, rows) {
                Err(stop) => Err(stop),
                Ok(tools) => match platform_fingerprints(w, root, rows) {
                    Err(stop) => Err(stop),
                    Ok(prints) => match brought_by(
                        w,
                        root,
                        cache_dir,
                        collected_config(facts),
                        plugins,
                        0,
                        Brought { tools: Seq::empty(), fingerprints: Seq::empty() },
                    ) {
                        Err(stop) => Err(stop),
                        Ok(brought) => match with_more_tools(tools, brought.tools, 0) {
                            Err(e) => Err(Halt::Failed(e)),
                            Ok(tools) => match compiler_of(w, rows) {
                                Err(stop) => Err(stop),
                                Ok(rustc) => Ok(
                                    Configured {
                                        cache_dir,
                                        rustc: tool_or_path(root, tools, rustc),
                                        tools,
                                        tool_fingerprints: sorted_pairs(
                                            prints_of(tools) + (prints + brought.fingerprints),
                                        ),
                                        target_config: facts,
                                        plugins,
                                    },
                                ),
                            },
                        },
                    },
                },
            },
        },
    }
}

/// The configuration of the workspace at `root` that the file `file` states.
pub open spec fn configured(w: World, root: Seq<char>, file: Seq<char>) -> Result<Configured, Halt> {
    match w.config(file) {
        Err(stop) => Err(stop),
        Ok(loaded) => match loaded_rows(file, loaded) {
            Err(e) => Err(Halt::Failed(e)),
            Ok(rows) => configured_by(w, root, rows),
        },
    }
}

fn configure(known: &Known, root: &str, table: &ConfigTable) -> (r: Result<WorkspaceConfig, Stop>)
    ensures
        told(r) == configured_by(known.deep_view(), root@, table.deep_view()),
{
    let cache_dir = workspace_cache(root, table);
    let target_config = match target_config(known, table) {
        Ok(facts) => facts,
        Err(stop) => return Err(stop),
    };
    let plugins = match workspace_plugins(root, table) {
        Ok(plugins) => plugins,
        Err(e) => return Err(Stop::Failed(e)),
    };
    let tools = workspace_tools(known, root, table)?;
    let mut prints = platform_requirement_fingerprints(known, root, table)?;
    let brought = plugin_workspace_tools(known, root, cache_dir.as_str(), &target_config, &plugins)?;
    let tools = match insert_workspace_tools(tools, &brought.tools) {
        Ok(tools) => tools,
        Err(e) => return Err(Stop::Failed(e)),
    };
    keep_all(&mut prints, &brought.fingerprints);
    let rustc = compiler_name(known, table)?;
    let rustc = resolve_tool_or_path(root, &tools, rustc.as_str());
    let tool_fingerprints = tool_fingerprints(&tools, &prints);
    Ok(WorkspaceConfig { cache_dir, rustc, tools, tool_fingerprints, target_config, plugins })
}

pub fn load_workspace_config(known: &Known, root: &str, file: &str) -> (r: Result<WorkspaceConfig, Stop>)
    ensures
        told(r) == configured(known.deep_view(), root@, file@),
{
    let loaded = known.config(file)?;
    let table = settle(load_workspace_table(file, loaded))?;
    configure(known, root, &table)
}

} // verus!
