//! Provision: where a workspace is found, what its plugins are asked about its targets, what
//! its executor works with, and which kept outputs are used again.

use vstd::prelude::*;

use crate::assembly::{
    call_for, context_of, executor_for, file_config, kind_with, located, planners_of, rule_call, rule_plugins_of,
    tool_configs_of, tools_for_context, with_build_plugins, with_file_targets, with_plugins, with_resolver_of,
    LocalResolver, ResolverKind,
};
use crate::build_cache::{
    all_existing, extra_paths, output_of_document, output_paths, tagged_paths, turn_after_cache, usable_output,
    BuildTurn, Extras,
};
use crate::context::{collected_config, context_hash, law_with_rows};
use crate::documents::json_text;
use crate::error::Fault;
use crate::host::{Halt, World};
use crate::labels::label_in;
use crate::model::{ConfigModel, Outcome, Output};
use crate::packages::{build_file_of, targets_in};
use crate::path::{joined_path, lemma_parent_shorter, parent_of};
use crate::plugin_abi::{
    if_usable, label_rows, rule_request, text_rows, CbsPluginV1, LoadedModel, PlannerModel, ResolverModel,
    RulePluginModel,
};
use crate::rules::{escape, label_under, labels_under, named_target, sources_under, target_requirements, Rows};
use crate::table::{found, law_with_row, with_row};
use crate::text::{cut, without_surrounding};
use crate::value::{text_in, Node};
use crate::workspace::{
    first_kind, loaded_plugins, package_above, root_above, workspace_file_in, LoadedPlugins, WorkspaceModel,
};
use crate::workspace_config::{loaded_named, PluginRow};

verus! {

/// Whether `path` goes up from `from`, each time to the directory that holds the one before.
pub open spec fn climbs_from(path: Seq<Seq<char>>, from: Seq<char>) -> bool {
    &&& path.len() > 0
    &&& path[0] == from
    &&& forall|i: int| 0 < i < path.len() ==> parent_of(path[i - 1]) == Some(#[trigger] path[i])
}

/// The workspace that a directory is in is the nearest one above it that has the file of a
/// workspace; the way up to it is returned.
pub proof fn law_root_found(w: World, dir: Seq<char>) -> (path: Seq<Seq<char>>)
    requires
        root_above(w, dir) is Ok,
    ensures
        climbs_from(path, dir),
        root_above(w, dir) == Ok::<Seq<char>, Halt>(path.last()),
        w.existing(joined_path(path.last(), "WORKSPACE.ccl"@)) == Ok::<bool, Halt>(true),
        forall|i: int|
            0 <= i < path.len() - 1 ==> w.existing(joined_path(#[trigger] path[i], "WORKSPACE.ccl"@)) == Ok::<bool, Halt>(
                false,
            ),
    decreases dir.len(),
{
    if w.existing(workspace_file_in(dir)) == Ok::<bool, Halt>(true) {
        seq![dir]
    } else {
        let above = parent_of(dir)->0;
        lemma_parent_shorter(dir);
        let rest = law_root_found(w, above);
        let path = seq![dir] + rest;
        assert forall|i: int| 0 < i < path.len() implies parent_of(path[i - 1]) == Some(#[trigger] path[i]) by {
            if i > 1 {
                assert(path[i - 1] == rest[i - 2]);
                assert(path[i] == rest[i - 1]);
            }
        }
        assert forall|i: int| 0 <= i < path.len() - 1 implies w.existing(joined_path(#[trigger] path[i], "WORKSPACE.ccl"@))
            == Ok::<bool, Halt>(false) by {
            if i > 0 {
                assert(path[i] == rest[i - 1]);
            }
        }
        path
    }
}

/// The package that a directory is in is the nearest one, going up to the workspace's own,
/// that has a build file; the way up to it is returned.
pub proof fn law_package_found(w: World, root: Seq<char>, package: Seq<char>) -> (path: Seq<Seq<char>>)
    requires
        package_above(w, root, package) is Ok,
    ensures
        path.len() > 0 && path[0] == package,
        forall|i: int| 0 < i < path.len() ==> #[trigger] path[i] == parent_or_empty(path[i - 1]),
        package_above(w, root, package) == Ok::<Seq<char>, Halt>(without_surrounding(path.last(), '/')),
        path.last().len() == 0 || build_file_of(w, joined_path(root, path.last())) matches Ok(Some(_)),
        forall|i: int|
            0 <= i < path.len() - 1 ==> build_file_of(w, joined_path(root, #[trigger] path[i])) == Ok::<_, Halt>(
                None::<Seq<char>>,
            ),
    decreases package.len(),
{
    if package.len() == 0 || (build_file_of(w, joined_path(root, package)) matches Ok(Some(_))) {
        seq![package]
    } else {
        let above = parent_of(package).unwrap_or(Seq::empty());
        lemma_parent_shorter(package);
        let rest = law_package_found(w, root, above);
        let path = seq![package] + rest;
        assert forall|i: int| 0 < i < path.len() implies #[trigger] path[i] == parent_or_empty(path[i - 1]) by {
            if i > 1 {
                assert(path[i - 1] == rest[i - 2]);
                assert(path[i] == rest[i - 1]);
            }
        }
        assert forall|i: int| 0 <= i < path.len() - 1 implies build_file_of(w, joined_path(root, #[trigger] path[i]))
            == Ok::<_, Halt>(None::<Seq<char>>) by {
            if i > 0 {
                assert(path[i] == rest[i - 1]);
            }
        }
        path
    }
}

/// The directory that holds `path`; the empty path where there is none.
pub open spec fn parent_or_empty(path: Seq<char>) -> Seq<char> {
    match parent_of(path) {
        Some(dir) => dir,
        None => Seq::empty(),
    }
}

/// The kind of a target is the first of those that are known which has a target of its name;
/// it has none just where none of them has.
pub proof fn law_kind_found(rows: Rows, name: Seq<char>, kinds: Seq<Seq<char>>, i: int)
    requires
        0 <= i <= kinds.len(),
    ensures
        match kind_with(rows, name, kinds, i) {
            Ok(Some((kind, target))) => exists|k: int|
                i <= k < kinds.len() && #[trigger] kinds[k] == kind && named_target(rows, kind, name) == Ok::<_, Fault>(
                    Some(target),
                ) && forall|j: int|
                    i <= j < k ==> named_target(rows, #[trigger] kinds[j], name) == Ok::<_, Fault>(None::<Rows>),
            Ok(None) => forall|k: int|
                i <= k < kinds.len() ==> named_target(rows, #[trigger] kinds[k], name) == Ok::<_, Fault>(None::<Rows>),
            Err(e) => exists|k: int|
                i <= k < kinds.len() && named_target(rows, #[trigger] kinds[k], name) == Err::<Option<Rows>, Fault>(e),
        },
        match (first_kind(rows, name, kinds, i), kind_with(rows, name, kinds, i)) {
            (Ok(Some(kind)), Ok(Some((other, _)))) => kind == other,
            (Ok(None), Ok(None)) => true,
            (Err(e), Err(other)) => e == other,
            _ => false,
        },
    decreases kinds.len() - i,
{
    if i < kinds.len() {
        law_kind_found(rows, name, kinds, i + 1);
        if let Ok(Some((kind, _))) = kind_with(rows, name, kinds, i) {
            if named_target(rows, kinds[i], name) matches Ok(Some(_)) {
                assert(kinds[i] == kind);
            }
        }
    }
}

/// The plugin that is asked about a target is the first that knows a kind which has a target
/// of its name, and it is asked about that target.
pub proof fn law_plugin_called(
    root: Seq<char>,
    package: Seq<char>,
    dir: Seq<char>,
    rows: Rows,
    name: Seq<char>,
    plugins: Seq<RulePluginModel>,
    i: int,
)
    requires
        0 <= i <= plugins.len(),
    ensures
        match call_for(root, package, dir, rows, name, plugins, i) {
            Ok(Some((plugin, request))) => exists|k: int|
                i <= k < plugins.len() && (#[trigger] plugins[k]).plugin == plugin && (kind_with(
                    rows,
                    name,
                    plugins[k].rule_kinds,
                    0,
                ) matches Ok(Some((kind, target))) && rule_request(
                    root,
                    package,
                    dir,
                    plugins[k].label_fields,
                    kind,
                    target,
                ) == Ok::<_, Fault>(request)) && forall|j: int|
                    i <= j < k ==> kind_with(rows, name, (#[trigger] plugins[j]).rule_kinds, 0) == Ok::<_, Fault>(
                        None::<(Seq<char>, Rows)>,
                    ),
            Ok(None) => forall|k: int|
                i <= k < plugins.len() ==> kind_with(rows, name, (#[trigger] plugins[k]).rule_kinds, 0) == Ok::<_, Fault>(
                    None::<(Seq<char>, Rows)>,
                ),
            Err(_) => true,
        },
    decreases plugins.len() - i,
{
    if i < plugins.len() {
        law_plugin_called(root, package, dir, rows, name, plugins, i + 1);
        if let Ok(Some((plugin, _))) = call_for(root, package, dir, rows, name, plugins, i) {
            if kind_with(rows, name, plugins[i].rule_kinds, 0) matches Ok(Some(_)) {
                assert(plugins[i].plugin == plugin);
            }
        }
    }
}

/// What is asked about a target of the workspace is asked about the target of its name in
/// the build file of its package.
pub proof fn law_target_asked(w: World, resolver: LocalResolver, target: Seq<char>)
    requires
        rule_call(w, resolver, target) is Ok,
    ensures
        label_in(target, resolver.current_package) matches Ok(label) && {
            let dir = joined_path(resolver.root, label.package);
            &&& escape(resolver.root, dir) is None
            &&& build_file_of(w, dir) matches Ok(Some(file)) && targets_in(w, file) matches Ok(rows) && call_for(
                resolver.root,
                label.package,
                dir,
                rows,
                label.name,
                resolver.rule_plugins,
                0,
            ) == Ok::<_, Fault>(Some(rule_call(w, resolver, target)->Ok_0))
        },
{
}

/// A plugin is asked about what a target states: its name, sources, dependencies and
/// requirements, its texts, and the labels in the fields that the plugin names.
pub proof fn law_rule_request(
    root: Seq<char>,
    package: Seq<char>,
    dir: Seq<char>,
    fields: Seq<Seq<char>>,
    kind: Seq<char>,
    rows: Rows,
)
    requires
        rule_request(root, package, dir, fields, kind, rows) is Ok,
    ensures
        ({
            let request = rule_request(root, package, dir, fields, kind, rows)->Ok_0;
            &&& request.workspace_root == root && request.package == package && request.package_dir == dir
            &&& request.kind == kind
            &&& found(rows, "name"@) == Some(Node::Text(request.name))
            &&& sources_under(root, dir, rows, "srcs"@) == Ok::<_, Fault>(request.sources)
            &&& labels_under(package, rows, "deps"@) == Ok::<_, Fault>(request.dependencies)
            &&& target_requirements(rows, package) == Ok::<_, Fault>(request.cargo_requirements)
            &&& request.string_fields == text_rows(rows, rows.len() as int)
            &&& label_rows(package, rows, fields, 0, Seq::empty()) == Ok::<_, Fault>(request.label_fields)
        }),
{
}

/// The texts of a target are all of its rows that are texts, each under its name.
pub proof fn law_text_rows(rows: Rows, n: int, key: Seq<char>)
    requires
        0 <= n <= rows.len(),
    ensures
        match found(text_rows(rows, n), key) {
            Some(text) => exists|i: int|
                0 <= i < n && (#[trigger] rows[i]).0 == key && rows[i].1 == Node::Text(text) && forall|j: int|
                    i < j < n && (#[trigger] rows[j]).0 == key ==> !(rows[j].1 is Text),
            None => forall|i: int| 0 <= i < n && (#[trigger] rows[i]).0 == key ==> !(rows[i].1 is Text),
        },
    decreases n,
{
    if n > 0 {
        law_text_rows(rows, n - 1, key);
        let before = text_rows(rows, n - 1);
        if let Some(text) = text_in(Some(rows[n - 1].1)) {
            law_with_row(before, rows[n - 1].0, text, key);
            if rows[n - 1].0 == key {
                assert(rows[n - 1].1 == Node::Text(text));
            }
        }
    }
}

/// The labels of a target are those in the fields that are asked for.
pub proof fn law_label_rows(
    package: Seq<char>,
    rows: Rows,
    fields: Seq<Seq<char>>,
    i: int,
    done: Seq<(Seq<char>, Seq<char>)>,
    key: Seq<char>,
)
    requires
        0 <= i <= fields.len(),
    ensures
        label_rows(package, rows, fields, i, done) matches Ok(end) ==> {
            &&& forall|k: int| i <= k < fields.len() ==> label_under(package, rows, #[trigger] fields[k]) is Ok
            &&& (exists|k: int| i <= k < fields.len() && #[trigger] fields[k] == key) && label_under(package, rows, key)
                != Ok::<_, Fault>(None::<Seq<char>>) ==> label_under(package, rows, key) == Ok::<_, Fault>(found(end, key))
            &&& !(exists|k: int| i <= k < fields.len() && #[trigger] fields[k] == key) || label_under(package, rows, key)
                == Ok::<_, Fault>(None::<Seq<char>>) ==> found(end, key) == found(done, key)
        },
    decreases fields.len() - i,
{
    if i < fields.len() {
        match label_under(package, rows, fields[i]) {
            Ok(None) => law_label_rows(package, rows, fields, i + 1, done, key),
            Ok(Some(label)) => {
                let next = with_row(done, fields[i], label);
                law_with_row(done, fields[i], label, key);
                law_label_rows(package, rows, fields, i + 1, next, key);
            },
            Err(_) => {},
        }
    }
}

/// A plugin is used just where it was made for this version of the interface.
pub proof fn law_usable(plugin: CbsPluginV1)
    ensures
        if_usable(plugin, plugin) is Ok <==> plugin.abi_version == crate::plugin_abi::CBS_PLUGIN_ABI_VERSION,
        if_usable(plugin, plugin) matches Ok(made) ==> made == plugin,
{
}

/// Every plugin of a workspace is loaded, in their order, each from the file that is stated.
pub proof fn law_plugins_loaded(w: World, plugins: Seq<PluginRow>, i: int, done: LoadedPlugins)
    requires
        0 <= i <= plugins.len(),
    ensures
        loaded_plugins(w, plugins, i, done) matches Ok(list) ==> {
            &&& list.len() == done.len() + plugins.len() - i
            &&& list.take(done.len() as int) == done
            &&& forall|k: int|
                i <= k < plugins.len() ==> {
                    &&& list[done.len() + k - i].0 == (#[trigger] plugins[k]).path
                    &&& loaded_named(w, plugins[k], "load"@) == Ok::<_, Halt>(list[done.len() + k - i].1)
                }
        },
    decreases plugins.len() - i,
{
    if i < plugins.len() {
        if let Ok(loaded) = loaded_named(w, plugins[i], "load"@) {
            let next = done.push((plugins[i].path, loaded));
            law_plugins_loaded(w, plugins, i + 1, next);
            if let Ok(list) = loaded_plugins(w, plugins, i + 1, next) {
                assert(list.take(done.len() as int) =~= done) by {
                    assert forall|k: int| 0 <= k < done.len() implies list[k] == done[k] by {
                        assert(list.take(next.len() as int)[k] == next[k]);
                    }
                }
                assert(list.take(next.len() as int)[done.len() as int] == next.last());
            }
        }
    } else {
        assert(done.take(done.len() as int) =~= done);
    }
}

/// The plugins that know kinds of targets are all that say so.
pub proof fn law_rule_plugins(plugins: LoadedPlugins, i: int, done: Seq<RulePluginModel>, x: RulePluginModel)
    requires
        0 <= i <= plugins.len(),
    ensures
        rule_plugins_of(plugins, i, done) matches Ok(list) ==> (list.contains(x) <==> done.contains(x) || exists|k: int|
            i <= k < plugins.len() && is_rule_plugin((#[trigger] plugins[k]).1, x)),
    decreases plugins.len() - i,
{
    if i < plugins.len() {
        let loaded = plugins[i].1;
        if loaded.manifest.rule_kinds.len() == 0 {
            law_rule_plugins(plugins, i + 1, done, x);
        } else {
            let one = RulePluginModel {
                plugin: loaded.plugin,
                rule_kinds: loaded.manifest.rule_kinds,
                label_fields: loaded.manifest.label_fields,
                library: loaded.library,
            };
            law_rule_plugins(plugins, i + 1, done.push(one), x);
            lemma_pushed(done, one, x);
            assert(is_rule_plugin(plugins[i].1, x) <==> x == one);
        }
    }
}

/// Whether `x` is a loaded plugin that knows kinds of targets.
pub open spec fn is_rule_plugin(loaded: LoadedModel, x: RulePluginModel) -> bool {
    &&& loaded.manifest.rule_kinds.len() > 0
    &&& x.plugin == loaded.plugin && x.library == loaded.library
    &&& x.rule_kinds == loaded.manifest.rule_kinds
    &&& x.label_fields == loaded.manifest.label_fields
}

proof fn lemma_pushed<T>(list: Seq<T>, one: T, x: T)
    ensures
        list.push(one).contains(x) <==> list.contains(x) || x == one,
{
    let all = list.push(one);
    assert(all[list.len() as int] == one);
    if list.contains(x) {
        let k = choose|k: int| 0 <= k < list.len() && list[k] == x;
        assert(all[k] == x);
    }
    if all.contains(x) && x != one {
        let k = choose|k: int| 0 <= k < all.len() && all[k] == x;
        assert(list[k] == x);
    }
}

/// Whether a loaded plugin is the planner `x`.
pub open spec fn is_planner(loaded: LoadedModel, x: (Seq<char>, PlannerModel)) -> bool {
    &&& loaded.manifest.dependency_ecosystems.contains(x.0)
    &&& x.1.ecosystem == x.0 && x.1.plugin == loaded.plugin && x.1.library == loaded.library
}

/// Whether a loaded plugin is the resolver `x`.
pub open spec fn is_resolver(loaded: LoadedModel, x: ResolverKind) -> bool {
    x matches ResolverKind::Plugin(r) && loaded.manifest.target_prefixes.len() > 0 && r.plugin == loaded.plugin && r.library
        == loaded.library && r.target_prefixes == loaded.manifest.target_prefixes
}

proof fn lemma_planners(loaded: LoadedModel, i: int, done: Seq<(Seq<char>, PlannerModel)>, x: (Seq<char>, PlannerModel))
    requires
        0 <= i <= loaded.manifest.dependency_ecosystems.len(),
    ensures
        planners_of(loaded, i, done) matches Ok(list) ==> (list.contains(x) <==> done.contains(x) || (is_planner(loaded, x)
            && exists|k: int|
            i <= k < loaded.manifest.dependency_ecosystems.len() && #[trigger] loaded.manifest.dependency_ecosystems[k]
                == x.0)),
    decreases loaded.manifest.dependency_ecosystems.len() - i,
{
    let all = loaded.manifest.dependency_ecosystems;
    if i < all.len() {
        let one = (all[i], PlannerModel { plugin: loaded.plugin, ecosystem: all[i], library: loaded.library });
        lemma_planners(loaded, i + 1, done.push(one), x);
        lemma_pushed(done, one, x);
        assert(all.contains(all[i]));
        if x == one {
            assert(loaded.manifest.dependency_ecosystems[i] == x.0);
        }
    }
}

/// The planners and the resolvers of an executor are all that its plugins are: one for each
/// ecosystem that a plugin plans, and one for each plugin that resolves targets.
pub proof fn law_plugins_plugged(
    plugins: LoadedPlugins,
    i: int,
    done: (Seq<(Seq<char>, PlannerModel)>, Seq<ResolverKind>),
    planner: (Seq<char>, PlannerModel),
    resolver: ResolverKind,
)
    requires
        0 <= i <= plugins.len(),
    ensures
        with_plugins(plugins, i, done) matches Ok(end) ==> {
            &&& end.0.contains(planner) <==> done.0.contains(planner) || exists|k: int|
                i <= k < plugins.len() && is_planner((#[trigger] plugins[k]).1, planner)
            &&& end.1.contains(resolver) <==> done.1.contains(resolver) || exists|k: int|
                i <= k < plugins.len() && is_resolver((#[trigger] plugins[k]).1, resolver)
        },
    decreases plugins.len() - i,
{
    if i < plugins.len() {
        let loaded = plugins[i].1;
        let all = loaded.manifest.dependency_ecosystems;
        lemma_planners(loaded, 0, done.0, planner);
        if is_planner(loaded, planner) {
            let k = choose|k: int| 0 <= k < all.len() && all[k] == planner.0;
            assert(loaded.manifest.dependency_ecosystems[k] == planner.0);
        }
        if let (Ok(planners), Ok(resolvers)) = (planners_of(loaded, 0, done.0), with_resolver_of(loaded, done.1)) {
            law_plugins_plugged(plugins, i + 1, (planners, resolvers), planner, resolver);
            if loaded.manifest.target_prefixes.len() > 0 {
                let one = ResolverKind::Plugin(
                    ResolverModel {
                        plugin: loaded.plugin,
                        target_prefixes: loaded.manifest.target_prefixes,
                        library: loaded.library,
                    },
                );
                lemma_pushed(done.1, one, resolver);
                assert(is_resolver(loaded, resolver) <==> resolver == one);
            }
            assert(resolvers.contains(resolver) <==> done.1.contains(resolver) || is_resolver(plugins[i].1, resolver));
            assert(planners.contains(planner) <==> done.0.contains(planner) || is_planner(plugins[i].1, planner));
        }
    }
}

/// A tool in a file is configured to be that file.
pub proof fn law_file_config(path: Seq<char>)
    ensures
        file_config(path).location == Some(path),
        file_config(path).build_plugin == "@filesystem"@,
        file_config(path).dependencies.len() == 0 && file_config(path).sources.len() == 0,
        located(file_config(path).location).outputs.len() == 1 && located(file_config(path).location).outputs[0] == path,
        located(None).outputs.len() == 0,
{
}

proof fn lemma_file_targets(configs: Seq<(Seq<char>, ConfigModel)>, names: Seq<Seq<char>>, path: Seq<char>, i: int, key: Seq<char>)
    requires
        0 <= i <= names.len(),
    ensures
        found(with_file_targets(configs, names, path, i), key) == if exists|k: int|
            i <= k < names.len() && #[trigger] names[k] == key {
            Some(file_config(path))
        } else {
            found(configs, key)
        },
    decreases names.len() - i,
{
    if i < names.len() {
        law_with_row(configs, names[i], file_config(path), key);
        lemma_file_targets(with_row(configs, names[i], file_config(path)), names, path, i + 1, key);
    }
}

/// The targets that stand for tools are the compiler and what the plugins say that they
/// build: of two plugins for one target the last; the plugin for Rust is there in any case.
pub proof fn law_tool_targets(configs: Seq<(Seq<char>, ConfigModel)>, plugins: LoadedPlugins, i: int, key: Seq<char>)
    requires
        0 <= i <= plugins.len(),
    ensures
        ({
            let end = with_build_plugins(configs, plugins, i);
            ||| exists|k: int|
                i <= k < plugins.len() && builds((#[trigger] plugins[k]).1, key) && found(end, key) == Some(
                    file_config(plugins[k].0),
                ) && forall|j: int| k < j < plugins.len() ==> !builds((#[trigger] plugins[j]).1, key)
            ||| found(end, key) == found(configs, key) && forall|k: int|
                i <= k < plugins.len() ==> !builds((#[trigger] plugins[k]).1, key)
        }),
    decreases plugins.len() - i,
{
    if i < plugins.len() {
        let names = plugins[i].1.manifest.build_plugins;
        let next = with_file_targets(configs, names, plugins[i].0, 0);
        lemma_file_targets(configs, names, plugins[i].0, 0, key);
        law_tool_targets(next, plugins, i + 1, key);
        let end = with_build_plugins(configs, plugins, i);
        if builds(plugins[i].1, key) {
            let k = choose|k: int| 0 <= k < names.len() && names[k] == key;
            assert(names[k] == key);
            assert(found(next, key) == Some(file_config(plugins[i].0)));
            if forall|j: int| i + 1 <= j < plugins.len() ==> !builds((#[trigger] plugins[j]).1, key) {
                assert(found(end, key) == Some(file_config(plugins[i].0)));
            }
        } else {
            assert(found(next, key) == found(configs, key));
        }
    }
}

/// Whether a loaded plugin says that it is what `target` builds with.
pub open spec fn builds(loaded: LoadedModel, target: Seq<char>) -> bool {
    loaded.manifest.build_plugins.contains(target)
}

/// The compiler of a workspace is a target, in the file that the workspace names.
pub proof fn law_compiler_target(rustc: Seq<char>, plugins: LoadedPlugins)
    requires
        forall|k: int| 0 <= k < plugins.len() ==> !builds((#[trigger] plugins[k]).1, "@rust_compiler"@),
    ensures
        found(tool_configs_of(rustc, plugins), "@rust_compiler"@) == Some(file_config(rustc)),
        found(tool_configs_of(rustc, plugins), "@rust_plugin"@) is Some,
{
    reveal_strlit("@rust_compiler");
    reveal_strlit("@rust_plugin");
    assert("@rust_compiler"@.len() != "@rust_plugin"@.len());
    let none = Seq::<(Seq<char>, ConfigModel)>::empty();
    let one = with_row(none, "@rust_compiler"@, file_config(rustc));
    let two = with_row(one, "@rust_plugin"@, file_config("/tmp/rust.cdylib"@));
    law_with_row(none, "@rust_compiler"@, file_config(rustc), "@rust_compiler"@);
    law_with_row(one, "@rust_plugin"@, file_config("/tmp/rust.cdylib"@), "@rust_compiler"@);
    law_with_row(one, "@rust_plugin"@, file_config("/tmp/rust.cdylib"@), "@rust_plugin"@);
    law_tool_targets(two, plugins, 0, "@rust_compiler"@);
    law_tool_targets(two, plugins, 0, "@rust_plugin"@);
}

/// The context of a workspace's builds has its cache, the machine that is built for, and its
/// tools; its hash is of that machine and of the fingerprints of the tools.
pub proof fn law_context(ws: WorkspaceModel, name: Seq<char>)
    ensures
        ({
            let c = context_of(ws);
            &&& c.cache_dir == ws.config.cache_dir
            &&& c.config == collected_config(ws.config.target_config)
            &&& c.tool_fingerprints == ws.config.tool_fingerprints
            &&& c.hash == context_hash(c.config, c.tool_fingerprints) as u64
            &&& c.lockfile.len() == 0 && c.locked_dependencies.len() == 0
            &&& c.target is None && c.target_hash is None
            &&& forall|i: int|
                0 <= i < ws.config.tools.len() && (#[trigger] ws.config.tools[i]).0 == name && (forall|j: int|
                    i < j < ws.config.tools.len() ==> (#[trigger] ws.config.tools[j]).0 != name) ==> found(c.tools, name)
                    == Some((ws.config.tools[i].1.path, ws.config.tools[i].1.fingerprint))
        }),
{
    let tools = ws.config.tools;
    let rows = tools_for_context(tools);
    law_with_rows(Seq::<(Seq<char>, (Seq<char>, Seq<char>))>::empty(), rows, name);
    assert forall|i: int|
        0 <= i < tools.len() && (#[trigger] tools[i]).0 == name && (forall|j: int|
            i < j < tools.len() ==> (#[trigger] tools[j]).0 != name) implies found(context_of(ws).tools, name) == Some(
        (tools[i].1.path, tools[i].1.fingerprint),
    ) by {
        assert(rows[i].0 == name);
        assert forall|j: int| i < j < rows.len() implies (#[trigger] rows[j]).0 != name by {
            assert(tools[j].0 != name);
        }
    }
}

/// An executor resolves the workspace's own targets, those of its plugins, and those that
/// stand for tools; files are built by standing for themselves.
pub proof fn law_executor(w: World, ws: WorkspaceModel, target: Seq<char>)
    requires
        executor_for(w, ws) is Ok,
    ensures
        ({
            let made = executor_for(w, ws)->Ok_0;
            &&& made.context == context_of(ws)
            &&& made.resolvers.len() >= 2
            &&& made.resolvers.last() matches ResolverKind::Tools(configs) && found(configs, "@rust_compiler"@) is Some
            &&& found(made.builder_names, "@filesystem"@) == Some(0usize)
            &&& made.builders.len() == 1
        }),
{
    let made = executor_for(w, ws)->Ok_0;
    let plugins = loaded_plugins(w, ws.config.plugins, 0, Seq::empty())->Ok_0;
    let rule_plugins = rule_plugins_of(plugins, 0, Seq::empty())->Ok_0;
    let local = ResolverKind::Workspace(LocalResolver { root: ws.root, current_package: ws.current_package, rule_plugins });
    let start = (Seq::<(Seq<char>, PlannerModel)>::empty(), seq![local]);
    lemma_grows(plugins, 0, start);
    law_with_row(Seq::<(Seq<char>, usize)>::empty(), "@filesystem"@, 0usize, "@filesystem"@);
    let none = Seq::<(Seq<char>, ConfigModel)>::empty();
    let one = with_row(none, "@rust_compiler"@, file_config(ws.config.rustc));
    let two = with_row(one, "@rust_plugin"@, file_config("/tmp/rust.cdylib"@));
    law_with_row(none, "@rust_compiler"@, file_config(ws.config.rustc), "@rust_compiler"@);
    law_with_row(one, "@rust_plugin"@, file_config("/tmp/rust.cdylib"@), "@rust_compiler"@);
    law_tool_targets(two, plugins, 0, "@rust_compiler"@);
}

proof fn lemma_grows(plugins: LoadedPlugins, i: int, done: (Seq<(Seq<char>, PlannerModel)>, Seq<ResolverKind>))
    requires
        0 <= i <= plugins.len(),
    ensures
        with_plugins(plugins, i, done) matches Ok(end) ==> end.1.len() >= done.1.len(),
    decreases plugins.len() - i,
{
    if i < plugins.len() {
        let loaded = plugins[i].1;
        if let (Ok(planners), Ok(resolvers)) = (planners_of(loaded, 0, done.0), with_resolver_of(loaded, done.1)) {
            lemma_grows(plugins, i + 1, (planners, resolvers));
        }
    }
}

/// Files are all there just where each of them is.
pub proof fn law_all_existing(w: World, paths: Seq<Seq<char>>, i: int)
    requires
        0 <= i <= paths.len(),
    ensures
        all_existing(w, paths, i) == Ok::<bool, Halt>(true) <==> forall|k: int|
            i <= k < paths.len() ==> w.existing(#[trigger] paths[k]) == Ok::<bool, Halt>(true),
        all_existing(w, paths, i) == Ok::<bool, Halt>(false) ==> exists|k: int|
            i <= k < paths.len() && w.existing(#[trigger] paths[k]) == Ok::<bool, Halt>(false),
    decreases paths.len() - i,
{
    if i < paths.len() {
        law_all_existing(w, paths, i + 1);
    }
}

proof fn lemma_tagged(values: Seq<Seq<char>>, n: int, path: Seq<char>)
    requires
        0 <= n <= values.len(),
    ensures
        tagged_paths(values, n).contains(path) <==> exists|k: int|
            0 <= k < n && (cut(#[trigger] values[k], ':') matches Some((_, p)) && p == path),
    decreases n,
{
    if n > 0 {
        lemma_tagged(values, n - 1, path);
        if let Some((_, p)) = cut(values[n - 1], ':') {
            lemma_pushed(tagged_paths(values, n - 1), p, path);
        }
    }
}

/// The files that a kept output names are its outputs, and what stands behind the first `:`
/// of each text that it says beside them.
pub proof fn law_output_paths(output: Output, path: Seq<char>)
    ensures
        output_paths(output).contains(path) <==> output.outputs.contains(path) || exists|r: int, k: int|
            #![trigger output.extras[r].1[k]]
            0 <= r < output.extras.len() && 0 <= k < output.extras[r].1.len() && (cut(output.extras[r].1[k], ':') matches Some(
                (_, p),
            ) && p == path),
{
    lemma_extra_paths(output.extras, output.extras.len() as int, path);
    let a = output.outputs;
    let b = extra_paths(output.extras, output.extras.len() as int);
    lemma_two(a, b, path);
}

proof fn lemma_two<T>(a: Seq<T>, b: Seq<T>, x: T)
    ensures
        (a + b).contains(x) <==> a.contains(x) || b.contains(x),
{
    let both = a + b;
    if both.contains(x) {
        let i = choose|i: int| 0 <= i < both.len() && both[i] == x;
        assert(if i < a.len() { a[i] == x } else { b[i - a.len()] == x });
    }
    if a.contains(x) {
        let i = choose|i: int| 0 <= i < a.len() && a[i] == x;
        assert(both[i] == x);
    }
    if b.contains(x) {
        let i = choose|i: int| 0 <= i < b.len() && b[i] == x;
        assert(both[a.len() + i] == x);
    }
}

proof fn lemma_extra_paths(extras: Extras, n: int, path: Seq<char>)
    requires
        0 <= n <= extras.len(),
    ensures
        extra_paths(extras, n).contains(path) <==> exists|r: int, k: int|
            #![trigger extras[r].1[k]]
            0 <= r < n && 0 <= k < extras[r].1.len() && (cut(extras[r].1[k], ':') matches Some((_, p)) && p == path),
    decreases n,
{
    if n > 0 {
        lemma_extra_paths(extras, n - 1, path);
        let values = extras[n - 1].1;
        lemma_tagged(values, values.len() as int, path);
        lemma_two(extra_paths(extras, n - 1), tagged_paths(values, values.len() as int), path);
        if tagged_paths(values, values.len() as int).contains(path) {
            let k = choose|k: int|
                0 <= k < values.len() && (cut(#[trigger] values[k], ':') matches Some((_, p)) && p == path);
            assert(cut(extras[n - 1].1[k], ':') matches Some((_, p)) && p == path);
        }
    }
}

/// A kept output is used again just where it can be read and every file that it names is
/// there.
pub proof fn law_output_used(w: World, text: Option<Seq<char>>)
    ensures
        usable_output(w, text) matches Ok(Some(output)) ==> {
            &&& text matches Some(document) && output_of_document(json_text(document)) == Some(output)
            &&& forall|k: int|
                0 <= k < output_paths(output).len() ==> w.existing(#[trigger] output_paths(output)[k]) == Ok::<bool, Halt>(
                    true,
                )
            &&& turn_after_cache(Some(output)) == BuildTurn::Record(Outcome::Success(output))
        },
        text is None ==> usable_output(w, text) == Ok::<_, Halt>(None::<Output>),
        turn_after_cache(None) == BuildTurn::Build,
{
    if let Some(document) = text {
        if let Some(output) = output_of_document(json_text(document)) {
            law_all_existing(w, output_paths(output), 0);
        }
    }
}

} // verus!
