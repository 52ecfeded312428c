//! The workspace: where it is, which targets patterns stand for, and how its
//! targets are built.

use vstd::prelude::*;

use crate::error::{error, fault, outcome, Error, ErrorKind, Fault};
use crate::host::{settle, settled, told, Halt, Known, Stop, World};
use crate::labels::{
    canonical, canonical_in, canonical_label, canonical_of, label_in, parse_label, pattern_package,
    recursive_package_pattern, Label, Named,
};
use crate::model::{BuildResult, Outcome};
use crate::packages::{
    all_targets_of, build_file, build_file_of, build_table, collect_package_targets, declared_in, labels_below,
    dir_below, lemma_labels_below, strip_root, target_of, targets_in,
};
use crate::path::{join_path, joined_path, lemma_parent_shorter, parent, parent_of};
use crate::plugin_abi::{LoadedAbiPlugin, LoadedModel};
use crate::rules::{
    declares, escape, find_named_target, lemma_named_target, named_target, validate_workspace_relative, Rows,
};
use crate::table::{found, in_order, ordered};
use crate::text::{cat3, holds_text, keep, keep_all, trim_matches, without_surrounding};
use crate::workspace_config::{
    configured, load_named, load_workspace_config, loaded_named, Configured, PluginRow, WorkspaceConfig,
};

verus! {

pub struct Workspace {
    pub root: String,
    pub current_package: String,
    pub config: WorkspaceConfig,
}

/// What a `Workspace` is.
#[verifier::ext_equal]
pub struct WorkspaceModel {
    pub root: Seq<char>,
    pub current_package: Seq<char>,
    pub config: Configured,
}

impl DeepView for Workspace {
    type V = WorkspaceModel;

    open spec fn deep_view(&self) -> WorkspaceModel {
        WorkspaceModel {
            root: self.root@,
            current_package: self.current_package@,
            config: self.config.deep_view(),
        }
    }
}

/// The targets that were built, and what came of it.
pub struct BuildInvocationResult {
    pub targets: Vec<String>,
    pub result: BuildResult,
}

/// The configuration file of a workspace at `root`.
pub open spec fn workspace_file_in(root: Seq<char>) -> Seq<char> {
    joined_path(root, "WORKSPACE.ccl"@)
}

/// The workspace that `dir` is in: the nearest directory, going up from `dir`,
/// with a configuration file.
pub open spec fn root_above(w: World, dir: Seq<char>) -> Result<Seq<char>, Halt>
    decreases dir.len(),
{
    match w.existing(workspace_file_in(dir)) {
        Err(stop) => Err(stop),
        Ok(true) => Ok(dir),
        Ok(false) => match parent_of(dir) {
            None => Err(
                Halt::Failed(
                    fault(ErrorKind::NotFound, "no WORKSPACE.ccl found in current directory or any parent"@),
                ),
            ),
            Some(above) => {
                proof {
                    lemma_parent_shorter(dir);
                }
                root_above(w, above)
            },
        },
    }
}

pub fn find_workspace_root(known: &Known, cwd: &str) -> (r: Result<String, Stop>)
    ensures
        told(r) == root_above(known.deep_view(), cwd@),
    decreases cwd@.len(),
{
    let file = join_path(cwd, "WORKSPACE.ccl");
    if known.is_present(file.as_str())? {
        return Ok(cwd.to_owned());
    }
    proof {
        lemma_parent_shorter(cwd@);
    }
    match parent(cwd) {
        None => Err(
            Stop::Failed(
                error(
                    ErrorKind::NotFound,
                    "no WORKSPACE.ccl found in current directory or any parent".to_owned(),
                ),
            ),
        ),
        Some(above) => find_workspace_root(known, above.as_str()),
    }
}

/// The nearest package, going up from `package` to the workspace's own.
pub open spec fn package_above(w: World, root: Seq<char>, package: Seq<char>) -> Result<Seq<char>, Halt>
    decreases package.len(),
{
    match build_file_of(w, joined_path(root, package)) {
        Err(stop) => Err(stop),
        Ok(Some(_)) => Ok(without_surrounding(package, '/')),
        Ok(None) => if package.len() == 0 {
            Ok(without_surrounding(package, '/'))
        } else {
            proof {
                lemma_parent_shorter(package);
            }
            package_above(w, root, parent_of(package).unwrap_or(Seq::empty()))
        },
    }
}

fn nearest_package(known: &Known, root: &str, package: &str) -> (r: Result<String, Stop>)
    ensures
        told(r) == package_above(known.deep_view(), root@, package@),
    decreases package@.len(),
{
    let file = build_file(known, join_path(root, package).as_str())?;
    if file.is_some() || package.is_empty() {
        return Ok(trim_matches(package, '/'));
    }
    proof {
        lemma_parent_shorter(package@);
        reveal_strlit("");
        assert(""@ =~= Seq::empty());
    }
    match parent(package) {
        Some(above) => nearest_package(known, root, above.as_str()),
        None => nearest_package(known, root, ""),
    }
}

/// The package that the directory `cwd` is in.
pub open spec fn current_package_of(w: World, root: Seq<char>, cwd: Seq<char>) -> Result<Seq<char>, Halt> {
    match dir_below(root, cwd) {
        Err(e) => Err(Halt::Failed(e)),
        Ok(package) => package_above(w, root, package),
    }
}

pub fn package_for_cwd(known: &Known, root: &str, cwd: &str) -> (r: Result<String, Stop>)
    ensures
        told(r) == current_package_of(known.deep_view(), root@, cwd@),
{
    let package = settle(strip_root(root, cwd))?;
    nearest_package(known, root, package.as_str())
}

/// The workspace that the directory `cwd` is in.
pub open spec fn workspace_from(w: World, cwd: Seq<char>) -> Result<WorkspaceModel, Halt> {
    match root_above(w, cwd) {
        Err(stop) => Err(stop),
        Ok(root) => match configured(w, root, workspace_file_in(root)) {
            Err(stop) => Err(stop),
            Ok(config) => match current_package_of(w, root, cwd) {
                Err(stop) => Err(stop),
                Ok(current_package) => Ok(WorkspaceModel { root, current_package, config }),
            },
        },
    }
}

/// A plugin that was loaded, and the file that it was loaded from.
pub struct LoadedWorkspacePlugin {
    pub path: String,
    pub loaded: LoadedAbiPlugin,
}

/// What a `LoadedWorkspacePlugin` is: its file, and the plugin.
impl DeepView for LoadedWorkspacePlugin {
    type V = (Seq<char>, LoadedModel);

    open spec fn deep_view(&self) -> (Seq<char>, LoadedModel) {
        (self.path@, self.loaded.deep_view())
    }
}

/// Plugins that were loaded, with their files.
pub type LoadedPlugins = Seq<(Seq<char>, LoadedModel)>;

/// `done` with the plugins `plugins[i..]`.
pub open spec fn loaded_plugins(w: World, plugins: Seq<PluginRow>, i: int, done: LoadedPlugins) -> Result<
    LoadedPlugins,
    Halt,
>
    decreases plugins.len() - i,
{
    if i >= plugins.len() {
        Ok(done)
    } else {
        match loaded_named(w, plugins[i], "load"@) {
            Err(stop) => Err(stop),
            Ok(loaded) => loaded_plugins(w, plugins, i + 1, done.push((plugins[i].path, loaded))),
        }
    }
}

/// The kinds of targets that the first `n` of `plugins` know, as often as they
/// are named; only those of tests where `tests`.
pub open spec fn kinds_named(plugins: LoadedPlugins, tests: bool, n: int) -> Seq<Seq<char>>
    decreases n,
{
    if n <= 0 {
        Seq::empty()
    } else {
        kinds_named(plugins, tests, n - 1) + (if tests {
            plugins[n - 1].1.manifest.test_rule_kinds
        } else {
            plugins[n - 1].1.manifest.rule_kinds
        })
    }
}

/// The kinds of targets that the plugins of a workspace know.
pub open spec fn kinds_of(w: World, plugins: Seq<PluginRow>, tests: bool) -> Result<Seq<Seq<char>>, Halt> {
    match loaded_plugins(w, plugins, 0, Seq::empty()) {
        Err(stop) => Err(stop),
        Ok(loaded) => Ok(ordered(kinds_named(loaded, tests, loaded.len() as int))),
    }
}

/// The failure of a pattern for a directory that is not there.
pub open spec fn no_such_package(package: Seq<char>) -> Halt {
    Halt::Failed(
        fault(
            ErrorKind::NotFound,
            "target pattern //"@ + package + "/... refers to a missing package directory"@,
        ),
    )
}

/// The labels of the targets of the given kinds in and below `package`.
pub open spec fn recursive_labels(w: World, root: Seq<char>, package: Seq<char>, kinds: Seq<Seq<char>>) -> Result<
    Seq<Seq<char>>,
    Halt,
> {
    let dir = joined_path(root, package);
    match escape(root, dir) {
        Some(e) => Err(Halt::Failed(e)),
        None => match w.dir(dir) {
            Err(stop) => Err(stop),
            Ok(false) => Err(no_such_package(package)),
            Ok(true) => match labels_below(w, root, dir, kinds, Seq::empty()) {
                Err(stop) => Err(stop),
                Ok(labels) => Ok(ordered(labels)),
            },
        },
    }
}

/// The targets that `target` stands for.
pub open spec fn expanded_target(w: World, ws: WorkspaceModel, kinds: Seq<Seq<char>>, target: Seq<char>) -> Result<
    Seq<Seq<char>>,
    Halt,
> {
    match pattern_package(target) {
        Err(e) => Err(Halt::Failed(e)),
        Ok(Some(package)) => match recursive_labels(w, ws.root, package, kinds) {
            Err(stop) => Err(stop),
            Ok(labels) => if labels.len() == 0 {
                Err(
                    Halt::Failed(
                        fault(
                            ErrorKind::NotFound,
                            "target pattern //"@ + package + "/... did not match any targets"@,
                        ),
                    ),
                )
            } else {
                Ok(labels)
            },
        },
        Ok(None) => match canonical_in(target, ws.current_package) {
            Err(e) => Err(Halt::Failed(e)),
            Ok(label) => Ok(seq![label]),
        },
    }
}

/// The first of the kinds `kinds[i..]` that has a target called `name`.
pub open spec fn first_kind(rows: Rows, name: Seq<char>, kinds: Seq<Seq<char>>, i: int) -> Result<Option<Seq<char>>, Fault>
    decreases kinds.len() - i,
{
    if i >= kinds.len() {
        Ok(None)
    } else {
        match named_target(rows, kinds[i], name) {
            Err(e) => Err(e),
            Ok(Some(_)) => Ok(Some(kinds[i])),
            Ok(None) => first_kind(rows, name, kinds, i + 1),
        }
    }
}

/// The kind of the target `label`, if there is such a target.
pub open spec fn kind_of_label(w: World, root: Seq<char>, label: Named, kinds: Seq<Seq<char>>) -> Result<
    Option<Seq<char>>,
    Halt,
> {
    let dir = joined_path(root, label.package);
    match escape(root, dir) {
        Some(e) => Err(Halt::Failed(e)),
        None => match build_file_of(w, dir) {
            Err(stop) => Err(stop),
            Ok(None) => Ok(None),
            Ok(Some(file)) => match targets_in(w, file) {
                Err(stop) => Err(stop),
                Ok(rows) => settled(first_kind(rows, label.name, kinds, 0)),
            },
        },
    }
}

/// The tests that `target` stands for.
pub open spec fn expanded_test(
    w: World,
    ws: WorkspaceModel,
    kinds: Seq<Seq<char>>,
    test_kinds: Seq<Seq<char>>,
    target: Seq<char>,
) -> Result<Seq<Seq<char>>, Halt> {
    match pattern_package(target) {
        Err(e) => Err(Halt::Failed(e)),
        Ok(Some(package)) => recursive_labels(w, ws.root, package, test_kinds),
        Ok(None) => match label_in(target, ws.current_package) {
            Err(e) => Err(Halt::Failed(e)),
            Ok(label) => match kind_of_label(w, ws.root, label, kinds) {
                Err(stop) => Err(stop),
                Ok(None) => Err(
                    Halt::Failed(fault(ErrorKind::NotFound, "target "@ + target + " not found"@)),
                ),
                Ok(Some(kind)) => if test_kinds.contains(kind) {
                    Ok(seq![canonical(label)])
                } else {
                    Ok(Seq::empty())
                },
            },
        },
    }
}

/// `done` with those of `labels[i..]` that it does not hold yet.
pub open spec fn with_new(done: Seq<Seq<char>>, labels: Seq<Seq<char>>, i: int) -> Seq<Seq<char>>
    decreases labels.len() - i,
{
    if i >= labels.len() {
        done
    } else if done.contains(labels[i]) {
        with_new(done, labels, i + 1)
    } else {
        with_new(done.push(labels[i]), labels, i + 1)
    }
}

/// What the patterns `targets[i..]` stand for, behind `done`: targets, or only
/// tests where `tests` are the kinds of tests.
pub open spec fn expanded(
    w: World,
    ws: WorkspaceModel,
    kinds: Seq<Seq<char>>,
    tests: Option<Seq<Seq<char>>>,
    targets: Seq<Seq<char>>,
    i: int,
    done: Seq<Seq<char>>,
) -> Result<Seq<Seq<char>>, Halt>
    decreases targets.len() - i,
{
    if i >= targets.len() {
        Ok(done)
    } else {
        let labels = match tests {
            None => expanded_target(w, ws, kinds, targets[i]),
            Some(test_kinds) => expanded_test(w, ws, kinds, test_kinds, targets[i]),
        };
        match labels {
            Err(stop) => Err(stop),
            Ok(labels) => expanded(w, ws, kinds, tests, targets, i + 1, with_new(done, labels, 0)),
        }
    }
}

/// The targets that the patterns `targets` stand for.
pub open spec fn expanded_targets(w: World, ws: WorkspaceModel, targets: Seq<Seq<char>>) -> Result<Seq<Seq<char>>, Halt> {
    match kinds_of(w, ws.config.plugins, false) {
        Err(stop) => Err(stop),
        Ok(kinds) => expanded(w, ws, kinds, None, targets, 0, Seq::empty()),
    }
}

/// The tests that the patterns `targets` stand for.
pub open spec fn expanded_tests(w: World, ws: WorkspaceModel, targets: Seq<Seq<char>>) -> Result<Seq<Seq<char>>, Halt> {
    match kinds_of(w, ws.config.plugins, false) {
        Err(stop) => Err(stop),
        Ok(kinds) => match kinds_of(w, ws.config.plugins, true) {
            Err(stop) => Err(stop),
            Ok(test_kinds) => expanded(w, ws, kinds, Some(test_kinds), targets, 0, Seq::empty()),
        },
    }
}

/// What is new is added once, behind what was there.
pub proof fn lemma_with_new(done: Seq<Seq<char>>, labels: Seq<Seq<char>>, i: int)
    requires
        0 <= i,
        done.no_duplicates(),
    ensures
        with_new(done, labels, i).no_duplicates(),
        done.len() <= with_new(done, labels, i).len(),
        with_new(done, labels, i).take(done.len() as int) == done,
        forall|j: int| i <= j < labels.len() ==> with_new(done, labels, i).contains(#[trigger] labels[j]),
        forall|x: Seq<char>| #[trigger]
            with_new(done, labels, i).contains(x) ==> done.contains(x) || labels.contains(x),
    decreases labels.len() - i,
{
    if i >= labels.len() {
        assert(done.take(done.len() as int) =~= done);
    } else {
        let next = if done.contains(labels[i]) {
            done
        } else {
            done.push(labels[i])
        };
        if !done.contains(labels[i]) {
            assert(next[done.len() as int] == labels[i]);
        }
        assert(next.contains(labels[i]));
        assert(next.no_duplicates());
        lemma_with_new(next, labels, i + 1);
        let r = with_new(next, labels, i + 1);
        assert(r.take(done.len() as int) =~= done) by {
            assert forall|j: int| 0 <= j < done.len() implies r[j] == done[j] by {
                assert(r.take(next.len() as int)[j] == next[j]);
            }
        }
        assert(r.contains(labels[i])) by {
            let k = choose|k: int| 0 <= k < next.len() && next[k] == labels[i];
            assert(r.take(next.len() as int)[k] == r[k]);
        }
        assert forall|x: Seq<char>| #[trigger] r.contains(x) implies done.contains(x) || labels.contains(x) by {
            if next.contains(x) && !done.contains(x) {
                let k = choose|k: int| 0 <= k < next.len() && next[k] == x;
                assert(k == done.len());
                assert(x == labels[i]);
            }
        }
    }
}

proof fn lemma_expanded(
    w: World,
    ws: WorkspaceModel,
    kinds: Seq<Seq<char>>,
    tests: Option<Seq<Seq<char>>>,
    targets: Seq<Seq<char>>,
    i: int,
    done: Seq<Seq<char>>,
)
    requires
        0 <= i,
        done.no_duplicates(),
    ensures
        expanded(w, ws, kinds, tests, targets, i, done) matches Ok(labels) ==> labels.no_duplicates() && done.len()
            <= labels.len() && labels.take(done.len() as int) == done,
    decreases targets.len() - i,
{
    if i >= targets.len() {
        assert(done.take(done.len() as int) =~= done);
    } else {
        let labels = match tests {
            None => expanded_target(w, ws, kinds, targets[i]),
            Some(test_kinds) => expanded_test(w, ws, kinds, test_kinds, targets[i]),
        };
        if let Ok(labels) = labels {
            lemma_with_new(done, labels, 0);
            let next = with_new(done, labels, 0);
            lemma_expanded(w, ws, kinds, tests, targets, i + 1, next);
            if let Ok(all) = expanded(w, ws, kinds, tests, targets, i + 1, next) {
                assert(all.take(done.len() as int) =~= done) by {
                    assert forall|j: int| 0 <= j < done.len() implies all[j] == done[j] by {
                        assert(all.take(next.len() as int)[j] == next[j]);
                        assert(next.take(done.len() as int)[j] == done[j]);
                    }
                }
            }
        }
    }
}

/// Patterns stand for each target once, however many of them match it.
pub proof fn law_expansion_distinct(w: World, ws: WorkspaceModel, targets: Seq<Seq<char>>)
    ensures
        expanded_targets(w, ws, targets) matches Ok(labels) ==> labels.no_duplicates(),
        expanded_tests(w, ws, targets) matches Ok(labels) ==> labels.no_duplicates(),
{
    if let Ok(kinds) = kinds_of(w, ws.config.plugins, false) {
        lemma_expanded(w, ws, kinds, None, targets, 0, Seq::empty());
        if let Ok(test_kinds) = kinds_of(w, ws.config.plugins, true) {
            lemma_expanded(w, ws, kinds, Some(test_kinds), targets, 0, Seq::empty());
        }
    }
}

/// Where tests are asked for, only targets of the kinds of tests are built.
pub proof fn law_only_tests(w: World, ws: WorkspaceModel, targets: Seq<Seq<char>>, test_kinds: Seq<Seq<char>>)
    requires
        kinds_of(w, ws.config.plugins, true) == Ok::<Seq<Seq<char>>, Halt>(test_kinds),
    ensures
        expanded_tests(w, ws, targets) matches Ok(labels) ==> all_targets_of(w, test_kinds, labels),
{
    if let Ok(kinds) = kinds_of(w, ws.config.plugins, false) {
        lemma_only_tests(w, ws, kinds, test_kinds, targets, 0, Seq::empty());
    }
}

proof fn lemma_only_tests(
    w: World,
    ws: WorkspaceModel,
    kinds: Seq<Seq<char>>,
    test_kinds: Seq<Seq<char>>,
    targets: Seq<Seq<char>>,
    i: int,
    done: Seq<Seq<char>>,
)
    requires
        0 <= i,
        done.no_duplicates(),
        all_targets_of(w, test_kinds, done),
    ensures
        expanded(w, ws, kinds, Some(test_kinds), targets, i, done) matches Ok(labels) ==> all_targets_of(
            w,
            test_kinds,
            labels,
        ),
    decreases targets.len() - i,
{
    if i < targets.len() {
        if let Ok(labels) = expanded_test(w, ws, kinds, test_kinds, targets[i]) {
            lemma_test_is_one(w, ws, kinds, test_kinds, targets[i]);
            lemma_with_new(done, labels, 0);
            let next = with_new(done, labels, 0);
            assert forall|j: int| 0 <= j < next.len() implies target_of(w, test_kinds, #[trigger] next[j]) by {
                assert(next.contains(next[j]));
                if done.contains(next[j]) {
                    let k = choose|k: int| 0 <= k < done.len() && done[k] == next[j];
                    assert(target_of(w, test_kinds, done[k]));
                } else {
                    let k = choose|k: int| 0 <= k < labels.len() && labels[k] == next[j];
                    assert(target_of(w, test_kinds, labels[k]));
                }
            }
            lemma_only_tests(w, ws, kinds, test_kinds, targets, i + 1, next);
        }
    }
}

proof fn lemma_test_is_one(
    w: World,
    ws: WorkspaceModel,
    kinds: Seq<Seq<char>>,
    test_kinds: Seq<Seq<char>>,
    target: Seq<char>,
)
    ensures
        expanded_test(w, ws, kinds, test_kinds, target) matches Ok(labels) ==> all_targets_of(w, test_kinds, labels),
{
    match pattern_package(target) {
        Err(_) => {},
        Ok(Some(package)) => {
            let dir = joined_path(ws.root, package);
            lemma_labels_below(w, ws.root, dir, test_kinds, Seq::empty());
            if let Ok(below) = labels_below(w, ws.root, dir, test_kinds, Seq::empty()) {
                crate::table::law_ordered(below);
                let labels = ordered(below);
                assert forall|j: int| 0 <= j < labels.len() implies target_of(w, test_kinds, #[trigger] labels[j]) by {
                    assert(labels.contains(labels[j]));
                    let k = choose|k: int| 0 <= k < below.len() && below[k] == labels[j];
                    assert(target_of(w, test_kinds, below[k]));
                }
            }
        },
        Ok(None) => {
            if let Ok(label) = label_in(target, ws.current_package) {
                let dir = joined_path(ws.root, label.package);
                if let Ok(Some(kind)) = kind_of_label(w, ws.root, label, kinds) {
                    let file = build_file_of(w, dir)->Ok_0->0;
                    let rows = targets_in(w, file)->Ok_0;
                    lemma_first_kind(rows, label.name, kinds, 0);
                    assert(declared_in(w, file, kind, label));
                    if test_kinds.contains(kind) {
                        assert(target_of(w, test_kinds, canonical(label)));
                    }
                }
            }
        },
    }
}

proof fn lemma_first_kind(rows: Rows, name: Seq<char>, kinds: Seq<Seq<char>>, i: int)
    requires
        0 <= i,
    ensures
        first_kind(rows, name, kinds, i) matches Ok(Some(kind)) ==> declares(rows, kind, name),
    decreases kinds.len() - i,
{
    if i < kinds.len() {
        lemma_named_target(rows, kinds[i], name);
        lemma_first_kind(rows, name, kinds, i + 1);
    }
}

/// More patterns only add targets, behind those that the first ones stand for.
pub proof fn law_expansion_grows(
    w: World,
    ws: WorkspaceModel,
    kinds: Seq<Seq<char>>,
    tests: Option<Seq<Seq<char>>>,
    targets: Seq<Seq<char>>,
    more: Seq<Seq<char>>,
)
    ensures
        expanded(w, ws, kinds, tests, targets + more, 0, Seq::empty()) matches Ok(all) ==> (expanded(
            w,
            ws,
            kinds,
            tests,
            targets,
            0,
            Seq::empty(),
        ) matches Ok(first) && first.len() <= all.len() && all.take(first.len() as int) == first),
{
    lemma_expanded_prefix(w, ws, kinds, tests, targets, more, 0, Seq::empty());
}

proof fn lemma_expanded_prefix(
    w: World,
    ws: WorkspaceModel,
    kinds: Seq<Seq<char>>,
    tests: Option<Seq<Seq<char>>>,
    targets: Seq<Seq<char>>,
    more: Seq<Seq<char>>,
    i: int,
    done: Seq<Seq<char>>,
)
    requires
        0 <= i <= targets.len(),
        done.no_duplicates(),
    ensures
        expanded(w, ws, kinds, tests, targets + more, i, done) matches Ok(all) ==> (expanded(
            w,
            ws,
            kinds,
            tests,
            targets,
            i,
            done,
        ) matches Ok(first) && first.len() <= all.len() && all.take(first.len() as int) == first),
    decreases targets.len() - i,
{
    if i == targets.len() {
        lemma_expanded(w, ws, kinds, tests, targets + more, i, done);
    } else {
        assert((targets + more)[i] == targets[i]);
        let labels = match tests {
            None => expanded_target(w, ws, kinds, targets[i]),
            Some(test_kinds) => expanded_test(w, ws, kinds, test_kinds, targets[i]),
        };
        if let Ok(labels) = labels {
            lemma_with_new(done, labels, 0);
            lemma_expanded_prefix(w, ws, kinds, tests, targets, more, i + 1, with_new(done, labels, 0));
        }
    }
}

fn add_new(done: &mut Vec<String>, labels: &Vec<String>)
    ensures
        final(done).deep_view() == with_new(old(done).deep_view(), labels.deep_view(), 0),
{
    let ghost list = labels.deep_view();
    let mut i: usize = 0;
    while i < labels.len()
        invariant
            i <= labels.len(),
            list == labels.deep_view(),
            with_new(old(done).deep_view(), list, 0) == with_new(done.deep_view(), list, i as int),
        decreases labels.len() - i,
    {
        assert(list[i as int] == labels@[i as int]@);
        if !holds_text(done, labels[i].as_str()) {
            keep(done, labels[i].clone());
        }
        i = i + 1;
    }
}

fn recursive_targets(known: &Known, root: &str, package: &str, kinds: &Vec<String>) -> (r: Result<Vec<String>, Stop>)
    ensures
        told(r) == recursive_labels(known.deep_view(), root@, package@, kinds.deep_view()),
{
    let dir = join_path(root, package);
    if let Some(e) = validate_workspace_relative(root, dir.as_str()) {
        return Err(Stop::Failed(e));
    }
    if !known.is_dir(dir.as_str())? {
        return Err(
            Stop::Failed(
                error(
                    ErrorKind::NotFound,
                    cat3("target pattern //", package, "/... refers to a missing package directory"),
                ),
            ),
        );
    }
    let none: Vec<String> = Vec::new();
    assert(none.deep_view() =~= Seq::<Seq<char>>::empty());
    let labels = collect_package_targets(known, root, dir.as_str(), kinds, none)?;
    Ok(in_order(&labels))
}

/// The label alone.
fn only(label: String) -> (r: Vec<String>)
    ensures
        r.deep_view() == seq![label@],
{
    let mut out: Vec<String> = Vec::new();
    keep(&mut out, label);
    assert(out.deep_view() =~= seq![label@]);
    out
}

impl Workspace {
    pub fn load_from(known: &Known, cwd: &str) -> (r: Result<Self, Stop>)
        ensures
            told(r) == workspace_from(known.deep_view(), cwd@),
    {
        let root = find_workspace_root(known, cwd)?;
        let file = join_path(root.as_str(), "WORKSPACE.ccl");
        let config = load_workspace_config(known, root.as_str(), file.as_str())?;
        let current_package = package_for_cwd(known, root.as_str(), cwd)?;
        Ok(Workspace { root, current_package, config })
    }

    pub fn load_workspace_plugins(&self, known: &Known) -> (r: Result<Vec<LoadedWorkspacePlugin>, Stop>)
        ensures
            told(r) == loaded_plugins(known.deep_view(), self.deep_view().config.plugins, 0, Seq::empty()),
    {
        let ghost w = known.deep_view();
        let ghost list = self.config.plugins.deep_view();
        let mut out: Vec<LoadedWorkspacePlugin> = Vec::new();
        assert(out.deep_view() =~= Seq::empty());
        let mut i: usize = 0;
        while i < self.config.plugins.len()
            invariant
                i <= self.config.plugins.len(),
                w == known.deep_view(),
                list == self.config.plugins.deep_view(),
                loaded_plugins(w, list, 0, Seq::empty()) == loaded_plugins(w, list, i as int, out.deep_view()),
            decreases self.config.plugins.len() - i,
        {
            assert(list[i as int] == self.config.plugins@[i as int].deep_view());
            let plugin = &self.config.plugins[i];
            let loaded = load_named(known, plugin, "load")?;
            keep(&mut out, LoadedWorkspacePlugin { path: plugin.path.clone(), loaded });
            i = i + 1;
        }
        Ok(out)
    }

    /// The kinds of targets that the plugins know; of tests where `tests`.
    fn kinds(&self, known: &Known, tests: bool) -> (r: Result<Vec<String>, Stop>)
        ensures
            told(r) == kinds_of(known.deep_view(), self.deep_view().config.plugins, tests),
    {
        let plugins = self.load_workspace_plugins(known)?;
        let ghost list = plugins.deep_view();
        let mut kinds: Vec<String> = Vec::new();
        assert(kinds.deep_view() =~= kinds_named(list, tests, 0));
        let mut i: usize = 0;
        while i < plugins.len()
            invariant
                i <= plugins.len(),
                list == plugins.deep_view(),
                kinds.deep_view() == kinds_named(list, tests, i as int),
            decreases plugins.len() - i,
        {
            assert(list[i as int] == plugins@[i as int].deep_view());
            if tests {
                keep_all(&mut kinds, &plugins[i].loaded.manifest.test_rule_kinds);
            } else {
                keep_all(&mut kinds, &plugins[i].loaded.manifest.rule_kinds);
            }
            i = i + 1;
        }
        Ok(in_order(&kinds))
    }

    fn rule_kinds(&self, known: &Known) -> (r: Result<Vec<String>, Stop>)
        ensures
            told(r) == kinds_of(known.deep_view(), self.deep_view().config.plugins, false),
    {
        self.kinds(known, false)
    }

    fn test_rule_kinds(&self, known: &Known) -> (r: Result<Vec<String>, Stop>)
        ensures
            told(r) == kinds_of(known.deep_view(), self.deep_view().config.plugins, true),
    {
        self.kinds(known, true)
    }

    fn expand_recursive_package(&self, known: &Known, package: &str, kinds: &Vec<String>) -> (r: Result<Vec<String>, Stop>)
        ensures
            told(r) == (match recursive_labels(known.deep_view(), self.root@, package@, kinds.deep_view()) {
                Err(stop) => Err(stop),
                Ok(labels) => if labels.len() == 0 {
                    Err(
                        Halt::Failed(
                            fault(
                                ErrorKind::NotFound,
                                "target pattern //"@ + package@ + "/... did not match any targets"@,
                            ),
                        ),
                    )
                } else {
                    Ok(labels)
                },
            }),
    {
        let labels = recursive_targets(known, self.root.as_str(), package, kinds)?;
        if labels.len() == 0 {
            return Err(
                Stop::Failed(
                    error(
                        ErrorKind::NotFound,
                        cat3("target pattern //", package, "/... did not match any targets"),
                    ),
                ),
            );
        }
        Ok(labels)
    }

    fn expand_target_pattern(&self, known: &Known, target: &str, kinds: &Vec<String>) -> (r: Result<Vec<String>, Stop>)
        ensures
            told(r) == expanded_target(known.deep_view(), self.deep_view(), kinds.deep_view(), target@),
    {
        match recursive_package_pattern(target) {
            Err(e) => Err(Stop::Failed(e)),
            Ok(Some(package)) => self.expand_recursive_package(known, package.as_str(), kinds),
            Ok(None) => match canonical_of(target, self.current_package.as_str()) {
                Err(e) => Err(Stop::Failed(e)),
                Ok(label) => Ok(only(label)),
            },
        }
    }

    fn label_rule_kind(&self, known: &Known, label: &Label, kinds: &Vec<String>) -> (r: Result<Option<String>, Stop>)
        ensures
            told(r) == kind_of_label(known.deep_view(), self.root@, label.deep_view(), kinds.deep_view()),
    {
        let dir = join_path(self.root.as_str(), label.package.as_str());
        if let Some(e) = validate_workspace_relative(self.root.as_str(), dir.as_str()) {
            return Err(Stop::Failed(e));
        }
        let file = match build_file(known, dir.as_str())? {
            Some(file) => file,
            None => return Ok(None),
        };
        let table = build_table(known, file.as_str())?;
        let ghost rows = table.deep_view();
        let ghost list = kinds.deep_view();
        let mut i: usize = 0;
        while i < kinds.len()
            invariant
                i <= kinds.len(),
                rows == table.deep_view(),
                list == kinds.deep_view(),
                kind_of_label(known.deep_view(), self.root@, label.deep_view(), list) == settled(
                    first_kind(rows, label.name@, list, i as int),
                ),
            decreases kinds.len() - i,
        {
            assert(list[i as int] == kinds@[i as int]@);
            match find_named_target(&table, kinds[i].as_str(), label.name.as_str()) {
                Err(e) => return Err(Stop::Failed(e)),
                Ok(Some(_)) => return Ok(Some(kinds[i].clone())),
                Ok(None) => {},
            }
            i = i + 1;
        }
        Ok(None)
    }

    fn expand_test_pattern(&self, known: &Known, target: &str, kinds: &Vec<String>, test_kinds: &Vec<String>) -> (r: Result<
        Vec<String>,
        Stop,
    >)
        ensures
            told(r) == expanded_test(
                known.deep_view(),
                self.deep_view(),
                kinds.deep_view(),
                test_kinds.deep_view(),
                target@,
            ),
    {
        match recursive_package_pattern(target) {
            Err(e) => return Err(Stop::Failed(e)),
            Ok(Some(package)) => return recursive_targets(known, self.root.as_str(), package.as_str(), test_kinds),
            Ok(None) => {},
        }
        let label = settle(parse_label(target, self.current_package.as_str()))?;
        match self.label_rule_kind(known, &label, kinds)? {
            Some(kind) => if holds_text(test_kinds, kind.as_str()) {
                Ok(only(canonical_label(&label)))
            } else {
                let none: Vec<String> = Vec::new();
                assert(none.deep_view() =~= Seq::<Seq<char>>::empty());
                Ok(none)
            },
            None => Err(
                Stop::Failed(error(ErrorKind::NotFound, cat3("target ", target, " not found"))),
            ),
        }
    }

    /// The targets that the given patterns stand for, each once.
    pub fn expand_target_patterns(&self, known: &Known, targets: &Vec<String>) -> (r: Result<Vec<String>, Stop>)
        ensures
            told(r) == expanded_targets(known.deep_view(), self.deep_view(), targets.deep_view()),
    {
        let kinds = self.rule_kinds(known)?;
        let ghost w = known.deep_view();
        let ghost ws = self.deep_view();
        let ghost list = targets.deep_view();
        let mut out: Vec<String> = Vec::new();
        assert(out.deep_view() =~= Seq::<Seq<char>>::empty());
        let mut i: usize = 0;
        while i < targets.len()
            invariant
                i <= targets.len(),
                w == known.deep_view(),
                ws == self.deep_view(),
                list == targets.deep_view(),
                expanded_targets(w, ws, list) == expanded(
                    w,
                    ws,
                    kinds.deep_view(),
                    None,
                    list,
                    i as int,
                    out.deep_view(),
                ),
            decreases targets.len() - i,
        {
            assert(list[i as int] == targets@[i as int]@);
            let labels = self.expand_target_pattern(known, targets[i].as_str(), &kinds)?;
            add_new(&mut out, &labels);
            i = i + 1;
        }
        Ok(out)
    }

    /// The tests that the given patterns stand for, each once.
    pub fn expand_test_patterns(&self, known: &Known, targets: &Vec<String>) -> (r: Result<Vec<String>, Stop>)
        ensures
            told(r) == expanded_tests(known.deep_view(), self.deep_view(), targets.deep_view()),
    {
        let kinds = self.rule_kinds(known)?;
        let test_kinds = self.test_rule_kinds(known)?;
        let ghost w = known.deep_view();
        let ghost ws = self.deep_view();
        let ghost list = targets.deep_view();
        let mut out: Vec<String> = Vec::new();
        assert(out.deep_view() =~= Seq::<Seq<char>>::empty());
        let mut i: usize = 0;
        while i < targets.len()
            invariant
                i <= targets.len(),
                w == known.deep_view(),
                ws == self.deep_view(),
                list == targets.deep_view(),
                expanded_tests(w, ws, list) == expanded(
                    w,
                    ws,
                    kinds.deep_view(),
                    Some(test_kinds.deep_view()),
                    list,
                    i as int,
                    out.deep_view(),
                ),
            decreases targets.len() - i,
        {
            assert(list[i as int] == targets@[i as int]@);
            let labels = self.expand_test_pattern(known, targets[i].as_str(), &kinds, &test_kinds)?;
            add_new(&mut out, &labels);
            i = i + 1;
        }
        Ok(out)
    }
}

/// What came of building targets.
pub fn build_from_current_workspace(built: Result<BuildInvocationResult, Error>) -> (r: Result<BuildResult, Error>)
    ensures
        outcome(r) == (match built {
            Ok(invocation) => Ok::<Outcome, Fault>(invocation.result.deep_view()),
            Err(e) => Err(e.deep_view()),
        }),
{
    match built {
        Ok(invocation) => Ok(invocation.result),
        Err(e) => Err(e),
    }
}

} // verus!
