//! Packages: the directories of a workspace that have a build file, and the
//! targets in and below them.

use vstd::prelude::*;

use crate::config_file::{load_build_table, loaded_targets};
use crate::error::{error, fault, outcome, Error, ErrorKind, Fault};
use crate::host::{settle, settled, told, Halt, Known, Stop, World};
use crate::labels::{canonical, canonical_label, Label, Named};
use crate::path::{absolute, is_absolute, join_path, joined_path, relative, strip_path};
use crate::rules::{
    declares, lemma_targets_of_kind, required_string, required_text, target_tables, targets_of_kind, Rows,
};
use crate::table::{found, in_order, ordered};
use crate::text::{begins, begins_with, cat3, keep, trim_matches, without_surrounding};
use crate::value::ConfigTable;

verus! {

/// The build file of the package in `dir`.
pub open spec fn build_file_in(dir: Seq<char>) -> Seq<char> {
    joined_path(dir, "BUILD.ccl"@)
}

/// The build file of the package in `dir`, where there is one.
pub open spec fn build_file_of(w: World, dir: Seq<char>) -> Result<Option<Seq<char>>, Halt> {
    match w.existing(build_file_in(dir)) {
        Err(stop) => Err(stop),
        Ok(true) => Ok(Some(build_file_in(dir))),
        Ok(false) => Ok(None),
    }
}

pub fn build_file(known: &Known, dir: &str) -> (r: Result<Option<String>, Stop>)
    ensures
        told(r) == build_file_of(known.deep_view(), dir@),
{
    let path = join_path(dir, "BUILD.ccl");
    if known.is_present(path.as_str())? {
        Ok(Some(path))
    } else {
        Ok(None)
    }
}

/// The targets in the build file `file`, by their kinds.
pub open spec fn targets_in(w: World, file: Seq<char>) -> Result<Rows, Halt> {
    match w.config(file) {
        Err(stop) => Err(stop),
        Ok(loaded) => settled(loaded_targets(file, loaded)),
    }
}

pub fn build_table(known: &Known, file: &str) -> (r: Result<ConfigTable, Stop>)
    ensures
        told(r) == targets_in(known.deep_view(), file@),
{
    let loaded = known.config(file)?;
    settle(load_build_table(file, loaded))
}

/// The path of `dir` below `root`.
pub open spec fn dir_below(root: Seq<char>, dir: Seq<char>) -> Result<Seq<char>, Fault> {
    match relative(dir, root) {
        Some(rest) => Ok(rest),
        None => Err(fault(ErrorKind::InvalidInput, dir + " is not inside workspace "@ + root)),
    }
}

pub fn strip_root(root: &str, dir: &str) -> (r: Result<String, Error>)
    ensures
        outcome(r) == dir_below(root@, dir@),
{
    match strip_path(dir, root) {
        Some(rest) => Ok(rest),
        None => Err(error(ErrorKind::InvalidInput, cat3(dir, " is not inside workspace ", root))),
    }
}

/// The package in `dir`: the path of `dir` below `root`.
pub open spec fn package_in(root: Seq<char>, dir: Seq<char>) -> Result<Seq<char>, Fault> {
    match dir_below(root, dir) {
        Ok(rest) => Ok(without_surrounding(rest, '/')),
        Err(e) => Err(e),
    }
}

pub fn package_of_dir(root: &str, dir: &str) -> (r: Result<String, Error>)
    ensures
        outcome(r) == package_in(root@, dir@),
{
    match strip_root(root, dir) {
        Ok(rest) => Ok(trim_matches(rest.as_str(), '/')),
        Err(e) => Err(e),
    }
}

/// `done` with the labels of the targets `targets[i..]` of the package
/// `package`.
pub open spec fn labels_of_targets(targets: Seq<Rows>, package: Seq<char>, i: int, done: Seq<Seq<char>>) -> Result<
    Seq<Seq<char>>,
    Fault,
>
    decreases targets.len() - i,
{
    if i >= targets.len() {
        Ok(done)
    } else {
        match required_text(targets[i], "name"@) {
            Err(e) => Err(e),
            Ok(name) => labels_of_targets(targets, package, i + 1, done.push(canonical(Named { package, name }))),
        }
    }
}

/// `done` with the labels of the targets in `rows` that are of the kinds
/// `kinds[i..]`.
pub open spec fn labels_of_kinds(rows: Rows, package: Seq<char>, kinds: Seq<Seq<char>>, i: int, done: Seq<Seq<char>>) -> Result<
    Seq<Seq<char>>,
    Fault,
>
    decreases kinds.len() - i,
{
    if i >= kinds.len() {
        Ok(done)
    } else {
        match targets_of_kind(rows, kinds[i]) {
            Err(e) => Err(e),
            Ok(targets) => match labels_of_targets(targets, package, 0, done) {
                Err(e) => Err(e),
                Ok(next) => labels_of_kinds(rows, package, kinds, i + 1, next),
            },
        }
    }
}

fn add_target_labels(targets: &Vec<ConfigTable>, package: &str, labels: Vec<String>) -> (r: Result<Vec<String>, Error>)
    ensures
        outcome(r) == labels_of_targets(targets.deep_view(), package@, 0, labels.deep_view()),
{
    let ghost list = targets.deep_view();
    let mut out = labels;
    let mut i: usize = 0;
    while i < targets.len()
        invariant
            i <= targets.len(),
            list == targets.deep_view(),
            labels_of_targets(list, package@, 0, labels.deep_view()) == labels_of_targets(
                list,
                package@,
                i as int,
                out.deep_view(),
            ),
        decreases targets.len() - i,
    {
        assert(list[i as int] == targets@[i as int].deep_view());
        let name = required_string(&targets[i], "name")?;
        let label = Label { package: package.to_owned(), name };
        keep(&mut out, canonical_label(&label));
        i = i + 1;
    }
    Ok(out)
}

/// Adds the labels of the targets in `table` that are of the given kinds.
pub fn add_labels(table: &ConfigTable, package: &str, kinds: &Vec<String>, labels: Vec<String>) -> (r: Result<
    Vec<String>,
    Error,
>)
    ensures
        outcome(r) == labels_of_kinds(table.deep_view(), package@, kinds.deep_view(), 0, labels.deep_view()),
{
    let ghost list = kinds.deep_view();
    let ghost rows = table.deep_view();
    let mut out = labels;
    let mut i: usize = 0;
    while i < kinds.len()
        invariant
            i <= kinds.len(),
            list == kinds.deep_view(),
            rows == table.deep_view(),
            labels_of_kinds(rows, package@, list, 0, labels.deep_view()) == labels_of_kinds(
                rows,
                package@,
                list,
                i as int,
                out.deep_view(),
            ),
        decreases kinds.len() - i,
    {
        assert(list[i as int] == kinds@[i as int]@);
        let targets = target_tables(table, kinds[i].as_str())?;
        out = add_target_labels(&targets, package, out)?;
        i = i + 1;
    }
    Ok(out)
}

/// `done` with the labels of the targets in the package in `dir`, where there
/// is one.
pub open spec fn package_labels(
    w: World,
    root: Seq<char>,
    dir: Seq<char>,
    kinds: Seq<Seq<char>>,
    done: Seq<Seq<char>>,
) -> Result<Seq<Seq<char>>, Halt> {
    match build_file_of(w, dir) {
        Err(stop) => Err(stop),
        Ok(None) => Ok(done),
        Ok(Some(file)) => match package_in(root, dir) {
            Err(e) => Err(Halt::Failed(e)),
            Ok(package) => match targets_in(w, file) {
                Err(stop) => Err(stop),
                Ok(rows) => settled(labels_of_kinds(rows, package, kinds, 0, done)),
            },
        },
    }
}

fn add_package_labels(known: &Known, root: &str, dir: &str, kinds: &Vec<String>, labels: Vec<String>) -> (r: Result<
    Vec<String>,
    Stop,
>)
    ensures
        told(r) == package_labels(known.deep_view(), root@, dir@, kinds.deep_view(), labels.deep_view()),
{
    let file = match build_file(known, dir)? {
        Some(file) => file,
        None => return Ok(labels),
    };
    let package = settle(package_of_dir(root, dir))?;
    let table = build_table(known, file.as_str())?;
    settle(add_labels(&table, package.as_str(), kinds, labels))
}

/// Whether an entry of a directory is not looked into.
pub open spec fn hidden(name: Seq<char>) -> bool {
    name.len() == 0 || absolute(name) || begins(name, "."@)
}

fn is_hidden_path(name: &str) -> (r: bool)
    ensures
        r == hidden(name@),
{
    name.is_empty() || is_absolute(name) || begins_with(name, ".")
}

/// `done` with those of the entries `names[i..]` of `dir` that are directories
/// to look into.
pub open spec fn dirs_among(w: World, dir: Seq<char>, names: Seq<Seq<char>>, i: int, done: Seq<Seq<char>>) -> Result<
    Seq<Seq<char>>,
    Halt,
>
    decreases names.len() - i,
{
    if i >= names.len() {
        Ok(done)
    } else if hidden(names[i]) {
        dirs_among(w, dir, names, i + 1, done)
    } else {
        match w.dir(joined_path(dir, names[i])) {
            Err(stop) => Err(stop),
            Ok(true) => dirs_among(w, dir, names, i + 1, done.push(names[i])),
            Ok(false) => dirs_among(w, dir, names, i + 1, done),
        }
    }
}

/// The directories in `dir` that are looked into, in order.
pub open spec fn child_dirs(w: World, dir: Seq<char>) -> Result<Seq<Seq<char>>, Halt> {
    match w.listed(dir) {
        Err(stop) => Err(stop),
        Ok(names) => match dirs_among(w, dir, names, 0, Seq::empty()) {
            Err(stop) => Err(stop),
            Ok(dirs) => Ok(ordered(dirs)),
        },
    }
}

/// Whether none of `names` is hidden.
pub open spec fn all_visible(names: Seq<Seq<char>>) -> bool {
    forall|i: int| 0 <= i < names.len() ==> !hidden(#[trigger] names[i])
}

fn visible_dirs(known: &Known, dir: &str) -> (r: Result<Vec<String>, Stop>)
    ensures
        told(r) == child_dirs(known.deep_view(), dir@),
        r matches Ok(names) ==> all_visible(names.deep_view()),
{
    let names = known.entries(dir)?;
    let ghost w = known.deep_view();
    let ghost list = names.deep_view();
    let mut out: Vec<String> = Vec::new();
    assert(out.deep_view() =~= Seq::<Seq<char>>::empty());
    let mut i: usize = 0;
    while i < names.len()
        invariant
            i <= names.len(),
            w == known.deep_view(),
            list == names.deep_view(),
            w.listed(dir@) == Ok::<Seq<Seq<char>>, Halt>(list),
            dirs_among(w, dir@, list, 0, Seq::empty()) == dirs_among(w, dir@, list, i as int, out.deep_view()),
            all_visible(out.deep_view()),
        decreases names.len() - i,
    {
        assert(list[i as int] == names@[i as int]@);
        if !is_hidden_path(names[i].as_str()) {
            if known.is_dir(join_path(dir, names[i].as_str()).as_str())? {
                keep(&mut out, names[i].clone());
            }
        }
        i = i + 1;
    }
    let r = in_order(&out);
    proof {
        crate::table::law_ordered(out.deep_view());
        assert forall|j: int| 0 <= j < r.deep_view().len() implies !hidden(#[trigger] r.deep_view()[j]) by {
            assert(r.deep_view().contains(r.deep_view()[j]));
            assert(out.deep_view().contains(r.deep_view()[j]));
        }
    }
    Ok(r)
}

/// The length of the longest key of `rows`.
pub open spec fn longest<T>(rows: Seq<(Seq<char>, T)>) -> int
    decreases rows.len(),
{
    if rows.len() == 0 {
        0
    } else {
        let rest = longest(rows.drop_first());
        if rows[0].0.len() > rest {
            rows[0].0.len() as int
        } else {
            rest
        }
    }
}

proof fn lemma_longest<T>(rows: Seq<(Seq<char>, T)>, key: Seq<char>)
    ensures
        found(rows, key) is Some ==> key.len() <= longest(rows),
    decreases rows.len(),
{
    if rows.len() > 0 {
        assert(rows.drop_first() =~= rows.skip(1));
        lemma_longest(rows.drop_first(), key);
    }
}

/// By how much a path can grow before nothing is known of what it holds.
pub open spec fn room(w: World, path: Seq<char>) -> int {
    if path.len() > longest(w.entries) {
        0
    } else {
        longest(w.entries) - path.len() + 1
    }
}

pub proof fn lemma_room(w: World, dir: Seq<char>, name: Seq<char>)
    requires
        w.listed(dir) is Ok,
        !hidden(name),
    ensures
        room(w, joined_path(dir, name)) < room(w, dir),
{
    lemma_longest(w.entries, dir);
    reveal_strlit("/");
    if dir.len() == 0 {
        assert(joined_path(dir, name).len() > dir.len());
    } else if dir.last() == '/' {
        assert((dir + name).len() > dir.len());
    } else {
        assert((dir + "/"@ + name).len() > dir.len());
    }
}

/// `done` with the labels of all targets in and below `dir`: those of the
/// package in `dir` first, then those of each directory in it.
pub open spec fn labels_below(
    w: World,
    root: Seq<char>,
    dir: Seq<char>,
    kinds: Seq<Seq<char>>,
    done: Seq<Seq<char>>,
) -> Result<Seq<Seq<char>>, Halt>
    decreases room(w, dir), 1int, 0int,
{
    match package_labels(w, root, dir, kinds, done) {
        Err(stop) => Err(stop),
        Ok(labels) => match child_dirs(w, dir) {
            Err(stop) => Err(stop),
            Ok(names) => labels_in_dirs(w, root, dir, names, 0, kinds, labels),
        },
    }
}

/// `done` with the labels of all targets in and below the directories
/// `names[i..]` of `dir`. A listed directory has less room below it than
/// `dir`; the names of others, which are never listed, are passed over.
pub open spec fn labels_in_dirs(
    w: World,
    root: Seq<char>,
    dir: Seq<char>,
    names: Seq<Seq<char>>,
    i: int,
    kinds: Seq<Seq<char>>,
    done: Seq<Seq<char>>,
) -> Result<Seq<Seq<char>>, Halt>
    decreases room(w, dir), 0int, names.len() - i,
{
    if i >= names.len() {
        Ok(done)
    } else if room(w, joined_path(dir, names[i])) >= room(w, dir) {
        labels_in_dirs(w, root, dir, names, i + 1, kinds, done)
    } else {
        match labels_below(w, root, joined_path(dir, names[i]), kinds, done) {
            Err(stop) => Err(stop),
            Ok(next) => labels_in_dirs(w, root, dir, names, i + 1, kinds, next),
        }
    }
}

/// Whether `label` is that of a target of one of `kinds` in a build file.
pub open spec fn target_of(w: World, kinds: Seq<Seq<char>>, label: Seq<char>) -> bool {
    exists|file: Seq<char>, kind: Seq<char>, named: Named|
        declared_in(w, file, kind, named) && kinds.contains(kind) && label == canonical(named)
}

/// Whether the build file `file` has a target of the kind `kind` with the name
/// in `named`.
pub open spec fn declared_in(w: World, file: Seq<char>, kind: Seq<char>, named: Named) -> bool {
    targets_in(w, file) matches Ok(rows) && declares(rows, kind, named.name)
}

/// Whether all of `labels` are of targets of one of `kinds`.
pub open spec fn all_targets_of(w: World, kinds: Seq<Seq<char>>, labels: Seq<Seq<char>>) -> bool {
    forall|j: int| 0 <= j < labels.len() ==> target_of(w, kinds, #[trigger] labels[j])
}

proof fn lemma_labels_of_targets(
    w: World,
    file: Seq<char>,
    rows: Rows,
    kinds: Seq<Seq<char>>,
    k: int,
    package: Seq<char>,
    i: int,
    done: Seq<Seq<char>>,
)
    requires
        targets_in(w, file) == Ok::<Rows, Halt>(rows),
        0 <= k < kinds.len(),
        targets_of_kind(rows, kinds[k]) is Ok,
        0 <= i,
        all_targets_of(w, kinds, done),
    ensures
        labels_of_targets(targets_of_kind(rows, kinds[k])->Ok_0, package, i, done) matches Ok(labels) ==> all_targets_of(
            w,
            kinds,
            labels,
        ),
    decreases targets_of_kind(rows, kinds[k])->Ok_0.len() - i,
{
    let targets = targets_of_kind(rows, kinds[k])->Ok_0;
    if i < targets.len() {
        if let Ok(name) = required_text(targets[i], "name"@) {
            let named = Named { package, name };
            lemma_targets_of_kind(rows, kinds[k], i, name);
            assert(declared_in(w, file, kinds[k], named));
            assert(kinds.contains(kinds[k]));
            assert(target_of(w, kinds, canonical(named)));
            lemma_labels_of_targets(w, file, rows, kinds, k, package, i + 1, done.push(canonical(named)));
        }
    }
}

proof fn lemma_labels_of_kinds(
    w: World,
    file: Seq<char>,
    rows: Rows,
    kinds: Seq<Seq<char>>,
    package: Seq<char>,
    i: int,
    done: Seq<Seq<char>>,
)
    requires
        targets_in(w, file) == Ok::<Rows, Halt>(rows),
        0 <= i,
        all_targets_of(w, kinds, done),
    ensures
        labels_of_kinds(rows, package, kinds, i, done) matches Ok(labels) ==> all_targets_of(w, kinds, labels),
    decreases kinds.len() - i,
{
    if i < kinds.len() {
        if let Ok(targets) = targets_of_kind(rows, kinds[i]) {
            lemma_labels_of_targets(w, file, rows, kinds, i, package, 0, done);
            if let Ok(next) = labels_of_targets(targets, package, 0, done) {
                lemma_labels_of_kinds(w, file, rows, kinds, package, i + 1, next);
            }
        }
    }
}

/// All labels in and below a directory are of targets of the given kinds.
pub proof fn lemma_labels_below(w: World, root: Seq<char>, dir: Seq<char>, kinds: Seq<Seq<char>>, done: Seq<Seq<char>>)
    requires
        all_targets_of(w, kinds, done),
    ensures
        labels_below(w, root, dir, kinds, done) matches Ok(labels) ==> all_targets_of(w, kinds, labels),
    decreases room(w, dir), 1int, 0int,
{
    if let Ok(Some(file)) = build_file_of(w, dir) {
        if let Ok(package) = package_in(root, dir) {
            if let Ok(rows) = targets_in(w, file) {
                lemma_labels_of_kinds(w, file, rows, kinds, package, 0, done);
            }
        }
    }
    if let Ok(labels) = package_labels(w, root, dir, kinds, done) {
        if let Ok(names) = child_dirs(w, dir) {
            lemma_labels_in_dirs(w, root, dir, names, 0, kinds, labels);
        }
    }
}

proof fn lemma_labels_in_dirs(
    w: World,
    root: Seq<char>,
    dir: Seq<char>,
    names: Seq<Seq<char>>,
    i: int,
    kinds: Seq<Seq<char>>,
    done: Seq<Seq<char>>,
)
    requires
        all_targets_of(w, kinds, done),
        0 <= i,
    ensures
        labels_in_dirs(w, root, dir, names, i, kinds, done) matches Ok(labels) ==> all_targets_of(w, kinds, labels),
    decreases room(w, dir), 0int, names.len() - i,
{
    if i < names.len() {
        if room(w, joined_path(dir, names[i])) >= room(w, dir) {
            lemma_labels_in_dirs(w, root, dir, names, i + 1, kinds, done);
        } else {
            lemma_labels_below(w, root, joined_path(dir, names[i]), kinds, done);
            if let Ok(next) = labels_below(w, root, joined_path(dir, names[i]), kinds, done) {
                lemma_labels_in_dirs(w, root, dir, names, i + 1, kinds, next);
            }
        }
    }
}

pub fn collect_package_targets(known: &Known, root: &str, dir: &str, kinds: &Vec<String>, labels: Vec<String>) -> (r: Result<
    Vec<String>,
    Stop,
>)
    ensures
        told(r) == labels_below(known.deep_view(), root@, dir@, kinds.deep_view(), labels.deep_view()),
    decreases room(known.deep_view(), dir@),
{
    let ghost w = known.deep_view();
    let mut out = add_package_labels(known, root, dir, kinds, labels)?;
    let names = visible_dirs(known, dir)?;
    let ghost list = names.deep_view();
    let ghost start = out.deep_view();
    let mut i: usize = 0;
    while i < names.len()
        invariant
            i <= names.len(),
            w == known.deep_view(),
            list == names.deep_view(),
            all_visible(list),
            w.listed(dir@) is Ok,
            labels_below(w, root@, dir@, kinds.deep_view(), labels.deep_view()) == labels_in_dirs(
                w,
                root@,
                dir@,
                list,
                0,
                kinds.deep_view(),
                start,
            ),
            labels_in_dirs(w, root@, dir@, list, 0, kinds.deep_view(), start) == labels_in_dirs(
                w,
                root@,
                dir@,
                list,
                i as int,
                kinds.deep_view(),
                out.deep_view(),
            ),
        decreases names.len() - i,
    {
        assert(list[i as int] == names@[i as int]@);
        assert(!hidden(list[i as int]));
        proof {
            lemma_room(w, dir@, list[i as int]);
        }
        let child = join_path(dir, names[i].as_str());
        out = collect_package_targets(known, root, child.as_str(), kinds, out)?;
        i = i + 1;
    }
    Ok(out)
}

} // verus!
