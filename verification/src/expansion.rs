//! Expansion: which targets patterns stand for.

use vstd::prelude::*;

use crate::error::Fault;
use crate::host::{Halt, World};
use crate::labels::{canonical, label_in, leaves, pattern_package, Named};
use crate::packages::{
    build_file_in, child_dirs, dirs_among, hidden, labels_below, labels_in_dirs, labels_of_kinds, labels_of_targets,
    lemma_room, package_in, package_labels, room, targets_in,
};
use crate::path::joined_path;
use crate::rules::{called, declares, lemma_tables_in, required_text, targets_of_kind, Rows};
use crate::table::{found, law_ordered};
use crate::text::{
    after_prefix, before_suffix, begins, has_char, lemma_cut, lemma_position_from, pieces, without_surrounding,
};
use crate::value::{items_in, rows_in, text_in};
use crate::workspace::{
    expanded, expanded_target, expanded_test, kinds_named, lemma_with_new, recursive_labels, with_new, LoadedPlugins,
    WorkspaceModel,
};

verus! {

/// Whether a directory entry is looked into: its name begins with no dot.
pub open spec fn visible(name: Seq<char>) -> bool {
    name.len() > 0 && name[0] != '.' && name[0] != '/'
}

/// The directory that the names `path` lead to from `dir`.
pub open spec fn below(dir: Seq<char>, path: Seq<Seq<char>>) -> Seq<char>
    decreases path.len(),
{
    if path.len() == 0 {
        dir
    } else {
        below(joined_path(dir, path[0]), path.skip(1))
    }
}

/// Whether the names `path` lead from `dir` through visible directories that are there.
pub open spec fn leads_down(w: World, dir: Seq<char>, path: Seq<Seq<char>>) -> bool
    decreases path.len(),
{
    if path.len() == 0 {
        true
    } else {
        &&& w.listed(dir) matches Ok(names) && names.contains(path[0])
        &&& visible(path[0])
        &&& w.dir(joined_path(dir, path[0])) == Ok::<bool, Halt>(true)
        &&& leads_down(w, joined_path(dir, path[0]), path.skip(1))
    }
}

/// Whether the directory `dir` has a build file that declares a target of one of `kinds`
/// called `name`.
pub open spec fn declares_target(w: World, dir: Seq<char>, kinds: Seq<Seq<char>>, name: Seq<char>) -> bool {
    let file = joined_path(dir, "BUILD.ccl"@);
    &&& w.existing(file) == Ok::<bool, Halt>(true)
    &&& targets_in(w, file) matches Ok(rows) && exists|kind: Seq<char>| #[trigger]
        kinds.contains(kind) && declares(rows, kind, name)
}

/// Whether `label` is that of a target of one of `kinds` that a directory declares which
/// visible directories lead to from `dir`.
pub open spec fn declared_below(
    w: World,
    root: Seq<char>,
    dir: Seq<char>,
    kinds: Seq<Seq<char>>,
    path: Seq<Seq<char>>,
    label: Seq<char>,
) -> bool {
    &&& leads_down(w, dir, path)
    &&& package_in(root, below(dir, path)) matches Ok(package) && exists|name: Seq<char>| #[trigger]
        declares_target(w, below(dir, path), kinds, name) && label == canonical(Named { package, name })
}

proof fn lemma_visible(name: Seq<char>)
    ensures
        hidden(name) <==> !visible(name),
{
    reveal_strlit(".");
    if name.len() > 0 {
        assert(name.subrange(0, 1)[0] == name[0]);
        if name[0] == '.' {
            assert(name.subrange(0, 1) =~= "."@);
        }
    }
}

proof fn lemma_labels_of_targets(targets: Seq<Rows>, package: Seq<char>, i: int, done: Seq<Seq<char>>, label: Seq<char>)
    requires
        0 <= i <= targets.len(),
        labels_of_targets(targets, package, i, done) is Ok,
    ensures
        labels_of_targets(targets, package, i, done)->Ok_0.contains(label) <==> done.contains(label) || exists|
            j: int,
            name: Seq<char>,
        |
            i <= j < targets.len() && #[trigger] named_so(targets[j], name) && label == canonical(Named { package, name }),
    decreases targets.len() - i,
{
    if i < targets.len() {
        let name = required_text(targets[i], "name"@)->Ok_0;
        let next = done.push(canonical(Named { package, name }));
        lemma_labels_of_targets(targets, package, i + 1, next, label);
        assert(named_so(targets[i], name));
        assert(next[done.len() as int] == canonical(Named { package, name }));
        if done.contains(label) {
            let k = choose|k: int| 0 <= k < done.len() && done[k] == label;
            assert(next[k] == label);
        }
        if next.contains(label) && !done.contains(label) {
            let k = choose|k: int| 0 <= k < next.len() && next[k] == label;
            assert(k == done.len());
        }
    }
}

/// Whether a table has the name `name`.
pub open spec fn named_so(rows: Rows, name: Seq<char>) -> bool {
    text_in(found(rows, "name"@)) == Some(name)
}

proof fn lemma_kind_declares(rows: Rows, kind: Seq<char>, name: Seq<char>)
    requires
        targets_of_kind(rows, kind) is Ok,
    ensures
        declares(rows, kind, name) <==> exists|j: int|
            0 <= j < targets_of_kind(rows, kind)->Ok_0.len() && #[trigger] named_so(
                targets_of_kind(rows, kind)->Ok_0[j],
                name,
            ),
{
    let targets = targets_of_kind(rows, kind)->Ok_0;
    if let Some(items) = items_in(found(rows, kind)) {
        lemma_tables_in(items, kind, 0, Seq::empty());
        if declares(rows, kind, name) {
            let j = choose|j: int| 0 <= j < items.len() && called(#[trigger] items[j], name);
            assert(rows_in(Some(items[j])) == Some(targets[j]));
            assert(named_so(targets[j], name));
        }
        if exists|j: int| 0 <= j < targets.len() && #[trigger] named_so(targets[j], name) {
            let j = choose|j: int| 0 <= j < targets.len() && #[trigger] named_so(targets[j], name);
            assert(rows_in(Some(items[j])) == Some(targets[j]));
            assert(called(items[j], name));
        }
    }
}

proof fn lemma_labels_of_kinds(
    rows: Rows,
    package: Seq<char>,
    kinds: Seq<Seq<char>>,
    i: int,
    done: Seq<Seq<char>>,
    label: Seq<char>,
)
    requires
        0 <= i <= kinds.len(),
        labels_of_kinds(rows, package, kinds, i, done) is Ok,
    ensures
        labels_of_kinds(rows, package, kinds, i, done)->Ok_0.contains(label) <==> done.contains(label) || exists|
            k: int,
            name: Seq<char>,
        |
            i <= k < kinds.len() && #[trigger] declares(rows, kinds[k], name) && label == canonical(
                Named { package, name },
            ),
    decreases kinds.len() - i,
{
    if i < kinds.len() {
        let targets = targets_of_kind(rows, kinds[i])->Ok_0;
        let next = labels_of_targets(targets, package, 0, done)->Ok_0;
        lemma_labels_of_targets(targets, package, 0, done, label);
        lemma_labels_of_kinds(rows, package, kinds, i + 1, next, label);
        if next.contains(label) && !done.contains(label) {
            let (j, name) = choose|j: int, name: Seq<char>|
                0 <= j < targets.len() && #[trigger] named_so(targets[j], name) && label == canonical(
                    Named { package, name },
                );
            lemma_kind_declares(rows, kinds[i], name);
            assert(declares(rows, kinds[i], name));
        }
        if exists|k: int, name: Seq<char>|
            i <= k < kinds.len() && #[trigger] declares(rows, kinds[k], name) && label == canonical(
                Named { package, name },
            ) {
            let (k, name) = choose|k: int, name: Seq<char>|
                i <= k < kinds.len() && #[trigger] declares(rows, kinds[k], name) && label == canonical(
                    Named { package, name },
                );
            if k == i {
                lemma_kind_declares(rows, kinds[i], name);
                let j = choose|j: int| 0 <= j < targets.len() && #[trigger] named_so(targets[j], name);
                assert(named_so(targets[j], name));
                assert(next.contains(label));
            } else {
                assert(declares(rows, kinds[k], name));
            }
        }
    }
}

/// The labels of one directory.
proof fn lemma_package_labels(
    w: World,
    root: Seq<char>,
    dir: Seq<char>,
    kinds: Seq<Seq<char>>,
    done: Seq<Seq<char>>,
    label: Seq<char>,
)
    requires
        package_labels(w, root, dir, kinds, done) is Ok,
    ensures
        package_labels(w, root, dir, kinds, done)->Ok_0.contains(label) <==> done.contains(label) || declared_below(
            w,
            root,
            dir,
            kinds,
            Seq::empty(),
            label,
        ),
        w.existing(joined_path(dir, "BUILD.ccl"@)) == Ok::<bool, Halt>(true) ==> package_in(root, dir) is Ok,
{
    assert(below(dir, Seq::empty()) == dir);
    let file = joined_path(dir, "BUILD.ccl"@);
    assert(build_file_in(dir) == file);
    if w.existing(file) == Ok::<bool, Halt>(true) {
        let package = package_in(root, dir)->Ok_0;
        let rows = targets_in(w, file)->Ok_0;
        lemma_labels_of_kinds(rows, package, kinds, 0, done, label);
        if exists|k: int, name: Seq<char>|
            0 <= k < kinds.len() && #[trigger] declares(rows, kinds[k], name) && label == canonical(
                Named { package, name },
            ) {
            let (k, name) = choose|k: int, name: Seq<char>|
                0 <= k < kinds.len() && #[trigger] declares(rows, kinds[k], name) && label == canonical(
                    Named { package, name },
                );
            assert(kinds.contains(kinds[k]));
            assert(declares_target(w, dir, kinds, name));
        }
        if declared_below(w, root, dir, kinds, Seq::empty(), label) {
            let name = choose|name: Seq<char>| #[trigger]
                declares_target(w, dir, kinds, name) && label == canonical(Named { package, name });
            let kind = choose|kind: Seq<char>| #[trigger] kinds.contains(kind) && declares(rows, kind, name);
            let k = choose|k: int| 0 <= k < kinds.len() && kinds[k] == kind;
            assert(declares(rows, kinds[k], name));
        }
    }
}

proof fn lemma_dirs_among(w: World, dir: Seq<char>, names: Seq<Seq<char>>, i: int, done: Seq<Seq<char>>, name: Seq<char>)
    requires
        0 <= i <= names.len(),
        dirs_among(w, dir, names, i, done) is Ok,
    ensures
        dirs_among(w, dir, names, i, done)->Ok_0.contains(name) <==> done.contains(name) || (exists|j: int|
            i <= j < names.len() && #[trigger] names[j] == name) && visible(name) && w.dir(joined_path(dir, name)) == Ok::<
            bool,
            Halt,
        >(true),
    decreases names.len() - i,
{
    if i < names.len() {
        let next = if !hidden(names[i]) && w.dir(joined_path(dir, names[i])) == Ok::<bool, Halt>(true) {
            done.push(names[i])
        } else {
            done
        };
        lemma_visible(names[i]);
        lemma_dirs_among(w, dir, names, i + 1, next, name);
        if done.contains(name) {
            let k = choose|k: int| 0 <= k < done.len() && done[k] == name;
            assert(next[k] == name);
        }
        if next.contains(name) && !done.contains(name) {
            let k = choose|k: int| 0 <= k < next.len() && next[k] == name;
            assert(names[i] == name);
        }
        if next.len() > done.len() && names[i] == name {
            assert(next[done.len() as int] == name);
        }
    }
}

/// The directories in a directory that are looked into.
proof fn lemma_child_dirs(w: World, dir: Seq<char>, name: Seq<char>)
    requires
        child_dirs(w, dir) is Ok,
    ensures
        child_dirs(w, dir)->Ok_0.contains(name) <==> (w.listed(dir) matches Ok(names) && names.contains(name)) && visible(
            name,
        ) && w.dir(joined_path(dir, name)) == Ok::<bool, Halt>(true),
{
    let names = w.listed(dir)->Ok_0;
    let dirs = dirs_among(w, dir, names, 0, Seq::empty())->Ok_0;
    lemma_dirs_among(w, dir, names, 0, Seq::empty(), name);
    law_ordered(dirs);
    if names.contains(name) {
        let j = choose|j: int| 0 <= j < names.len() && names[j] == name;
        assert(names[j] == name);
    }
}

proof fn lemma_deeper(w: World, root: Seq<char>, dir: Seq<char>, kinds: Seq<Seq<char>>, path: Seq<Seq<char>>, label: Seq<char>)
    requires
        path.len() > 0,
    ensures
        declared_below(w, root, dir, kinds, path, label) <==> (w.listed(dir) matches Ok(names) && names.contains(path[0]))
            && visible(path[0]) && w.dir(joined_path(dir, path[0])) == Ok::<bool, Halt>(true) && declared_below(
            w,
            root,
            joined_path(dir, path[0]),
            kinds,
            path.skip(1),
            label,
        ),
{
}

/// The labels in and below a directory are just those of the targets of the given kinds
/// that are declared in it and in the directories that visible directories lead to,
/// whether or not those between have build files.
pub proof fn law_labels_below(
    w: World,
    root: Seq<char>,
    dir: Seq<char>,
    kinds: Seq<Seq<char>>,
    done: Seq<Seq<char>>,
    label: Seq<char>,
)
    requires
        labels_below(w, root, dir, kinds, done) is Ok,
    ensures
        labels_below(w, root, dir, kinds, done)->Ok_0.contains(label) <==> done.contains(label) || exists|
            path: Seq<Seq<char>>,
        | #[trigger]
            declared_below(w, root, dir, kinds, path, label),
    decreases room(w, dir), 1int, 0int,
{
    let labels = package_labels(w, root, dir, kinds, done)->Ok_0;
    let names = child_dirs(w, dir)->Ok_0;
    lemma_package_labels(w, root, dir, kinds, done, label);
    assert forall|j: int| 0 <= j < names.len() implies visible(#[trigger] names[j]) by {
        assert(names.contains(names[j]));
        lemma_child_dirs(w, dir, names[j]);
    }
    lemma_labels_in_dirs(w, root, dir, names, 0, kinds, labels, label);
    if labels_below(w, root, dir, kinds, done)->Ok_0.contains(label) && !labels.contains(label) {
        let (i, path) = choose|i: int, path: Seq<Seq<char>>|
            0 <= i < names.len() && #[trigger] declared_below(
                w,
                root,
                joined_path(dir, names[i]),
                kinds,
                path,
                label,
            );
        let whole = seq![names[i]] + path;
        assert(whole.skip(1) =~= path);
        assert(names.contains(names[i]));
        lemma_child_dirs(w, dir, names[i]);
        lemma_deeper(w, root, dir, kinds, whole, label);
        assert(declared_below(w, root, dir, kinds, whole, label));
    }
    if exists|path: Seq<Seq<char>>| #[trigger] declared_below(w, root, dir, kinds, path, label) {
        let path = choose|path: Seq<Seq<char>>| #[trigger] declared_below(w, root, dir, kinds, path, label);
        if path.len() == 0 {
            assert(path =~= Seq::empty());
        } else {
            lemma_deeper(w, root, dir, kinds, path, label);
            lemma_child_dirs(w, dir, path[0]);
            let i = choose|i: int| 0 <= i < names.len() && names[i] == path[0];
            assert(declared_below(w, root, joined_path(dir, names[i]), kinds, path.skip(1), label));
        }
    }
    if labels.contains(label) && !done.contains(label) {
        assert(declared_below(w, root, dir, kinds, Seq::empty(), label));
    }
}

proof fn lemma_labels_in_dirs(
    w: World,
    root: Seq<char>,
    dir: Seq<char>,
    names: Seq<Seq<char>>,
    i: int,
    kinds: Seq<Seq<char>>,
    done: Seq<Seq<char>>,
    label: Seq<char>,
)
    requires
        0 <= i <= names.len(),
        labels_in_dirs(w, root, dir, names, i, kinds, done) is Ok,
        w.listed(dir) is Ok,
        forall|j: int| 0 <= j < names.len() ==> visible(#[trigger] names[j]),
    ensures
        labels_in_dirs(w, root, dir, names, i, kinds, done)->Ok_0.contains(label) <==> done.contains(label) || exists|
            j: int,
            path: Seq<Seq<char>>,
        |
            i <= j < names.len() && #[trigger] declared_below(
                w,
                root,
                joined_path(dir, names[j]),
                kinds,
                path,
                label,
            ),
    decreases room(w, dir), 0int, names.len() - i,
{
    if i < names.len() {
        let child = joined_path(dir, names[i]);
        lemma_visible(names[i]);
        lemma_room(w, dir, names[i]);
        let next = labels_below(w, root, child, kinds, done)->Ok_0;
        law_labels_below(w, root, child, kinds, done, label);
        lemma_labels_in_dirs(w, root, dir, names, i + 1, kinds, next, label);
        if next.contains(label) && !done.contains(label) {
            let path = choose|path: Seq<Seq<char>>| #[trigger] declared_below(w, root, child, kinds, path, label);
            assert(declared_below(w, root, joined_path(dir, names[i]), kinds, path, label));
        }
        if exists|j: int, path: Seq<Seq<char>>|
            i <= j < names.len() && #[trigger] declared_below(w, root, joined_path(dir, names[j]), kinds, path, label) {
            let (j, path) = choose|j: int, path: Seq<Seq<char>>|
                i <= j < names.len() && #[trigger] declared_below(
                    w,
                    root,
                    joined_path(dir, names[j]),
                    kinds,
                    path,
                    label,
                );
            if j == i {
                assert(declared_below(w, root, child, kinds, path, label));
                assert(next.contains(label));
            }
        }
    }
}

/// What a text is behind the prefix that it was made with, and before the suffix.
proof fn lemma_affixes(a: Seq<char>, b: Seq<char>)
    ensures
        after_prefix(a + b, a) == Some(b),
        before_suffix(a + b, b) == Some(a),
{
    assert((a + b).subrange(0, a.len() as int) =~= a);
    assert((a + b).subrange(a.len() as int, (a + b).len() as int) =~= b);
    assert((a + b).subrange((a + b).len() - b.len(), (a + b).len() as int) =~= b);
    assert((a + b).subrange(0, (a + b).len() - b.len()) =~= a);
}

/// `//package/...` is the pattern for all targets in and below the package, and `//...`
/// that for all of the workspace.
pub proof fn law_pattern_read(package: Seq<char>)
    requires
        !has_char(package, ':'),
        !leaves(package),
        package.len() > 0,
    ensures
        pattern_package("//"@ + package + "/..."@) == Ok::<Option<Seq<char>>, Fault>(
            Some(without_surrounding(package, '/')),
        ),
        pattern_package("//..."@) == Ok::<Option<Seq<char>>, Fault>(Some(Seq::empty())),
{
    reveal_strlit("//");
    reveal_strlit("/...");
    reveal_strlit("...");
    reveal_strlit("//...");
    reveal_strlit("");
    let rest = package + "/..."@;
    assert("//"@ + package + "/..."@ =~= "//"@ + rest);
    lemma_affixes("//"@, rest);
    lemma_affixes(package, "/..."@);
    assert(rest.len() != "..."@.len());
    assert("//..."@ =~= "//"@ + "..."@);
    lemma_affixes("//"@, "..."@);
    assert(""@ =~= Seq::empty());
    lemma_position_from(""@, ':', 0);
    lemma_nowhere();
}

/// The workspace's own package lies in it.
proof fn lemma_nowhere()
    ensures
        !leaves(""@),
        without_surrounding(""@, '/') == Seq::<char>::empty(),
{
    reveal_strlit("");
    reveal_strlit("/");
    reveal_strlit("..");
    lemma_position_from(""@, '/', 0);
    assert(pieces(""@, '/') =~= seq![""@]);
    assert(""@.len() != ".."@.len());
    assert(without_surrounding(""@, '/') =~= Seq::empty());
}

/// `//package:name` is the target of that name in the package, wherever it is written,
/// and `:name` is the one in the package where it is written.
pub proof fn law_label_read(package: Seq<char>, name: Seq<char>, current_package: Seq<char>)
    requires
        !has_char(package, ':'),
        !leaves(package),
        name.len() > 0,
    ensures
        label_in("//"@ + package + ":"@ + name, current_package) == Ok::<Named, Fault>(
            Named { package: without_surrounding(package, '/'), name },
        ),
        label_in(":"@ + name, package) == Ok::<Named, Fault>(Named { package: without_surrounding(package, '/'), name }),
{
    reveal_strlit("//");
    reveal_strlit(":");
    let rest = package + ":"@ + name;
    assert("//"@ + package + ":"@ + name =~= "//"@ + rest);
    lemma_affixes("//"@, rest);
    assert(":"@ =~= seq![':']);
    lemma_cut(package, ':', name);
    lemma_affixes(":"@, name);
    let here = ":"@ + name;
    if begins(here, "//"@) {
        assert(here.subrange(0, 2)[0] == ':');
        assert("//"@[0] == '/');
    }
}

/// What one pattern or label stands for.
pub open spec fn stands_for(
    w: World,
    ws: WorkspaceModel,
    kinds: Seq<Seq<char>>,
    tests: Option<Seq<Seq<char>>>,
    target: Seq<char>,
) -> Result<Seq<Seq<char>>, Halt> {
    match tests {
        None => expanded_target(w, ws, kinds, target),
        Some(test_kinds) => expanded_test(w, ws, kinds, test_kinds, target),
    }
}

/// The kinds of targets that are wanted: those of tests, where these are asked for.
pub open spec fn wanted_kinds(kinds: Seq<Seq<char>>, tests: Option<Seq<Seq<char>>>) -> Seq<Seq<char>> {
    match tests {
        Some(test_kinds) => test_kinds,
        None => kinds,
    }
}

/// Patterns together stand for just what each of them stands for; where one of them fails,
/// they fail.
pub proof fn law_expansion_is_of_all(
    w: World,
    ws: WorkspaceModel,
    kinds: Seq<Seq<char>>,
    tests: Option<Seq<Seq<char>>>,
    targets: Seq<Seq<char>>,
    label: Seq<char>,
)
    ensures
        expanded(w, ws, kinds, tests, targets, 0, Seq::empty()) is Ok <==> forall|j: int|
            0 <= j < targets.len() ==> stands_for(w, ws, kinds, tests, #[trigger] targets[j]) is Ok,
        expanded(w, ws, kinds, tests, targets, 0, Seq::empty()) matches Ok(labels) ==> (labels.contains(label) <==> exists|
            j: int,
        |
            0 <= j < targets.len() && stands_for(w, ws, kinds, tests, #[trigger] targets[j])->Ok_0.contains(label)),
{
    lemma_expansion(w, ws, kinds, tests, targets, 0, Seq::empty(), label);
}

proof fn lemma_expansion(
    w: World,
    ws: WorkspaceModel,
    kinds: Seq<Seq<char>>,
    tests: Option<Seq<Seq<char>>>,
    targets: Seq<Seq<char>>,
    i: int,
    done: Seq<Seq<char>>,
    label: Seq<char>,
)
    requires
        0 <= i <= targets.len(),
        done.no_duplicates(),
    ensures
        expanded(w, ws, kinds, tests, targets, i, done) is Ok <==> forall|j: int|
            i <= j < targets.len() ==> stands_for(w, ws, kinds, tests, #[trigger] targets[j]) is Ok,
        expanded(w, ws, kinds, tests, targets, i, done) matches Ok(labels) ==> (labels.contains(label) <==> done.contains(
            label,
        ) || exists|j: int|
            i <= j < targets.len() && stands_for(w, ws, kinds, tests, #[trigger] targets[j])->Ok_0.contains(label)),
    decreases targets.len() - i,
{
    if i < targets.len() {
        assert(targets[i] == targets[i]);
        if let Ok(labels) = stands_for(w, ws, kinds, tests, targets[i]) {
            let next = with_new(done, labels, 0);
            lemma_with_new(done, labels, 0);
            lemma_expansion(w, ws, kinds, tests, targets, i + 1, next, label);
            if labels.contains(label) {
                let k = choose|k: int| 0 <= k < labels.len() && labels[k] == label;
                assert(next.contains(labels[k]));
            }
            if done.contains(label) {
                let k = choose|k: int| 0 <= k < done.len() && done[k] == label;
                assert(next.take(done.len() as int)[k] == next[k]);
            }
        }
    }
}

/// A pattern stands for just the labels of the targets that are declared in and below its
/// package: those of all kinds, or those of the kinds of tests. A label stands for itself.
pub proof fn law_stands_for(
    w: World,
    ws: WorkspaceModel,
    kinds: Seq<Seq<char>>,
    tests: Option<Seq<Seq<char>>>,
    target: Seq<char>,
    label: Seq<char>,
)
    requires
        stands_for(w, ws, kinds, tests, target) is Ok,
    ensures
        pattern_package(target) matches Ok(Some(package)) ==> (stands_for(w, ws, kinds, tests, target)->Ok_0.contains(
            label,
        ) <==> exists|path: Seq<Seq<char>>| #[trigger]
            declared_below(
                w,
                ws.root,
                joined_path(ws.root, package),
                wanted_kinds(kinds, tests),
                path,
                label,
            )),
        pattern_package(target) == Ok::<Option<Seq<char>>, Fault>(None) && tests is None ==> stands_for(
            w,
            ws,
            kinds,
            tests,
            target,
        )->Ok_0 == seq![canonical(label_in(target, ws.current_package)->Ok_0)],
{
    if let Ok(Some(package)) = pattern_package(target) {
        let wanted = wanted_kinds(kinds, tests);
        let dir = joined_path(ws.root, package);
        let labels = labels_below(w, ws.root, dir, wanted, Seq::empty())->Ok_0;
        assert(recursive_labels(w, ws.root, package, wanted) is Ok);
        law_labels_below(w, ws.root, dir, wanted, Seq::empty(), label);
        law_ordered(labels);
    }
}

/// The kinds of targets that are known are just those that a plugin declares.
pub proof fn law_kinds_named(plugins: LoadedPlugins, tests: bool, n: int, kind: Seq<char>)
    requires
        0 <= n <= plugins.len(),
    ensures
        kinds_named(plugins, tests, n).contains(kind) <==> exists|i: int|
            0 <= i < n && (if tests {
                (#[trigger] plugins[i]).1.manifest.test_rule_kinds.contains(kind)
            } else {
                plugins[i].1.manifest.rule_kinds.contains(kind)
            }),
    decreases n,
{
    if n > 0 {
        law_kinds_named(plugins, tests, n - 1, kind);
        let before = kinds_named(plugins, tests, n - 1);
        let more = if tests {
            plugins[n - 1].1.manifest.test_rule_kinds
        } else {
            plugins[n - 1].1.manifest.rule_kinds
        };
        let all = before + more;
        if all.contains(kind) {
            let k = choose|k: int| 0 <= k < all.len() && all[k] == kind;
            if k < before.len() {
                assert(before[k] == kind);
            } else {
                assert(more[k - before.len()] == kind);
                assert(more.contains(kind));
            }
        }
        if before.contains(kind) {
            let k = choose|k: int| 0 <= k < before.len() && before[k] == kind;
            assert(all[k] == kind);
        }
        if more.contains(kind) {
            let k = choose|k: int| 0 <= k < more.len() && more[k] == kind;
            assert(all[before.len() + k] == kind);
        }
    }
}

} // verus!
