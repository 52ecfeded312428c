//! Stated targets: what the entries of a build file come to, field by field.

use vstd::prelude::*;

use crate::config_file::{by_kind, import_path, with_target};
use crate::error::{ErrorKind, Fault};
use crate::labels::{canonical_in, label_or_external};
use crate::model::Requirement;
use crate::path::{absolute, climbs, joined_path, lies_in, parent_of};
use crate::rules::{
    called, canonical_labels, label_under, labels_under, named_in, path_in_package, paths_in_package, requirement_in,
    requirements_in, source_under, sources_under, tables_in, target_requirements, text_list, Rows,
};
use crate::table::{found, law_with_row, with_row};
use crate::text::{begins, has_char, lemma_cut};
use crate::value::{items_in, member, rows_in, text_in, Node};

verus! {

/// Whether `list` is what the texts `items` are.
pub open spec fn spells(items: Seq<Node>, list: Seq<Seq<char>>) -> bool {
    items.len() == list.len() && forall|k: int| 0 <= k < items.len() ==> #[trigger] items[k] == Node::Text(list[k])
}

/// A list of texts is read text by text; it is empty where nothing is stated, and anything
/// but an array of texts is refused.
pub proof fn law_text_list(rows: Rows, key: Seq<char>)
    ensures
        match text_list(rows, key) {
            Ok(list) => match found(rows, key) {
                None => list.len() == 0,
                Some(value) => value matches Node::Array(items) && spells(items, list),
            },
            Err(e) => e.kind == ErrorKind::InvalidData && (found(rows, key) matches Some(value) && match value {
                Node::Array(items) => exists|k: int| 0 <= k < items.len() && !((#[trigger] items[k]) is Text),
                _ => true,
            }),
        },
{
}

/// A file of a package is below its directory: neither an absolute path nor one that climbs
/// is accepted, nor one that leaves the workspace.
pub proof fn law_package_path(root: Seq<char>, package_dir: Seq<char>, path: Seq<char>)
    ensures
        path_in_package(root, package_dir, path) is Ok <==> {
            let whole = joined_path(package_dir, path);
            &&& !begins(path, "/"@)
            &&& !climbs(path)
            &&& !climbs(whole)
            &&& absolute(whole) ==> lies_in(whole, root)
        },
        path_in_package(root, package_dir, path) matches Ok(whole) ==> whole == joined_path(package_dir, path),
        path_in_package(root, package_dir, path) matches Err(e) ==> e.kind == ErrorKind::InvalidInput,
{
}

/// The files of a package are accepted just where each of them is; they are then all there,
/// in their order.
pub proof fn law_package_paths(
    root: Seq<char>,
    package_dir: Seq<char>,
    sources: Seq<Seq<char>>,
    i: int,
    done: Seq<Seq<char>>,
)
    requires
        0 <= i <= sources.len(),
    ensures
        paths_in_package(root, package_dir, sources, i, done) is Ok <==> forall|k: int|
            i <= k < sources.len() ==> path_in_package(root, package_dir, #[trigger] sources[k]) is Ok,
        paths_in_package(root, package_dir, sources, i, done) matches Ok(list) ==> {
            &&& list.len() == done.len() + sources.len() - i
            &&& list.take(done.len() as int) == done
            &&& forall|k: int|
                i <= k < sources.len() ==> list[done.len() + k - i] == joined_path(package_dir, #[trigger] sources[k])
        },
    decreases sources.len() - i,
{
    if i < sources.len() {
        if let Ok(path) = path_in_package(root, package_dir, sources[i]) {
            let next = done.push(path);
            law_package_paths(root, package_dir, sources, i + 1, next);
            if let Ok(list) = paths_in_package(root, package_dir, sources, i + 1, next) {
                assert(list.take(done.len() as int) =~= done) by {
                    assert forall|k: int| 0 <= k < done.len() implies list[k] == done[k] by {
                        assert(list.take(next.len() as int)[k] == next[k]);
                    }
                }
                assert(list.take(next.len() as int)[done.len() as int] == path);
            }
        }
    } else {
        assert(done.take(done.len() as int) =~= done);
    }
}

/// The sources of a target are the files that it lists, each below the package.
pub proof fn law_sources_stated(root: Seq<char>, package_dir: Seq<char>, rows: Rows, key: Seq<char>, items: Seq<Node>, k: int)
    requires
        found(rows, key) == Some(Node::Array(items)),
        0 <= k < items.len(),
        sources_under(root, package_dir, rows, key) is Ok,
    ensures
        ({
            let list = sources_under(root, package_dir, rows, key)->Ok_0;
            &&& list.len() == items.len()
            &&& items[k] matches Node::Text(path) && list[k] == joined_path(package_dir, path)
        }),
{
    law_text_list(rows, key);
    let texts = text_list(rows, key)->Ok_0;
    law_package_paths(root, package_dir, texts, 0, Seq::empty());
    assert(items[k] == Node::Text(texts[k]));
}

/// Labels are accepted just where each of them is; they are then all there, in their order.
pub proof fn law_canonical_labels(labels: Seq<Seq<char>>, package: Seq<char>, i: int, done: Seq<Seq<char>>)
    requires
        0 <= i <= labels.len(),
    ensures
        canonical_labels(labels, package, i, done) is Ok <==> forall|k: int|
            i <= k < labels.len() ==> canonical_in(#[trigger] labels[k], package) is Ok,
        canonical_labels(labels, package, i, done) matches Ok(list) ==> {
            &&& list.len() == done.len() + labels.len() - i
            &&& list.take(done.len() as int) == done
            &&& forall|k: int|
                i <= k < labels.len() ==> canonical_in(#[trigger] labels[k], package) == Ok::<Seq<char>, Fault>(
                    list[done.len() + k - i],
                )
        },
    decreases labels.len() - i,
{
    if i < labels.len() {
        if let Ok(label) = canonical_in(labels[i], package) {
            let next = done.push(label);
            law_canonical_labels(labels, package, i + 1, next);
            if let Ok(list) = canonical_labels(labels, package, i + 1, next) {
                assert(list.take(done.len() as int) =~= done) by {
                    assert forall|k: int| 0 <= k < done.len() implies list[k] == done[k] by {
                        assert(list.take(next.len() as int)[k] == next[k]);
                    }
                }
                assert(list.take(next.len() as int)[done.len() as int] == label);
            }
        }
    } else {
        assert(done.take(done.len() as int) =~= done);
    }
}

/// The labels of a target are those that it lists, as they are read in its package.
pub proof fn law_labels_stated(package: Seq<char>, rows: Rows, key: Seq<char>, items: Seq<Node>, k: int)
    requires
        found(rows, key) == Some(Node::Array(items)),
        0 <= k < items.len(),
        labels_under(package, rows, key) is Ok,
    ensures
        ({
            let list = labels_under(package, rows, key)->Ok_0;
            &&& list.len() == items.len()
            &&& items[k] matches Node::Text(label) && canonical_in(label, package) == Ok::<Seq<char>, Fault>(list[k])
        }),
{
    law_text_list(rows, key);
    let texts = text_list(rows, key)->Ok_0;
    law_canonical_labels(texts, package, 0, Seq::empty());
    assert(items[k] == Node::Text(texts[k]));
}

/// A single label or source of a target is the one that it states; there is none where it
/// states none.
pub proof fn law_single_stated(root: Seq<char>, package_dir: Seq<char>, package: Seq<char>, rows: Rows, key: Seq<char>)
    ensures
        match text_in(found(rows, key)) {
            None => label_under(package, rows, key) == Ok::<_, Fault>(None::<Seq<char>>) && source_under(
                root,
                package_dir,
                rows,
                key,
            ) == Ok::<_, Fault>(None::<Seq<char>>),
            Some(value) => {
                &&& label_under(package, rows, key) matches Ok(label) ==> label is Some && canonical_in(value, package)
                    == Ok::<Seq<char>, Fault>(label->0)
                &&& label_under(package, rows, key) is Err <==> canonical_in(value, package) is Err
                &&& source_under(root, package_dir, rows, key) matches Ok(path) ==> path == Some(
                    joined_path(package_dir, value),
                )
                &&& source_under(root, package_dir, rows, key) is Err <==> path_in_package(root, package_dir, value) is Err
            },
        },
{
}

/// Whether an entry of a target's requirements says what `r` is: a package of Cargo's in a
/// version, with features, by default with those that are on by default, for the target
/// that it names or that of the package.
pub open spec fn says_requirement(dep: Node, package: Seq<char>, r: Requirement) -> bool {
    &&& r.ecosystem == "cargo"@
    &&& member(Some(dep), "package"@) == Some(Node::Text(r.package))
    &&& member(Some(dep), "version"@) == Some(Node::Text(r.version))
    &&& match member(Some(dep), "features"@) {
        None => r.features.len() == 0,
        Some(value) => value matches Node::Array(items) && spells(items, r.features),
    }
    &&& member(Some(dep), "default_features"@) matches Some(Node::Bool(b)) ==> r.default_features == b
    &&& member(Some(dep), "default_features"@) is None ==> (member(Some(dep), "default-features"@) matches Some(Node::Bool(b))
        ==> r.default_features == b)
    &&& member(Some(dep), "default_features"@) is None && member(Some(dep), "default-features"@) is None ==> r.default_features
    &&& match member(Some(dep), "target"@) {
        Some(Node::Text(target)) => r.target is Some && label_or_external(target, package) == Ok::<Seq<char>, Fault>(
            r.target->0,
        ),
        _ => r.target == Some("cargo://"@ + r.package),
    }
}

/// A requirement is what its entry says.
pub proof fn law_requirement_stated(dep: Node, package: Seq<char>)
    ensures
        requirement_in(dep, package) matches Ok(r) ==> says_requirement(dep, package, r),
        requirement_in(dep, package) is Ok ==> dep is Table,
{
    if let Some(rows) = rows_in(Some(dep)) {
        law_text_list(rows, "features"@);
    }
}

/// The requirements of a target are those of its entries, in their order; one entry that
/// cannot be read refuses them all.
pub proof fn law_requirements_stated(deps: Seq<Node>, package: Seq<char>, i: int, done: Seq<Requirement>)
    requires
        0 <= i <= deps.len(),
    ensures
        requirements_in(deps, package, i, done) is Ok <==> forall|k: int|
            i <= k < deps.len() ==> requirement_in(#[trigger] deps[k], package) is Ok,
        requirements_in(deps, package, i, done) matches Ok(list) ==> {
            &&& list.len() == done.len() + deps.len() - i
            &&& list.take(done.len() as int) == done
            &&& forall|k: int|
                i <= k < deps.len() ==> says_requirement(#[trigger] deps[k], package, list[done.len() + k - i])
        },
    decreases deps.len() - i,
{
    if i < deps.len() {
        law_requirement_stated(deps[i], package);
        if let Ok(r) = requirement_in(deps[i], package) {
            let next = done.push(r);
            law_requirements_stated(deps, package, i + 1, next);
            if let Ok(list) = requirements_in(deps, package, i + 1, next) {
                assert(list.take(done.len() as int) =~= done) by {
                    assert forall|k: int| 0 <= k < done.len() implies list[k] == done[k] by {
                        assert(list.take(next.len() as int)[k] == next[k]);
                    }
                }
                assert(list.take(next.len() as int)[done.len() as int] == r);
            }
        }
    } else {
        assert(done.take(done.len() as int) =~= done);
    }
}

/// A target requires what is listed under `cargo_deps`, and nothing where nothing is.
pub proof fn law_target_requirements(rows: Rows, package: Seq<char>)
    ensures
        found(rows, "cargo_deps"@) is None ==> target_requirements(rows, package) == Ok::<Seq<Requirement>, Fault>(
            Seq::empty(),
        ),
        target_requirements(rows, package) matches Ok(list) ==> (found(rows, "cargo_deps"@) matches Some(value) ==> (value
            matches Node::Array(deps) && list.len() == deps.len() && forall|k: int|
            0 <= k < deps.len() ==> says_requirement(#[trigger] deps[k], package, list[k]))),
{
    if let Some(deps) = items_in(found(rows, "cargo_deps"@)) {
        law_requirements_stated(deps, package, 0, Seq::empty());
    }
}

/// The target of a name is the first entry of its kind that has it; there is none just where
/// no entry has it.
pub proof fn law_named_target(items: Seq<Node>, section: Seq<char>, name: Seq<char>, i: int)
    requires
        0 <= i <= items.len(),
        forall|k: int| 0 <= k < items.len() ==> (#[trigger] items[k]) is Table,
    ensures
        match named_in(items, section, name, i) {
            Ok(Some(rows)) => exists|k: int|
                i <= k < items.len() && #[trigger] items[k] == Node::Table(rows) && called(items[k], name) && forall|j: int|
                    i <= j < k ==> !called(#[trigger] items[j], name),
            Ok(None) => forall|k: int| i <= k < items.len() ==> !called(#[trigger] items[k], name),
            Err(_) => false,
        },
        (exists|k: int| i <= k < items.len() && called(#[trigger] items[k], name)) ==> named_in(items, section, name, i)
            matches Ok(Some(_)),
    decreases items.len() - i,
{
    if i < items.len() {
        assert(items[i] is Table);
        if !called(items[i], name) {
            law_named_target(items, section, name, i + 1);
        } else {
            assert(items[i] == Node::Table(rows_in(Some(items[i]))->0));
        }
    }
}

/// The targets of a kind are its entries, in their order.
pub proof fn law_targets_of_kind(items: Seq<Node>, section: Seq<char>, i: int, done: Seq<Rows>)
    requires
        0 <= i <= items.len(),
    ensures
        tables_in(items, section, i, done) is Ok <==> forall|k: int| i <= k < items.len() ==> (#[trigger] items[k]) is Table,
        tables_in(items, section, i, done) matches Ok(list) ==> {
            &&& list.len() == done.len() + items.len() - i
            &&& list.take(done.len() as int) == done
            &&& forall|k: int|
                i <= k < items.len() ==> #[trigger] items[k] == Node::Table(list[done.len() + k - i])
        },
    decreases items.len() - i,
{
    if i < items.len() {
        if let Some(rows) = rows_in(Some(items[i])) {
            let next = done.push(rows);
            law_targets_of_kind(items, section, i + 1, next);
            if let Ok(list) = tables_in(items, section, i + 1, next) {
                assert(list.take(done.len() as int) =~= done) by {
                    assert forall|k: int| 0 <= k < done.len() implies list[k] == done[k] by {
                        assert(list.take(next.len() as int)[k] == next[k]);
                    }
                }
                assert(list.take(next.len() as int)[done.len() as int] == rows);
            }
        }
    } else {
        assert(done.take(done.len() as int) =~= done);
    }
}

/// Whether a row of a build file states the target `entry` of the kind `kind`: its name does
/// not begin with `_`, it is of that type, and the entry is what stands there with its name.
pub open spec fn states_target(row: (Seq<char>, Node), kind: Seq<char>, entry: Node) -> bool {
    &&& !begins(row.0, "_"@)
    &&& row.1 matches Node::Table(rows) && found(rows, "_type"@) == Some(Node::Text(kind)) && entry == Node::Table(
        with_row(rows, "name"@, Node::Text(row.0)),
    )
}

/// Whether `entry` is among what stands under `kind`.
pub open spec fn stands_under(rows: Rows, kind: Seq<char>, entry: Node) -> bool {
    found(rows, kind) matches Some(Node::Array(items)) && items.contains(entry)
}

/// Whether what stands under each kind is an array.
pub open spec fn all_arrays(rows: Rows) -> bool {
    forall|kind: Seq<char>| (#[trigger] found(rows, kind)) is Some ==> found(rows, kind)->0 is Array
}

/// The targets of a build file stand under their kinds, each with its name: all that it
/// states, and nothing else. A row without a type, or that is no table, refuses the file.
pub proof fn law_targets_by_kind(rows: Rows, i: int, done: Rows, kind: Seq<char>, entry: Node)
    requires
        0 <= i <= rows.len(),
        all_arrays(done),
    ensures
        by_kind(rows, i, done) is Ok <==> forall|k: int|
            i <= k < rows.len() ==> begins((#[trigger] rows[k]).0, "_"@) || (rows[k].1 matches Node::Table(table) && text_in(
                found(table, "_type"@),
            ) is Some),
        by_kind(rows, i, done) matches Ok(end) ==> (stands_under(end, kind, entry) <==> stands_under(done, kind, entry)
            || exists|k: int| i <= k < rows.len() && states_target(#[trigger] rows[k], kind, entry)),
    decreases rows.len() - i,
{
    if i < rows.len() {
        let (name, value) = rows[i];
        if let Ok(next) = with_target(done, name, value) {
            if begins(name, "_"@) {
                law_targets_by_kind(rows, i + 1, next, kind, entry);
            } else {
                let table = value->Table_0;
                let own = text_in(found(table, "_type"@))->0;
                let target = Node::Table(with_row(table, "name"@, Node::Text(name)));
                let before = items_in(found(done, own)).unwrap_or(Seq::empty());
                let all = before.push(target);
                assert forall|other: Seq<char>| (#[trigger] found(next, other)) is Some implies found(next, other)->0 is Array by {
                    law_with_row(done, own, Node::Array(all), other);
                    assert(found(done, other) is Some ==> found(done, other)->0 is Array);
                }
                law_targets_by_kind(rows, i + 1, next, kind, entry);
                law_with_row(done, own, Node::Array(all), kind);
                assert(found(done, own) is Some ==> found(done, own)->0 is Array);
                if kind == own {
                    assert(all[before.len() as int] == target);
                    if before.contains(entry) {
                        let k = choose|k: int| 0 <= k < before.len() && before[k] == entry;
                        assert(all[k] == entry);
                    }
                    if all.contains(entry) && entry != target {
                        let k = choose|k: int| 0 <= k < all.len() && all[k] == entry;
                        assert(before[k] == entry);
                    }
                }
                assert(states_target(rows[i], kind, entry) <==> kind == own && entry == target);
            }
        }
    }
}

/// An import `//package:path` is a file below the workspace; any other is one beside the
/// file that imports it.
pub proof fn law_import_named(root: Seq<char>, package: Seq<char>, file: Seq<char>, name: Seq<char>, importer: Seq<char>)
    requires
        !has_char(package, ':'),
        !begins(name, "//"@),
    ensures
        import_path(root, "//"@ + package + ":"@ + file, Some(importer)) matches Ok(path) ==> path == joined_path(
            joined_path(root, package),
            file,
        ) && !absolute(package) && !climbs(package) && !absolute(file) && !climbs(file),
        import_path(root, name, Some(importer)) matches Ok(path) ==> path == joined_path(
            parent_of(importer).unwrap_or(root),
            name,
        ) && !absolute(name) && !climbs(name),
        import_path(root, name, None) matches Ok(path) ==> path == joined_path(root, name),
{
    reveal_strlit("//");
    reveal_strlit(":");
    let label = "//"@ + package + ":"@ + file;
    assert(label.subrange(0, 2) =~= "//"@);
    assert(label.subrange(2, label.len() as int) =~= package + seq![':'] + file);
    lemma_cut(package, ':', file);
}

} // verus!
