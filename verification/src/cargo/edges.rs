//! Edges: what a plan locks, of which package and to what.

use vstd::prelude::*;

use crate::cargo::cfg::Facts;
use crate::cargo::declares::law_texts;
use crate::cargo::lock::{lock_string, versioned_name};
use crate::cargo::manifest::manifest_of_text;
use crate::cargo::plan::{
    by_id, count_infos, deps_of_node, features_of_node, first_named, first_versions, info_target, metadata_plan,
    node_dependencies, package_check, package_info, package_infos, paths_in, root_id, with_locked, with_node,
    with_node_dependency, with_nodes, with_root_target, with_root_targets, Files, Info, Names,
};
use crate::cargo::recipes::known_recipe;
use crate::error::Fault;
use crate::model::{requirement_target, Plan, Requirement};
use crate::table::{ascending, found, law_ordered, law_with_row, law_with_row_names, lemma_placed, names, with_row};
use crate::text::swapped;
use crate::value::{items_in, member, text_in, texts_in, Node};

verus! {

/// Whether `info` is the package that the first `n` of `infos` list under the identity
/// `id`: the last one of that identity.
pub open spec fn listed(infos: Seq<Info>, n: int, id: Seq<char>, info: Info) -> bool {
    exists|i: int|
        0 <= i < n && #[trigger] infos[i] == info && info.id == id && forall|j: int| i < j < n ==> (#[trigger] infos[j]).id
            != id
}

/// A package is found by its identity, and what is found by an identity is a package that
/// has it.
pub proof fn law_listed(infos: Seq<Info>, n: int, id: Seq<char>)
    requires
        0 <= n <= infos.len(),
    ensures
        match found(by_id(infos, n), id) {
            Some(info) => listed(infos, n, id, info),
            None => forall|i: int| 0 <= i < n ==> (#[trigger] infos[i]).id != id,
        },
        ascending(names(by_id(infos, n))),
    decreases n,
{
    if n <= 0 {
        assert(names(by_id(infos, n)) =~= Seq::empty());
    } else {
        law_listed(infos, n - 1, id);
        let before = by_id(infos, n - 1);
        law_with_row(before, infos[n - 1].id, infos[n - 1], id);
        law_with_row_names(before, infos[n - 1].id, infos[n - 1]);
        lemma_placed(names(before), infos[n - 1].id);
        if infos[n - 1].id == id {
            assert(infos[n - 1] == infos[n - 1]);
        } else if let Some(info) = found(before, id) {
            let i = choose|i: int|
                0 <= i < n - 1 && #[trigger] infos[i] == info && info.id == id && forall|j: int|
                    i < j < n - 1 ==> (#[trigger] infos[j]).id != id;
            assert(infos[i] == info);
        }
    }
}

/// Whether two entries of the metadata are packages of one name, neither of them the root.
pub open spec fn share_name(infos: Seq<Info>, root: Seq<char>, name: Seq<char>) -> bool {
    exists|i: int, j: int|
        0 <= i < j < infos.len() && (#[trigger] infos[i]).name == name && (#[trigger] infos[j]).name == name && infos[i].id
            != root && infos[j].id != root
}

proof fn lemma_count(infos: Seq<Info>, root: Seq<char>, name: Seq<char>, n: int)
    requires
        0 <= n <= infos.len(),
    ensures
        count_infos(infos, root, name, n) >= 0,
        count_infos(infos, root, name, n) > 0 <==> exists|i: int|
            0 <= i < n && (#[trigger] infos[i]).name == name && infos[i].id != root,
        count_infos(infos, root, name, n) > 1 <==> exists|i: int, j: int|
            0 <= i < j < n && (#[trigger] infos[i]).name == name && (#[trigger] infos[j]).name == name && infos[i].id
                != root && infos[j].id != root,
    decreases n,
{
    if n > 0 {
        lemma_count(infos, root, name, n - 1);
        let last = infos[n - 1];
        if last.name == name && last.id != root {
            if count_infos(infos, root, name, n - 1) > 0 {
                let i = choose|i: int| 0 <= i < n - 1 && (#[trigger] infos[i]).name == name && infos[i].id != root;
                assert(infos[i].name == name && infos[n - 1].name == name);
            }
        }
    }
}

/// The target of a package is its name, and its version too where another package has the
/// same name.
pub proof fn law_package_target(infos: Seq<Info>, root: Seq<char>, info: Info)
    ensures
        info_target(infos, root, info) == if share_name(infos, root, info.name) {
            "cargo://"@ + info.name + "@"@ + info.version
        } else {
            "cargo://"@ + info.name
        },
{
    lemma_count(infos, root, info.name, infos.len() as int);
}

/// Whether an entry of a node's dependencies says that `key` is `target`: it is on a listed
/// package other than the root, whose target that is, and `key` is the name of the package,
/// or the name that the node uses for it, as it is or with `-` for `_`.
pub open spec fn claims(infos: Seq<Info>, root: Seq<char>, dep: Node, key: Seq<char>, target: Seq<char>) -> bool {
    text_in(member(Some(dep), "pkg"@)) matches Some(id) && id != root && exists|info: Info| #[trigger]
        listed(infos, infos.len() as int, id, info) && target == info_target(infos, root, info) && (key == info.name || (
        text_in(member(Some(dep), "name"@)) matches Some(name) && (key == name || key == swapped(name, '_', '-'))))
}

/// Whether an entry of a node's dependencies says what `key` is.
pub open spec fn claimed(infos: Seq<Info>, root: Seq<char>, dep: Node, key: Seq<char>) -> bool {
    exists|target: Seq<char>| #[trigger] claims(infos, root, dep, key, target)
}

proof fn lemma_one_listed(infos: Seq<Info>, n: int, id: Seq<char>, a: Info, b: Info)
    requires
        listed(infos, n, id, a),
        listed(infos, n, id, b),
    ensures
        a == b,
{
    let i = choose|i: int|
        0 <= i < n && #[trigger] infos[i] == a && a.id == id && forall|j: int| i < j < n ==> (#[trigger] infos[j]).id != id;
    let k = choose|k: int|
        0 <= k < n && #[trigger] infos[k] == b && b.id == id && forall|j: int| k < j < n ==> (#[trigger] infos[j]).id != id;
    assert(infos[i].id == id && infos[k].id == id);
}

proof fn lemma_claims(infos: Seq<Info>, root: Seq<char>, rows: Names, dep: Node, key: Seq<char>)
    ensures
        forall|target: Seq<char>| #[trigger]
            claims(infos, root, dep, key, target) ==> found(with_node_dependency(infos, root, rows, dep), key) == Some(
                target,
            ),
        (forall|target: Seq<char>| !#[trigger] claims(infos, root, dep, key, target)) ==> found(
            with_node_dependency(infos, root, rows, dep),
            key,
        ) == found(rows, key),
{
    if let Some(id) = text_in(member(Some(dep), "pkg"@)) {
        law_listed(infos, infos.len() as int, id);
        let n = infos.len() as int;
        if let Some(info) = found(by_id(infos, n), id) {
            let target = info_target(infos, root, info);
            let first = with_row(rows, info.name, target);
            law_with_row(rows, info.name, target, key);
            if let Some(name) = text_in(member(Some(dep), "name"@)) {
                let dashed = swapped(name, '_', '-');
                law_with_row(first, dashed, target, key);
                law_with_row(with_row(first, dashed, target), name, target, key);
            }
            assert forall|t: Seq<char>| #[trigger] claims(infos, root, dep, key, t) implies t == target by {
                let other = choose|other: Info| #[trigger]
                    listed(infos, n, id, other) && t == info_target(infos, root, other) && (key == other.name || (text_in(
                        member(Some(dep), "name"@),
                    ) matches Some(name) && (key == name || key == swapped(name, '_', '-'))));
                lemma_one_listed(infos, n, id, info, other);
            }
            if forall|t: Seq<char>| !#[trigger] claims(infos, root, dep, key, t) {
                assert(!claims(infos, root, dep, key, target));
            }
            if exists|t: Seq<char>| #[trigger] claims(infos, root, dep, key, t) {
                let t = choose|t: Seq<char>| #[trigger] claims(infos, root, dep, key, t);
                let other = choose|other: Info| #[trigger]
                    listed(infos, n, id, other) && t == info_target(infos, root, other) && (key == other.name || (text_in(
                        member(Some(dep), "name"@),
                    ) matches Some(name) && (key == name || key == swapped(name, '_', '-'))));
                lemma_one_listed(infos, n, id, info, other);
            }
        } else {
            assert forall|t: Seq<char>| !#[trigger] claims(infos, root, dep, key, t) by {
                if claims(infos, root, dep, key, t) {
                    let other = choose|other: Info| #[trigger]
                        listed(infos, n, id, other) && t == info_target(infos, root, other);
                    let i = choose|i: int|
                        0 <= i < n && #[trigger] infos[i] == other && other.id == id && forall|j: int|
                            i < j < n ==> (#[trigger] infos[j]).id != id;
                    assert(infos[i].id == id);
                }
            }
        }
    }
}

/// The edges of a node are what its dependencies claim, and nothing else: of each name the
/// last claim holds.
pub proof fn law_node_edges(infos: Seq<Info>, root: Seq<char>, deps: Seq<Node>, n: int, key: Seq<char>)
    requires
        0 <= n <= deps.len(),
    ensures
        match found(node_dependencies(infos, root, deps, n), key) {
            Some(target) => exists|i: int|
                0 <= i < n && claims(infos, root, #[trigger] deps[i], key, target) && forall|j: int|
                    i < j < n ==> !claimed(infos, root, #[trigger] deps[j], key),
            None => forall|i: int| 0 <= i < n ==> !claimed(infos, root, #[trigger] deps[i], key),
        },
    decreases n,
{
    if n > 0 {
        law_node_edges(infos, root, deps, n - 1, key);
        let before = node_dependencies(infos, root, deps, n - 1);
        let dep = deps[n - 1];
        lemma_claims(infos, root, before, dep, key);
        if exists|t: Seq<char>| #[trigger] claims(infos, root, dep, key, t) {
            let t = choose|t: Seq<char>| #[trigger] claims(infos, root, dep, key, t);
            assert(claims(infos, root, deps[n - 1], key, t));
        } else if let Some(target) = found(before, key) {
            let i = choose|i: int|
                0 <= i < n - 1 && claims(infos, root, #[trigger] deps[i], key, target) && forall|j: int|
                    i < j < n - 1 ==> !claimed(infos, root, #[trigger] deps[j], key);
            assert(claims(infos, root, deps[i], key, target));
        }
    }
}

/// Whether what is locked of a package is locked under `key`.
pub open spec fn goes_by(infos: Seq<Info>, root: Seq<char>, info: Info, key: Seq<char>) -> bool {
    key == info_target(infos, root, info) || key == "cargo://"@ + info.name + "@"@ + info.version
}

proof fn lemma_with_locked(lockfile: Names, infos: Seq<Info>, root: Seq<char>, info: Info, value: Seq<char>, key: Seq<char>)
    ensures
        found(with_locked(lockfile, infos, root, info, value), key) == if goes_by(infos, root, info, key) {
            Some(value)
        } else {
            found(lockfile, key)
        },
{
    let target = info_target(infos, root, info);
    law_with_row(lockfile, target, value, key);
    law_with_row(with_row(lockfile, target, value), versioned_name(info.name, info.version), value, key);
}

/// Every listed package but the root is locked to its version, under its target and under
/// its name with the version; nothing else is locked.
pub proof fn law_first_versions(infos: Seq<Info>, root: Seq<char>, rows: Seq<(Seq<char>, Info)>, n: int, key: Seq<char>)
    requires
        0 <= n <= rows.len(),
    ensures
        match found(first_versions(infos, root, rows, n), key) {
            Some(version) => exists|i: int|
                0 <= i < n && (#[trigger] rows[i]).1.id != root && goes_by(infos, root, rows[i].1, key) && version
                    == rows[i].1.version,
            None => forall|i: int| 0 <= i < n && (#[trigger] rows[i]).1.id != root ==> !goes_by(infos, root, rows[i].1, key),
        },
    decreases n,
{
    if n > 0 {
        law_first_versions(infos, root, rows, n - 1, key);
        let info = rows[n - 1].1;
        let before = first_versions(infos, root, rows, n - 1);
        if info.id != root {
            lemma_with_locked(before, infos, root, info, info.version, key);
        }
        if let Some(version) = found(before, key) {
            let i = choose|i: int|
                0 <= i < n - 1 && (#[trigger] rows[i]).1.id != root && goes_by(infos, root, rows[i].1, key) && version
                    == rows[i].1.version;
            assert(rows[i].1.version == version);
        }
        if found(first_versions(infos, root, rows, n), key) is Some && info.id != root && goes_by(infos, root, info, key) {
            assert(rows[n - 1].1.version == info.version);
        }
    }
}

/// Whether a node is that of a listed package other than the root which is locked under
/// `key`.
pub open spec fn node_locks(infos: Seq<Info>, root: Seq<char>, node: Node, info: Info, key: Seq<char>) -> bool {
    text_in(member(Some(node), "id"@)) matches Some(id) && id != root && listed(infos, infos.len() as int, id, info)
        && goes_by(infos, root, info, key)
}

/// Whether a node locks something under `key`.
pub open spec fn node_locks_any(infos: Seq<Info>, root: Seq<char>, node: Node, key: Seq<char>) -> bool {
    exists|info: Info| #[trigger] node_locks(infos, root, node, info, key)
}

/// Whether a plan has under `key` what a node says: the version of its package with the
/// features that it is built with, and its edges.
pub open spec fn says_node(plan: Plan, infos: Seq<Info>, root: Seq<char>, node: Node, info: Info, key: Seq<char>) -> bool {
    &&& node_locks(infos, root, node, info, key)
    &&& features_of_node(node) matches Ok(features) && found(plan.lockfile, key) == Some(lock_string(info.version, features))
    &&& found(plan.locked_dependencies, key) == Some(
        node_dependencies(infos, root, deps_of_node(node), deps_of_node(node).len() as int),
    )
}

proof fn lemma_with_node(
    facts: Facts,
    files: Files,
    infos: Seq<Info>,
    root: Seq<char>,
    plan: Plan,
    node: Node,
    key: Seq<char>,
)
    requires
        with_node(facts, files, infos, root, plan, node) is Ok,
    ensures
        ({
            let next = with_node(facts, files, infos, root, plan, node)->Ok_0;
            &&& node_locks_any(infos, root, node, key) ==> exists|info: Info| #[trigger]
                says_node(next, infos, root, node, info, key)
            &&& !node_locks_any(infos, root, node, key) ==> found(next.lockfile, key) == found(plan.lockfile, key) && found(
                next.locked_dependencies,
                key,
            ) == found(plan.locked_dependencies, key)
        }),
{
    let next = with_node(facts, files, infos, root, plan, node)->Ok_0;
    let id = text_in(member(Some(node), "id"@))->0;
    let n = infos.len() as int;
    law_listed(infos, n, id);
    match found(by_id(infos, n), id) {
        None => {
            if node_locks_any(infos, root, node, key) {
                let info = choose|info: Info| #[trigger] node_locks(infos, root, node, info, key);
                let i = choose|i: int|
                    0 <= i < n && #[trigger] infos[i] == info && info.id == id && forall|j: int|
                        i < j < n ==> (#[trigger] infos[j]).id != id;
                assert(infos[i].id == id);
            }
        },
        Some(info) => {
            if node_locks_any(infos, root, node, key) {
                let other = choose|other: Info| #[trigger] node_locks(infos, root, node, other, key);
                lemma_one_listed(infos, n, id, info, other);
            }
            if id != root {
                let features = features_of_node(node)->Ok_0;
                let deps = node_dependencies(infos, root, deps_of_node(node), deps_of_node(node).len() as int);
                let target = info_target(infos, root, info);
                lemma_with_locked(plan.lockfile, infos, root, info, lock_string(info.version, features), key);
                law_with_row(plan.locked_dependencies, target, deps, key);
                law_with_row(
                    with_row(plan.locked_dependencies, target, deps),
                    versioned_name(info.name, info.version),
                    deps,
                    key,
                );
                if goes_by(infos, root, info, key) {
                    assert(node_locks(infos, root, node, info, key));
                    assert(says_node(next, infos, root, node, info, key));
                }
            }
        },
    }
}

/// A plan has under each target what the last of the nodes says that is of it; what no node
/// is of stays.
pub proof fn law_nodes_planned(
    facts: Facts,
    files: Files,
    infos: Seq<Info>,
    root: Seq<char>,
    plan: Plan,
    nodes: Seq<Node>,
    i: int,
    key: Seq<char>,
)
    requires
        0 <= i <= nodes.len(),
        with_nodes(facts, files, infos, root, plan, nodes, i) is Ok,
    ensures
        ({
            let end = with_nodes(facts, files, infos, root, plan, nodes, i)->Ok_0;
            ||| exists|j: int, info: Info|
                i <= j < nodes.len() && #[trigger] says_node(end, infos, root, nodes[j], info, key) && forall|k: int|
                    j < k < nodes.len() ==> !node_locks_any(infos, root, #[trigger] nodes[k], key)
            ||| {
                &&& forall|j: int| i <= j < nodes.len() ==> !node_locks_any(infos, root, #[trigger] nodes[j], key)
                &&& found(end.lockfile, key) == found(plan.lockfile, key)
                &&& found(end.locked_dependencies, key) == found(plan.locked_dependencies, key)
            }
        }),
    decreases nodes.len() - i,
{
    if i < nodes.len() {
        let next = with_node(facts, files, infos, root, plan, nodes[i])->Ok_0;
        let end = with_nodes(facts, files, infos, root, plan, nodes, i)->Ok_0;
        lemma_with_node(facts, files, infos, root, plan, nodes[i], key);
        law_nodes_planned(facts, files, infos, root, next, nodes, i + 1, key);
        if forall|j: int| i + 1 <= j < nodes.len() ==> !node_locks_any(infos, root, #[trigger] nodes[j], key) {
            if exists|j: int, info: Info|
                i + 1 <= j < nodes.len() && #[trigger] says_node(end, infos, root, nodes[j], info, key) {
                let (j, info) = choose|j: int, info: Info|
                    i + 1 <= j < nodes.len() && #[trigger] says_node(end, infos, root, nodes[j], info, key);
                assert(node_locks(infos, root, nodes[j], info, key));
                assert(node_locks_any(infos, root, nodes[j], key));
            }
            if node_locks_any(infos, root, nodes[i], key) {
                let info = choose|info: Info| #[trigger] says_node(next, infos, root, nodes[i], info, key);
                assert(says_node(end, infos, root, nodes[i], info, key));
            }
        }
    }
}

/// Where the package of a name is found, it is a listed one other than the root that has
/// it; where none is found, there is none.
pub proof fn law_first_named(rows: Seq<(Seq<char>, Info)>, root: Seq<char>, name: Seq<char>, i: int)
    requires
        0 <= i <= rows.len(),
    ensures
        match first_named(rows, root, name, i) {
            Some(info) => info.name == name && info.id != root && exists|j: int|
                i <= j < rows.len() && (#[trigger] rows[j]).1 == info,
            None => forall|j: int| i <= j < rows.len() ==> (#[trigger] rows[j]).1.name != name || rows[j].1.id == root,
        },
    decreases rows.len() - i,
{
    if i < rows.len() {
        law_first_named(rows, root, name, i + 1);
        if let Some(info) = first_named(rows, root, name, i) {
            if rows[i].1 == info {
                assert(rows[i].1 == info);
            }
        }
    }
}

proof fn lemma_with_root_target(infos: Seq<Info>, root: Seq<char>, plan: Plan, r: Requirement, key: Seq<char>)
    ensures
        ({
            let next = with_root_target(infos, root, plan, r);
            let first = first_named(by_id(infos, infos.len() as int), root, r.package, 0);
            &&& key != requirement_target(r) || first is None ==> found(next.lockfile, key) == found(plan.lockfile, key)
                && found(next.locked_dependencies, key) == found(plan.locked_dependencies, key)
            &&& key == requirement_target(r) && first is Some ==> {
                let resolved = info_target(infos, root, first->0);
                &&& found(next.lockfile, key) == if found(plan.lockfile, resolved) is Some {
                    found(plan.lockfile, resolved)
                } else {
                    found(plan.lockfile, key)
                }
                &&& found(next.locked_dependencies, key) == if found(plan.locked_dependencies, resolved) is Some {
                    found(plan.locked_dependencies, resolved)
                } else {
                    found(plan.locked_dependencies, key)
                }
            }
        }),
{
    if let Some(info) = first_named(by_id(infos, infos.len() as int), root, r.package, 0) {
        let resolved = info_target(infos, root, info);
        if let Some(locked) = found(plan.lockfile, resolved) {
            law_with_row(plan.lockfile, requirement_target(r), locked, key);
        }
        if let Some(deps) = found(plan.locked_dependencies, resolved) {
            law_with_row(plan.locked_dependencies, requirement_target(r), deps, key);
        }
    }
}

/// What is locked for no required target stays as the nodes said.
pub proof fn law_others_stay_planned(
    infos: Seq<Info>,
    root: Seq<char>,
    plan: Plan,
    requirements: Seq<Requirement>,
    n: int,
    key: Seq<char>,
)
    requires
        0 <= n <= requirements.len(),
        forall|j: int| 0 <= j < n ==> requirement_target(#[trigger] requirements[j]) != key,
    ensures
        found(with_root_targets(infos, root, plan, requirements, n).lockfile, key) == found(plan.lockfile, key),
        found(with_root_targets(infos, root, plan, requirements, n).locked_dependencies, key) == found(
            plan.locked_dependencies,
            key,
        ),
    decreases n,
{
    if n > 0 {
        law_others_stay_planned(infos, root, plan, requirements, n - 1, key);
        let before = with_root_targets(infos, root, plan, requirements, n - 1);
        assert(requirement_target(requirements[n - 1]) != key);
        lemma_with_root_target(infos, root, before, requirements[n - 1], key);
    }
}

/// The target of a requirement is locked as the package that it requires is: to the same
/// version and features, and to the same edges. No two requirements use one target for
/// different packages, and none uses the target of a package that it does not require.
pub proof fn law_requirement_locked(
    infos: Seq<Info>,
    root: Seq<char>,
    plan: Plan,
    requirements: Seq<Requirement>,
    n: int,
    i: int,
    info: Info,
)
    requires
        0 <= i < requirements.len(),
        0 <= n <= requirements.len(),
        first_named(by_id(infos, infos.len() as int), root, requirements[i].package, 0) == Some(info),
        forall|j: int|
            0 <= j < requirements.len() && (requirement_target(#[trigger] requirements[j]) == requirement_target(
                requirements[i],
            ) || requirement_target(requirements[j]) == info_target(infos, root, info)) ==> requirements[j].package
                == requirements[i].package,
        found(plan.lockfile, info_target(infos, root, info)) is Some,
        found(plan.locked_dependencies, info_target(infos, root, info)) is Some,
    ensures
        ({
            let end = with_root_targets(infos, root, plan, requirements, n);
            let resolved = info_target(infos, root, info);
            &&& found(end.lockfile, resolved) == found(plan.lockfile, resolved)
            &&& found(end.locked_dependencies, resolved) == found(plan.locked_dependencies, resolved)
            &&& i < n ==> {
                &&& found(end.lockfile, requirement_target(requirements[i])) == found(plan.lockfile, resolved)
                &&& found(end.locked_dependencies, requirement_target(requirements[i])) == found(
                    plan.locked_dependencies,
                    resolved,
                )
            }
        }),
    decreases n,
{
    if n > 0 {
        law_requirement_locked(infos, root, plan, requirements, n - 1, i, info);
        let before = with_root_targets(infos, root, plan, requirements, n - 1);
        let resolved = info_target(infos, root, info);
        let r = requirements[n - 1];
        lemma_with_root_target(infos, root, before, r, resolved);
        lemma_with_root_target(infos, root, before, r, requirement_target(requirements[i]));
    }
}

/// The packages of the metadata are its entries, field by field and in order; one that lacks
/// a field is refused.
pub proof fn law_package_infos(entries: Seq<Node>, i: int, done: Seq<Info>)
    requires
        0 <= i <= entries.len(),
    ensures
        package_infos(entries, i, done) is Ok <==> forall|j: int|
            i <= j < entries.len() ==> is_package(#[trigger] entries[j]),
        package_infos(entries, i, done) matches Ok(infos) ==> {
            &&& infos.len() == done.len() + entries.len() - i
            &&& infos.take(done.len() as int) == done
            &&& forall|j: int|
                i <= j < entries.len() ==> says_package(#[trigger] entries[j], infos[done.len() + j - i])
        },
    decreases entries.len() - i,
{
    if i >= entries.len() {
        assert(done.take(done.len() as int) =~= done);
    } else {
        assert(is_package(entries[i]) <==> package_info(entries[i]) is Ok);
        if let Ok(info) = package_info(entries[i]) {
            let next = done.push(info);
            law_package_infos(entries, i + 1, next);
            if let Ok(infos) = package_infos(entries, i, done) {
                assert(infos.take(done.len() as int) =~= done) by {
                    assert forall|k: int| 0 <= k < done.len() implies infos[k] == done[k] by {
                        assert(infos.take(next.len() as int)[k] == next[k]);
                    }
                }
                assert(infos.take(next.len() as int)[done.len() as int] == info);
                assert forall|j: int| i <= j < entries.len() implies says_package(
                    #[trigger] entries[j],
                    infos[done.len() + j - i],
                ) by {
                    if j > i {
                        assert(says_package(entries[j], infos[next.len() + j - (i + 1)]));
                    }
                }
            }
        }
    }
}

/// Whether an entry of the metadata has all that is known of a package.
pub open spec fn is_package(entry: Node) -> bool {
    &&& text_in(member(Some(entry), "id"@)) is Some
    &&& text_in(member(Some(entry), "name"@)) is Some
    &&& text_in(member(Some(entry), "version"@)) is Some
    &&& text_in(member(Some(entry), "manifest_path"@)) is Some
}

/// Whether an entry of the metadata says what is known of a package.
pub open spec fn says_package(entry: Node, info: Info) -> bool {
    &&& text_in(member(Some(entry), "id"@)) == Some(info.id)
    &&& text_in(member(Some(entry), "name"@)) == Some(info.name)
    &&& text_in(member(Some(entry), "version"@)) == Some(info.version)
    &&& text_in(member(Some(entry), "manifest_path"@)) == Some(info.manifest_path)
}

/// The features that a node is built with are the texts of its list, in order, each once; a
/// node without a list is refused.
pub proof fn law_node_features(node: Node, f: Seq<char>)
    ensures
        features_of_node(node) is Ok <==> (member(Some(node), "features"@) matches Some(Node::Array(_))),
        features_of_node(node) matches Ok(list) ==> ascending(list) && (list.contains(f) <==> member(
            Some(node),
            "features"@,
        )->0->Array_0.contains(Node::Text(f))),
{
    if let Some(items) = items_in(member(Some(node), "features"@)) {
        law_texts(items, f);
        law_ordered(texts_in(items));
    }
}

/// A package can be built just where its manifest was read and makes sense, and there is a
/// recipe for its build script where it has one.
pub proof fn law_package_checked(facts: Facts, files: Files, info: Info, features: Seq<Seq<char>>)
    ensures
        package_check(facts, files, info, features) is Ok <==> (found(files, info.manifest_path) matches Some(file)
            && file.0 is Ok && (manifest_of_text(facts, info.manifest_path, file.0->Ok_0, file.1, features) matches Ok(m)
            && (m.has_build_script ==> known_recipe(facts, info.name, info.version) is Some))),
{
}

/// Nodes can be planned just where each has an identity, and each of a listed package but the
/// root has features and a package that can be built with them.
pub proof fn law_nodes_accepted(
    facts: Facts,
    files: Files,
    infos: Seq<Info>,
    root: Seq<char>,
    plan: Plan,
    nodes: Seq<Node>,
    i: int,
)
    requires
        0 <= i <= nodes.len(),
    ensures
        with_nodes(facts, files, infos, root, plan, nodes, i) is Ok <==> forall|j: int|
            i <= j < nodes.len() ==> can_plan(facts, files, infos, root, #[trigger] nodes[j]),
    decreases nodes.len() - i,
{
    if i < nodes.len() {
        let node = nodes[i];
        if let Some(id) = text_in(member(Some(node), "id"@)) {
            let n = infos.len() as int;
            law_listed(infos, n, id);
            if let Some(info) = found(by_id(infos, n), id) {
                assert forall|other: Info| #[trigger] listed(infos, n, id, other) implies other == info by {
                    lemma_one_listed(infos, n, id, info, other);
                }
            } else {
                assert forall|other: Info| !#[trigger] listed(infos, n, id, other) by {
                    if listed(infos, n, id, other) {
                        let k = choose|k: int|
                            0 <= k < n && #[trigger] infos[k] == other && other.id == id && forall|j: int|
                                k < j < n ==> (#[trigger] infos[j]).id != id;
                        assert(infos[k].id == id);
                    }
                }
            }
        }
        assert(with_node(facts, files, infos, root, plan, node) is Ok <==> can_plan(facts, files, infos, root, node));
        if let Ok(next) = with_node(facts, files, infos, root, plan, node) {
            law_nodes_accepted(facts, files, infos, root, next, nodes, i + 1);
        }
    }
}

/// Whether a node can be planned.
pub open spec fn can_plan(facts: Facts, files: Files, infos: Seq<Info>, root: Seq<char>, node: Node) -> bool {
    text_in(member(Some(node), "id"@)) matches Some(id) && (id != root ==> forall|info: Info| #[trigger]
        listed(infos, infos.len() as int, id, info) ==> (features_of_node(node) matches Ok(features) && package_check(
            facts,
            files,
            info,
            features,
        ) is Ok))
}

/// What metadata plans: each node of a listed package but the root, with its version, the
/// features that it is built with, and its edges. Two nodes are of one package only where
/// the metadata says so twice; the last of them holds.
pub proof fn law_metadata_planned(
    facts: Facts,
    files: Files,
    requirements: Seq<Requirement>,
    metadata: Node,
    infos: Seq<Info>,
    nodes: Seq<Node>,
    j: int,
    info: Info,
    key: Seq<char>,
)
    requires
        metadata_plan(facts, files, requirements, metadata) is Ok,
        member(Some(metadata), "packages"@) matches Some(Node::Array(entries)) && package_infos(entries, 0, Seq::empty())
            == Ok::<Seq<Info>, Fault>(infos),
        member(member(Some(metadata), "resolve"@), "nodes"@) == Some(Node::Array(nodes)),
        0 <= j < nodes.len(),
        node_locks(infos, root_id(metadata), nodes[j], info, key),
        forall|k: int| j < k < nodes.len() ==> !node_locks_any(infos, root_id(metadata), #[trigger] nodes[k], key),
        forall|k: int| 0 <= k < requirements.len() ==> requirement_target(#[trigger] requirements[k]) != key,
    ensures
        says_node(
            metadata_plan(facts, files, requirements, metadata)->Ok_0,
            infos,
            root_id(metadata),
            nodes[j],
            info,
            key,
        ),
{
    let root = root_id(metadata);
    let rows = by_id(infos, infos.len() as int);
    let start = Plan {
        lockfile: first_versions(infos, root, rows, rows.len() as int),
        locked_dependencies: Seq::empty(),
    };
    let end = with_nodes(facts, files, infos, root, start, nodes, 0)->Ok_0;
    let plan = metadata_plan(facts, files, requirements, metadata)->Ok_0;
    law_nodes_planned(facts, files, infos, root, start, nodes, 0, key);
    law_others_stay_planned(infos, root, end, requirements, requirements.len() as int, key);
    assert(node_locks_any(infos, root, nodes[j], key));
    let (k, other) = choose|k: int, other: Info|
        0 <= k < nodes.len() && #[trigger] says_node(end, infos, root, nodes[k], other, key) && forall|l: int|
            k < l < nodes.len() ==> !node_locks_any(infos, root, #[trigger] nodes[l], key);
    assert(node_locks(infos, root, nodes[k], other, key));
    assert(node_locks_any(infos, root, nodes[k], key));
    assert(k == j);
    let id = text_in(member(Some(nodes[j]), "id"@))->0;
    lemma_one_listed(infos, infos.len() as int, id, info, other);
    assert(says_node(plan, infos, root, nodes[j], info, key));
}

/// The manifests that a plan reads are those of the packages of the metadata.
pub proof fn law_manifest_paths(entries: Seq<Node>, path: Seq<char>)
    ensures
        paths_in(entries).contains(path) <==> exists|k: int|
            0 <= k < entries.len() && member(Some(#[trigger] entries[k]), "manifest_path"@) == Some(Node::Text(path)),
    decreases entries.len(),
{
    if entries.len() > 0 {
        let front = entries.drop_last();
        law_manifest_paths(front, path);
        let list = paths_in(front);
        if list.contains(path) {
            let k = choose|k: int|
                0 <= k < front.len() && member(Some(#[trigger] front[k]), "manifest_path"@) == Some(Node::Text(path));
            assert(entries[k] == front[k]);
        }
        if exists|k: int|
            0 <= k < entries.len() && member(Some(#[trigger] entries[k]), "manifest_path"@) == Some(Node::Text(path)) {
            let k = choose|k: int|
                0 <= k < entries.len() && member(Some(#[trigger] entries[k]), "manifest_path"@) == Some(Node::Text(path));
            if k < front.len() {
                assert(front[k] == entries[k]);
            }
        }
        if let Some(Node::Text(last)) = member(Some(entries.last()), "manifest_path"@) {
            assert(list.push(last)[list.len() as int] == last);
            assert(entries[entries.len() - 1] == entries.last());
            if list.contains(path) {
                let k = choose|k: int| 0 <= k < list.len() && list[k] == path;
                assert(list.push(last)[k] == path);
            }
        }
    }
}

} // verus!
