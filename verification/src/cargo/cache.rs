//! Plans kept as JSON documents.

use vstd::prelude::*;

use crate::documents::{json_outcome, json_rendering, json_text, read_json_text, writable, write_json};
use crate::error::{error, fault, outcome, Error, ErrorKind, Fault};
use crate::cargo::cfg::Facts;
use crate::cargo::lock::{lock_string, versioned_name};
use crate::cargo::plan::{
    by_id, deps_of_node, features_of_node, first_named, first_versions, info_target, metadata_plan, node_dependencies,
    package_infos, root_id, target_by_id, with_locked, with_node, with_nodes, with_root_targets, Files, Info,
};
use crate::model::{requirement_target, DependencyPlan, Plan, Requirement};
use crate::table::{ascending, found, law_with_row_names, lemma_placed, names, with_row, Table};
use crate::text::{before, cat3, keep, swapped};
use crate::value::{items_in, member, rows_in, table, text_in, ConfigTable, ConfigValue, Node};

verus! {

pub type Names = Seq<(Seq<char>, Seq<char>)>;

pub type Edges = Seq<(Seq<char>, Names)>;

/// `rows` and the rows `object[i..]`, all of whose values must be texts.
pub open spec fn text_rows(object: Seq<(Seq<char>, Node)>, i: int, rows: Names) -> Result<Names, Fault>
    decreases object.len() - i,
{
    if i >= object.len() {
        Ok(rows)
    } else {
        match object[i].1 {
            Node::Text(value) => text_rows(object, i + 1, rows.push((object[i].0, value))),
            _ => Err(
                fault(ErrorKind::InvalidData, "cache value for "@ + object[i].0 + " must be a string"@),
            ),
        }
    }
}

/// The rows of a value; a value that is no table has none.
pub open spec fn text_map(value: Option<Node>) -> Result<Names, Fault> {
    match rows_in(value) {
        None => Ok(Seq::empty()),
        Some(object) => text_rows(object, 0, Seq::empty()),
    }
}

/// `rows` and the rows `object[i..]`, each with the rows of its value.
pub open spec fn nested_rows(object: Seq<(Seq<char>, Node)>, i: int, rows: Edges) -> Result<Edges, Fault>
    decreases object.len() - i,
{
    if i >= object.len() {
        Ok(rows)
    } else {
        match text_map(Some(object[i].1)) {
            Err(e) => Err(e),
            Ok(inner) => nested_rows(object, i + 1, rows.push((object[i].0, inner))),
        }
    }
}

/// The rows of a value, each with the rows of its own value.
pub open spec fn nested_map(value: Option<Node>) -> Result<Edges, Fault> {
    match rows_in(value) {
        None => Ok(Seq::empty()),
        Some(object) => nested_rows(object, 0, Seq::empty()),
    }
}

fn json_string_map(value: Option<&ConfigValue>) -> (r: Result<Table<String>, Error>)
    ensures
        outcome(r) == text_map(value.deep_view()),
{
    let mut out: Vec<(String, String)> = Vec::new();
    assert(out.deep_view() =~= Seq::<(Seq<char>, Seq<char>)>::empty());
    let object = match value {
        Some(value) => match value.as_table() {
            Some(object) => object,
            None => return Ok(Table { rows: out }),
        },
        None => return Ok(Table { rows: out }),
    };
    let ghost rows = object.deep_view();
    let mut i: usize = 0;
    while i < object.rows.len()
        invariant
            i <= object.rows.len(),
            rows == object.deep_view(),
            text_map(value.deep_view()) == text_rows(rows, i as int, out.deep_view()),
        decreases object.rows.len() - i,
    {
        assert(rows[i as int] == (object.rows@[i as int].0@, object.rows@[i as int].1.deep_view()));
        match object.rows[i].1.as_str() {
            Some(text) => keep(&mut out, (object.rows[i].0.clone(), text.to_owned())),
            None => return Err(
                error(
                    ErrorKind::InvalidData,
                    cat3("cache value for ", object.rows[i].0.as_str(), " must be a string"),
                ),
            ),
        }
        i = i + 1;
    }
    Ok(Table { rows: out })
}

fn json_nested_string_map(value: Option<&ConfigValue>) -> (r: Result<Table<Table<String>>, Error>)
    ensures
        outcome(r) == nested_map(value.deep_view()),
{
    let mut out: Vec<(String, Table<String>)> = Vec::new();
    assert(out.deep_view() =~= Seq::<(Seq<char>, Names)>::empty());
    let object = match value {
        Some(value) => match value.as_table() {
            Some(object) => object,
            None => return Ok(Table { rows: out }),
        },
        None => return Ok(Table { rows: out }),
    };
    let ghost rows = object.deep_view();
    let mut i: usize = 0;
    while i < object.rows.len()
        invariant
            i <= object.rows.len(),
            rows == object.deep_view(),
            nested_map(value.deep_view()) == nested_rows(rows, i as int, out.deep_view()),
        decreases object.rows.len() - i,
    {
        assert(rows[i as int] == (object.rows@[i as int].0@, object.rows@[i as int].1.deep_view()));
        let inner = json_string_map(Some(&object.rows[i].1))?;
        keep(&mut out, (object.rows[i].0.clone(), inner));
        i = i + 1;
    }
    Ok(Table { rows: out })
}

/// The plan that a cached value is.
pub open spec fn cached_plan(value: Node) -> Result<Plan, Fault> {
    match (
        text_map(member(Some(value), "lockfile"@)),
        nested_map(member(Some(value), "locked_dependencies"@)),
    ) {
        (Err(e), _) => Err(e),
        (_, Err(e)) => Err(e),
        (Ok(lockfile), Ok(locked_dependencies)) => Ok(Plan { lockfile, locked_dependencies }),
    }
}

/// Reads a cached plan that was parsed already.
pub fn plan_from_value(value: &ConfigValue) -> (r: Result<DependencyPlan, Error>)
    ensures
        outcome(r) == cached_plan(value.deep_view()),
{
    let empty: ConfigTable = Table::new();
    let fields = match value.as_table() {
        Some(fields) => fields,
        None => &empty,
    };
    let lockfile = json_string_map(fields.get("lockfile"))?;
    let locked_dependencies = json_nested_string_map(fields.get("locked_dependencies"))?;
    Ok(DependencyPlan { lockfile, locked_dependencies })
}

/// The plan that a cached document is.
pub open spec fn plan_of_document(document: Result<Node, Seq<char>>) -> Result<Plan, Fault> {
    match json_outcome(document) {
        Err(e) => Err(e),
        Ok(value) => cached_plan(value),
    }
}

/// Reads the text of a cached plan.
pub fn read_cached_dependency_plan(content: &str) -> (r: Result<DependencyPlan, Error>)
    ensures
        outcome(r) == plan_of_document(json_text(content@)),
{
    let value = read_json_text(content)?;
    plan_from_value(&value)
}

/// The value for rows of texts.
pub open spec fn names_value(rows: Names) -> Node {
    Node::Table(rows.map_values(|row: (Seq<char>, Seq<char>)| (row.0, Node::Text(row.1))))
}

/// The value for rows of rows of texts.
pub open spec fn edges_value(rows: Edges) -> Node {
    Node::Table(rows.map_values(|row: (Seq<char>, Names)| (row.0, names_value(row.1))))
}

/// The value that a plan is kept as.
pub open spec fn plan_value(plan: Plan) -> Node {
    Node::Table(
        seq![
            ("locked_dependencies"@, edges_value(plan.locked_dependencies)),
            ("lockfile"@, names_value(plan.lockfile)),
        ],
    )
}

/// Whether the rows of a plan are in the order of their names.
pub open spec fn plan_in_order(plan: Plan) -> bool {
    &&& ascending(names(plan.lockfile))
    &&& ascending(names(plan.locked_dependencies))
    &&& forall|i: int|
        0 <= i < plan.locked_dependencies.len() ==> ascending(names((#[trigger] plan.locked_dependencies[i]).1))
}

fn value_of_names(rows: &Table<String>) -> (r: ConfigValue)
    ensures
        r.deep_view() == names_value(rows.deep_view()),
{
    let ghost all = names_value(rows.deep_view())->Table_0;
    let mut out: Vec<(String, ConfigValue)> = Vec::new();
    let mut i: usize = 0;
    while i < rows.rows.len()
        invariant
            i <= rows.rows.len(),
            all == names_value(rows.deep_view())->Table_0,
            out.deep_view() == all.take(i as int),
        decreases rows.rows.len() - i,
    {
        keep(&mut out, (rows.rows[i].0.clone(), ConfigValue::String(rows.rows[i].1.clone())));
        i = i + 1;
        assert(all.take(i as int) == all.take(i - 1).push(all[i - 1]));
    }
    assert(all.take(i as int) == all);
    table(Table { rows: out })
}

fn value_of_edges(rows: &Table<Table<String>>) -> (r: ConfigValue)
    ensures
        r.deep_view() == edges_value(rows.deep_view()),
{
    let ghost all = edges_value(rows.deep_view())->Table_0;
    let mut out: Vec<(String, ConfigValue)> = Vec::new();
    let mut i: usize = 0;
    while i < rows.rows.len()
        invariant
            i <= rows.rows.len(),
            all == edges_value(rows.deep_view())->Table_0,
            out.deep_view() == all.take(i as int),
        decreases rows.rows.len() - i,
    {
        keep(&mut out, (rows.rows[i].0.clone(), value_of_names(&rows.rows[i].1)));
        i = i + 1;
        assert(all.take(i as int) == all.take(i - 1).push(all[i - 1]));
    }
    assert(all.take(i as int) == all);
    table(Table { rows: out })
}

proof fn lemma_names_writable(rows: Names, depth: nat)
    requires
        ascending(names(rows)),
        depth >= 2,
    ensures
        writable(names_value(rows), depth),
{
    let out = names_value(rows)->Table_0;
    assert(names(out) =~= names(rows));
    assert forall|i: int| 0 <= i < out.len() implies writable((#[trigger] out[i]).1, (depth - 1) as nat) by {
        assert(out[i].1 == Node::Text(rows[i].1));
    }
}

proof fn lemma_plan_writable(plan: Plan)
    requires
        plan_in_order(plan),
    ensures
        writable(plan_value(plan), 100),
{
    let edges = plan.locked_dependencies;
    let out = edges_value(edges)->Table_0;
    assert(names(out) =~= names(edges));
    assert forall|i: int| 0 <= i < out.len() implies writable((#[trigger] out[i]).1, 98) by {
        assert(out[i].1 == names_value(edges[i].1));
        lemma_names_writable(edges[i].1, 98);
    }
    assert(writable(edges_value(edges), 99));
    lemma_names_writable(plan.lockfile, 99);
    let fields = plan_value(plan)->Table_0;
    let keys = names(fields);
    reveal_strlit("locked_dependencies");
    reveal_strlit("lockfile");
    assert(keys =~= seq!["locked_dependencies"@, "lockfile"@]);
    let a = "locked_dependencies"@;
    let b = "lockfile"@;
    assert(a[4] == 'e' && b[4] == 'f');
    assert(crate::text::before_from(a, b, 4));
    assert(crate::text::before_from(a, b, 3));
    assert(crate::text::before_from(a, b, 2));
    assert(crate::text::before_from(a, b, 1));
    assert(before(a, b));
    assert(ascending(keys));
    assert(fields[0].1 == edges_value(edges) && fields[1].1 == names_value(plan.lockfile));
}

/// Writes the text that a plan is kept as; reading it gives the plan back.
pub fn write_cached_dependency_plan(plan: &DependencyPlan) -> (r: String)
    requires
        plan_in_order(plan.deep_view()),
    ensures
        r@ == json_rendering(plan_value(plan.deep_view())),
        plan_of_document(json_text(r@)) == Ok::<Plan, Fault>(plan.deep_view()),
{
    let mut fields: Vec<(String, ConfigValue)> = Vec::new();
    keep(&mut fields, ("locked_dependencies".to_owned(), value_of_edges(&plan.locked_dependencies)));
    keep(&mut fields, ("lockfile".to_owned(), value_of_names(&plan.lockfile)));
    let value = table(Table { rows: fields });
    proof {
        assert(value.deep_view()->Table_0 =~= plan_value(plan.deep_view())->Table_0);
        lemma_plan_writable(plan.deep_view());
        law_plan_read_back(plan.deep_view());
    }
    write_json(&value)
}

proof fn lemma_text_rows(rows: Names, i: int, done: Names)
    requires
        0 <= i <= rows.len(),
        done == rows.take(i),
    ensures
        text_rows(names_value(rows)->Table_0, i, done) == Ok::<Names, Fault>(rows),
    decreases rows.len() - i,
{
    if i < rows.len() {
        assert(done.push((rows[i].0, rows[i].1)) =~= rows.take(i + 1));
        lemma_text_rows(rows, i + 1, rows.take(i + 1));
    } else {
        assert(done =~= rows);
    }
}

proof fn lemma_nested_rows(rows: Edges, i: int, done: Edges)
    requires
        0 <= i <= rows.len(),
        done == rows.take(i),
    ensures
        nested_rows(edges_value(rows)->Table_0, i, done) == Ok::<Edges, Fault>(rows),
    decreases rows.len() - i,
{
    if i < rows.len() {
        assert(rows[i].1.take(0) =~= Seq::empty());
        lemma_text_rows(rows[i].1, 0, Seq::empty());
        assert(done.push((rows[i].0, rows[i].1)) =~= rows.take(i + 1));
        lemma_nested_rows(rows, i + 1, rows.take(i + 1));
    } else {
        assert(done =~= rows);
    }
}

/// What is read of the value that a plan is kept as is the plan.
pub proof fn law_plan_read_back(plan: Plan)
    ensures
        cached_plan(plan_value(plan)) == Ok::<Plan, Fault>(plan),
{
    reveal_strlit("locked_dependencies");
    reveal_strlit("lockfile");
    let fields = plan_value(plan)->Table_0;
    assert("locked_dependencies"@.len() != "lockfile"@.len());
    assert(found(fields, "locked_dependencies"@) == Some(edges_value(plan.locked_dependencies)));
    assert(fields.skip(1)[0] == fields[1]);
    assert(found(fields.skip(1), "lockfile"@) == Some(names_value(plan.lockfile)));
    assert(plan.lockfile.take(0) =~= Seq::empty());
    assert(plan.locked_dependencies.take(0) =~= Seq::empty());
    lemma_text_rows(plan.lockfile, 0, Seq::empty());
    lemma_nested_rows(plan.locked_dependencies, 0, Seq::empty());
}

proof fn lemma_row_in_order<V>(rows: Seq<(Seq<char>, V)>, key: Seq<char>, value: V)
    requires
        ascending(names(rows)),
    ensures
        ascending(names(with_row(rows, key, value))),
{
    law_with_row_names(rows, key, value);
    lemma_placed(names(rows), key);
}

/// Whether the rows under every name are in the order of their names.
spec fn inner_in_order(edges: Edges) -> bool {
    forall|i: int| 0 <= i < edges.len() ==> ascending(names((#[trigger] edges[i]).1))
}

proof fn lemma_inner_in_order(edges: Edges, key: Seq<char>, rows: Names)
    requires
        inner_in_order(edges),
        ascending(names(rows)),
    ensures
        inner_in_order(with_row(edges, key, rows)),
    decreases edges.len(),
{
    let out = with_row(edges, key, rows);
    if edges.len() > 0 && edges[0].0 != key && !before(key, edges[0].0) {
        let tail = edges.skip(1);
        assert forall|i: int| 0 <= i < tail.len() implies ascending(names((#[trigger] tail[i]).1)) by {
            assert(tail[i] == edges[i + 1]);
        }
        lemma_inner_in_order(tail, key, rows);
        let rest = with_row(tail, key, rows);
        assert forall|i: int| 0 <= i < out.len() implies ascending(names((#[trigger] out[i]).1)) by {
            if i > 0 {
                assert(out[i] == rest[i - 1]);
            } else {
                assert(out[i] == edges[0]);
            }
        }
    } else {
        assert forall|i: int| 0 <= i < out.len() implies ascending(names((#[trigger] out[i]).1)) by {
            if edges.len() > 0 && edges[0].0 == key {
                assert(i > 0 ==> out[i] == edges[i]);
            } else {
                assert(i > 0 ==> out[i] == edges[i - 1]);
            }
        }
    }
}

proof fn lemma_found_in_order(edges: Edges, key: Seq<char>)
    requires
        inner_in_order(edges),
    ensures
        found(edges, key) matches Some(rows) ==> ascending(names(rows)),
    decreases edges.len(),
{
    if edges.len() > 0 && edges[0].0 != key {
        let tail = edges.skip(1);
        assert forall|i: int| 0 <= i < tail.len() implies ascending(names((#[trigger] tail[i]).1)) by {
            assert(tail[i] == edges[i + 1]);
        }
        lemma_found_in_order(tail, key);
    }
}

proof fn lemma_dependencies_in_order(infos: Seq<Info>, root: Seq<char>, deps: Seq<Node>, n: int)
    ensures
        ascending(names(node_dependencies(infos, root, deps, n))),
    decreases n,
{
    if n > 0 {
        lemma_dependencies_in_order(infos, root, deps, n - 1);
        let rows = node_dependencies(infos, root, deps, n - 1);
        let dep = deps[n - 1];
        if let Some(id) = text_in(member(Some(dep), "pkg"@)) {
            if let (Some(target), Some(info)) = (
                target_by_id(infos, root, id),
                found(by_id(infos, infos.len() as int), id),
            ) {
                let first = with_row(rows, info.name, target);
                lemma_row_in_order(rows, info.name, target);
                if let Some(name) = text_in(member(Some(dep), "name"@)) {
                    lemma_row_in_order(first, swapped(name, '_', '-'), target);
                    lemma_row_in_order(with_row(first, swapped(name, '_', '-'), target), name, target);
                }
            }
        }
    }
}

proof fn lemma_locked_in_order(lockfile: Names, infos: Seq<Info>, root: Seq<char>, info: Info, value: Seq<char>)
    requires
        ascending(names(lockfile)),
    ensures
        ascending(names(with_locked(lockfile, infos, root, info, value))),
{
    let target = info_target(infos, root, info);
    lemma_row_in_order(lockfile, target, value);
    lemma_row_in_order(with_row(lockfile, target, value), versioned_name(info.name, info.version), value);
}

proof fn lemma_versions_in_order(infos: Seq<Info>, root: Seq<char>, rows: Seq<(Seq<char>, Info)>, n: int)
    ensures
        ascending(names(first_versions(infos, root, rows, n))),
    decreases n,
{
    if n > 0 {
        lemma_versions_in_order(infos, root, rows, n - 1);
        let info = rows[n - 1].1;
        lemma_locked_in_order(first_versions(infos, root, rows, n - 1), infos, root, info, info.version);
    }
}

proof fn lemma_node_in_order(facts: Facts, files: Files, infos: Seq<Info>, root: Seq<char>, plan: Plan, node: Node)
    requires
        plan_in_order(plan),
    ensures
        with_node(facts, files, infos, root, plan, node) matches Ok(next) ==> plan_in_order(next),
{
    if let Some(id) = text_in(member(Some(node), "id"@)) {
        if let (Some(target), Some(info)) = (target_by_id(infos, root, id), found(by_id(infos, infos.len() as int), id)) {
            if let Ok(features) = features_of_node(node) {
                let list = deps_of_node(node);
                let deps = node_dependencies(infos, root, list, list.len() as int);
                let edges = plan.locked_dependencies;
                let versioned = versioned_name(info.name, info.version);
                lemma_dependencies_in_order(infos, root, list, list.len() as int);
                lemma_locked_in_order(plan.lockfile, infos, root, info, lock_string(info.version, features));
                lemma_row_in_order(edges, target, deps);
                lemma_row_in_order(with_row(edges, target, deps), versioned, deps);
                assert(inner_in_order(edges));
                lemma_inner_in_order(edges, target, deps);
                lemma_inner_in_order(with_row(edges, target, deps), versioned, deps);
            }
        }
    }
}

proof fn lemma_nodes_in_order(
    facts: Facts,
    files: Files,
    infos: Seq<Info>,
    root: Seq<char>,
    plan: Plan,
    nodes: Seq<Node>,
    i: int,
)
    requires
        plan_in_order(plan),
    ensures
        with_nodes(facts, files, infos, root, plan, nodes, i) matches Ok(next) ==> plan_in_order(next),
    decreases nodes.len() - i,
{
    if i < nodes.len() {
        lemma_node_in_order(facts, files, infos, root, plan, nodes[i]);
        if let Ok(next) = with_node(facts, files, infos, root, plan, nodes[i]) {
            lemma_nodes_in_order(facts, files, infos, root, next, nodes, i + 1);
        }
    }
}

proof fn lemma_root_targets_in_order(infos: Seq<Info>, root: Seq<char>, plan: Plan, requirements: Seq<Requirement>, n: int)
    requires
        plan_in_order(plan),
    ensures
        plan_in_order(with_root_targets(infos, root, plan, requirements, n)),
    decreases n,
{
    if n > 0 {
        lemma_root_targets_in_order(infos, root, plan, requirements, n - 1);
        let before = with_root_targets(infos, root, plan, requirements, n - 1);
        let r = requirements[n - 1];
        if let Some(info) = first_named(by_id(infos, infos.len() as int), root, r.package, 0) {
            let resolved = info_target(infos, root, info);
            if let Some(locked) = found(before.lockfile, resolved) {
                lemma_row_in_order(before.lockfile, requirement_target(r), locked);
            }
            assert(inner_in_order(before.locked_dependencies));
            lemma_found_in_order(before.locked_dependencies, resolved);
            if let Some(deps) = found(before.locked_dependencies, resolved) {
                lemma_row_in_order(before.locked_dependencies, requirement_target(r), deps);
                lemma_inner_in_order(before.locked_dependencies, requirement_target(r), deps);
            }
        }
    }
}

/// Every plan that is made of metadata can be kept.
pub proof fn law_plan_can_be_kept(facts: Facts, files: Files, requirements: Seq<Requirement>, metadata: Node)
    ensures
        metadata_plan(facts, files, requirements, metadata) matches Ok(plan) ==> plan_in_order(plan),
{
    let root = root_id(metadata);
    if let Some(entries) = items_in(member(Some(metadata), "packages"@)) {
        if let Ok(infos) = package_infos(entries, 0, Seq::empty()) {
            if let Some(nodes) = items_in(member(member(Some(metadata), "resolve"@), "nodes"@)) {
                let rows = by_id(infos, infos.len() as int);
                let start = Plan {
                    lockfile: first_versions(infos, root, rows, rows.len() as int),
                    locked_dependencies: Seq::empty(),
                };
                lemma_versions_in_order(infos, root, rows, rows.len() as int);
                assert(names(start.locked_dependencies) =~= Seq::empty());
                assert(plan_in_order(start));
                lemma_nodes_in_order(facts, files, infos, root, start, nodes, 0);
                if let Ok(plan) = with_nodes(facts, files, infos, root, start, nodes, 0) {
                    lemma_root_targets_in_order(infos, root, plan, requirements, requirements.len() as int);
                }
            }
        }
    }
}

} // verus!
