//! Rules: what the targets of a package's build file say.

use vstd::prelude::*;

use crate::error::{error, fault, invalid_data, outcome, Error, ErrorKind, Fault};
use crate::labels::{canonical_in, canonical_of, label_or_external, parse_label_or_external};
use crate::model::{ExternalRequirement, Requirement};
use crate::path::{absolute, climbs, has_parent_step, is_absolute, join_path, joined_path, lies_in, starts_with};
use crate::table::found;
use crate::text::{begins, begins_with, cat2, keep, same, Duplicate};
use crate::value::{bool_in, items_in, rows_in, text_at, text_in, ConfigTable, ConfigValue, Node};

verus! {

/// The rows of a configuration table.
pub type Rows = Seq<(Seq<char>, Node)>;

/// Where a target stands: the workspace, and the package and its directory.
pub struct RuleContext {
    pub workspace_root: String,
    pub package: String,
    pub package_dir: String,
}

/// The text that must stand under `key`.
pub open spec fn required_text(rows: Rows, key: Seq<char>) -> Result<Seq<char>, Fault> {
    match text_in(found(rows, key)) {
        Some(text) => Ok(text),
        None => Err(fault(ErrorKind::InvalidData, "missing required string field "@ + key)),
    }
}

pub fn required_string(table: &ConfigTable, key: &str) -> (r: Result<String, Error>)
    ensures
        outcome(r) == required_text(table.deep_view(), key@),
{
    match text_at(table, key) {
        Some(text) => Ok(text),
        None => Err(error(ErrorKind::InvalidData, cat2("missing required string field ", key))),
    }
}

/// Whether all of `items` are texts.
pub open spec fn all_texts(items: Seq<Node>) -> bool {
    forall|i: int| 0 <= i < items.len() ==> (#[trigger] items[i]) is Text
}

/// The texts in `items`, all of which are texts.
pub open spec fn texts_of(items: Seq<Node>) -> Seq<Seq<char>> {
    items.map_values(|item: Node| text_in(Some(item)).unwrap_or(Seq::empty()))
}

/// The texts under `key`; none where nothing is under it.
pub open spec fn text_list(rows: Rows, key: Seq<char>) -> Result<Seq<Seq<char>>, Fault> {
    match found(rows, key) {
        None => Ok(Seq::empty()),
        Some(value) => match items_in(Some(value)) {
            Some(items) => if all_texts(items) {
                Ok(texts_of(items))
            } else {
                Err(fault(ErrorKind::InvalidData, key + " must be an array of strings"@))
            },
            None => Err(fault(ErrorKind::InvalidData, key + " must be an array of strings"@)),
        },
    }
}

pub fn string_list(table: &ConfigTable, key: &str) -> (r: Result<Vec<String>, Error>)
    ensures
        outcome(r) == text_list(table.deep_view(), key@),
{
    let mut out: Vec<String> = Vec::new();
    assert(out.deep_view() =~= Seq::<Seq<char>>::empty());
    let value = match table.get(key) {
        Some(value) => value,
        None => return Ok(out),
    };
    let items = match value.as_array() {
        Some(items) => items,
        None => return Err(error(ErrorKind::InvalidData, cat2(key, " must be an array of strings"))),
    };
    let ghost list = items.deep_view();
    let mut i: usize = 0;
    assert(texts_of(list.take(0)) =~= Seq::<Seq<char>>::empty());
    while i < items.len()
        invariant
            i <= items.len(),
            list == items.deep_view(),
            found(table.deep_view(), key@) == Some(Node::Array(list)),
            forall|j: int| 0 <= j < i ==> (#[trigger] list[j]) is Text,
            out.deep_view() == texts_of(list.take(i as int)),
        decreases items.len() - i,
    {
        assert(list[i as int] == items@[i as int].deep_view());
        match items[i].as_str() {
            Some(text) => {
                keep(&mut out, text.to_owned());
            },
            None => return Err(error(ErrorKind::InvalidData, cat2(key, " must be an array of strings"))),
        }
        i = i + 1;
        assert(texts_of(list.take(i as int)) =~= texts_of(list.take(i - 1)).push(out.deep_view().last()));
    }
    assert(list.take(list.len() as int) =~= list);
    Ok(out)
}

/// Why a path is not in the workspace, if it is not.
pub open spec fn escape(root: Seq<char>, path: Seq<char>) -> Option<Fault> {
    if climbs(path) || (absolute(path) && !lies_in(path, root)) {
        Some(fault(ErrorKind::InvalidInput, "path escapes workspace: "@ + path))
    } else {
        None
    }
}

pub fn validate_workspace_relative(root: &str, path: &str) -> (r: Option<Error>)
    ensures
        r.deep_view() == escape(root@, path@),
{
    if has_parent_step(path) || (is_absolute(path) && !starts_with(path, root)) {
        return Some(error(ErrorKind::InvalidInput, cat2("path escapes workspace: ", path)));
    }
    None
}

/// The file `path` of a package.
pub open spec fn path_in_package(root: Seq<char>, package_dir: Seq<char>, path: Seq<char>) -> Result<Seq<char>, Fault> {
    if begins(path, "/"@) || climbs(path) {
        Err(fault(ErrorKind::InvalidInput, "workspace paths must be package-relative: "@ + path))
    } else {
        match escape(root, joined_path(package_dir, path)) {
            Some(e) => Err(e),
            None => Ok(joined_path(package_dir, path)),
        }
    }
}

pub fn package_path(root: &str, package_dir: &str, path: &str) -> (r: Result<String, Error>)
    ensures
        outcome(r) == path_in_package(root@, package_dir@, path@),
{
    if begins_with(path, "/") || has_parent_step(path) {
        return Err(error(ErrorKind::InvalidInput, cat2("workspace paths must be package-relative: ", path)));
    }
    let resolved = join_path(package_dir, path);
    match validate_workspace_relative(root, resolved.as_str()) {
        Some(e) => Err(e),
        None => Ok(resolved),
    }
}

/// No source of a package is outside of the workspace.
pub proof fn law_sources_inside(root: Seq<char>, package_dir: Seq<char>, path: Seq<char>)
    ensures
        path_in_package(root, package_dir, path) matches Ok(resolved) ==> !climbs(resolved) && (absolute(resolved)
            ==> lies_in(resolved, root)),
{
}

/// `done` with the files `sources[i..]` of a package.
pub open spec fn paths_in_package(
    root: Seq<char>,
    package_dir: Seq<char>,
    sources: Seq<Seq<char>>,
    i: int,
    done: Seq<Seq<char>>,
) -> Result<Seq<Seq<char>>, Fault>
    decreases sources.len() - i,
{
    if i >= sources.len() {
        Ok(done)
    } else {
        match path_in_package(root, package_dir, sources[i]) {
            Err(e) => Err(e),
            Ok(path) => paths_in_package(root, package_dir, sources, i + 1, done.push(path)),
        }
    }
}

/// The sources under `key`.
pub open spec fn sources_under(root: Seq<char>, package_dir: Seq<char>, rows: Rows, key: Seq<char>) -> Result<
    Seq<Seq<char>>,
    Fault,
> {
    match text_list(rows, key) {
        Err(e) => Err(e),
        Ok(sources) => paths_in_package(root, package_dir, sources, 0, Seq::empty()),
    }
}

/// `done` with the labels `labels[i..]` as they are written.
pub open spec fn canonical_labels(labels: Seq<Seq<char>>, package: Seq<char>, i: int, done: Seq<Seq<char>>) -> Result<
    Seq<Seq<char>>,
    Fault,
>
    decreases labels.len() - i,
{
    if i >= labels.len() {
        Ok(done)
    } else {
        match canonical_in(labels[i], package) {
            Err(e) => Err(e),
            Ok(label) => canonical_labels(labels, package, i + 1, done.push(label)),
        }
    }
}

/// The labels under `key`.
pub open spec fn labels_under(package: Seq<char>, rows: Rows, key: Seq<char>) -> Result<Seq<Seq<char>>, Fault> {
    match text_list(rows, key) {
        Err(e) => Err(e),
        Ok(labels) => canonical_labels(labels, package, 0, Seq::empty()),
    }
}

/// The label under `key`, where there is a text.
pub open spec fn label_under(package: Seq<char>, rows: Rows, key: Seq<char>) -> Result<Option<Seq<char>>, Fault> {
    match text_in(found(rows, key)) {
        None => Ok(None),
        Some(value) => match canonical_in(value, package) {
            Err(e) => Err(e),
            Ok(label) => Ok(Some(label)),
        },
    }
}

/// The source under `key`, where there is a text.
pub open spec fn source_under(root: Seq<char>, package_dir: Seq<char>, rows: Rows, key: Seq<char>) -> Result<
    Option<Seq<char>>,
    Fault,
> {
    match text_in(found(rows, key)) {
        None => Ok(None),
        Some(value) => match path_in_package(root, package_dir, value) {
            Err(e) => Err(e),
            Ok(path) => Ok(Some(path)),
        },
    }
}

/// What stands under the first of two keys under which something stands.
pub open spec fn either(rows: Rows, key: Seq<char>, other: Seq<char>) -> Option<Node> {
    match found(rows, key) {
        Some(value) => Some(value),
        None => found(rows, other),
    }
}

pub fn get_either<'a>(table: &'a ConfigTable, key: &str, other: &str) -> (r: Option<&'a ConfigValue>)
    ensures
        r.deep_view() == either(table.deep_view(), key@, other@),
{
    match table.get(key) {
        Some(value) => Some(value),
        None => table.get(other),
    }
}

/// The text under the first of two keys under which something stands.
pub fn text_at_either(table: &ConfigTable, key: &str, other: &str) -> (r: Option<String>)
    ensures
        r.deep_view() == text_in(either(table.deep_view(), key@, other@)),
{
    match get_either(table, key, other) {
        Some(value) => match value.as_str() {
            Some(text) => Some(text.to_owned()),
            None => None,
        },
        None => None,
    }
}

/// The requirement that an entry of `cargo_deps` states.
pub open spec fn requirement_in(dep: Node, package: Seq<char>) -> Result<Requirement, Fault> {
    match rows_in(Some(dep)) {
        None => Err(fault(ErrorKind::InvalidData, "cargo_deps entries must be tables"@)),
        Some(rows) => match (required_text(rows, "package"@), required_text(rows, "version"@), text_list(rows, "features"@)) {
            (Err(e), _, _) => Err(e),
            (_, Err(e), _) => Err(e),
            (_, _, Err(e)) => Err(e),
            (Ok(name), Ok(version), Ok(features)) => {
                let target = match text_in(found(rows, "target"@)) {
                    Some(target) => label_or_external(target, package),
                    None => Ok("cargo://"@ + name),
                };
                match target {
                    Err(e) => Err(e),
                    Ok(target) => Ok(
                        Requirement {
                            ecosystem: "cargo"@,
                            package: name,
                            version,
                            features,
                            default_features: bool_in(either(rows, "default_features"@, "default-features"@)).unwrap_or(true),
                            target: Some(target),
                        },
                    ),
                }
            },
        },
    }
}

fn cargo_requirement(dep: &ConfigValue, package: &str) -> (r: Result<ExternalRequirement, Error>)
    ensures
        outcome(r) == requirement_in(dep.deep_view(), package@),
{
    let table = match dep.as_table() {
        Some(table) => table,
        None => return Err(invalid_data("cargo_deps entries must be tables")),
    };
    let name = required_string(table, "package")?;
    let version = required_string(table, "version")?;
    let features = string_list(table, "features")?;
    let default_features = match get_either(table, "default_features", "default-features") {
        Some(value) => match value.as_bool() {
            Some(flag) => flag,
            None => true,
        },
        None => true,
    };
    let target = match text_at(table, "target") {
        Some(target) => parse_label_or_external(target.as_str(), package)?,
        None => cat2("cargo://", name.as_str()),
    };
    Ok(
        ExternalRequirement {
            ecosystem: "cargo".to_owned(),
            package: name,
            version,
            features,
            default_features,
            target: Some(target),
        },
    )
}

/// `done` with the requirements that `deps[i..]` state.
pub open spec fn requirements_in(deps: Seq<Node>, package: Seq<char>, i: int, done: Seq<Requirement>) -> Result<
    Seq<Requirement>,
    Fault,
>
    decreases deps.len() - i,
{
    if i >= deps.len() {
        Ok(done)
    } else {
        match requirement_in(deps[i], package) {
            Err(e) => Err(e),
            Ok(requirement) => requirements_in(deps, package, i + 1, done.push(requirement)),
        }
    }
}

/// The requirements of a target on Cargo's packages.
pub open spec fn target_requirements(rows: Rows, package: Seq<char>) -> Result<Seq<Requirement>, Fault> {
    match found(rows, "cargo_deps"@) {
        None => Ok(Seq::empty()),
        Some(value) => match items_in(Some(value)) {
            None => Err(fault(ErrorKind::InvalidData, "cargo_deps must be an array of tables"@)),
            Some(deps) => requirements_in(deps, package, 0, Seq::empty()),
        },
    }
}

pub fn cargo_requirements(target: &ConfigTable, package: &str) -> (r: Result<Vec<ExternalRequirement>, Error>)
    ensures
        outcome(r) == target_requirements(target.deep_view(), package@),
{
    let mut out: Vec<ExternalRequirement> = Vec::new();
    assert(out.deep_view() =~= Seq::<Requirement>::empty());
    let value = match target.get("cargo_deps") {
        Some(value) => value,
        None => return Ok(out),
    };
    let deps = match value.as_array() {
        Some(deps) => deps,
        None => return Err(invalid_data("cargo_deps must be an array of tables")),
    };
    let ghost list = deps.deep_view();
    let mut i: usize = 0;
    while i < deps.len()
        invariant
            i <= deps.len(),
            list == deps.deep_view(),
            target_requirements(target.deep_view(), package@) == requirements_in(list, package@, i as int, out.deep_view()),
        decreases deps.len() - i,
    {
        assert(list[i as int] == deps@[i as int].deep_view());
        let requirement = cargo_requirement(&deps[i], package)?;
        keep(&mut out, requirement);
        i = i + 1;
    }
    Ok(out)
}

impl RuleContext {
    pub fn source_paths(&self, target: &ConfigTable, key: &str) -> (r: Result<Vec<String>, Error>)
        ensures
            outcome(r) == sources_under(self.workspace_root@, self.package_dir@, target.deep_view(), key@),
    {
        let sources = string_list(target, key)?;
        let ghost list = sources.deep_view();
        let mut out: Vec<String> = Vec::new();
        assert(out.deep_view() =~= Seq::<Seq<char>>::empty());
        let mut i: usize = 0;
        while i < sources.len()
            invariant
                i <= sources.len(),
                list == sources.deep_view(),
                paths_in_package(self.workspace_root@, self.package_dir@, list, 0, Seq::empty()) == paths_in_package(
                    self.workspace_root@,
                    self.package_dir@,
                    list,
                    i as int,
                    out.deep_view(),
                ),
                text_list(target.deep_view(), key@) == Ok::<Seq<Seq<char>>, Fault>(list),
            decreases sources.len() - i,
        {
            assert(list[i as int] == sources@[i as int]@);
            let path = package_path(self.workspace_root.as_str(), self.package_dir.as_str(), sources[i].as_str())?;
            keep(&mut out, path);
            i = i + 1;
        }
        Ok(out)
    }

    pub fn optional_source_path(&self, target: &ConfigTable, key: &str) -> (r: Result<Option<String>, Error>)
        ensures
            outcome(r) == source_under(self.workspace_root@, self.package_dir@, target.deep_view(), key@),
    {
        match text_at(target, key) {
            None => Ok(None),
            Some(value) => match package_path(
                self.workspace_root.as_str(),
                self.package_dir.as_str(),
                value.as_str(),
            ) {
                Ok(path) => Ok(Some(path)),
                Err(e) => Err(e),
            },
        }
    }

    pub fn label_list(&self, target: &ConfigTable, key: &str) -> (r: Result<Vec<String>, Error>)
        ensures
            outcome(r) == labels_under(self.package@, target.deep_view(), key@),
    {
        let labels = string_list(target, key)?;
        let ghost list = labels.deep_view();
        let mut out: Vec<String> = Vec::new();
        assert(out.deep_view() =~= Seq::<Seq<char>>::empty());
        let mut i: usize = 0;
        while i < labels.len()
            invariant
                i <= labels.len(),
                list == labels.deep_view(),
                canonical_labels(list, self.package@, 0, Seq::empty()) == canonical_labels(
                    list,
                    self.package@,
                    i as int,
                    out.deep_view(),
                ),
                text_list(target.deep_view(), key@) == Ok::<Seq<Seq<char>>, Fault>(list),
            decreases labels.len() - i,
        {
            assert(list[i as int] == labels@[i as int]@);
            let label = canonical_of(labels[i].as_str(), self.package.as_str())?;
            keep(&mut out, label);
            i = i + 1;
        }
        Ok(out)
    }

    pub fn optional_label(&self, target: &ConfigTable, key: &str) -> (r: Result<Option<String>, Error>)
        ensures
            outcome(r) == label_under(self.package@, target.deep_view(), key@),
    {
        match text_at(target, key) {
            None => Ok(None),
            Some(value) => match canonical_of(value.as_str(), self.package.as_str()) {
                Ok(label) => Ok(Some(label)),
                Err(e) => Err(e),
            },
        }
    }

    pub fn cargo_requirements(&self, target: &ConfigTable) -> (r: Result<Vec<ExternalRequirement>, Error>)
        ensures
            outcome(r) == target_requirements(target.deep_view(), self.package@),
    {
        cargo_requirements(target, self.package.as_str())
    }

    pub fn required_string(&self, target: &ConfigTable, key: &str) -> (r: Result<String, Error>)
        ensures
            outcome(r) == required_text(target.deep_view(), key@),
    {
        required_string(target, key)
    }
}

/// The tables in `items[i..]`, of the section `section`, behind `done`.
pub open spec fn tables_in(items: Seq<Node>, section: Seq<char>, i: int, done: Seq<Rows>) -> Result<Seq<Rows>, Fault>
    decreases items.len() - i,
{
    if i >= items.len() {
        Ok(done)
    } else {
        match rows_in(Some(items[i])) {
            None => Err(fault(ErrorKind::InvalidData, section + " entries must be tables"@)),
            Some(rows) => tables_in(items, section, i + 1, done.push(rows)),
        }
    }
}

/// The targets of the kind `section`.
pub open spec fn targets_of_kind(rows: Rows, section: Seq<char>) -> Result<Seq<Rows>, Fault> {
    match found(rows, section) {
        None => Ok(Seq::empty()),
        Some(value) => match items_in(Some(value)) {
            None => Err(fault(ErrorKind::InvalidData, section + " must be an array of tables"@)),
            Some(items) => tables_in(items, section, 0, Seq::empty()),
        },
    }
}

pub fn target_tables(table: &ConfigTable, section: &str) -> (r: Result<Vec<ConfigTable>, Error>)
    ensures
        outcome(r) == targets_of_kind(table.deep_view(), section@),
{
    let mut out: Vec<ConfigTable> = Vec::new();
    assert(out.deep_view() =~= Seq::<Rows>::empty());
    let value = match table.get(section) {
        Some(value) => value,
        None => return Ok(out),
    };
    let items = match value.as_array() {
        Some(items) => items,
        None => return Err(error(ErrorKind::InvalidData, cat2(section, " must be an array of tables"))),
    };
    let ghost list = items.deep_view();
    let mut i: usize = 0;
    while i < items.len()
        invariant
            i <= items.len(),
            list == items.deep_view(),
            targets_of_kind(table.deep_view(), section@) == tables_in(list, section@, i as int, out.deep_view()),
        decreases items.len() - i,
    {
        assert(list[i as int] == items@[i as int].deep_view());
        match items[i].as_table() {
            Some(rows) => {
                keep(&mut out, rows.duplicate());
            },
            None => return Err(error(ErrorKind::InvalidData, cat2(section, " entries must be tables"))),
        }
        i = i + 1;
    }
    Ok(out)
}

/// The first of the targets `items[i..]` that is called `name`.
pub open spec fn named_in(items: Seq<Node>, section: Seq<char>, name: Seq<char>, i: int) -> Result<Option<Rows>, Fault>
    decreases items.len() - i,
{
    if i >= items.len() {
        Ok(None)
    } else {
        match rows_in(Some(items[i])) {
            None => Err(fault(ErrorKind::InvalidData, section + " entries must be tables"@)),
            Some(rows) => if text_in(found(rows, "name"@)) == Some(name) {
                Ok(Some(rows))
            } else {
                named_in(items, section, name, i + 1)
            },
        }
    }
}

/// The target of the kind `section` that is called `name`.
pub open spec fn named_target(rows: Rows, section: Seq<char>, name: Seq<char>) -> Result<Option<Rows>, Fault> {
    match found(rows, section) {
        None => Ok(None),
        Some(value) => match items_in(Some(value)) {
            None => Err(fault(ErrorKind::InvalidData, section + " must be an array of tables"@)),
            Some(items) => named_in(items, section, name, 0),
        },
    }
}

/// Whether `rows` has a target of the kind `section` that is called `name`.
pub open spec fn declares(rows: Rows, section: Seq<char>, name: Seq<char>) -> bool {
    items_in(found(rows, section)) matches Some(items) && exists|j: int|
        0 <= j < items.len() && called(#[trigger] items[j], name)
}

/// Whether `item` is a table of a target that is called `name`.
pub open spec fn called(item: Node, name: Seq<char>) -> bool {
    rows_in(Some(item)) matches Some(rows) && text_in(found(rows, "name"@)) == Some(name)
}

/// A target that is found is there.
pub proof fn lemma_named_target(rows: Rows, section: Seq<char>, name: Seq<char>)
    ensures
        named_target(rows, section, name) matches Ok(Some(_)) ==> declares(rows, section, name),
{
    if let Some(items) = items_in(found(rows, section)) {
        lemma_named_in(items, section, name, 0);
    }
}

proof fn lemma_named_in(items: Seq<Node>, section: Seq<char>, name: Seq<char>, i: int)
    requires
        0 <= i,
    ensures
        named_in(items, section, name, i) matches Ok(Some(_)) ==> exists|j: int|
            0 <= j < items.len() && called(#[trigger] items[j], name),
    decreases items.len() - i,
{
    if i < items.len() {
        if called(items[i], name) {
        } else {
            lemma_named_in(items, section, name, i + 1);
        }
    }
}

/// Each target of a kind is there under its name.
pub proof fn lemma_targets_of_kind(rows: Rows, section: Seq<char>, t: int, name: Seq<char>)
    requires
        targets_of_kind(rows, section) matches Ok(targets) && 0 <= t < targets.len() && required_text(
            targets[t],
            "name"@,
        ) == Ok::<Seq<char>, Fault>(name),
    ensures
        declares(rows, section, name),
{
    if let Some(items) = items_in(found(rows, section)) {
        lemma_tables_in(items, section, 0, Seq::empty());
        assert(called(items[t], name));
    }
}

/// The tables of a section are its entries.
pub proof fn lemma_tables_in(items: Seq<Node>, section: Seq<char>, i: int, done: Seq<Rows>)
    requires
        0 <= i <= items.len(),
        done.len() == i,
        forall|j: int| 0 <= j < i ==> rows_in(Some(#[trigger] items[j])) == Some(done[j]),
    ensures
        tables_in(items, section, i, done) matches Ok(tables) ==> tables.len() == items.len() && forall|j: int|
            0 <= j < items.len() ==> rows_in(Some(#[trigger] items[j])) == Some(tables[j]),
    decreases items.len() - i,
{
    if i < items.len() {
        if let Some(rows) = rows_in(Some(items[i])) {
            lemma_tables_in(items, section, i + 1, done.push(rows));
        }
    }
}

pub fn find_named_target(table: &ConfigTable, section: &str, name: &str) -> (r: Result<Option<ConfigTable>, Error>)
    ensures
        outcome(r) == named_target(table.deep_view(), section@, name@),
{
    let value = match table.get(section) {
        Some(value) => value,
        None => return Ok(None),
    };
    let items = match value.as_array() {
        Some(items) => items,
        None => return Err(error(ErrorKind::InvalidData, cat2(section, " must be an array of tables"))),
    };
    let ghost list = items.deep_view();
    let mut i: usize = 0;
    while i < items.len()
        invariant
            i <= items.len(),
            list == items.deep_view(),
            named_target(table.deep_view(), section@, name@) == named_in(list, section@, name@, i as int),
        decreases items.len() - i,
    {
        assert(list[i as int] == items@[i as int].deep_view());
        match items[i].as_table() {
            Some(rows) => {
                if let Some(found) = text_at(rows, "name") {
                    if same(found.as_str(), name) {
                        return Ok(Some(rows.duplicate()));
                    }
                }
            },
            None => return Err(error(ErrorKind::InvalidData, cat2(section, " entries must be tables"))),
        }
        i = i + 1;
    }
    Ok(None)
}

} // verus!
