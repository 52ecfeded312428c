//! Configuration files: the tables that `WORKSPACE.ccl` and `BUILD.ccl` evaluate
//! to, and where their imports are found.

use vstd::prelude::*;

use crate::ccl::exec::{ExecError, ExecErrorKind};
use crate::error::{error, fault, outcome, Error, ErrorKind, Fault};
use crate::path::{absolute, climbs, has_parent_step, is_absolute, join_path, joined_path, lies_in, parent, parent_of, starts_with};
use crate::table::{found, with_row, Table};
use crate::text::{after_prefix, begins, begins_with, cat2, cat3, cat4, cut, keep, split_once, strip_prefix, Duplicate};
use crate::value::{array, items_in, lemma_node, table, text_at, text_in, ConfigTable, ConfigValue, Node};

verus! {

/// What came of a configuration file: its value, or why there is none, with what
/// is to be shown of the error.
pub enum Loaded {
    Value(ConfigValue),
    Unreadable(Error),
    Unparsed(String),
    Unevaluated(String),
}

/// What a `Loaded` says.
#[verifier::ext_equal]
pub enum Evaluated {
    Value(Node),
    Unreadable(Fault),
    Unparsed(Seq<char>),
    Unevaluated(Seq<char>),
}

impl DeepView for Loaded {
    type V = Evaluated;

    open spec fn deep_view(&self) -> Evaluated {
        match self {
            Loaded::Value(value) => Evaluated::Value(value.deep_view()),
            Loaded::Unreadable(e) => Evaluated::Unreadable(e.deep_view()),
            Loaded::Unparsed(shown) => Evaluated::Unparsed(shown@),
            Loaded::Unevaluated(shown) => Evaluated::Unevaluated(shown@),
        }
    }
}

/// How the kind of a value is called.
pub open spec fn kind_text(value: Node) -> Seq<char> {
    match value {
        Node::Text(_) | Node::Date(_) => "a string"@,
        Node::Bool(_) => "a bool"@,
        Node::Number(_) | Node::Integer(_) => "a number"@,
        Node::Array(_) => "an array"@,
        Node::Table(_) => "a dictionary"@,
        Node::Null => "null"@,
    }
}

fn config_type_name(value: &ConfigValue) -> (r: &'static str)
    ensures
        r@ == kind_text(value.deep_view()),
{
    match value {
        ConfigValue::String(_) | ConfigValue::Date(_) => "a string",
        ConfigValue::Bool(_) => "a bool",
        ConfigValue::Number(_) | ConfigValue::Integer(_) => "a number",
        ConfigValue::Array(_) => "an array",
        ConfigValue::Table(_) => "a dictionary",
        ConfigValue::Null => "null",
    }
}

/// The rows of the file `file`, of which `loaded` came.
pub open spec fn loaded_rows(file: Seq<char>, loaded: Evaluated) -> Result<Seq<(Seq<char>, Node)>, Fault> {
    match loaded {
        Evaluated::Unreadable(e) => Err(e),
        Evaluated::Unparsed(shown) => Err(
            fault(ErrorKind::InvalidData, "failed to parse "@ + file + ":\n"@ + shown),
        ),
        Evaluated::Unevaluated(shown) => Err(
            fault(ErrorKind::InvalidData, "failed to evaluate "@ + file + ":\n"@ + shown),
        ),
        Evaluated::Value(Node::Table(rows)) => Ok(rows),
        Evaluated::Value(other) => Err(
            fault(ErrorKind::InvalidData, file + " must evaluate to a dictionary, got "@ + kind_text(other)),
        ),
    }
}

/// The table of a workspace's configuration file.
pub fn load_workspace_table(file: &str, loaded: &Loaded) -> (r: Result<ConfigTable, Error>)
    ensures
        outcome(r) == loaded_rows(file@, loaded.deep_view()),
{
    match loaded {
        Loaded::Unreadable(e) => Err(e.duplicate()),
        Loaded::Unparsed(shown) => Err(
            error(ErrorKind::InvalidData, cat4("failed to parse ", file, ":\n", shown.as_str())),
        ),
        Loaded::Unevaluated(shown) => Err(
            error(ErrorKind::InvalidData, cat4("failed to evaluate ", file, ":\n", shown.as_str())),
        ),
        Loaded::Value(value) => match value.as_table() {
            Some(rows) => Ok(rows.duplicate()),
            None => Err(
                error(
                    ErrorKind::InvalidData,
                    cat3(file, " must evaluate to a dictionary, got ", config_type_name(value)),
                ),
            ),
        },
    }
}

/// `done` with the target `name` under its kind.
pub open spec fn with_target(done: Seq<(Seq<char>, Node)>, name: Seq<char>, value: Node) -> Result<
    Seq<(Seq<char>, Node)>,
    Fault,
> {
    if begins(name, "_"@) {
        Ok(done)
    } else {
        match value {
            Node::Table(rows) => match text_in(found(rows, "_type"@)) {
                None => Err(fault(ErrorKind::InvalidData, "BUILD.ccl target "@ + name + " is missing _type"@)),
                Some(kind) => {
                    let target = Node::Table(with_row(rows, "name"@, Node::Text(name)));
                    let before = items_in(found(done, kind)).unwrap_or(Seq::empty());
                    Ok(with_row(done, kind, Node::Array(before.push(target))))
                },
            },
            _ => Err(fault(ErrorKind::InvalidData, "BUILD.ccl target "@ + name + " must be a dictionary"@)),
        }
    }
}

/// `done` with the targets in `rows[i..]`.
pub open spec fn by_kind(rows: Seq<(Seq<char>, Node)>, i: int, done: Seq<(Seq<char>, Node)>) -> Result<
    Seq<(Seq<char>, Node)>,
    Fault,
>
    decreases rows.len() - i,
{
    if i >= rows.len() {
        Ok(done)
    } else {
        match with_target(done, rows[i].0, rows[i].1) {
            Err(e) => Err(e),
            Ok(next) => by_kind(rows, i + 1, next),
        }
    }
}

/// The targets of a build file by their kinds, each with its name; what has a
/// name that begins with `_` is no target.
pub fn normalize_ccl_build_table(file: &ConfigTable) -> (r: Result<ConfigTable, Error>)
    ensures
        outcome(r) == by_kind(file.deep_view(), 0, Seq::empty()),
{
    broadcast use lemma_node;

    let ghost rows = file.deep_view();
    let mut done: ConfigTable = Table::new();
    let mut i: usize = 0;
    while i < file.rows.len()
        invariant
            i <= file.rows.len(),
            rows == file.deep_view(),
            by_kind(rows, 0, Seq::empty()) == by_kind(rows, i as int, done.deep_view()),
        decreases file.rows.len() - i,
    {
        assert(rows[i as int] == (file.rows@[i as int].0@, file.rows@[i as int].1.deep_view()));
        let name = &file.rows[i].0;
        if !begins_with(name.as_str(), "_") {
            let target = match file.rows[i].1.as_table() {
                Some(target) => target,
                None => return Err(
                    error(
                        ErrorKind::InvalidData,
                        cat3("BUILD.ccl target ", name.as_str(), " must be a dictionary"),
                    ),
                ),
            };
            let kind = match text_at(target, "_type") {
                Some(kind) => kind,
                None => return Err(
                    error(
                        ErrorKind::InvalidData,
                        cat3("BUILD.ccl target ", name.as_str(), " is missing _type"),
                    ),
                ),
            };
            let mut named = target.duplicate();
            named.insert("name".to_owned(), ConfigValue::String(name.clone()));
            let mut targets: Vec<ConfigValue> = match crate::value::array_at(&done, kind.as_str()) {
                Some(before) => before.duplicate(),
                None => Vec::new(),
            };
            let ghost start = targets.deep_view();
            assert(items_in(found(done.deep_view(), kind@)) is None ==> start =~= Seq::empty());
            keep(&mut targets, table(named));
            done.insert(kind, array(targets));
        }
        i = i + 1;
    }
    Ok(done)
}

/// The targets of the build file `file` by their kinds.
pub open spec fn loaded_targets(file: Seq<char>, loaded: Evaluated) -> Result<Seq<(Seq<char>, Node)>, Fault> {
    match loaded_rows(file, loaded) {
        Err(e) => Err(e),
        Ok(rows) => by_kind(rows, 0, Seq::empty()),
    }
}

/// The table of a package's build file: its targets by their kinds.
pub fn load_build_table(file: &str, loaded: &Loaded) -> (r: Result<ConfigTable, Error>)
    ensures
        outcome(r) == loaded_targets(file@, loaded.deep_view()),
{
    let rows = load_workspace_table(file, loaded)?;
    normalize_ccl_build_table(&rows)
}

/// The path `value`, or the message for one that is not below the workspace.
pub open spec fn relative(value: Seq<char>) -> Result<Seq<char>, Seq<char>> {
    if absolute(value) || climbs(value) {
        Err("CCL import path must be workspace-relative: "@ + value)
    } else {
        Ok(value)
    }
}

/// The file that an import names, before it is checked.
pub open spec fn named_path(root: Seq<char>, name: Seq<char>, context: Option<Seq<char>>) -> Result<Seq<char>, Seq<char>> {
    match after_prefix(name, "//"@) {
        Some(label) => match cut(label, ':') {
            None => Err("invalid CCL import label "@ + name + "; expected //package:path"@),
            Some((package, file)) => match (relative(package), relative(file)) {
                (Err(e), _) => Err(e),
                (_, Err(e)) => Err(e),
                (Ok(_), Ok(_)) => Ok(joined_path(joined_path(root, package), file)),
            },
        },
        None => match relative(name) {
            Err(e) => Err(e),
            Ok(_) => match context {
                Some(importer) => Ok(joined_path(parent_of(importer).unwrap_or(root), name)),
                None => Ok(joined_path(root, name)),
            },
        },
    }
}

/// The file that an import names: `//package:path` below the workspace, any
/// other name beside the file that imports it.
pub open spec fn import_path(root: Seq<char>, name: Seq<char>, context: Option<Seq<char>>) -> Result<Seq<char>, Seq<char>> {
    match named_path(root, name, context) {
        Err(e) => Err(e),
        Ok(path) => if climbs(path) || (absolute(path) && !lies_in(path, root)) {
            Err("CCL import path escapes workspace: "@ + path)
        } else {
            Ok(path)
        },
    }
}

/// No import leads out of the workspace.
pub proof fn law_imports_stay_inside(root: Seq<char>, name: Seq<char>, context: Option<Seq<char>>)
    ensures
        import_path(root, name, context) matches Ok(path) ==> !climbs(path) && (absolute(path) ==> lies_in(path, root)),
{
}

/// What a path or the message of an import error says.
pub open spec fn path_outcome(r: Result<String, ExecError>) -> Result<Seq<char>, Seq<char>> {
    match r {
        Ok(path) => Ok(path@),
        Err(e) => Err(e.deep_view().message),
    }
}

fn relative_path(value: &str) -> (r: Result<bool, ExecError>)
    ensures
        match r {
            Ok(_) => relative(value@) is Ok,
            Err(e) => relative(value@) is Err && relative(value@)->Err_0 == e.deep_view().message
                && e.deep_view().kind == ExecErrorKind::ImportResolutionError,
        },
{
    if is_absolute(value) || has_parent_step(value) {
        return Err(
            ExecError::ImportResolutionError(cat2("CCL import path must be workspace-relative: ", value)),
        );
    }
    Ok(true)
}

fn import_file(root: &str, name: &str, context: &Option<String>) -> (r: Result<String, ExecError>)
    ensures
        path_outcome(r) == named_path(root@, name@, context.deep_view()),
        r is Err ==> r->Err_0.deep_view().kind == ExecErrorKind::ImportResolutionError,
{
    if let Some(label) = strip_prefix(name, "//") {
        let (package, file) = match split_once(label.as_str(), ':') {
            Some(parts) => parts,
            None => return Err(
                ExecError::ImportResolutionError(
                    cat3("invalid CCL import label ", name, "; expected //package:path"),
                ),
            ),
        };
        if let Err(e) = relative_path(package.as_str()) {
            return Err(e);
        }
        if let Err(e) = relative_path(file.as_str()) {
            return Err(e);
        }
        return Ok(join_path(join_path(root, package.as_str()).as_str(), file.as_str()));
    }
    if let Err(e) = relative_path(name) {
        return Err(e);
    }
    match context {
        Some(importer) => match parent(importer.as_str()) {
            Some(dir) => Ok(join_path(dir.as_str(), name)),
            None => Ok(join_path(root, name)),
        },
        None => Ok(join_path(root, name)),
    }
}

pub fn resolve_import_path(root: &str, name: &str, context: &Option<String>) -> (r: Result<String, ExecError>)
    ensures
        path_outcome(r) == import_path(root@, name@, context.deep_view()),
        r is Err ==> r->Err_0.deep_view().kind == ExecErrorKind::ImportResolutionError,
{
    let path = match import_file(root, name, context) {
        Ok(path) => path,
        Err(e) => return Err(e),
    };
    if has_parent_step(path.as_str()) || (is_absolute(path.as_str()) && !starts_with(path.as_str(), root)) {
        return Err(ExecError::ImportResolutionError(cat2("CCL import path escapes workspace: ", path.as_str())));
    }
    Ok(path)
}

} // verus!
