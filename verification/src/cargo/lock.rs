//! Cargo lock files: which versions were chosen, and what each depends on.

use vstd::prelude::*;

use crate::cargo::manifest::Rows;
use crate::error::{fault, invalid_data, outcome, Error, ErrorKind, Fault};
use crate::table::{found, with_row, Table};
use crate::text::{
    after_prefix, cat2, cat4, cut, has_char, joined, keep, lemma_joined_front, lemma_pieces_joined, pieces, same, split, split_once, split_whitespace, strip_prefix, words,
    Duplicate,
};
use crate::value::{array_at, items_in, rows_in, text_at, text_in, texts_at, texts_under, ConfigTable, ConfigValue, Node};

verus! {

pub struct LockedPackage {
    pub name: String,
    pub version: String,
    pub dependencies: Vec<String>,
}

/// What a `LockedPackage` says.
#[verifier::ext_equal]
pub struct Locked {
    pub name: Seq<char>,
    pub version: Seq<char>,
    pub dependencies: Seq<Seq<char>>,
}

impl DeepView for LockedPackage {
    type V = Locked;

    open spec fn deep_view(&self) -> Locked {
        Locked { name: self.name@, version: self.version@, dependencies: self.dependencies.deep_view() }
    }
}

/// The package that an entry of a lock file is.
pub open spec fn locked_package(entry: Node) -> Result<Locked, Fault> {
    match rows_in(Some(entry)) {
        None => Err(fault(ErrorKind::InvalidData, "invalid package entry"@)),
        Some(rows) => match text_in(found(rows, "name"@)) {
            None => Err(fault(ErrorKind::InvalidData, "package missing name"@)),
            Some(name) => match text_in(found(rows, "version"@)) {
                None => Err(fault(ErrorKind::InvalidData, "package missing version"@)),
                Some(version) => Ok(Locked { name, version, dependencies: texts_under(rows, "dependencies"@) }),
            },
        },
    }
}

fn parse_locked_package(entry: &ConfigValue) -> (r: Result<LockedPackage, Error>)
    ensures
        outcome(r) == locked_package(entry.deep_view()),
{
    let table = match entry.as_table() {
        Some(table) => table,
        None => return Err(invalid_data("invalid package entry")),
    };
    let name = match text_at(table, "name") {
        Some(name) => name,
        None => return Err(invalid_data("package missing name")),
    };
    let version = match text_at(table, "version") {
        Some(version) => version,
        None => return Err(invalid_data("package missing version")),
    };
    Ok(LockedPackage { name, version, dependencies: texts_at(table, "dependencies") })
}

/// The packages that the entries `entries[i..]` are.
pub open spec fn locked_packages(entries: Seq<Node>, i: int) -> Result<Seq<Locked>, Fault>
    decreases entries.len() - i,
{
    if i >= entries.len() {
        Ok(Seq::empty())
    } else {
        match locked_package(entries[i]) {
            Err(e) => Err(e),
            Ok(package) => match locked_packages(entries, i + 1) {
                Err(e) => Err(e),
                Ok(rest) => Ok(seq![package] + rest),
            },
        }
    }
}

/// The packages of a lock file.
pub open spec fn packages_in(rows: Rows) -> Result<Seq<Locked>, Fault> {
    match items_in(found(rows, "package"@)) {
        None => Err(fault(ErrorKind::InvalidData, "Cargo.lock does not contain packages"@)),
        Some(entries) => locked_packages(entries, 0),
    }
}

/// `found` behind `done`.
pub open spec fn after_packages(done: Seq<Locked>, found: Result<Seq<Locked>, Fault>) -> Result<Seq<Locked>, Fault> {
    match found {
        Ok(rest) => Ok(done + rest),
        Err(e) => Err(e),
    }
}

pub fn parse_packages(table: &ConfigTable) -> (r: Result<Vec<LockedPackage>, Error>)
    ensures
        outcome(r) == packages_in(table.deep_view()),
{
    let entries = match array_at(table, "package") {
        Some(entries) => entries,
        None => return Err(invalid_data("Cargo.lock does not contain packages")),
    };
    let ghost items = entries.deep_view();
    let mut out: Vec<LockedPackage> = Vec::new();
    let mut i: usize = 0;
    proof {
        assert(out.deep_view() =~= Seq::<Locked>::empty());
        if locked_packages(items, 0) is Ok {
            assert(out.deep_view() + locked_packages(items, 0)->Ok_0 =~= locked_packages(items, 0)->Ok_0);
        }
    }
    while i < entries.len()
        invariant
            i <= entries.len(),
            items == entries.deep_view(),
            packages_in(table.deep_view()) == locked_packages(items, 0),
            after_packages(out.deep_view(), locked_packages(items, i as int)) == locked_packages(items, 0),
        decreases entries.len() - i,
    {
        assert(items[i as int] == entries@[i as int].deep_view());
        let ghost done = out.deep_view();
        let ghost rest = locked_packages(items, i + 1);
        let package = parse_locked_package(&entries[i])?;
        keep(&mut out, package);
        proof {
            if rest is Ok {
                assert(done + (seq![package.deep_view()] + rest->Ok_0) =~= out.deep_view() + rest->Ok_0);
            }
        }
        i = i + 1;
    }
    assert(out.deep_view() + Seq::<Locked>::empty() =~= out.deep_view());
    Ok(out)
}

/// How many of the first `n` packages have the given name.
pub open spec fn count_named(packages: Seq<Locked>, name: Seq<char>, n: int) -> int
    decreases n,
{
    if n <= 0 {
        0
    } else {
        count_named(packages, name, n - 1) + (if packages[n - 1].name == name {
            1int
        } else {
            0
        })
    }
}

/// The target of a package: with its version where its name has several.
pub open spec fn target_name(name: Seq<char>, version: Seq<char>, count: int) -> Seq<char> {
    if count > 1 {
        versioned_name(name, version)
    } else {
        "cargo://"@ + name
    }
}

/// The target of a version of a package.
pub open spec fn versioned_name(name: Seq<char>, version: Seq<char>) -> Seq<char> {
    "cargo://"@ + name + "@"@ + version
}

pub fn cargo_target_name(name: &str, version: &str, count: usize) -> (r: String)
    ensures
        r@ == target_name(name@, version@, count as int),
{
    if count > 1 {
        versioned_target(name, version)
    } else {
        cat2("cargo://", name)
    }
}

pub fn versioned_target(name: &str, version: &str) -> (r: String)
    ensures
        r@ == versioned_name(name@, version@),
{
    cat4("cargo://", name, "@", version)
}

/// The target of the package `name` in the given version among `packages`.
pub open spec fn package_target(packages: Seq<Locked>, name: Seq<char>, version: Seq<char>) -> Seq<char> {
    target_name(name, version, count_named(packages, name, packages.len() as int))
}

fn target_of(packages: &Vec<LockedPackage>, name: &str, version: &str) -> (r: String)
    ensures
        r@ == package_target(packages.deep_view(), name@, version@),
{
    let ghost list = packages.deep_view();
    let mut count: usize = 0;
    let mut i: usize = 0;
    while i < packages.len()
        invariant
            i <= packages.len(),
            count <= i,
            list == packages.deep_view(),
            count == count_named(list, name@, i as int),
        decreases packages.len() - i,
    {
        assert(list[i as int] == packages@[i as int].deep_view());
        if same(packages[i].name.as_str(), name) {
            count = count + 1;
        }
        i = i + 1;
    }
    cargo_target_name(name, version, count)
}

/// The name and the version of a dependency, as a lock file writes it.
pub open spec fn lock_dependency(dependency: Seq<char>) -> (Seq<char>, Option<Seq<char>>) {
    let parts = words(dependency);
    (
        if parts.len() > 0 {
            parts[0]
        } else {
            dependency
        },
        if parts.len() > 1 {
            Some(parts[1])
        } else {
            None
        },
    )
}

pub fn parse_lock_dependency(dependency: &str) -> (r: (String, Option<String>))
    ensures
        r.deep_view() == lock_dependency(dependency@),
{
    let parts = split_whitespace(dependency);
    let name = if parts.len() > 0 {
        parts[0].clone()
    } else {
        dependency.to_owned()
    };
    let version = if parts.len() > 1 {
        Some(parts[1].clone())
    } else {
        None
    };
    (name, version)
}

/// The first of the packages `packages[i..]` that has the given name and, if one
/// is given, the given version.
pub open spec fn first_match(packages: Seq<Locked>, name: Seq<char>, version: Option<Seq<char>>, i: int) -> Option<Locked>
    decreases packages.len() - i,
{
    if i >= packages.len() {
        None
    } else if packages[i].name == name && (version is None || version == Some(packages[i].version)) {
        Some(packages[i])
    } else {
        first_match(packages, name, version, i + 1)
    }
}

/// The target that a dependency of a lock file is.
pub open spec fn dependency_target(packages: Seq<Locked>, dependency: Seq<char>) -> Option<Seq<char>> {
    let (name, version) = lock_dependency(dependency);
    match first_match(packages, name, version, 0) {
        Some(package) => Some(package_target(packages, package.name, package.version)),
        None => None,
    }
}

fn target_of_dependency(packages: &Vec<LockedPackage>, name: &str, version: &Option<String>) -> (r: Option<String>)
    ensures
        r.deep_view() == (match first_match(packages.deep_view(), name@, version.deep_view(), 0) {
            Some(package) => Some(package_target(packages.deep_view(), package.name, package.version)),
            None => None,
        }),
{
    let ghost list = packages.deep_view();
    let mut i: usize = 0;
    while i < packages.len()
        invariant
            i <= packages.len(),
            list == packages.deep_view(),
            first_match(list, name@, version.deep_view(), 0) == first_match(list, name@, version.deep_view(), i as int),
        decreases packages.len() - i,
    {
        assert(list[i as int] == packages@[i as int].deep_view());
        let matches_version = match version {
            None => true,
            Some(version) => same(version.as_str(), packages[i].version.as_str()),
        };
        if same(packages[i].name.as_str(), name) && matches_version {
            return Some(target_of(packages, packages[i].name.as_str(), packages[i].version.as_str()));
        }
        i = i + 1;
    }
    None
}

/// The versions of the first `n` packages, each under its target and under its
/// target with the version.
pub open spec fn lock_entries(packages: Seq<Locked>, n: int) -> Seq<(Seq<char>, Seq<char>)>
    decreases n,
{
    if n <= 0 {
        Seq::empty()
    } else {
        let p = packages[n - 1];
        with_row(
            with_row(lock_entries(packages, n - 1), package_target(packages, p.name, p.version), p.version),
            versioned_name(p.name, p.version),
            p.version,
        )
    }
}

pub fn entries_of(packages: &Vec<LockedPackage>) -> (r: Table<String>)
    ensures
        r.deep_view() == lock_entries(packages.deep_view(), packages.deep_view().len() as int),
{
    let ghost list = packages.deep_view();
    let mut out: Table<String> = Table::new();
    let mut i: usize = 0;
    while i < packages.len()
        invariant
            i <= packages.len(),
            list == packages.deep_view(),
            out.deep_view() == lock_entries(list, i as int),
        decreases packages.len() - i,
    {
        assert(list[i as int] == packages@[i as int].deep_view());
        let package = &packages[i];
        let target = target_of(packages, package.name.as_str(), package.version.as_str());
        out.insert(target, package.version.clone());
        out.insert(versioned_target(package.name.as_str(), package.version.as_str()), package.version.clone());
        i = i + 1;
    }
    out
}

/// The targets of the first `n` dependencies, each under the package's name;
/// one that is no package of the lock file is left out.
pub open spec fn dependency_rows(packages: Seq<Locked>, dependencies: Seq<Seq<char>>, n: int) -> Seq<(Seq<char>, Seq<char>)>
    decreases n,
{
    if n <= 0 {
        Seq::empty()
    } else {
        let before = dependency_rows(packages, dependencies, n - 1);
        match dependency_target(packages, dependencies[n - 1]) {
            Some(target) => with_row(before, lock_dependency(dependencies[n - 1]).0, target),
            None => before,
        }
    }
}

fn dependencies_of(packages: &Vec<LockedPackage>, dependencies: &Vec<String>) -> (r: Table<String>)
    ensures
        r.deep_view() == dependency_rows(
            packages.deep_view(),
            dependencies.deep_view(),
            dependencies.deep_view().len() as int,
        ),
{
    let ghost list = packages.deep_view();
    let mut out: Table<String> = Table::new();
    let mut i: usize = 0;
    while i < dependencies.len()
        invariant
            i <= dependencies.len(),
            list == packages.deep_view(),
            out.deep_view() == dependency_rows(list, dependencies.deep_view(), i as int),
        decreases dependencies.len() - i,
    {
        assert(dependencies.deep_view()[i as int] == dependencies@[i as int]@);
        let (name, version) = parse_lock_dependency(dependencies[i].as_str());
        if let Some(target) = target_of_dependency(packages, name.as_str(), &version) {
            out.insert(name, target);
        }
        i = i + 1;
    }
    out
}

/// The dependencies of the first `n` packages, each under its target and under
/// its target with the version.
pub open spec fn locked_edges(packages: Seq<Locked>, n: int) -> Seq<(Seq<char>, Seq<(Seq<char>, Seq<char>)>)>
    decreases n,
{
    if n <= 0 {
        Seq::empty()
    } else {
        let p = packages[n - 1];
        let rows = dependency_rows(packages, p.dependencies, p.dependencies.len() as int);
        with_row(
            with_row(locked_edges(packages, n - 1), package_target(packages, p.name, p.version), rows),
            versioned_name(p.name, p.version),
            rows,
        )
    }
}

pub fn edges_of(packages: &Vec<LockedPackage>) -> (r: Table<Table<String>>)
    ensures
        r.deep_view() == locked_edges(packages.deep_view(), packages.deep_view().len() as int),
{
    let ghost list = packages.deep_view();
    let mut out: Table<Table<String>> = Table::new();
    let mut i: usize = 0;
    while i < packages.len()
        invariant
            i <= packages.len(),
            list == packages.deep_view(),
            out.deep_view() == locked_edges(list, i as int),
        decreases packages.len() - i,
    {
        assert(list[i as int] == packages@[i as int].deep_view());
        let package = &packages[i];
        let deps = dependencies_of(packages, &package.dependencies);
        let target = target_of(packages, package.name.as_str(), package.version.as_str());
        out.insert(target, deps.duplicate());
        out.insert(versioned_target(package.name.as_str(), package.version.as_str()), deps);
        i = i + 1;
    }
    out
}

/// A locked version with the features that it is built with.
pub open spec fn lock_string(version: Seq<char>, features: Seq<Seq<char>>) -> Seq<char> {
    if features.len() == 0 {
        version
    } else {
        version + ","@ + joined(features, ","@)
    }
}

pub fn lockstring(version: &str, features: &Vec<String>) -> (r: String)
    ensures
        r@ == lock_string(version@, features.deep_view()),
{
    if features.len() == 0 {
        return version.to_owned();
    }
    crate::text::cat3(version, ",", crate::text::join(features, ",").as_str())
}

/// The version and the features in a lock string.
pub open spec fn lock_parts(s: Seq<char>) -> (Seq<char>, Seq<Seq<char>>) {
    (pieces(s, ',')[0], pieces(s, ',').skip(1))
}

pub proof fn lemma_pieces_some(s: Seq<char>, c: char)
    ensures
        pieces(s, c).len() > 0,
{
    crate::text::lemma_position_from(s, c, 0);
}

pub fn parse_lockstring(s: &str) -> (r: (String, Vec<String>))
    ensures
        r.deep_view() == lock_parts(s@),
{
    let mut parts = split(s, ',');
    proof {
        lemma_pieces_some(s@, ',');
    }
    let ghost all = parts.deep_view();
    let version = parts.remove(0);
    assert(parts.deep_view() =~= all.skip(1));
    (version, parts)
}

/// A lock string is read as the version and the features that it was written
/// for.
pub proof fn law_lock_string(version: Seq<char>, features: Seq<Seq<char>>)
    requires
        !has_char(version, ','),
        forall|i: int| 0 <= i < features.len() ==> !has_char(#[trigger] features[i], ','),
    ensures
        lock_parts(lock_string(version, features)) == (version, features),
{
    reveal_strlit(",");
    let parts = seq![version] + features;
    assert(","@ =~= seq![',']);
    if features.len() == 0 {
        assert(parts =~= seq![version]);
    } else {
        lemma_joined_front(version, features, ","@);
    }
    lemma_pieces_joined(parts, ',');
    assert(lock_string(version, features) =~= joined(parts, seq![',']));
    assert(parts.skip(1) =~= features);
}

/// The package and the version that a target names.
pub open spec fn target_parts(target: Seq<char>) -> Result<(Seq<char>, Option<Seq<char>>), Fault> {
    match after_prefix(target, "cargo://"@) {
        None => Err(fault(ErrorKind::Other, "invalid target name"@)),
        Some(rest) => match cut(rest, '@') {
            Some((name, version)) => Ok((name, Some(version))),
            None => Ok((rest, None)),
        },
    }
}

pub fn parse_cargo_target(target: &str) -> (r: Result<(String, Option<String>), Error>)
    ensures
        outcome(r) == target_parts(target@),
{
    match strip_prefix(target, "cargo://") {
        None => Err(crate::error::error(ErrorKind::Other, "invalid target name".to_owned())),
        Some(rest) => match split_once(rest.as_str(), '@') {
            Some((name, version)) => Ok((name, Some(version))),
            None => Ok((rest, None)),
        },
    }
}

} // verus!
