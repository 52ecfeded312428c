//! Cargo manifests: what a `Cargo.toml` says of a package.

use vstd::prelude::*;

use crate::cargo::cfg::{holds, resolve_cfg_directive, Facts};
use crate::cargo::features::{enabled_features, expand_features, Features};
use crate::documents::{read_toml, toml_document, toml_rows};
use crate::error::{error, fault, invalid_data, outcome, Error, ErrorKind, Fault};
use crate::model::PluginContext;
use crate::path::{join_path, joined_path, parent, parent_of};
use crate::table::{found, Table};
use crate::text::{
    after_prefix, begins, begins_with, cat2, chars_of, contains, cut, ends, ends_with, has_text, holds_text, join,
    joined, keep, pieces, replace_char, same, split, split_once, strip_prefix, swapped, text_of, trim_end_matches,
    without_trailing,
};
use crate::value::{
    bool_at, bool_in, member, rows_in, table_at, text_at, text_in, text_or, texts, texts_at, texts_in, texts_under,
    ConfigTable, ConfigValue, Node,
};

verus! {

/// The rows of a table of configuration values.
pub type Rows = Seq<(Seq<char>, Node)>;

/// A dependency that a manifest declares.
pub struct DependencySpec {
    pub alias: String,
    pub package: String,
    pub optional: bool,
}

/// What a `DependencySpec` says.
#[verifier::ext_equal]
pub struct Declared {
    pub alias: Seq<char>,
    pub package: Seq<char>,
    pub optional: bool,
}

impl DeepView for DependencySpec {
    type V = Declared;

    open spec fn deep_view(&self) -> Declared {
        Declared { alias: self.alias@, package: self.package@, optional: self.optional }
    }
}

/// A dependency that a package has once its features are chosen.
#[derive(Debug, PartialEq, Eq)]
pub struct CargoDependency {
    pub alias: String,
    pub package: String,
}

/// What a `CargoDependency` says.
#[verifier::ext_equal]
pub struct Needed {
    pub alias: Seq<char>,
    pub package: Seq<char>,
}

impl DeepView for CargoDependency {
    type V = Needed;

    open spec fn deep_view(&self) -> Needed {
        Needed { alias: self.alias@, package: self.package@ }
    }
}

/// What the build of a package needs of its manifest.
#[derive(Debug)]
pub struct CargoToml {
    pub dependencies: Vec<CargoDependency>,
    pub crate_name: String,
    pub crate_type: String,
    pub edition: String,
    pub root_source: String,
    pub features: Vec<String>,
    pub has_build_script: bool,
    pub rustc_env: Vec<String>,
}

/// What a `CargoToml` says.
#[verifier::ext_equal]
pub struct Manifest {
    pub dependencies: Seq<Needed>,
    pub crate_name: Seq<char>,
    pub crate_type: Seq<char>,
    pub edition: Seq<char>,
    pub root_source: Seq<char>,
    pub features: Seq<Seq<char>>,
    pub has_build_script: bool,
    pub rustc_env: Seq<Seq<char>>,
}

impl DeepView for CargoToml {
    type V = Manifest;

    open spec fn deep_view(&self) -> Manifest {
        Manifest {
            dependencies: self.dependencies.deep_view(),
            crate_name: self.crate_name@,
            crate_type: self.crate_type@,
            edition: self.edition@,
            root_source: self.root_source@,
            features: self.features.deep_view(),
            has_build_script: self.has_build_script,
            rustc_env: self.rustc_env.deep_view(),
        }
    }
}

/// The dependency that a row of a `dependencies` table declares.
pub open spec fn declared(alias: Seq<char>, value: Node) -> Declared {
    match value {
        Node::Table(rows) => Declared {
            alias,
            package: text_in(found(rows, "package"@)).unwrap_or(alias),
            optional: bool_in(found(rows, "optional"@)).unwrap_or(false),
        },
        _ => Declared { alias, package: alias, optional: false },
    }
}

fn parse_dependency_spec(alias: &str, value: &ConfigValue) -> (r: DependencySpec)
    ensures
        r.deep_view() == declared(alias@, value.deep_view()),
{
    match value.as_table() {
        Some(table) => DependencySpec {
            alias: alias.to_owned(),
            package: text_or(table, "package", alias),
            optional: match bool_at(table, "optional") {
                Some(optional) => optional,
                None => false,
            },
        },
        None => DependencySpec { alias: alias.to_owned(), package: alias.to_owned(), optional: false },
    }
}

/// The dependencies that the rows of a `dependencies` table declare.
pub open spec fn declared_in(rows: Rows) -> Seq<Declared> {
    rows.map_values(|row: (Seq<char>, Node)| declared(row.0, row.1))
}

/// The dependencies under `dependencies` in a value.
pub open spec fn declared_under(value: Option<Node>) -> Seq<Declared> {
    match rows_in(member(value, "dependencies"@)) {
        Some(rows) => declared_in(rows),
        None => Seq::empty(),
    }
}

fn add_declared(out: &mut Vec<DependencySpec>, table: Option<&ConfigTable>)
    ensures
        final(out).deep_view() == old(out).deep_view() + (match table.deep_view() {
            Some(rows) => declared_in(rows),
            None => Seq::empty(),
        }),
{
    if let Some(table) = table {
        let mut i: usize = 0;
        while i < table.rows.len()
            invariant
                i <= table.rows.len(),
                out.deep_view() == old(out).deep_view() + declared_in(table.deep_view()).take(i as int),
            decreases table.rows.len() - i,
        {
            keep(out, parse_dependency_spec(table.rows[i].0.as_str(), &table.rows[i].1));
            i = i + 1;
            assert(declared_in(table.deep_view()).take(i as int) == declared_in(table.deep_view()).take(i - 1).push(
                declared(table.deep_view()[i - 1].0, table.deep_view()[i - 1].1),
            ));
        }
        assert(declared_in(table.deep_view()).take(i as int) == declared_in(table.deep_view()));
    }
    assert(table is None ==> out.deep_view() == old(out).deep_view() + Seq::<Declared>::empty());
}

/// Whether a section of the manifest's `target` table is for a machine with
/// the given facts.
pub open spec fn section_applies(facts: Facts, target: Seq<char>) -> Result<bool, Fault> {
    if begins(target, "cfg("@) && ends(target, ")"@) {
        holds(facts, target.subrange(4, target.len() - 1))
    } else {
        Ok(false)
    }
}

fn applies(context: &PluginContext, target: &str) -> (r: Result<bool, Error>)
    ensures
        outcome(r) == section_applies(context.target_config.deep_view(), target@),
{
    if begins_with(target, "cfg(") && ends_with(target, ")") {
        proof {
            reveal_strlit("cfg(");
            reveal_strlit(")");
            assert(target@.subrange(0, 4)[3] == '(');
            assert(target@.subrange(target@.len() - 1, target@.len() as int)[0] == ')');
        }
        let chars = chars_of(target);
        resolve_cfg_directive(context, text_of(&chars, 4, chars.len() - 1).as_str())
    } else {
        Ok(false)
    }
}

/// The dependencies declared in those of the sections `rows[i..]` that apply.
pub open spec fn declared_in_sections(facts: Facts, rows: Rows, i: int) -> Result<Seq<Declared>, Fault>
    decreases rows.len() - i,
{
    if i >= rows.len() {
        Ok(Seq::empty())
    } else {
        match section_applies(facts, rows[i].0) {
            Err(e) => Err(e),
            Ok(applies) => match declared_in_sections(facts, rows, i + 1) {
                Err(e) => Err(e),
                Ok(rest) => if applies {
                    Ok(declared_under(Some(rows[i].1)) + rest)
                } else {
                    Ok(rest)
                },
            },
        }
    }
}

/// `found` behind `done`.
pub open spec fn after_declared(done: Seq<Declared>, found: Result<Seq<Declared>, Fault>) -> Result<
    Seq<Declared>,
    Fault,
> {
    match found {
        Ok(rest) => Ok(done + rest),
        Err(e) => Err(e),
    }
}

/// All dependencies that a manifest declares for a machine with the given facts.
pub open spec fn all_declared(facts: Facts, rows: Rows) -> Result<Seq<Declared>, Fault> {
    let plain = declared_under(Some(Node::Table(rows)));
    match rows_in(found(rows, "target"@)) {
        None => Ok(plain),
        Some(sections) => after_declared(plain, declared_in_sections(facts, sections, 0)),
    }
}

fn dependency_specs(context: &PluginContext, table: &ConfigTable) -> (r: Result<Vec<DependencySpec>, Error>)
    ensures
        outcome(r) == all_declared(context.target_config.deep_view(), table.deep_view()),
{
    let ghost facts = context.target_config.deep_view();
    let mut out: Vec<DependencySpec> = Vec::new();
    assert(out.deep_view() =~= Seq::<Declared>::empty());
    add_declared(&mut out, table_at(table, "dependencies"));
    let ghost plain = declared_under(Some(Node::Table(table.deep_view())));
    assert(out.deep_view() =~= plain);
    if let Some(sections) = table_at(table, "target") {
        let ghost rows = sections.deep_view();
        let mut i: usize = 0;
        while i < sections.rows.len()
            invariant
                i <= sections.rows.len(),
                rows == sections.deep_view(),
                rows_in(found(table.deep_view(), "target"@)) == Some(rows),
                plain == declared_under(Some(Node::Table(table.deep_view()))),
                facts == context.target_config.deep_view(),
                after_declared(out.deep_view(), declared_in_sections(facts, rows, i as int)) == after_declared(
                    plain,
                    declared_in_sections(facts, rows, 0),
                ),
            decreases sections.rows.len() - i,
        {
            assert(rows[i as int] == (sections.rows@[i as int].0@, sections.rows@[i as int].1.deep_view()));
            let ghost done = out.deep_view();
            let ghost rest = declared_in_sections(facts, rows, i + 1);
            if applies(context, sections.rows[i].0.as_str())? {
                match sections.rows[i].1.as_table() {
                    Some(section) => add_declared(&mut out, table_at(section, "dependencies")),
                    None => {},
                }
                proof {
                    let more = declared_under(Some(rows[i as int].1));
                    assert(out.deep_view() =~= done + more);
                    if rest is Ok {
                        assert(done + (more + rest->Ok_0) =~= out.deep_view() + rest->Ok_0);
                    }
                }
            }
            i = i + 1;
        }
        assert(out.deep_view() + Seq::<Declared>::empty() =~= out.deep_view());
    }
    Ok(out)
}

/// The features that a manifest has, with the members of each.
pub open spec fn feature_rows(rows: Rows) -> Features {
    match rows_in(found(rows, "features"@)) {
        Some(table) => table.map_values(|row: (Seq<char>, Node)| (row.0, members_of(row.1))),
        None => Seq::empty(),
    }
}

/// The members of a feature: the texts of its array.
pub open spec fn members_of(value: Node) -> Seq<Seq<char>> {
    match value {
        Node::Array(items) => texts_in(items),
        _ => Seq::empty(),
    }
}

fn feature_table(table: &ConfigTable) -> (r: Table<Vec<String>>)
    ensures
        r.deep_view() == feature_rows(table.deep_view()),
{
    let mut out: Vec<(String, Vec<String>)> = Vec::new();
    assert(out.deep_view() =~= Seq::<(Seq<char>, Seq<Seq<char>>)>::empty());
    if let Some(features) = table_at(table, "features") {
        let ghost rows = features.deep_view();
        let ghost all = feature_rows(table.deep_view());
        let mut i: usize = 0;
        while i < features.rows.len()
            invariant
                i <= features.rows.len(),
                rows == features.deep_view(),
                all == feature_rows(table.deep_view()),
                rows_in(found(table.deep_view(), "features"@)) == Some(rows),
                out.deep_view() == all.take(i as int),
            decreases features.rows.len() - i,
        {
            let members = match features.rows[i].1.as_array() {
                Some(items) => texts(items),
                None => {
                    let none: Vec<String> = Vec::new();
                    assert(none.deep_view() =~= Seq::<Seq<char>>::empty());
                    none
                },
            };
            assert(rows[i as int] == (features.rows@[i as int].0@, features.rows@[i as int].1.deep_view()));
            keep(&mut out, (features.rows[i].0.clone(), members));
            i = i + 1;
            assert(all.take(i as int) == all.take(i - 1).push(all[i - 1]));
        }
        assert(all.take(i as int) == all);
    }
    Table { rows: out }
}

/// Whether an optional dependency is declared as `alias`.
pub open spec fn optional_alias(specs: Seq<Declared>, alias: Seq<char>) -> bool {
    exists|i: int| 0 <= i < specs.len() && (#[trigger] specs[i]).optional && specs[i].alias == alias
}

fn is_optional_alias(specs: &Vec<DependencySpec>, alias: &str) -> (r: bool)
    ensures
        r == optional_alias(specs.deep_view(), alias@),
{
    let mut i: usize = 0;
    while i < specs.len()
        invariant
            i <= specs.len(),
            forall|j: int| 0 <= j < i && (#[trigger] specs.deep_view()[j]).optional ==> specs.deep_view()[j].alias != alias@,
        decreases specs.len() - i,
    {
        assert(specs.deep_view()[i as int] == specs@[i as int].deep_view());
        if specs[i].optional && same(specs[i].alias.as_str(), alias) {
            return true;
        }
        i = i + 1;
    }
    false
}

/// The optional dependency that a member of an enabled feature asks for.
pub open spec fn asked_by(specs: Seq<Declared>, features: Features, feature_member: Seq<char>) -> Option<Seq<char>> {
    match after_prefix(feature_member, "dep:"@) {
        Some(dep) => Some(dep),
        None => match cut(feature_member, '/') {
            Some((head, _)) => {
                let dep = without_trailing(head, '?');
                if optional_alias(specs, dep) && !has_text(feature_member, "?/"@) {
                    Some(dep)
                } else {
                    None
                }
            },
            None => if found(features, feature_member) is None && optional_alias(specs, feature_member) {
                Some(feature_member)
            } else {
                None
            },
        },
    }
}

fn asked(specs: &Vec<DependencySpec>, features: &Table<Vec<String>>, feature_member: &str) -> (r: Option<String>)
    ensures
        r.deep_view() == asked_by(specs.deep_view(), features.deep_view(), feature_member@),
{
    if let Some(dep) = strip_prefix(feature_member, "dep:") {
        return Some(dep);
    }
    if let Some((head, _)) = split_once(feature_member, '/') {
        let dep = trim_end_matches(head.as_str(), '?');
        if is_optional_alias(specs, dep.as_str()) && !contains(feature_member, "?/") {
            return Some(dep);
        }
        return None;
    }
    if !features.has(feature_member) && is_optional_alias(specs, feature_member) {
        return Some(feature_member.to_owned());
    }
    None
}

/// Whether a member of `feature` asks for the dependency `alias`.
pub open spec fn asks(specs: Seq<Declared>, features: Features, feature: Seq<char>, alias: Seq<char>) -> bool {
    found(features, feature) matches Some(members) && exists|j: int|
        0 <= j < members.len() && asked_by(specs, features, #[trigger] members[j]) == Some(alias)
}

/// Whether the enabled features ask for the optional dependency `alias`.
pub open spec fn wanted(specs: Seq<Declared>, features: Features, enabled: Seq<Seq<char>>, alias: Seq<char>) -> bool {
    ||| enabled.contains(alias) && optional_alias(specs, alias)
    ||| exists|i: int| 0 <= i < enabled.len() && asks(specs, features, #[trigger] enabled[i], alias)
}

fn is_wanted(
    specs: &Vec<DependencySpec>,
    features: &Table<Vec<String>>,
    enabled: &Vec<String>,
    alias: &str,
) -> (r: bool)
    ensures
        r == wanted(specs.deep_view(), features.deep_view(), enabled.deep_view(), alias@),
{
    if holds_text(enabled, alias) && is_optional_alias(specs, alias) {
        return true;
    }
    let mut i: usize = 0;
    while i < enabled.len()
        invariant
            i <= enabled.len(),
            !(enabled.deep_view().contains(alias@) && optional_alias(specs.deep_view(), alias@)),
            forall|k: int|
                0 <= k < i ==> !asks(specs.deep_view(), features.deep_view(), #[trigger] enabled.deep_view()[k], alias@),
        decreases enabled.len() - i,
    {
        assert(enabled.deep_view()[i as int] == enabled@[i as int]@);
        if let Some(members) = features.get(enabled[i].as_str()) {
            let ghost list = members.deep_view();
            let mut j: usize = 0;
            while j < members.len()
                invariant
                    i < enabled.len(),
                    j <= members.len(),
                    list == members.deep_view(),
                    found(features.deep_view(), enabled.deep_view()[i as int]) == Some(list),
                    forall|k: int|
                        0 <= k < j ==> asked_by(specs.deep_view(), features.deep_view(), #[trigger] list[k]) != Some(alias@),
                decreases members.len() - j,
            {
                assert(list[j as int] == members@[j as int]@);
                if let Some(dep) = asked(specs, features, members[j].as_str()) {
                    if same(dep.as_str(), alias) {
                        assert(asks(specs.deep_view(), features.deep_view(), enabled.deep_view()[i as int], alias@));
                        return true;
                    }
                }
                j = j + 1;
            }
        }
        i = i + 1;
    }
    false
}

/// Whether `list` has a dependency under `alias`.
pub open spec fn has_alias(list: Seq<Needed>, alias: Seq<char>) -> bool {
    exists|i: int| 0 <= i < list.len() && (#[trigger] list[i]).alias == alias
}

/// The dependencies of a package with the given enabled features: those of the
/// declared ones that are not optional or asked for, the first under each alias.
pub open spec fn needed(
    specs: Seq<Declared>,
    features: Features,
    enabled: Seq<Seq<char>>,
    n: int,
) -> Seq<Needed>
    decreases n,
{
    if n <= 0 {
        Seq::empty()
    } else {
        let before = needed(specs, features, enabled, n - 1);
        let spec_ = specs[n - 1];
        if spec_.optional && !wanted(specs, features, enabled, spec_.alias) {
            before
        } else if has_alias(before, spec_.alias) {
            before
        } else {
            before.push(Needed { alias: spec_.alias, package: spec_.package })
        }
    }
}

fn needed_dependencies(
    specs: &Vec<DependencySpec>,
    features: &Table<Vec<String>>,
    enabled: &Vec<String>,
) -> (r: Vec<CargoDependency>)
    ensures
        r.deep_view() == needed(
            specs.deep_view(),
            features.deep_view(),
            enabled.deep_view(),
            specs.deep_view().len() as int,
        ),
{
    let mut out: Vec<CargoDependency> = Vec::new();
    let mut i: usize = 0;
    assert(out.deep_view() =~= Seq::<Needed>::empty());
    while i < specs.len()
        invariant
            i <= specs.len(),
            out.deep_view() == needed(specs.deep_view(), features.deep_view(), enabled.deep_view(), i as int),
        decreases specs.len() - i,
    {
        assert(specs.deep_view()[i as int] == specs@[i as int].deep_view());
        if !specs[i].optional || is_wanted(specs, features, enabled, specs[i].alias.as_str()) {
            let mut seen = false;
            let mut j: usize = 0;
            while j < out.len()
                invariant
                    j <= out.len(),
                    i < specs.len(),
                    seen <==> exists|k: int|
                        0 <= k < j && (#[trigger] out.deep_view()[k]).alias == specs@[i as int].alias@,
                decreases out.len() - j,
            {
                assert(out.deep_view()[j as int] == out@[j as int].deep_view());
                if same(out[j].alias.as_str(), specs[i].alias.as_str()) {
                    seen = true;
                }
                j = j + 1;
            }
            if !seen {
                keep(
                    &mut out,
                    CargoDependency { alias: specs[i].alias.clone(), package: specs[i].package.clone() },
                );
            }
        }
        i = i + 1;
    }
    out
}

/// `name=value`.
pub open spec fn setting(name: Seq<char>, value: Seq<char>) -> Seq<char> {
    name + "="@ + value
}

fn set(out: &mut Vec<String>, name: &str, value: &str)
    ensures
        final(out).deep_view() == old(out).deep_view().push(setting(name@, value@)),
{
    keep(out, crate::text::cat3(name, "=", value));
}

/// The text under `key`; empty where there is none.
pub open spec fn package_text(package: Rows, key: Seq<char>) -> Seq<char> {
    text_in(found(package, key)).unwrap_or(""@)
}

fn package_string(package: &ConfigTable, key: &str) -> (r: String)
    ensures
        r@ == package_text(package.deep_view(), key@),
{
    text_or(package, key, "")
}

/// A version's part before its first `-`, and what follows it.
pub open spec fn version_halves(version: Seq<char>) -> (Seq<char>, Seq<char>) {
    match cut(version, '-') {
        Some(halves) => halves,
        None => (version, ""@),
    }
}

/// The `i`th number of a version; `0` where it has none.
pub open spec fn version_part(version: Seq<char>, i: int) -> Seq<char> {
    let parts = pieces(version_halves(version).0, '.');
    if i < parts.len() {
        parts[i]
    } else {
        "0"@
    }
}

fn part_or_zero(parts: &Vec<String>, i: usize) -> (r: String)
    ensures
        r@ == (if i < parts.deep_view().len() { parts.deep_view()[i as int] } else { "0"@ }),
{
    if i < parts.len() {
        parts[i].clone()
    } else {
        "0".to_owned()
    }
}

/// The variables that the compilation of a package sees.
pub open spec fn package_environment(package: Rows, dir: Seq<char>, name: Seq<char>, version: Seq<char>) -> Seq<
    Seq<char>,
> {
    let plain = seq![
        setting("CARGO_MANIFEST_DIR"@, dir),
        setting("CARGO_PKG_NAME"@, name),
        setting("CARGO_CRATE_NAME"@, swapped(name, '-', '_')),
        setting("CARGO_PKG_VERSION"@, version),
        setting("CARGO_PKG_VERSION_MAJOR"@, version_part(version, 0)),
        setting("CARGO_PKG_VERSION_MINOR"@, version_part(version, 1)),
        setting("CARGO_PKG_VERSION_PATCH"@, version_part(version, 2)),
        setting("CARGO_PKG_VERSION_PRE"@, version_halves(version).1),
        setting("CARGO_PKG_AUTHORS"@, joined(texts_under(package, "authors"@), ":"@)),
        setting("CARGO_PKG_DESCRIPTION"@, package_text(package, "description"@)),
        setting("CARGO_PKG_HOMEPAGE"@, package_text(package, "homepage"@)),
        setting("CARGO_PKG_REPOSITORY"@, package_text(package, "repository"@)),
        setting("CARGO_PKG_LICENSE"@, package_text(package, "license"@)),
        setting("CARGO_PKG_LICENSE_FILE"@, package_text(package, "license-file"@)),
        setting("CARGO_PKG_README"@, package_text(package, "readme"@)),
        setting("CARGO_PKG_RUST_VERSION"@, package_text(package, "rust-version"@)),
    ];
    match text_in(found(package, "links"@)) {
        Some(links) => plain.push(setting("CARGO_MANIFEST_LINKS"@, links)),
        None => plain,
    }
}

fn cargo_rustc_env(package: &ConfigTable, dir: &str, name: &str, version: &str) -> (r: Vec<String>)
    ensures
        r.deep_view() == package_environment(package.deep_view(), dir@, name@, version@),
{
    let (version_core, version_pre) = match split_once(version, '-') {
        Some((core_part, pre)) => (core_part, pre),
        None => (version.to_owned(), "".to_owned()),
    };
    let parts = split(version_core.as_str(), '.');
    let mut env: Vec<String> = Vec::new();
    set(&mut env, "CARGO_MANIFEST_DIR", dir);
    set(&mut env, "CARGO_PKG_NAME", name);
    set(&mut env, "CARGO_CRATE_NAME", replace_char(name, '-', '_').as_str());
    set(&mut env, "CARGO_PKG_VERSION", version);
    set(&mut env, "CARGO_PKG_VERSION_MAJOR", part_or_zero(&parts, 0).as_str());
    set(&mut env, "CARGO_PKG_VERSION_MINOR", part_or_zero(&parts, 1).as_str());
    set(&mut env, "CARGO_PKG_VERSION_PATCH", part_or_zero(&parts, 2).as_str());
    set(&mut env, "CARGO_PKG_VERSION_PRE", version_pre.as_str());
    set(&mut env, "CARGO_PKG_AUTHORS", join(&texts_at(package, "authors"), ":").as_str());
    set(&mut env, "CARGO_PKG_DESCRIPTION", package_string(package, "description").as_str());
    set(&mut env, "CARGO_PKG_HOMEPAGE", package_string(package, "homepage").as_str());
    set(&mut env, "CARGO_PKG_REPOSITORY", package_string(package, "repository").as_str());
    set(&mut env, "CARGO_PKG_LICENSE", package_string(package, "license").as_str());
    set(&mut env, "CARGO_PKG_LICENSE_FILE", package_string(package, "license-file").as_str());
    set(&mut env, "CARGO_PKG_README", package_string(package, "readme").as_str());
    set(&mut env, "CARGO_PKG_RUST_VERSION", package_string(package, "rust-version").as_str());
    if let Some(links) = text_at(package, "links") {
        set(&mut env, "CARGO_MANIFEST_LINKS", links.as_str());
    }
    assert(env.deep_view() =~= package_environment(package.deep_view(), dir@, name@, version@));
    env
}

/// Whether a package has a build script: where its manifest does not say,
/// whether `build.rs` exists beside it.
pub open spec fn build_script(package: Rows, script_exists: bool) -> Result<bool, Fault> {
    match found(package, "build"@) {
        None => Ok(script_exists),
        Some(Node::Bool(false)) => Ok(false),
        Some(Node::Text(_)) => Ok(true),
        Some(_) => Err(
            fault(ErrorKind::InvalidData, "Cargo.toml package build key must be a string or false"@),
        ),
    }
}

fn declares_build_script(package: &ConfigTable, script_exists: bool) -> (r: Result<bool, Error>)
    ensures
        outcome(r) == build_script(package.deep_view(), script_exists),
{
    match package.get("build") {
        None => Ok(script_exists),
        Some(ConfigValue::Bool(false)) => Ok(false),
        Some(ConfigValue::String(_)) => Ok(true),
        Some(_) => Err(invalid_data("Cargo.toml package build key must be a string or false")),
    }
}

/// The rows of the manifest's `lib` table; none where it has no such table.
pub open spec fn lib_rows(rows: Rows) -> Rows {
    rows_in(found(rows, "lib"@)).unwrap_or(Seq::empty())
}

/// What the manifest in the rows `rows`, read from the file `filename`, says to
/// a build with the given features on a machine with the given facts.
pub open spec fn manifest(
    facts: Facts,
    filename: Seq<char>,
    rows: Rows,
    script_exists: bool,
    requested: Seq<Seq<char>>,
) -> Result<Manifest, Fault> {
    if parent_of(filename) is None {
        Err(fault(ErrorKind::InvalidInput, "manifest has no parent directory: "@ + filename))
    } else if rows_in(found(rows, "package"@)) is None {
        Err(fault(ErrorKind::InvalidData, "Cargo.toml missing [package]"@))
    } else {
        let dir = parent_of(filename)->0;
        let package = rows_in(found(rows, "package"@))->0;
        if text_in(found(package, "name"@)) is None {
            Err(fault(ErrorKind::InvalidData, "Cargo.toml package missing name"@))
        } else {
            let name = text_in(found(package, "name"@))->0;
            match (build_script(package, script_exists), all_declared(facts, rows)) {
                (Err(e), _) => Err(e),
                (_, Err(e)) => Err(e),
                (Ok(has_build_script), Ok(specs)) => {
                    let lib = lib_rows(rows);
                    let features = feature_rows(rows);
                    let enabled = enabled_features(features, requested);
                    let version = text_in(found(package, "version"@)).unwrap_or("0.0.0"@);
                    Ok(
                        Manifest {
                            dependencies: needed(specs, features, enabled, specs.len() as int),
                            crate_name: swapped(text_in(found(lib, "name"@)).unwrap_or(name), '-', '_'),
                            crate_type: if bool_in(found(lib, "proc-macro"@)) == Some(true) {
                                "proc-macro"@
                            } else {
                                "rlib"@
                            },
                            edition: text_in(found(package, "edition"@)).unwrap_or("2015"@),
                            root_source: joined_path(dir, text_in(found(lib, "path"@)).unwrap_or("src/lib.rs"@)),
                            features: enabled,
                            has_build_script,
                            rustc_env: package_environment(package, dir, name, version),
                        },
                    )
                },
            }
        }
    }
}

/// Reads a manifest that was parsed already.
pub fn manifest_from_table(
    context: &PluginContext,
    filename: &str,
    table: &ConfigTable,
    script_exists: bool,
    requested: &Vec<String>,
) -> (r: Result<CargoToml, Error>)
    ensures
        outcome(r) == manifest(
            context.target_config.deep_view(),
            filename@,
            table.deep_view(),
            script_exists,
            requested.deep_view(),
        ),
{
    let dir = match parent(filename) {
        Some(dir) => dir,
        None => return Err(
            error(ErrorKind::InvalidInput, cat2("manifest has no parent directory: ", filename)),
        ),
    };
    let package = match table_at(table, "package") {
        Some(package) => package,
        None => return Err(invalid_data("Cargo.toml missing [package]")),
    };
    let name = match text_at(package, "name") {
        Some(name) => name,
        None => return Err(invalid_data("Cargo.toml package missing name")),
    };
    let has_build_script = declares_build_script(package, script_exists)?;
    let version = text_or(package, "version", "0.0.0");
    let edition = text_or(package, "edition", "2015");
    let no_lib: ConfigTable = Table::new();
    let lib = match table_at(table, "lib") {
        Some(lib) => lib,
        None => &no_lib,
    };
    let crate_name = replace_char(text_or(lib, "name", name.as_str()).as_str(), '-', '_');
    let crate_type = match bool_at(lib, "proc-macro") {
        Some(true) => "proc-macro".to_owned(),
        _ => "rlib".to_owned(),
    };
    let root_source = join_path(dir.as_str(), text_or(lib, "path", "src/lib.rs").as_str());
    let specs = dependency_specs(context, table)?;
    let features = feature_table(table);
    let enabled = expand_features(&features, requested);
    let dependencies = needed_dependencies(&specs, &features, &enabled);
    let rustc_env = cargo_rustc_env(package, dir.as_str(), name.as_str(), version.as_str());
    Ok(
        CargoToml {
            dependencies,
            crate_name,
            crate_type,
            edition,
            root_source,
            features: enabled,
            has_build_script,
            rustc_env,
        },
    )
}

/// What the manifest with the text `content` says.
pub open spec fn manifest_of_text(
    facts: Facts,
    filename: Seq<char>,
    content: Seq<char>,
    script_exists: bool,
    requested: Seq<Seq<char>>,
) -> Result<Manifest, Fault> {
    match toml_rows(toml_document(content)) {
        Err(e) => Err(e),
        Ok(rows) => manifest(facts, filename, rows, script_exists, requested),
    }
}

/// Reads the manifest `content` of the file `filename`; `script_exists` says
/// whether `build.rs` exists beside that file.
pub fn parse_cargo_toml(
    context: &PluginContext,
    filename: &str,
    content: &str,
    script_exists: bool,
    requested: &Vec<String>,
) -> (r: Result<CargoToml, Error>)
    ensures
        outcome(r) == manifest_of_text(
            context.target_config.deep_view(),
            filename@,
            content@,
            script_exists,
            requested.deep_view(),
        ),
{
    let table = read_toml(content)?;
    manifest_from_table(context, filename, &table, script_exists, requested)
}

} // verus!
