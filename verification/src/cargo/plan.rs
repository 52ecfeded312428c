//! Plans: the versions that Cargo chooses for a set of required packages.

use vstd::prelude::*;

use crate::build_config_key;
use crate::cargo::cfg::Facts;
use crate::cargo::lock::{
    cargo_target_name, lock_string, lockstring, target_name, versioned_name, versioned_target,
};
use crate::cargo::manifest::{manifest_of_text, parse_cargo_toml};
use crate::cargo::recipes::{build_recipe, known_recipe};
use crate::digest::{append_text, append_u64, bytes_of_u64, hex, hex_of, short_digest, short_digest_of, utf8};
use crate::documents::{json_document, json_outcome, read_json_bytes};
use crate::error::{error, fault, invalid_data, outcome, Error, ErrorKind, Fault};
use crate::model::{requirement_target, DependencyPlan, ExternalRequirement, Plan, PluginContext, Requirement};
use crate::table::{
    ascending, found, found_number, in_order, law_ordered, law_with_row, law_with_row_names, lemma_ascending_unique,
    lemma_placed, lemma_rows_unique, names, ordered, with_row, Table,
};
use crate::text::{
    cat2, cat3, cat4, cat5, join, joined, keep, keep_all, replace, replace_char, replaced, same, swapped, Duplicate,
};
use crate::value::{array_at, items_in, member, text_at, text_in, texts, texts_in, ConfigValue, Node};

verus! {

/// `value` as it stands between quotation marks in a TOML document.
pub open spec fn escaped(value: Seq<char>) -> Seq<char> {
    replaced(replaced(value, '\\', "\\\\"@), '"', "\\\""@)
}

fn toml_escape(value: &str) -> (r: String)
    ensures
        r@ == escaped(value@),
{
    replace(replace(value, '\\', "\\\\").as_str(), '"', "\\\"")
}

/// What the roots of a plan require of one package.
pub struct RootRequirement {
    pub version: String,
    pub features: Vec<String>,
    pub default_features: bool,
}

/// What a `RootRequirement` says.
#[verifier::ext_equal]
pub struct Root {
    pub version: Seq<char>,
    pub features: Seq<Seq<char>>,
    pub default_features: bool,
}

impl DeepView for RootRequirement {
    type V = Root;

    open spec fn deep_view(&self) -> Root {
        Root {
            version: self.version@,
            features: self.features.deep_view(),
            default_features: self.default_features,
        }
    }
}

pub type Roots = Seq<(Seq<char>, Root)>;

/// `roots` with one more requirement.
pub open spec fn with_requirement(roots: Roots, r: Requirement) -> Result<Roots, Fault> {
    let before = match found(roots, r.package) {
        Some(root) => root,
        None => Root { version: r.version, features: Seq::empty(), default_features: r.default_features },
    };
    if r.ecosystem != "cargo"@ {
        Err(
            fault(
                ErrorKind::InvalidInput,
                "cargo dependency planner cannot resolve "@ + r.ecosystem + " requirement "@ + r.package,
            ),
        )
    } else if before.version != r.version {
        Err(
            fault(
                ErrorKind::InvalidInput,
                "conflicting cargo requirements for "@ + r.package + ": "@ + before.version + " and "@ + r.version,
            ),
        )
    } else {
        Ok(
            with_row(
                roots,
                r.package,
                Root {
                    version: r.version,
                    features: ordered(before.features + r.features),
                    default_features: before.default_features || r.default_features,
                },
            ),
        )
    }
}

/// `roots` with the requirements `requirements[i..]`.
pub open spec fn with_requirements(roots: Roots, requirements: Seq<Requirement>, i: int) -> Result<Roots, Fault>
    decreases requirements.len() - i,
{
    if i >= requirements.len() {
        Ok(roots)
    } else {
        match with_requirement(roots, requirements[i]) {
            Err(e) => Err(e),
            Ok(next) => with_requirements(next, requirements, i + 1),
        }
    }
}

fn add_requirement(roots: &mut Table<RootRequirement>, req: &ExternalRequirement) -> (r: Result<bool, Error>)
    ensures
        match r {
            Ok(_) => with_requirement(old(roots).deep_view(), req.deep_view()) == Ok::<Roots, Fault>(
                final(roots).deep_view(),
            ),
            Err(e) => with_requirement(old(roots).deep_view(), req.deep_view()) == Err::<Roots, Fault>(e.deep_view()),
        },
{
    if !same(req.ecosystem.as_str(), "cargo") {
        return Err(
            error(
                ErrorKind::InvalidInput,
                cat4(
                    "cargo dependency planner cannot resolve ",
                    req.ecosystem.as_str(),
                    " requirement ",
                    req.package.as_str(),
                ),
            ),
        );
    }
    let (version, mut features, default_features) = match roots.get(req.package.as_str()) {
        Some(root) => (root.version.clone(), root.features.duplicate(), root.default_features),
        None => (req.version.clone(), Vec::new(), req.default_features),
    };
    let ghost before = features.deep_view();
    assert(found(roots.deep_view(), req.package@) is None ==> before =~= Seq::empty());
    if !same(version.as_str(), req.version.as_str()) {
        let mut message = cat4(
            "conflicting cargo requirements for ",
            req.package.as_str(),
            ": ",
            version.as_str(),
        );
        message.append(" and ");
        message.append(req.version.as_str());
        return Err(error(ErrorKind::InvalidInput, message));
    }
    keep_all(&mut features, &req.features);
    let root = RootRequirement {
        version: req.version.clone(),
        features: in_order(&features),
        default_features: default_features || req.default_features,
    };
    roots.insert(req.package.clone(), root);
    Ok(true)
}

/// The features of a root, each in quotation marks.
pub open spec fn quoted_features(features: Seq<Seq<char>>) -> Seq<Seq<char>> {
    features.map_values(|f: Seq<char>| "\""@ + escaped(f) + "\""@)
}

pub open spec fn truth(value: bool) -> Seq<char> {
    if value {
        "true"@
    } else {
        "false"@
    }
}

/// The line that a root has in the manifest of a plan.
pub open spec fn root_line(package: Seq<char>, root: Root) -> Seq<char> {
    "\""@ + escaped(package) + "\" = { package = \""@ + escaped(package) + "\", version = \""@ + escaped(root.version)
        + "\", default-features = "@ + truth(root.default_features) + ", features = ["@ + joined(
        quoted_features(root.features),
        ", "@,
    ) + "] }\n"@
}

/// The lines of the first `n` roots.
pub open spec fn root_lines(roots: Roots, n: int) -> Seq<char>
    decreases n,
{
    if n <= 0 {
        Seq::empty()
    } else {
        root_lines(roots, n - 1) + root_line(roots[n - 1].0, roots[n - 1].1)
    }
}

/// The start of the manifest of a plan.
pub open spec fn manifest_head() -> Seq<char> {
    "[package]\nname = \"cbs-cargo-plan\"\nversion = \"0.0.0\"\nedition = \"2021\"\npublish = false\n\n[dependencies]\n"@
}

fn quote_features(features: &Vec<String>) -> (r: Vec<String>)
    ensures
        r.deep_view() == quoted_features(features.deep_view()),
{
    let ghost all = quoted_features(features.deep_view());
    let mut out: Vec<String> = Vec::new();
    let mut i: usize = 0;
    while i < features.len()
        invariant
            i <= features.len(),
            all == quoted_features(features.deep_view()),
            out.deep_view() == all.take(i as int),
        decreases features.len() - i,
    {
        keep(&mut out, cat3("\"", toml_escape(features[i].as_str()).as_str(), "\""));
        i = i + 1;
        assert(all.take(i as int) == all.take(i - 1).push(all[i - 1]));
    }
    assert(all.take(i as int) == all);
    out
}

fn line_of(package: &str, root: &RootRequirement) -> (r: String)
    ensures
        r@ == root_line(package@, root.deep_view()),
{
    let name = toml_escape(package);
    let mut line = cat4("\"", name.as_str(), "\" = { package = \"", name.as_str());
    line.append("\", version = \"");
    line.append(toml_escape(root.version.as_str()).as_str());
    line.append("\", default-features = ");
    line.append(if root.default_features { "true" } else { "false" });
    line.append(", features = [");
    line.append(join(&quote_features(&root.features), ", ").as_str());
    line.append("] }\n");
    line
}

/// The manifest of a package that depends on everything that is required.
pub open spec fn plan_manifest(requirements: Seq<Requirement>) -> Result<Seq<char>, Fault> {
    match with_requirements(Seq::empty(), requirements, 0) {
        Err(e) => Err(e),
        Ok(roots) => Ok(manifest_head() + root_lines(roots, roots.len() as int)),
    }
}

pub fn synthetic_manifest(requirements: &Vec<ExternalRequirement>) -> (r: Result<String, Error>)
    ensures
        outcome(r) == plan_manifest(requirements.deep_view()),
{
    let ghost list = requirements.deep_view();
    let mut roots: Table<RootRequirement> = Table::new();
    let mut i: usize = 0;
    while i < requirements.len()
        invariant
            i <= requirements.len(),
            list == requirements.deep_view(),
            with_requirements(Seq::empty(), list, 0) == with_requirements(roots.deep_view(), list, i as int),
        decreases requirements.len() - i,
    {
        assert(list[i as int] == requirements@[i as int].deep_view());
        let added = add_requirement(&mut roots, &requirements[i]);
        if let Err(e) = added {
            return Err(e);
        }
        i = i + 1;
    }
    let ghost rows = roots.deep_view();
    let mut manifest = "[package]\nname = \"cbs-cargo-plan\"\nversion = \"0.0.0\"\nedition = \"2021\"\npublish = false\n\n[dependencies]\n".to_owned();
    let mut j: usize = 0;
    assert(manifest@ =~= manifest_head() + root_lines(rows, 0));
    while j < roots.rows.len()
        invariant
            j <= roots.rows.len(),
            rows == roots.deep_view(),
            manifest@ == manifest_head() + root_lines(rows, j as int),
        decreases roots.rows.len() - j,
    {
        assert(rows[j as int] == (roots.rows@[j as int].0@, roots.rows@[j as int].1.deep_view()));
        manifest.append(line_of(roots.rows[j].0.as_str(), &roots.rows[j].1).as_str());
        j = j + 1;
        assert(manifest@ =~= manifest_head() + root_lines(rows, j as int));
    }
    Ok(manifest)
}

/// Whether the first `n` requirements can be planned: all are on packages of
/// Cargo's, and no two ask for different versions of one package.
pub open spec fn plannable(requirements: Seq<Requirement>, n: int) -> bool {
    &&& forall|j: int| 0 <= j < n ==> (#[trigger] requirements[j]).ecosystem == "cargo"@
    &&& forall|j: int, k: int|
        0 <= j < n && 0 <= k < n && (#[trigger] requirements[j]).package == (#[trigger] requirements[k]).package
            ==> requirements[j].version == requirements[k].version
}

/// Whether one of the first `n` requirements on `package` asks for `feature`.
pub open spec fn asked_feature(requirements: Seq<Requirement>, n: int, package: Seq<char>, feature: Seq<char>) -> bool {
    exists|j: int|
        0 <= j < n && (#[trigger] requirements[j]).package == package && requirements[j].features.contains(feature)
}

/// Whether one of the first `n` requirements on `package` asks for the default
/// features.
pub open spec fn asked_defaults(requirements: Seq<Requirement>, n: int, package: Seq<char>) -> bool {
    exists|j: int| 0 <= j < n && (#[trigger] requirements[j]).package == package && requirements[j].default_features
}

/// Whether `root` is what the first `n` requirements ask of `package` together:
/// their version, their features in order and each once, and the default
/// features where one of them asks for them.
pub open spec fn sums_up(root: Root, requirements: Seq<Requirement>, n: int, package: Seq<char>) -> bool {
    &&& exists|j: int| 0 <= j < n && (#[trigger] requirements[j]).package == package
    &&& forall|j: int|
        0 <= j < n && (#[trigger] requirements[j]).package == package ==> requirements[j].version == root.version
    &&& ascending(root.features)
    &&& forall|feature: Seq<char>| #[trigger]
        root.features.contains(feature) <==> asked_feature(requirements, n, package, feature)
    &&& root.default_features <==> asked_defaults(requirements, n, package)
}

/// Whether `roots` are what the first `n` requirements ask for: one root for each
/// package, in the order of their names.
pub open spec fn sum_up(roots: Roots, requirements: Seq<Requirement>, n: int) -> bool {
    &&& ascending(names(roots))
    &&& forall|package: Seq<char>|
        match #[trigger] found(roots, package) {
            None => forall|j: int| 0 <= j < n ==> (#[trigger] requirements[j]).package != package,
            Some(root) => sums_up(root, requirements, n, package),
        }
}

/// One more requirement is summed up, unless it cannot be planned with the others.
proof fn lemma_requirement(roots: Roots, requirements: Seq<Requirement>, n: int)
    requires
        0 <= n < requirements.len(),
        sum_up(roots, requirements, n),
        plannable(requirements, n),
    ensures
        match with_requirement(roots, requirements[n]) {
            Ok(next) => plannable(requirements, n + 1) && sum_up(next, requirements, n + 1),
            Err(e) => !plannable(requirements, n + 1) && e.kind == ErrorKind::InvalidInput,
        },
{
    let r = requirements[n];
    let known = found(roots, r.package);
    if let Some(root) = known {
        assert(sums_up(root, requirements, n, r.package));
        let j = choose|j: int| 0 <= j < n && (#[trigger] requirements[j]).package == r.package;
        assert(requirements[j].version == root.version);
    }
    if let Ok(next) = with_requirement(roots, r) {
        let before = match known {
            Some(root) => root,
            None => Root { version: r.version, features: Seq::empty(), default_features: r.default_features },
        };
        let now = Root {
            version: r.version,
            features: ordered(before.features + r.features),
            default_features: before.default_features || r.default_features,
        };
        assert(next == with_row(roots, r.package, now));
        assert forall|j: int, k: int|
            0 <= j < n + 1 && 0 <= k < n + 1 && (#[trigger] requirements[j]).package == (
            #[trigger] requirements[k]).package implies requirements[j].version == requirements[k].version by {
            if known is Some {
                assert(j < n && requirements[j].package == r.package ==> requirements[j].version == r.version);
                assert(k < n && requirements[k].package == r.package ==> requirements[k].version == r.version);
            }
        }
        law_with_row_names(roots, r.package, now);
        lemma_placed(names(roots), r.package);
        law_ordered(before.features + r.features);
        lemma_sums_up(known, before, requirements, n);
        assert forall|package: Seq<char>|
            match #[trigger] found(next, package) {
                None => forall|j: int| 0 <= j < n + 1 ==> (#[trigger] requirements[j]).package != package,
                Some(root) => sums_up(root, requirements, n + 1, package),
            } by {
            law_with_row(roots, r.package, now, package);
            if package != r.package {
                if let Some(root) = found(roots, package) {
                    assert(sums_up(root, requirements, n, package));
                    lemma_others(root, requirements, n, package);
                } else {
                    assert(found(roots, package) is None);
                }
            }
        }
    }
}

/// What a package is asked for stays where the next requirement is on another.
proof fn lemma_others(root: Root, requirements: Seq<Requirement>, n: int, package: Seq<char>)
    requires
        0 <= n < requirements.len(),
        requirements[n].package != package,
        sums_up(root, requirements, n, package),
    ensures
        sums_up(root, requirements, n + 1, package),
{
    let j = choose|j: int| 0 <= j < n && (#[trigger] requirements[j]).package == package;
    assert(requirements[j].package == package);
    assert forall|feature: Seq<char>| #[trigger]
        root.features.contains(feature) <==> asked_feature(requirements, n + 1, package, feature) by {
        if asked_feature(requirements, n, package, feature) {
            let k = choose|k: int|
                0 <= k < n && (#[trigger] requirements[k]).package == package && requirements[k].features.contains(feature);
            assert(requirements[k].package == package);
        }
    }
    if asked_defaults(requirements, n, package) {
        let k = choose|k: int|
            0 <= k < n && (#[trigger] requirements[k]).package == package && requirements[k].default_features;
        assert(requirements[k].package == package);
    }
}

/// What a package is asked for with the next requirement on it.
proof fn lemma_sums_up(known: Option<Root>, before: Root, requirements: Seq<Requirement>, n: int)
    requires
        0 <= n < requirements.len(),
        match known {
            Some(root) => before == root && sums_up(root, requirements, n, requirements[n].package),
            None => before == (Root {
                version: requirements[n].version,
                features: Seq::empty(),
                default_features: requirements[n].default_features,
            }) && forall|j: int| 0 <= j < n ==> (#[trigger] requirements[j]).package != requirements[n].package,
        },
        before.version == requirements[n].version,
    ensures
        sums_up(
            Root {
                version: requirements[n].version,
                features: ordered(before.features + requirements[n].features),
                default_features: before.default_features || requirements[n].default_features,
            },
            requirements,
            n + 1,
            requirements[n].package,
        ),
{
    let r = requirements[n];
    let all = before.features + r.features;
    law_ordered(all);
    assert forall|feature: Seq<char>| #[trigger]
        ordered(all).contains(feature) <==> asked_feature(requirements, n + 1, r.package, feature) by {
        if all.contains(feature) {
            let k = choose|k: int| 0 <= k < all.len() && all[k] == feature;
            if k < before.features.len() {
                assert(before.features[k] == feature);
                assert(before.features.contains(feature));
                assert(asked_feature(requirements, n, r.package, feature));
                let j = choose|j: int|
                    0 <= j < n && (#[trigger] requirements[j]).package == r.package && requirements[j].features.contains(
                        feature,
                    );
                assert(requirements[j].package == r.package);
            } else {
                assert(r.features[k - before.features.len()] == feature);
                assert(requirements[n].features.contains(feature));
            }
        }
        if asked_feature(requirements, n + 1, r.package, feature) {
            let j = choose|j: int|
                0 <= j < n + 1 && (#[trigger] requirements[j]).package == r.package && requirements[j].features.contains(
                    feature,
                );
            if j == n {
                let k = choose|k: int| 0 <= k < r.features.len() && r.features[k] == feature;
                assert(all[before.features.len() + k] == feature);
            } else {
                assert(asked_feature(requirements, n, r.package, feature));
                assert(before.features.contains(feature));
                let k = choose|k: int| 0 <= k < before.features.len() && before.features[k] == feature;
                assert(all[k] == feature);
            }
        }
    }
    assert(requirements[n].package == r.package);
    if before.default_features || r.default_features {
        if known is Some && before.default_features {
            let k = choose|k: int|
                0 <= k < n && (#[trigger] requirements[k]).package == r.package && requirements[k].default_features;
            assert(requirements[k].package == r.package);
        } else {
            assert(requirements[n].default_features);
        }
    }
}

proof fn lemma_requirements(roots: Roots, requirements: Seq<Requirement>, i: int)
    requires
        0 <= i <= requirements.len(),
        sum_up(roots, requirements, i),
        plannable(requirements, i),
    ensures
        match with_requirements(roots, requirements, i) {
            Ok(all) => plannable(requirements, requirements.len() as int) && sum_up(
                all,
                requirements,
                requirements.len() as int,
            ),
            Err(e) => !plannable(requirements, requirements.len() as int) && e.kind == ErrorKind::InvalidInput,
        },
    decreases requirements.len() - i,
{
    if i < requirements.len() {
        lemma_requirement(roots, requirements, i);
        match with_requirement(roots, requirements[i]) {
            Ok(next) => lemma_requirements(next, requirements, i + 1),
            Err(_) => {
                if plannable(requirements, requirements.len() as int) {
                    assert(plannable(requirements, i + 1));
                }
            },
        }
    }
}

/// The manifest of a plan is refused, as invalid input, just where the
/// requirements cannot be planned; else it has one line for each required
/// package, in the order of their names, with what all of the requirements on it
/// ask for together.
pub proof fn law_manifest_sums_up(requirements: Seq<Requirement>)
    ensures
        plan_manifest(requirements) is Ok <==> plannable(requirements, requirements.len() as int),
        plan_manifest(requirements) matches Err(e) ==> e.kind == ErrorKind::InvalidInput,
        plan_manifest(requirements) matches Ok(text) ==> exists|roots: Roots| #[trigger]
            sum_up(roots, requirements, requirements.len() as int) && text == manifest_head() + root_lines(
                roots,
                roots.len() as int,
            ),
{
    let none: Roots = Seq::empty();
    assert(names(none) =~= Seq::empty());
    lemma_requirements(none, requirements, 0);
}

/// What is asked of a package does not depend on the order of the requirements.
proof fn lemma_same_root(x: Root, y: Root, a: Seq<Requirement>, b: Seq<Requirement>, package: Seq<char>)
    requires
        forall|r: Requirement| a.contains(r) <==> b.contains(r),
        sums_up(x, a, a.len() as int, package),
        sums_up(y, b, b.len() as int, package),
    ensures
        x == y,
{
    let j = choose|j: int| 0 <= j < a.len() && (#[trigger] a[j]).package == package;
    assert(a.contains(a[j]));
    let k = choose|k: int| 0 <= k < b.len() && b[k] == a[j];
    assert(b[k].version == y.version);
    lemma_asked(a, b, package);
    lemma_asked(b, a, package);
    assert forall|f: Seq<char>| x.features.contains(f) <==> y.features.contains(f) by {
        assert(x.features.contains(f) <==> asked_feature(a, a.len() as int, package, f));
        assert(y.features.contains(f) <==> asked_feature(b, b.len() as int, package, f));
    }
    lemma_ascending_unique(x.features, y.features);
}

proof fn lemma_asked(a: Seq<Requirement>, b: Seq<Requirement>, package: Seq<char>)
    requires
        forall|r: Requirement| a.contains(r) ==> b.contains(r),
    ensures
        forall|f: Seq<char>|
            asked_feature(a, a.len() as int, package, f) ==> #[trigger] asked_feature(b, b.len() as int, package, f),
        asked_defaults(a, a.len() as int, package) ==> asked_defaults(b, b.len() as int, package),
        (exists|j: int| 0 <= j < a.len() && (#[trigger] a[j]).package == package) ==> exists|j: int|
            0 <= j < b.len() && (#[trigger] b[j]).package == package,
{
    assert forall|j: int| 0 <= j < a.len() implies exists|k: int| 0 <= k < b.len() && b[k] == #[trigger] a[j] by {
        assert(a.contains(a[j]));
    }
    assert forall|f: Seq<char>| asked_feature(a, a.len() as int, package, f) implies #[trigger] asked_feature(
        b,
        b.len() as int,
        package,
        f,
    ) by {
        let j = choose|j: int|
            0 <= j < a.len() && (#[trigger] a[j]).package == package && a[j].features.contains(f);
        let k = choose|k: int| 0 <= k < b.len() && b[k] == a[j];
        assert(b[k].package == package && b[k].features.contains(f));
    }
    if asked_defaults(a, a.len() as int, package) {
        let j = choose|j: int| 0 <= j < a.len() && (#[trigger] a[j]).package == package && a[j].default_features;
        let k = choose|k: int| 0 <= k < b.len() && b[k] == a[j];
        assert(b[k].package == package && b[k].default_features);
    }
    if exists|j: int| 0 <= j < a.len() && (#[trigger] a[j]).package == package {
        let j = choose|j: int| 0 <= j < a.len() && (#[trigger] a[j]).package == package;
        let k = choose|k: int| 0 <= k < b.len() && b[k] == a[j];
        assert(b[k].package == package);
    }
}

proof fn lemma_plannable(a: Seq<Requirement>, b: Seq<Requirement>)
    requires
        forall|r: Requirement| b.contains(r) ==> a.contains(r),
        plannable(a, a.len() as int),
    ensures
        plannable(b, b.len() as int),
{
    assert forall|j: int| 0 <= j < b.len() implies exists|k: int| 0 <= k < a.len() && a[k] == #[trigger] b[j] by {
        assert(b.contains(b[j]));
    }
    assert forall|j: int, k: int|
        0 <= j < b.len() && 0 <= k < b.len() && (#[trigger] b[j]).package == (#[trigger] b[k]).package implies b[j].version
        == b[k].version by {
        let x = choose|x: int| 0 <= x < a.len() && a[x] == b[j];
        let y = choose|y: int| 0 <= y < a.len() && a[y] == b[k];
        assert(a[x].package == a[y].package);
    }
}

/// The manifest of a plan is the same for every order of the requirements, and
/// whether some of them are given more than once makes no difference either.
pub proof fn law_manifest_order(a: Seq<Requirement>, b: Seq<Requirement>)
    requires
        forall|r: Requirement| a.contains(r) <==> b.contains(r),
    ensures
        plan_manifest(a) is Ok <==> plan_manifest(b) is Ok,
        plan_manifest(a) is Ok ==> plan_manifest(a) == plan_manifest(b),
{
    let none: Roots = Seq::empty();
    assert(names(none) =~= Seq::empty());
    lemma_requirements(none, a, 0);
    lemma_requirements(none, b, 0);
    if plannable(a, a.len() as int) {
        lemma_plannable(a, b);
    }
    if plannable(b, b.len() as int) {
        lemma_plannable(b, a);
    }
    if plan_manifest(a) is Ok {
        let x = with_requirements(none, a, 0)->Ok_0;
        let y = with_requirements(none, b, 0)->Ok_0;
        assert forall|package: Seq<char>| #[trigger] found(x, package) == found(y, package) by {
            lemma_asked(a, b, package);
            lemma_asked(b, a, package);
            match (found(x, package), found(y, package)) {
                (Some(p), Some(q)) => {
                    lemma_same_root(p, q, a, b, package);
                },
                _ => {},
            }
        }
        lemma_rows_unique(x, y);
    }
}

/// The bytes that the features of a requirement put into the identity of a plan.
pub open spec fn feature_bytes(features: Seq<Seq<char>>) -> Seq<u8>
    decreases features.len(),
{
    if features.len() == 0 {
        Seq::empty()
    } else {
        feature_bytes(features.drop_last()) + utf8(features.last()) + seq![0u8]
    }
}

/// The bytes that a requirement, but for its features and its target, puts
/// into the identity of a plan.
pub open spec fn requirement_head(r: Requirement) -> Seq<u8> {
    utf8(r.ecosystem) + seq![0u8] + utf8(r.package) + seq![0u8] + utf8(r.version) + seq![0u8] + seq![
        if r.default_features {
            1u8
        } else {
            0u8
        },
    ]
}

/// The bytes that the target of a requirement puts into the identity of a plan.
pub open spec fn target_bytes(target: Option<Seq<char>>) -> Seq<u8> {
    match target {
        Some(target) => utf8(target),
        None => Seq::empty(),
    }
}

/// The bytes that a requirement puts into the identity of a plan.
pub open spec fn requirement_bytes(r: Requirement) -> Seq<u8> {
    requirement_head(r) + feature_bytes(r.features) + target_bytes(r.target) + seq![0xffu8]
}

/// The bytes that the first `n` requirements put into the identity of a plan.
pub open spec fn requirements_bytes(requirements: Seq<Requirement>, n: int) -> Seq<u8>
    decreases n,
{
    if n <= 0 {
        Seq::empty()
    } else {
        requirements_bytes(requirements, n - 1) + requirement_bytes(requirements[n - 1])
    }
}

/// The identity of a plan: what is required, and in which context.
pub open spec fn plan_identity(context_hash: u64, requirements: Seq<Requirement>) -> Seq<char> {
    hex(short_digest(bytes_of_u64(context_hash) + requirements_bytes(requirements, requirements.len() as int)))
}

fn append_requirement_head(bytes: &mut Vec<u8>, req: &ExternalRequirement)
    ensures
        final(bytes)@ == old(bytes)@ + requirement_head(req.deep_view()),
{
    append_text(bytes, req.ecosystem.as_str());
    bytes.push(0);
    append_text(bytes, req.package.as_str());
    bytes.push(0);
    append_text(bytes, req.version.as_str());
    bytes.push(0);
    bytes.push(if req.default_features { 1 } else { 0 });
    assert(bytes@ =~= old(bytes)@ + requirement_head(req.deep_view()));
}

fn append_features(bytes: &mut Vec<u8>, list: &Vec<String>)
    ensures
        final(bytes)@ == old(bytes)@ + feature_bytes(list.deep_view()),
{
    let ghost features = list.deep_view();
    let mut i: usize = 0;
    assert(bytes@ =~= old(bytes)@ + feature_bytes(features.take(0)));
    while i < list.len()
        invariant
            i <= list.len(),
            features == list.deep_view(),
            bytes@ == old(bytes)@ + feature_bytes(features.take(i as int)),
        decreases list.len() - i,
    {
        assert(features.take(i + 1).drop_last() == features.take(i as int));
        append_text(bytes, list[i].as_str());
        bytes.push(0);
        i = i + 1;
        assert(bytes@ =~= old(bytes)@ + feature_bytes(features.take(i as int)));
    }
    assert(features.take(features.len() as int) == features);
}

fn append_requirement(bytes: &mut Vec<u8>, req: &ExternalRequirement)
    ensures
        final(bytes)@ == old(bytes)@ + requirement_bytes(req.deep_view()),
{
    append_requirement_head(bytes, req);
    append_features(bytes, &req.features);
    if let Some(target) = &req.target {
        append_text(bytes, target.as_str());
    }
    bytes.push(0xff);
    assert(bytes@ =~= old(bytes)@ + requirement_bytes(req.deep_view()));
}

pub fn plan_id(context_hash: u64, requirements: &Vec<ExternalRequirement>) -> (r: String)
    ensures
        r@ == plan_identity(context_hash, requirements.deep_view()),
{
    let ghost list = requirements.deep_view();
    let mut bytes: Vec<u8> = Vec::new();
    append_u64(&mut bytes, context_hash);
    let mut i: usize = 0;
    assert(bytes@ =~= bytes_of_u64(context_hash) + requirements_bytes(list, 0));
    while i < requirements.len()
        invariant
            i <= requirements.len(),
            list == requirements.deep_view(),
            bytes@ == bytes_of_u64(context_hash) + requirements_bytes(list, i as int),
        decreases requirements.len() - i,
    {
        assert(list[i as int] == requirements@[i as int].deep_view());
        append_requirement(&mut bytes, &requirements[i]);
        i = i + 1;
        assert(bytes@ =~= bytes_of_u64(context_hash) + requirements_bytes(list, i as int));
    }
    hex_of(short_digest_of(&bytes))
}

/// The platform that Cargo is asked to plan for.
pub open spec fn platform(facts: Facts) -> Option<Seq<char>> {
    match (
        found_number(facts, build_config_key::TARGET_ARCH),
        found_number(facts, build_config_key::TARGET_VENDOR),
        found_number(facts, build_config_key::TARGET_OS),
    ) {
        (Some(arch), Some(vendor), Some(os)) => {
            let env = found_number(facts, build_config_key::TARGET_ENV).unwrap_or(""@);
            let triple = arch + "-"@ + vendor + "-"@ + (if os == "macos"@ {
                "darwin"@
            } else {
                os
            });
            if env.len() == 0 {
                Some(triple)
            } else {
                Some(triple + "-"@ + env)
            }
        },
        _ => None,
    }
}

pub(crate) fn cargo_filter_platform(context: &PluginContext) -> (r: Option<String>)
    ensures
        r.deep_view() == platform(context.target_config.deep_view()),
{
    let arch = match context.get_config(build_config_key::TARGET_ARCH) {
        Some(arch) => arch,
        None => return None,
    };
    let vendor = match context.get_config(build_config_key::TARGET_VENDOR) {
        Some(vendor) => vendor,
        None => return None,
    };
    let os = match context.get_config(build_config_key::TARGET_OS) {
        Some(os) => if same(os.as_str(), "macos") {
            "darwin"
        } else {
            os.as_str()
        },
        None => return None,
    };
    let mut triple = cat5(arch.as_str(), "-", vendor.as_str(), "-", os);
    proof {
        reveal_strlit("");
    }
    if let Some(env) = context.get_config(build_config_key::TARGET_ENV) {
        if !env.as_str().is_empty() {
            triple.append("-");
            triple.append(env.as_str());
        }
    }
    Some(triple)
}

/// A package that `cargo metadata` lists.
pub struct CargoMetadataPackage {
    pub id: String,
    pub name: String,
    pub version: String,
    pub manifest_path: String,
}

/// What a `CargoMetadataPackage` says.
#[verifier::ext_equal]
pub struct Info {
    pub id: Seq<char>,
    pub name: Seq<char>,
    pub version: Seq<char>,
    pub manifest_path: Seq<char>,
}

impl DeepView for CargoMetadataPackage {
    type V = Info;

    open spec fn deep_view(&self) -> Info {
        Info { id: self.id@, name: self.name@, version: self.version@, manifest_path: self.manifest_path@ }
    }
}

impl Duplicate for CargoMetadataPackage {
    fn duplicate(&self) -> (r: Self) {
        CargoMetadataPackage {
            id: self.id.clone(),
            name: self.name.clone(),
            version: self.version.clone(),
            manifest_path: self.manifest_path.clone(),
        }
    }
}

/// The text under `field` of a package, or the error for one that has none.
pub open spec fn package_field(package: Node, field: Seq<char>) -> Result<Seq<char>, Fault> {
    match text_in(member(Some(package), field)) {
        Some(value) => Ok(value),
        None => Err(fault(ErrorKind::InvalidData, "metadata package missing "@ + field)),
    }
}

/// The package that an entry of the metadata is.
pub open spec fn package_info(package: Node) -> Result<Info, Fault> {
    match (
        package_field(package, "id"@),
        package_field(package, "name"@),
        package_field(package, "version"@),
        package_field(package, "manifest_path"@),
    ) {
        (Err(e), _, _, _) => Err(e),
        (_, Err(e), _, _) => Err(e),
        (_, _, Err(e), _) => Err(e),
        (_, _, _, Err(e)) => Err(e),
        (Ok(id), Ok(name), Ok(version), Ok(manifest_path)) => Ok(Info { id, name, version, manifest_path }),
    }
}

/// The text under `key` of a value that is a table.
fn member_text(value: &ConfigValue, key: &str) -> (r: Option<String>)
    ensures
        r.deep_view() == text_in(member(Some(value.deep_view()), key@)),
{
    match value.as_table() {
        Some(t) => text_at(t, key),
        None => None,
    }
}

fn member_array<'a>(value: &'a ConfigValue, key: &str) -> (r: Option<&'a Vec<ConfigValue>>)
    ensures
        r.deep_view() == items_in(member(Some(value.deep_view()), key@)),
{
    match value.as_table() {
        Some(t) => array_at(t, key),
        None => None,
    }
}

fn field_of(package: &ConfigValue, field: &str) -> (r: Result<String, Error>)
    ensures
        outcome(r) == package_field(package.deep_view(), field@),
{
    match member_text(package, field) {
        Some(value) => Ok(value),
        None => Err(error(ErrorKind::InvalidData, cat2("metadata package missing ", field))),
    }
}

fn parse_metadata_package(package: &ConfigValue) -> (r: Result<CargoMetadataPackage, Error>)
    ensures
        outcome(r) == package_info(package.deep_view()),
{
    let id = field_of(package, "id")?;
    let name = field_of(package, "name")?;
    let version = field_of(package, "version")?;
    let manifest_path = field_of(package, "manifest_path")?;
    Ok(CargoMetadataPackage { id, name, version, manifest_path })
}

/// The packages that `done` and the entries `entries[i..]` are.
pub open spec fn package_infos(entries: Seq<Node>, i: int, done: Seq<Info>) -> Result<Seq<Info>, Fault>
    decreases entries.len() - i,
{
    if i >= entries.len() {
        Ok(done)
    } else {
        match package_info(entries[i]) {
            Err(e) => Err(e),
            Ok(info) => package_infos(entries, i + 1, done.push(info)),
        }
    }
}

fn parse_infos(entries: &Vec<ConfigValue>) -> (r: Result<Vec<CargoMetadataPackage>, Error>)
    ensures
        outcome(r) == package_infos(entries.deep_view(), 0, Seq::empty()),
{
    let ghost items = entries.deep_view();
    let mut out: Vec<CargoMetadataPackage> = Vec::new();
    let mut i: usize = 0;
    assert(out.deep_view() =~= Seq::<Info>::empty());
    while i < entries.len()
        invariant
            i <= entries.len(),
            items == entries.deep_view(),
            package_infos(items, 0, Seq::empty()) == package_infos(items, i as int, out.deep_view()),
        decreases entries.len() - i,
    {
        assert(items[i as int] == entries@[i as int].deep_view());
        let info = parse_metadata_package(&entries[i])?;
        keep(&mut out, info);
        i = i + 1;
    }
    Ok(out)
}

/// The first `n` packages by their identities.
pub open spec fn by_id(infos: Seq<Info>, n: int) -> Seq<(Seq<char>, Info)>
    decreases n,
{
    if n <= 0 {
        Seq::empty()
    } else {
        with_row(by_id(infos, n - 1), infos[n - 1].id, infos[n - 1])
    }
}

/// How many of the first `n` packages but the root have the given name.
pub open spec fn count_infos(infos: Seq<Info>, root: Seq<char>, name: Seq<char>, n: int) -> int
    decreases n,
{
    if n <= 0 {
        0
    } else {
        count_infos(infos, root, name, n - 1) + (if infos[n - 1].id != root && infos[n - 1].name == name {
            1int
        } else {
            0
        })
    }
}

/// The target of a package among `infos`.
pub open spec fn info_target(infos: Seq<Info>, root: Seq<char>, info: Info) -> Seq<char> {
    target_name(info.name, info.version, count_infos(infos, root, info.name, infos.len() as int))
}

/// The manifest file of a package: its text, or why it could not be read, and
/// whether `build.rs` exists beside it.
pub struct ManifestFile {
    pub content: Result<String, Error>,
    pub build_script: bool,
}

impl DeepView for ManifestFile {
    type V = (Result<Seq<char>, Fault>, bool);

    open spec fn deep_view(&self) -> (Result<Seq<char>, Fault>, bool) {
        (outcome(self.content), self.build_script)
    }
}

pub type Files = Seq<(Seq<char>, (Result<Seq<char>, Fault>, bool))>;

/// Whether a package can be built: its manifest can be read, and there is a
/// recipe for its build script if it has one.
pub open spec fn package_check(facts: Facts, files: Files, info: Info, features: Seq<Seq<char>>) -> Result<bool, Fault> {
    match found(files, info.manifest_path) {
        None => Err(fault(ErrorKind::NotFound, info.manifest_path + " was not read"@)),
        Some((Err(e), _)) => Err(e),
        Some((Ok(content), script)) => match manifest_of_text(facts, info.manifest_path, content, script, features) {
            Err(e) => Err(e),
            Ok(m) => if m.has_build_script && known_recipe(facts, info.name, info.version) is None {
                Err(
                    fault(
                        ErrorKind::PermissionDenied,
                        info.name + " "@ + info.version
                            + " declares build.rs, but no hermetic Cargo build recipe is available"@,
                    ),
                )
            } else {
                Ok(true)
            },
        },
    }
}

fn validate_metadata_package(
    context: &PluginContext,
    files: &Table<ManifestFile>,
    info: &CargoMetadataPackage,
    features: &Vec<String>,
) -> (r: Result<bool, Error>)
    ensures
        outcome(r) == package_check(
            context.target_config.deep_view(),
            files.deep_view(),
            info.deep_view(),
            features.deep_view(),
        ),
{
    match files.get(info.manifest_path.as_str()) {
        None => Err(error(ErrorKind::NotFound, cat2(info.manifest_path.as_str(), " was not read"))),
        Some(file) => match &file.content {
            Err(e) => Err(e.duplicate()),
            Ok(content) => {
                let manifest = parse_cargo_toml(
                    context,
                    info.manifest_path.as_str(),
                    content.as_str(),
                    file.build_script,
                    features,
                )?;
                if manifest.has_build_script && build_recipe(
                    context,
                    info.name.as_str(),
                    info.version.as_str(),
                ).is_none() {
                    return Err(
                        error(
                            ErrorKind::PermissionDenied,
                            cat4(
                                info.name.as_str(),
                                " ",
                                info.version.as_str(),
                                " declares build.rs, but no hermetic Cargo build recipe is available",
                            ),
                        ),
                    );
                }
                Ok(true)
            },
        },
    }
}

/// The features that a node of the metadata is built with.
pub open spec fn features_of_node(node: Node) -> Result<Seq<Seq<char>>, Fault> {
    match items_in(member(Some(node), "features"@)) {
        None => Err(fault(ErrorKind::InvalidData, "metadata node missing features"@)),
        Some(items) => Ok(ordered(texts_in(items))),
    }
}

fn node_features(node: &ConfigValue) -> (r: Result<Vec<String>, Error>)
    ensures
        outcome(r) == features_of_node(node.deep_view()),
{
    match member_array(node, "features") {
        None => Err(invalid_data("metadata node missing features")),
        Some(items) => Ok(in_order(&texts(items))),
    }
}

/// The packages of the metadata: in their order, by their identities, and the
/// identity of the root among them.
pub struct Packages {
    pub root: String,
    pub infos: Vec<CargoMetadataPackage>,
    pub by_id: Table<CargoMetadataPackage>,
}

impl Packages {
    /// Whether the table by identities is that of the list.
    pub open spec fn well_formed(&self) -> bool {
        self.by_id.deep_view() == by_id(self.infos.deep_view(), self.infos.deep_view().len() as int)
    }

    fn new(root: String, infos: Vec<CargoMetadataPackage>) -> (r: Self)
        ensures
            r.well_formed(),
            r.root@ == root@,
            r.infos.deep_view() == infos.deep_view(),
    {
        let ghost list = infos.deep_view();
        let mut rows: Table<CargoMetadataPackage> = Table::new();
        let mut i: usize = 0;
        while i < infos.len()
            invariant
                i <= infos.len(),
                list == infos.deep_view(),
                rows.deep_view() == by_id(list, i as int),
            decreases infos.len() - i,
        {
            assert(list[i as int] == infos@[i as int].deep_view());
            rows.insert(infos[i].id.clone(), infos[i].duplicate());
            i = i + 1;
        }
        Packages { root, infos, by_id: rows }
    }

    fn target_of(&self, info: &CargoMetadataPackage) -> (r: String)
        ensures
            r@ == info_target(self.infos.deep_view(), self.root@, info.deep_view()),
    {
        let ghost list = self.infos.deep_view();
        let mut count: usize = 0;
        let mut i: usize = 0;
        while i < self.infos.len()
            invariant
                i <= self.infos.len(),
                count <= i,
                list == self.infos.deep_view(),
                count == count_infos(list, self.root@, info.name@, i as int),
            decreases self.infos.len() - i,
        {
            assert(list[i as int] == self.infos@[i as int].deep_view());
            if !same(self.infos[i].id.as_str(), self.root.as_str()) && same(
                self.infos[i].name.as_str(),
                info.name.as_str(),
            ) {
                count = count + 1;
            }
            i = i + 1;
        }
        cargo_target_name(info.name.as_str(), info.version.as_str(), count)
    }
}

/// The target of the package `id`, where there is one that is not the root.
pub open spec fn target_by_id(infos: Seq<Info>, root: Seq<char>, id: Seq<char>) -> Option<Seq<char>> {
    match found(by_id(infos, infos.len() as int), id) {
        Some(info) => if id != root {
            Some(info_target(infos, root, info))
        } else {
            None
        },
        None => None,
    }
}

pub type Names = Seq<(Seq<char>, Seq<char>)>;

/// `lockfile` with `value` under the target of a package and under the target
/// with its version.
pub open spec fn with_locked(lockfile: Names, infos: Seq<Info>, root: Seq<char>, info: Info, value: Seq<char>) -> Names {
    with_row(
        with_row(lockfile, info_target(infos, root, info), value),
        versioned_name(info.name, info.version),
        value,
    )
}

/// The versions of the first `n` packages by identity but the root.
pub open spec fn first_versions(infos: Seq<Info>, root: Seq<char>, rows: Seq<(Seq<char>, Info)>, n: int) -> Names
    decreases n,
{
    if n <= 0 {
        Seq::empty()
    } else {
        let before = first_versions(infos, root, rows, n - 1);
        let info = rows[n - 1].1;
        if info.id == root {
            before
        } else {
            with_locked(before, infos, root, info, info.version)
        }
    }
}

fn initial_lockfile(packages: &Packages) -> (r: Table<String>)
    requires
        packages.well_formed(),
    ensures
        r.deep_view() == first_versions(
            packages.infos.deep_view(),
            packages.root@,
            packages.by_id.deep_view(),
            packages.by_id.deep_view().len() as int,
        ),
{
    let ghost rows = packages.by_id.deep_view();
    let mut out: Table<String> = Table::new();
    let mut i: usize = 0;
    while i < packages.by_id.rows.len()
        invariant
            i <= packages.by_id.rows.len(),
            rows == packages.by_id.deep_view(),
            out.deep_view() == first_versions(packages.infos.deep_view(), packages.root@, rows, i as int),
        decreases packages.by_id.rows.len() - i,
    {
        assert(rows[i as int] == (packages.by_id.rows@[i as int].0@, packages.by_id.rows@[i as int].1.deep_view()));
        let info = &packages.by_id.rows[i].1;
        if !same(info.id.as_str(), packages.root.as_str()) {
            out.insert(packages.target_of(info), info.version.clone());
            out.insert(versioned_target(info.name.as_str(), info.version.as_str()), info.version.clone());
        }
        i = i + 1;
    }
    out
}

/// `rows` with what one dependency of a node adds: its target under the
/// package's name, under the name that the node uses for it, and under that
/// name with `-` for `_`.
pub open spec fn with_node_dependency(infos: Seq<Info>, root: Seq<char>, rows: Names, dep: Node) -> Names {
    match text_in(member(Some(dep), "pkg"@)) {
        None => rows,
        Some(id) => match (target_by_id(infos, root, id), found(by_id(infos, infos.len() as int), id)) {
            (Some(target), Some(info)) => {
                let first = with_row(rows, info.name, target);
                match text_in(member(Some(dep), "name"@)) {
                    None => first,
                    Some(name) => with_row(with_row(first, swapped(name, '_', '-'), target), name, target),
                }
            },
            _ => rows,
        },
    }
}

/// What the first `n` dependencies of a node are locked to.
pub open spec fn node_dependencies(infos: Seq<Info>, root: Seq<char>, deps: Seq<Node>, n: int) -> Names
    decreases n,
{
    if n <= 0 {
        Seq::empty()
    } else {
        with_node_dependency(infos, root, node_dependencies(infos, root, deps, n - 1), deps[n - 1])
    }
}

/// The dependencies of a node.
pub open spec fn deps_of_node(node: Node) -> Seq<Node> {
    items_in(member(Some(node), "deps"@)).unwrap_or(Seq::empty())
}

fn locked_node_dependencies(packages: &Packages, node: &ConfigValue) -> (r: Table<String>)
    requires
        packages.well_formed(),
    ensures
        r.deep_view() == node_dependencies(
            packages.infos.deep_view(),
            packages.root@,
            deps_of_node(node.deep_view()),
            deps_of_node(node.deep_view()).len() as int,
        ),
{
    let ghost infos = packages.infos.deep_view();
    let ghost root = packages.root@;
    let mut out: Table<String> = Table::new();
    let no_deps: Vec<ConfigValue> = Vec::new();
    assert(no_deps.deep_view() =~= Seq::<Node>::empty());
    let deps = match member_array(node, "deps") {
        Some(deps) => deps,
        None => &no_deps,
    };
    let ghost list = deps.deep_view();
    let mut i: usize = 0;
    while i < deps.len()
        invariant
            i <= deps.len(),
            packages.well_formed(),
            infos == packages.infos.deep_view(),
            root == packages.root@,
            list == deps.deep_view(),
            out.deep_view() == node_dependencies(infos, root, list, i as int),
        decreases deps.len() - i,
    {
        assert(list[i as int] == deps@[i as int].deep_view());
        if let Some(id) = member_text(&deps[i], "pkg") {
            if let Some(info) = packages.by_id.get(id.as_str()) {
                if !same(id.as_str(), packages.root.as_str()) {
                    let target = packages.target_of(info);
                    out.insert(info.name.clone(), target.clone());
                    if let Some(name) = member_text(&deps[i], "name") {
                        out.insert(replace_char(name.as_str(), '_', '-'), target.clone());
                        out.insert(name, target);
                    }
                }
            }
        }
        i = i + 1;
    }
    out
}

/// `plan` with what one node of the metadata adds.
pub open spec fn with_node(
    facts: Facts,
    files: Files,
    infos: Seq<Info>,
    root: Seq<char>,
    plan: Plan,
    node: Node,
) -> Result<Plan, Fault> {
    match text_in(member(Some(node), "id"@)) {
        None => Err(fault(ErrorKind::InvalidData, "metadata node missing id"@)),
        Some(id) => match (target_by_id(infos, root, id), found(by_id(infos, infos.len() as int), id)) {
            (Some(target), Some(info)) => match features_of_node(node) {
                Err(e) => Err(e),
                Ok(features) => match package_check(facts, files, info, features) {
                    Err(e) => Err(e),
                    Ok(_) => {
                        let deps = node_dependencies(infos, root, deps_of_node(node), deps_of_node(node).len() as int);
                        Ok(
                            Plan {
                                lockfile: with_locked(
                                    plan.lockfile,
                                    infos,
                                    root,
                                    info,
                                    lock_string(info.version, features),
                                ),
                                locked_dependencies: with_row(
                                    with_row(plan.locked_dependencies, target, deps),
                                    versioned_name(info.name, info.version),
                                    deps,
                                ),
                            },
                        )
                    },
                },
            },
            _ => Ok(plan),
        },
    }
}

/// `plan` with what the nodes `nodes[i..]` add.
pub open spec fn with_nodes(
    facts: Facts,
    files: Files,
    infos: Seq<Info>,
    root: Seq<char>,
    plan: Plan,
    nodes: Seq<Node>,
    i: int,
) -> Result<Plan, Fault>
    decreases nodes.len() - i,
{
    if i >= nodes.len() {
        Ok(plan)
    } else {
        match with_node(facts, files, infos, root, plan, nodes[i]) {
            Err(e) => Err(e),
            Ok(next) => with_nodes(facts, files, infos, root, next, nodes, i + 1),
        }
    }
}

fn add_node(
    context: &PluginContext,
    files: &Table<ManifestFile>,
    packages: &Packages,
    plan: &mut DependencyPlan,
    node: &ConfigValue,
) -> (r: Result<bool, Error>)
    requires
        packages.well_formed(),
    ensures
        node_added(
            with_node(
                context.target_config.deep_view(),
                files.deep_view(),
                packages.infos.deep_view(),
                packages.root@,
                old(plan).deep_view(),
                node.deep_view(),
            ),
            r,
            final(plan).deep_view(),
        ),
{
    let ghost infos = packages.infos.deep_view();
    let id = match member_text(node, "id") {
        Some(id) => id,
        None => return Err(invalid_data("metadata node missing id")),
    };
    if same(id.as_str(), packages.root.as_str()) {
        return Ok(true);
    }
    let info = match packages.by_id.get(id.as_str()) {
        Some(info) => info,
        None => return Ok(true),
    };
    let target = packages.target_of(info);
    let features = node_features(node)?;
    validate_metadata_package(context, files, info, &features)?;
    let locked = lockstring(info.version.as_str(), &features);
    let versioned = versioned_target(info.name.as_str(), info.version.as_str());
    let deps = locked_node_dependencies(packages, node);
    plan.lockfile.insert(target.clone(), locked.clone());
    plan.lockfile.insert(versioned.clone(), locked);
    plan.locked_dependencies.insert(target, deps.duplicate());
    plan.locked_dependencies.insert(versioned, deps);
    Ok(true)
}

/// Whether adding a node gave what it should.
pub open spec fn node_added(expected: Result<Plan, Fault>, r: Result<bool, Error>, plan: Plan) -> bool {
    match r {
        Ok(_) => expected == Ok::<Plan, Fault>(plan),
        Err(e) => expected == Err::<Plan, Fault>(e.deep_view()),
    }
}

/// The first of the packages `rows[i..]` but the root that has the given name.
pub open spec fn first_named(rows: Seq<(Seq<char>, Info)>, root: Seq<char>, name: Seq<char>, i: int) -> Option<Info>
    decreases rows.len() - i,
{
    if i >= rows.len() {
        None
    } else if rows[i].1.id != root && rows[i].1.name == name {
        Some(rows[i].1)
    } else {
        first_named(rows, root, name, i + 1)
    }
}

/// `plan` with the target of a requirement locked as the package that it
/// requires is. Of several versions of the package it is the one with the
/// first identity.
pub open spec fn with_root_target(infos: Seq<Info>, root: Seq<char>, plan: Plan, r: Requirement) -> Plan {
    match first_named(by_id(infos, infos.len() as int), root, r.package, 0) {
        None => plan,
        Some(info) => {
            let resolved = info_target(infos, root, info);
            Plan {
                lockfile: match found(plan.lockfile, resolved) {
                    Some(locked) => with_row(plan.lockfile, requirement_target(r), locked),
                    None => plan.lockfile,
                },
                locked_dependencies: match found(plan.locked_dependencies, resolved) {
                    Some(deps) => with_row(plan.locked_dependencies, requirement_target(r), deps),
                    None => plan.locked_dependencies,
                },
            }
        },
    }
}

/// `plan` with the targets of the first `n` requirements.
pub open spec fn with_root_targets(infos: Seq<Info>, root: Seq<char>, plan: Plan, requirements: Seq<Requirement>, n: int) -> Plan
    decreases n,
{
    if n <= 0 {
        plan
    } else {
        with_root_target(infos, root, with_root_targets(infos, root, plan, requirements, n - 1), requirements[n - 1])
    }
}

fn first_package<'a>(packages: &'a Packages, name: &str) -> (r: Option<&'a CargoMetadataPackage>)
    requires
        packages.well_formed(),
    ensures
        r.deep_view() == first_named(packages.by_id.deep_view(), packages.root@, name@, 0),
{
    let ghost rows = packages.by_id.deep_view();
    let mut i: usize = 0;
    while i < packages.by_id.rows.len()
        invariant
            i <= packages.by_id.rows.len(),
            rows == packages.by_id.deep_view(),
            first_named(rows, packages.root@, name@, 0) == first_named(rows, packages.root@, name@, i as int),
        decreases packages.by_id.rows.len() - i,
    {
        assert(rows[i as int] == (packages.by_id.rows@[i as int].0@, packages.by_id.rows@[i as int].1.deep_view()));
        let info = &packages.by_id.rows[i].1;
        if !same(info.id.as_str(), packages.root.as_str()) && same(info.name.as_str(), name) {
            return Some(info);
        }
        i = i + 1;
    }
    None
}

fn add_root_target(packages: &Packages, plan: &mut DependencyPlan, req: &ExternalRequirement)
    requires
        packages.well_formed(),
    ensures
        final(plan).deep_view() == with_root_target(
            packages.infos.deep_view(),
            packages.root@,
            old(plan).deep_view(),
            req.deep_view(),
        ),
{
    if let Some(info) = first_package(packages, req.package.as_str()) {
        let resolved = packages.target_of(info);
        let locked = match plan.lockfile.get(resolved.as_str()) {
            Some(locked) => Some(locked.clone()),
            None => None,
        };
        if let Some(locked) = locked {
            plan.lockfile.insert(req.target(), locked);
        }
        let deps = match plan.locked_dependencies.get(resolved.as_str()) {
            Some(deps) => Some(deps.duplicate()),
            None => None,
        };
        if let Some(deps) = deps {
            plan.locked_dependencies.insert(req.target(), deps);
        }
    }
}

/// The identity of the root of the metadata.
pub open spec fn root_id(metadata: Node) -> Seq<char> {
    text_in(member(member(Some(metadata), "resolve"@), "root"@)).unwrap_or(""@)
}

/// The plan that the metadata holds.
pub open spec fn metadata_plan(facts: Facts, files: Files, requirements: Seq<Requirement>, metadata: Node) -> Result<
    Plan,
    Fault,
> {
    let root = root_id(metadata);
    match items_in(member(Some(metadata), "packages"@)) {
        None => Err(fault(ErrorKind::InvalidData, "metadata missing packages"@)),
        Some(entries) => match package_infos(entries, 0, Seq::empty()) {
            Err(e) => Err(e),
            Ok(infos) => match items_in(member(member(Some(metadata), "resolve"@), "nodes"@)) {
                None => Err(fault(ErrorKind::InvalidData, "metadata resolve missing nodes"@)),
                Some(nodes) => {
                    let rows = by_id(infos, infos.len() as int);
                    let start = Plan {
                        lockfile: first_versions(infos, root, rows, rows.len() as int),
                        locked_dependencies: Seq::empty(),
                    };
                    match with_nodes(facts, files, infos, root, start, nodes, 0) {
                        Err(e) => Err(e),
                        Ok(plan) => Ok(with_root_targets(infos, root, plan, requirements, requirements.len() as int)),
                    }
                },
            },
        },
    }
}

/// The value under `key` of a value that is a table.
fn member_value<'a>(value: &'a ConfigValue, key: &str) -> (r: Option<&'a ConfigValue>)
    ensures
        r.deep_view() == member(Some(value.deep_view()), key@),
{
    match value.as_table() {
        Some(t) => t.get(key),
        None => None,
    }
}

/// Makes a plan of metadata that was parsed already.
pub fn plan_from_metadata(
    context: &PluginContext,
    files: &Table<ManifestFile>,
    requirements: &Vec<ExternalRequirement>,
    metadata: &ConfigValue,
) -> (r: Result<DependencyPlan, Error>)
    ensures
        outcome(r) == metadata_plan(
            context.target_config.deep_view(),
            files.deep_view(),
            requirements.deep_view(),
            metadata.deep_view(),
        ),
{
    let ghost facts = context.target_config.deep_view();
    let root = match member_value(metadata, "resolve") {
        Some(resolve) => match member_text(resolve, "root") {
            Some(root) => root,
            None => "".to_owned(),
        },
        None => "".to_owned(),
    };
    let entries = match member_array(metadata, "packages") {
        Some(entries) => entries,
        None => return Err(invalid_data("metadata missing packages")),
    };
    let infos = parse_infos(entries)?;
    let packages = Packages::new(root, infos);
    let nodes = match member_value(metadata, "resolve") {
        Some(resolve) => match member_array(resolve, "nodes") {
            Some(nodes) => nodes,
            None => return Err(invalid_data("metadata resolve missing nodes")),
        },
        None => return Err(invalid_data("metadata resolve missing nodes")),
    };
    let mut plan = DependencyPlan { lockfile: initial_lockfile(&packages), locked_dependencies: Table::new() };
    let ghost start = plan.deep_view();
    let ghost list = nodes.deep_view();
    let ghost all = packages.infos.deep_view();
    let ghost expected = metadata_plan(facts, files.deep_view(), requirements.deep_view(), metadata.deep_view());
    let ghost planned = with_nodes(facts, files.deep_view(), all, packages.root@, start, list, 0);
    assert(planned is Err ==> expected == Err::<Plan, Fault>(planned->Err_0));
    let mut i: usize = 0;
    while i < nodes.len()
        invariant
            i <= nodes.len(),
            packages.well_formed(),
            list == nodes.deep_view(),
            all == packages.infos.deep_view(),
            facts == context.target_config.deep_view(),
            expected == metadata_plan(facts, files.deep_view(), requirements.deep_view(), metadata.deep_view()),
            planned is Err ==> expected == Err::<Plan, Fault>(planned->Err_0),
            planned == with_nodes(facts, files.deep_view(), all, packages.root@, plan.deep_view(), list, i as int),
        decreases nodes.len() - i,
    {
        assert(list[i as int] == nodes@[i as int].deep_view());
        let added = add_node(context, files, &packages, &mut plan, &nodes[i]);
        if let Err(e) = added {
            return Err(e);
        }
        i = i + 1;
    }
    let ghost after = plan.deep_view();
    let ghost reqs = requirements.deep_view();
    let mut j: usize = 0;
    while j < requirements.len()
        invariant
            j <= requirements.len(),
            packages.well_formed(),
            reqs == requirements.deep_view(),
            all == packages.infos.deep_view(),
            plan.deep_view() == with_root_targets(all, packages.root@, after, reqs, j as int),
        decreases requirements.len() - j,
    {
        assert(reqs[j as int] == requirements@[j as int].deep_view());
        add_root_target(&packages, &mut plan, &requirements[j]);
        j = j + 1;
    }
    Ok(plan)
}

/// The plan that the output of `cargo metadata` holds.
pub open spec fn plan_of_output(facts: Facts, files: Files, requirements: Seq<Requirement>, output: Seq<u8>) -> Result<
    Plan,
    Fault,
> {
    match json_outcome(json_document(output)) {
        Err(e) => Err(e),
        Ok(metadata) => metadata_plan(facts, files, requirements, metadata),
    }
}

/// Makes a plan of the output of `cargo metadata`; `files` has the manifests of
/// the packages that it lists.
pub fn metadata_to_dependency_plan(
    context: &PluginContext,
    files: &Table<ManifestFile>,
    requirements: &Vec<ExternalRequirement>,
    output: &Vec<u8>,
) -> (r: Result<DependencyPlan, Error>)
    ensures
        outcome(r) == plan_of_output(
            context.target_config.deep_view(),
            files.deep_view(),
            requirements.deep_view(),
            output@,
        ),
{
    let metadata = read_json_bytes(output)?;
    plan_from_metadata(context, files, requirements, &metadata)
}

/// The manifests that the packages in `entries` have, in their order.
pub open spec fn paths_in(entries: Seq<Node>) -> Seq<Seq<char>>
    decreases entries.len(),
{
    if entries.len() == 0 {
        Seq::empty()
    } else {
        match text_in(member(Some(entries.last()), "manifest_path"@)) {
            Some(path) => paths_in(entries.drop_last()).push(path),
            None => paths_in(entries.drop_last()),
        }
    }
}

/// The manifests that a plan made of `metadata` may read.
pub fn manifest_paths(metadata: &ConfigValue) -> (r: Vec<String>)
    ensures
        r.deep_view() == paths_in(items_in(member(Some(metadata.deep_view()), "packages"@)).unwrap_or(Seq::empty())),
{
    let mut out: Vec<String> = Vec::new();
    assert(out.deep_view() =~= Seq::<Seq<char>>::empty());
    if let Some(entries) = member_array(metadata, "packages") {
        let ghost items = entries.deep_view();
        let mut i: usize = 0;
        while i < entries.len()
            invariant
                i <= entries.len(),
                items == entries.deep_view(),
                out.deep_view() == paths_in(items.take(i as int)),
            decreases entries.len() - i,
        {
            assert(items.take(i + 1).drop_last() == items.take(i as int));
            if let Some(path) = member_text(&entries[i], "manifest_path") {
                keep(&mut out, path);
            }
            i = i + 1;
        }
        assert(items.take(i as int) == items);
    }
    out
}

} // verus!
