//! Arguments: what the commands that build Rust's targets carry.

use vstd::prelude::*;

use crate::build_output_kind::TRANSITIVE_PRODUCTS;
use crate::config_extra_keys::{
    CRATE_NAME, CRATE_ROOT, CRATE_TYPE, DEPENDENCY_ALIASES, EDITION, FEATURES, NATIVE_STATIC_LIBS, ROOT_SOURCE, RUSTC_CFGS,
    RUSTC_ENV,
};
use crate::model::{requirement_target, ConfigModel, Output};
use crate::path::{joined_path, parent_of};
use crate::rust_plugin::compile::{
    library_compile_args, library_ending, library_file, metadata_in, naming_args, native_products, product_texts,
    rust_steps,
};
use crate::rust_plugin::link::{
    aliases_in, aliases_of, all_handed_on, common_args, condition_args, feature_args, handed_on, libraries_of,
    library_args, linked, macro_args, native_build_args, native_link, native_product_args, products_in, products_of,
    required_targets, runtime_targets, search_args, under_name, variables_in, Deps, Products,
};
use crate::rust_plugin::names::{crate_of, extra_of, extras_of, executable_root, library_root};
use crate::rust_plugin::native::NativeSteps;
use crate::table::{found, found_number, law_ordered, law_with_number, law_with_row};
use crate::text::{after_prefix, cut, cut_last, has_char, lemma_cut, lemma_position_from, position};
use crate::wording::{law_cut, law_cut_last, law_file_in};

verus! {

/// Whether `value` stands behind `flag` among `args`.
pub open spec fn carries(args: Seq<Seq<char>>, flag: Seq<char>, value: Seq<char>) -> bool {
    exists|i: int| 0 <= i < args.len() - 1 && #[trigger] args[i] == flag && args[i + 1] == value
}

proof fn lemma_carries_at(args: Seq<Seq<char>>, i: int)
    requires
        0 <= i < args.len() - 1,
    ensures
        carries(args, args[i], args[i + 1]),
{
    assert(args[i] == args[i]);
}

proof fn lemma_carries_in(before: Seq<Seq<char>>, args: Seq<Seq<char>>, after: Seq<Seq<char>>, flag: Seq<char>, value: Seq<char>)
    requires
        carries(args, flag, value),
    ensures
        carries(before + args + after, flag, value),
{
    let all = before + args + after;
    let i = choose|i: int| 0 <= i < args.len() - 1 && #[trigger] args[i] == flag && args[i + 1] == value;
    assert(all[before.len() + i] == flag && all[before.len() + i + 1] == value);
}

proof fn lemma_contains_in<T>(before: Seq<T>, list: Seq<T>, after: Seq<T>, x: T)
    requires
        list.contains(x),
    ensures
        (before + list + after).contains(x),
{
    let i = choose|i: int| 0 <= i < list.len() && list[i] == x;
    assert((before + list + after)[before.len() + i] == x);
}

/// Each library is named to the compiler, in order, and nothing else is.
pub proof fn law_library_args(libraries: Products, n: int, k: int)
    requires
        0 <= k < n <= libraries.len(),
    ensures
        library_args(libraries, n).len() == 2 * n,
        library_args(libraries, n)[2 * k] == "--extern"@,
        library_args(libraries, n)[2 * k + 1] == libraries[k].0 + "="@ + libraries[k].1,
    decreases n,
{
    let before = library_args(libraries, n - 1);
    let all = library_args(libraries, n);
    if k < n - 1 {
        law_library_args(libraries, n - 1, k);
        assert(all[2 * k] == before[2 * k] && all[2 * k + 1] == before[2 * k + 1]);
    } else if n > 1 {
        law_library_args(libraries, n - 1, 0);
    }
}

/// The directory of each file is named to the compiler, in order, and no other is.
pub proof fn law_search_args(products: Products, n: int, k: int)
    requires
        0 <= k < n <= products.len(),
    ensures
        search_args(products, n).len() == 2 * n,
        search_args(products, n)[2 * k] == "-L"@,
        search_args(products, n)[2 * k + 1] == parent_of(products[k].1)->0,
    decreases n,
{
    let before = search_args(products, n - 1);
    let all = search_args(products, n);
    if k < n - 1 {
        law_search_args(products, n - 1, k);
        assert(all[2 * k] == before[2 * k] && all[2 * k + 1] == before[2 * k + 1]);
    } else if n > 1 {
        law_search_args(products, n - 1, 0);
    }
}

/// Each feature is switched on, in order, and no other is.
pub proof fn law_feature_args(features: Seq<Seq<char>>, n: int, k: int)
    requires
        0 <= k < n <= features.len(),
    ensures
        feature_args(features, n).len() == 2 * n,
        feature_args(features, n)[2 * k] == "--cfg"@,
        feature_args(features, n)[2 * k + 1] == "feature=\""@ + features[k] + "\""@,
    decreases n,
{
    let before = feature_args(features, n - 1);
    let all = feature_args(features, n);
    if k < n - 1 {
        law_feature_args(features, n - 1, k);
        assert(all[2 * k] == before[2 * k] && all[2 * k + 1] == before[2 * k + 1]);
    } else if n > 1 {
        law_feature_args(features, n - 1, 0);
    }
}

/// Each condition is set, in order, and no other is.
pub proof fn law_condition_args(conditions: Seq<Seq<char>>, n: int, k: int)
    requires
        0 <= k < n <= conditions.len(),
    ensures
        condition_args(conditions, n).len() == 2 * n,
        condition_args(conditions, n)[2 * k] == "--cfg"@,
        condition_args(conditions, n)[2 * k + 1] == conditions[k],
    decreases n,
{
    let before = condition_args(conditions, n - 1);
    let all = condition_args(conditions, n);
    if k < n - 1 {
        law_condition_args(conditions, n - 1, k);
        assert(all[2 * k] == before[2 * k] && all[2 * k + 1] == before[2 * k + 1]);
    } else if n > 1 {
        law_condition_args(conditions, n - 1, 0);
    }
}

proof fn lemma_native_product_args(products: Products, n: int, k: int, name: Seq<char>)
    requires
        0 <= k < n <= products.len(),
        after_prefix(products[k].0, "native_"@) == Some(name),
        parent_of(products[k].1) is Some,
    ensures
        carries(native_product_args(products, n), "-l"@, "static="@ + name),
        carries(native_product_args(products, n), "-L"@, "native="@ + parent_of(products[k].1)->0),
    decreases n,
{
    let none = Seq::<Seq<char>>::empty();
    let dir = parent_of(products[k].1)->0;
    let args = native_product_args(products, n);
    let before = native_product_args(products, n - 1);
    if k == n - 1 {
        let link = native_link(name, dir);
        lemma_carries_at(link, 0);
        lemma_carries_at(link, 2);
        lemma_carries_in(before, link, none, "-l"@, "static="@ + name);
        lemma_carries_in(before, link, none, "-L"@, "native="@ + dir);
        assert(before + link + none =~= args);
    } else {
        lemma_native_product_args(products, n - 1, k, name);
        let more = args.skip(before.len() as int);
        assert(none + before + more =~= args);
        lemma_carries_in(none, before, more, "-l"@, "static="@ + name);
        lemma_carries_in(none, before, more, "-L"@, "native="@ + dir);
    }
}

proof fn lemma_native_build_args(libs: Seq<NativeSteps>, n: int, k: int)
    requires
        0 <= k < n <= libs.len(),
    ensures
        carries(native_build_args(libs, n), "-l"@, "static="@ + libs[k].name),
        parent_of(libs[k].path) matches Some(dir) ==> carries(native_build_args(libs, n), "-L"@, "native="@ + dir),
    decreases n,
{
    let none = Seq::<Seq<char>>::empty();
    let dir = parent_of(libs[k].path).unwrap_or(Seq::empty());
    let args = native_build_args(libs, n);
    let before = native_build_args(libs, n - 1);
    let link = native_link(libs[n - 1].name, parent_of(libs[n - 1].path).unwrap_or(Seq::empty()));
    assert(before + link + none =~= args);
    assert(none + before + link =~= args);
    if k == n - 1 {
        lemma_carries_at(link, 0);
        lemma_carries_at(link, 2);
        lemma_carries_in(before, link, none, "-l"@, "static="@ + libs[k].name);
        lemma_carries_in(before, link, none, "-L"@, "native="@ + dir);
    } else {
        lemma_native_build_args(libs, n - 1, k);
        lemma_carries_in(none, before, link, "-l"@, "static="@ + libs[k].name);
        if parent_of(libs[k].path) is Some {
            lemma_carries_in(none, before, link, "-L"@, "native="@ + dir);
        }
    }
}

/// The six parts of the arguments with which any crate is compiled.
proof fn lemma_common_parts(config: ConfigModel, deps: Deps, flag: Seq<char>, value: Seq<char>)
    ensures
        ({
            let libs = linked(config, deps);
            let products = products_of(config, deps);
            let features = extras_of(config, FEATURES);
            let conditions = extras_of(config, RUSTC_CFGS);
            carries(library_args(libs, libs.len() as int), flag, value) || carries(
                search_args(products, products.len() as int),
                flag,
                value,
            ) || carries(native_product_args(products, products.len() as int), flag, value) || carries(
                feature_args(features, features.len() as int),
                flag,
                value,
            ) || carries(condition_args(conditions, conditions.len() as int), flag, value) || carries(
                macro_args(config),
                flag,
                value,
            )
        }) ==> carries(common_args(config, deps), flag, value),
{
    let libs = linked(config, deps);
    let products = products_of(config, deps);
    let features = extras_of(config, FEATURES);
    let conditions = extras_of(config, RUSTC_CFGS);
    let none = Seq::<Seq<char>>::empty();
    let a = library_args(libs, libs.len() as int);
    let b = search_args(products, products.len() as int);
    let c = native_product_args(products, products.len() as int);
    let d = feature_args(features, features.len() as int);
    let e = condition_args(conditions, conditions.len() as int);
    let f = macro_args(config);
    let all = common_args(config, deps);
    assert(all =~= none + a + (b + c + d + e + f));
    assert(all =~= a + b + (c + d + e + f));
    assert(all =~= (a + b) + c + (d + e + f));
    assert(all =~= (a + b + c) + d + (e + f));
    assert(all =~= (a + b + c + d) + e + f);
    assert(all =~= (a + b + c + d + e) + f + none);
    if carries(a, flag, value) {
        lemma_carries_in(none, a, b + c + d + e + f, flag, value);
    }
    if carries(b, flag, value) {
        lemma_carries_in(a, b, c + d + e + f, flag, value);
    }
    if carries(c, flag, value) {
        lemma_carries_in(a + b, c, d + e + f, flag, value);
    }
    if carries(d, flag, value) {
        lemma_carries_in(a + b + c, d, e + f, flag, value);
    }
    if carries(e, flag, value) {
        lemma_carries_in(a + b + c + d, e, f, flag, value);
    }
    if carries(f, flag, value) {
        lemma_carries_in(a + b + c + d + e, f, none, flag, value);
    }
}

/// Whether a target is linked with `target`: it depends on it, or requires the package
/// that it stands for.
pub open spec fn links_with(config: ConfigModel, target: Seq<char>) -> bool {
    config.dependencies.contains(target) || exists|i: int|
        0 <= i < config.external_requirements.len() && requirement_target(#[trigger] config.external_requirements[i])
            == target
}

proof fn lemma_required_targets(config: ConfigModel, n: int, target: Seq<char>)
    requires
        0 <= n <= config.external_requirements.len(),
    ensures
        required_targets(config.external_requirements, n).contains(target) <==> exists|i: int|
            0 <= i < n && requirement_target(#[trigger] config.external_requirements[i]) == target,
    decreases n,
{
    let list = required_targets(config.external_requirements, n);
    if n > 0 {
        lemma_required_targets(config, n - 1, target);
        let before = required_targets(config.external_requirements, n - 1);
        let last = requirement_target(config.external_requirements[n - 1]);
        assert(list == before.push(last));
        if list.contains(target) {
            let k = choose|k: int| 0 <= k < list.len() && list[k] == target;
            if k < before.len() {
                assert(before[k] == target);
            }
        }
        if before.contains(target) {
            let k = choose|k: int| 0 <= k < before.len() && before[k] == target;
            assert(list[k] == target);
        }
        if last == target {
            assert(list[n - 1 + before.len() - (n - 1)] == target);
        }
    }
}

/// What a target is linked with is what it depends on and what it requires, in order
/// and each once.
pub proof fn law_runtime_targets(config: ConfigModel, target: Seq<char>)
    ensures
        runtime_targets(config).contains(target) <==> links_with(config, target),
        crate::table::ascending(runtime_targets(config)),
{
    let requirements = config.external_requirements;
    let more = required_targets(requirements, requirements.len() as int);
    let all = config.dependencies + more;
    law_ordered(all);
    lemma_required_targets(config, requirements.len() as int, target);
    if all.contains(target) {
        let k = choose|k: int| 0 <= k < all.len() && all[k] == target;
        if k < config.dependencies.len() {
            assert(config.dependencies[k] == target);
        } else {
            assert(more[k - config.dependencies.len()] == target);
        }
    }
    if config.dependencies.contains(target) {
        lemma_contains_in(Seq::empty(), config.dependencies, more, target);
        assert(Seq::<Seq<char>>::empty() + config.dependencies + more =~= all);
    }
    if more.contains(target) {
        lemma_contains_in(config.dependencies, more, Seq::empty(), target);
        assert(config.dependencies + more + Seq::<Seq<char>>::empty() =~= all);
    }
}

/// A target is called as the last entry says that names it; where none does, it is
/// given no name.
pub proof fn law_aliases(list: Seq<Seq<char>>, n: int, target: Seq<char>)
    requires
        0 <= n <= list.len(),
    ensures
        match found(aliases_in(list, n), target) {
            Some(name) => exists|i: int|
                0 <= i < n && cut_last(#[trigger] list[i], '=') == Some((target, name)) && forall|j: int|
                    i < j < n ==> !(cut_last(#[trigger] list[j], '=') matches Some((other, _)) && other == target),
            None => forall|i: int|
                0 <= i < n ==> !(cut_last(#[trigger] list[i], '=') matches Some((other, _)) && other == target),
        },
    decreases n,
{
    if n > 0 {
        law_aliases(list, n - 1, target);
        let before = aliases_in(list, n - 1);
        match cut_last(list[n - 1], '=') {
            Some((other, name)) => {
                law_with_row(before, other, name, target);
                if other == target {
                    assert(cut_last(list[n - 1], '=') == Some((target, name)));
                } else if let Some(known) = found(before, target) {
                    let i = choose|i: int|
                        0 <= i < n - 1 && cut_last(#[trigger] list[i], '=') == Some((target, known)) && forall|j: int|
                            i < j < n - 1 ==> !(cut_last(#[trigger] list[j], '=') matches Some((other, _)) && other
                                == target);
                    assert(cut_last(list[i], '=') == Some((target, known)));
                }
            },
            None => {
                if let Some(known) = found(before, target) {
                    let i = choose|i: int|
                        0 <= i < n - 1 && cut_last(#[trigger] list[i], '=') == Some((target, known)) && forall|j: int|
                            i < j < n - 1 ==> !(cut_last(#[trigger] list[j], '=') matches Some((other, _)) && other
                                == target);
                    assert(cut_last(list[i], '=') == Some((target, known)));
                }
            },
        }
    }
}

/// How a target that another is linked with is called there.
pub open spec fn called_as(config: ConfigModel, target: Seq<char>) -> Seq<char> {
    match found(aliases_of(config), target) {
        Some(name) => name,
        None => crate_of(target),
    }
}

proof fn lemma_libraries(targets: Seq<Seq<char>>, aliases: Products, deps: Deps, n: int, row: (Seq<char>, Seq<char>))
    requires
        0 <= n <= targets.len(),
    ensures
        libraries_of(targets, aliases, deps, n).contains(row) <==> exists|i: int|
            0 <= i < n && found(deps, #[trigger] targets[i])->0.outputs.contains(row.1) && row.0 == found(
                aliases,
                targets[i],
            ).unwrap_or(crate_of(targets[i])),
    decreases n,
{
    let all = libraries_of(targets, aliases, deps, n);
    if n > 0 {
        lemma_libraries(targets, aliases, deps, n - 1, row);
        let before = libraries_of(targets, aliases, deps, n - 1);
        let target = targets[n - 1];
        let name = found(aliases, target).unwrap_or(crate_of(target));
        let paths = found(deps, target)->0.outputs;
        let more = under_name(name, paths);
        if all.contains(row) {
            let k = choose|k: int| 0 <= k < all.len() && all[k] == row;
            if k < before.len() {
                assert(before[k] == row);
            } else {
                assert(more[k - before.len()] == row);
                assert(paths[k - before.len()] == row.1);
                assert(paths.contains(row.1));
                assert(targets[n - 1] == target);
            }
        }
        if before.contains(row) {
            let k = choose|k: int| 0 <= k < before.len() && before[k] == row;
            assert(all[k] == row);
        }
        if paths.contains(row.1) && row.0 == name {
            let k = choose|k: int| 0 <= k < paths.len() && paths[k] == row.1;
            assert(more[k] == row);
            assert(all[before.len() + k] == row);
        }
    }
}

/// The libraries that a target is linked with are just the outputs of what it depends
/// on and requires, each under the name that it is called by.
pub proof fn law_linked(config: ConfigModel, deps: Deps, name: Seq<char>, path: Seq<char>)
    ensures
        linked(config, deps).contains((name, path)) <==> exists|target: Seq<char>| #[trigger]
            links_with(config, target) && found(deps, target)->0.outputs.contains(path) && name == called_as(
                config,
                target,
            ),
{
    let targets = runtime_targets(config);
    let aliases = aliases_of(config);
    let n = targets.len() as int;
    lemma_libraries(targets, aliases, deps, n, (name, path));
    if linked(config, deps).contains((name, path)) {
        let i = choose|i: int|
            0 <= i < n && found(deps, #[trigger] targets[i])->0.outputs.contains(path) && name == found(
                aliases,
                targets[i],
            ).unwrap_or(crate_of(targets[i]));
        assert(targets.contains(targets[i]));
        law_runtime_targets(config, targets[i]);
    }
    if exists|target: Seq<char>| #[trigger]
        links_with(config, target) && found(deps, target)->0.outputs.contains(path) && name == called_as(config, target) {
        let target = choose|target: Seq<char>| #[trigger]
            links_with(config, target) && found(deps, target)->0.outputs.contains(path) && name == called_as(
                config,
                target,
            );
        law_runtime_targets(config, target);
        let i = choose|i: int| 0 <= i < targets.len() && targets[i] == target;
        assert(found(deps, targets[i])->0.outputs.contains(path));
    }
}

proof fn lemma_products_in(list: Seq<Seq<char>>, n: int, row: (Seq<char>, Seq<char>))
    requires
        0 <= n <= list.len(),
    ensures
        products_in(list, n).contains(row) <==> exists|i: int| 0 <= i < n && cut(#[trigger] list[i], ':') == Some(row),
    decreases n,
{
    let all = products_in(list, n);
    if n > 0 {
        lemma_products_in(list, n - 1, row);
        let before = products_in(list, n - 1);
        if all.contains(row) {
            let k = choose|k: int| 0 <= k < all.len() && all[k] == row;
            if k < before.len() {
                assert(before[k] == row);
            } else {
                assert(cut(list[n - 1], ':') == Some(row));
            }
        }
        if before.contains(row) {
            let k = choose|k: int| 0 <= k < before.len() && before[k] == row;
            assert(all[k] == row);
        }
        if cut(list[n - 1], ':') == Some(row) {
            assert(all[before.len() as int] == row);
        }
    }
}

proof fn lemma_all_handed_on(targets: Seq<Seq<char>>, deps: Deps, n: int, row: (Seq<char>, Seq<char>))
    requires
        0 <= n <= targets.len(),
    ensures
        all_handed_on(targets, deps, n).contains(row) <==> exists|i: int|
            0 <= i < n && handed_on(found(deps, #[trigger] targets[i])->0).contains(row),
    decreases n,
{
    let all = all_handed_on(targets, deps, n);
    if n > 0 {
        lemma_all_handed_on(targets, deps, n - 1, row);
        let before = all_handed_on(targets, deps, n - 1);
        let more = handed_on(found(deps, targets[n - 1])->0);
        if all.contains(row) {
            let k = choose|k: int| 0 <= k < all.len() && all[k] == row;
            if k < before.len() {
                assert(before[k] == row);
            } else {
                assert(more[k - before.len()] == row);
                assert(more.contains(row));
            }
        }
        if before.contains(row) {
            lemma_contains_in(Seq::empty(), before, more, row);
            assert(Seq::<(Seq<char>, Seq<char>)>::empty() + before + more =~= all);
        }
        if more.contains(row) {
            lemma_contains_in(before, more, Seq::empty(), row);
            assert(before + more + Seq::<(Seq<char>, Seq<char>)>::empty() =~= all);
        }
    }
}

/// Whether the output of a build says, as `name:path`, that it hands on a file.
pub open spec fn hands_on(output: Output, name: Seq<char>, path: Seq<char>) -> bool {
    found_number(output.extras, TRANSITIVE_PRODUCTS) matches Some(list) && exists|i: int|
        0 <= i < list.len() && cut(#[trigger] list[i], ':') == Some((name, path))
}

/// The files that a target is linked with are just the libraries, and what the builds
/// of what it depends on and requires hand on.
pub proof fn law_products(config: ConfigModel, deps: Deps, name: Seq<char>, path: Seq<char>)
    ensures
        products_of(config, deps).contains((name, path)) <==> linked(config, deps).contains((name, path)) || exists|
            target: Seq<char>,
        | #[trigger]
            links_with(config, target) && hands_on(found(deps, target)->0, name, path),
{
    let row = (name, path);
    let targets = runtime_targets(config);
    let n = targets.len() as int;
    let first = all_handed_on(targets, deps, n);
    let libs = linked(config, deps);
    let all = products_of(config, deps);
    lemma_all_handed_on(targets, deps, n, row);
    if all.contains(row) && !libs.contains(row) {
        let k = choose|k: int| 0 <= k < all.len() && all[k] == row;
        if k >= first.len() {
            assert(libs[k - first.len()] == row);
        }
        assert(first[k] == row);
        let i = choose|i: int| 0 <= i < n && handed_on(found(deps, #[trigger] targets[i])->0).contains(row);
        let output = found(deps, targets[i])->0;
        let list = found_number(output.extras, TRANSITIVE_PRODUCTS).unwrap_or(Seq::empty());
        lemma_products_in(list, list.len() as int, row);
        assert(targets.contains(targets[i]));
        law_runtime_targets(config, targets[i]);
        assert(hands_on(output, name, path));
    }
    if libs.contains(row) {
        lemma_contains_in(first, libs, Seq::empty(), row);
        assert(first + libs + Seq::<(Seq<char>, Seq<char>)>::empty() =~= all);
    }
    if exists|target: Seq<char>| #[trigger]
        links_with(config, target) && hands_on(found(deps, target)->0, name, path) {
        let target = choose|target: Seq<char>| #[trigger]
            links_with(config, target) && hands_on(found(deps, target)->0, name, path);
        law_runtime_targets(config, target);
        let i = choose|i: int| 0 <= i < targets.len() && targets[i] == target;
        let output = found(deps, target)->0;
        let list = found_number(output.extras, TRANSITIVE_PRODUCTS).unwrap_or(Seq::empty());
        lemma_products_in(list, list.len() as int, row);
        assert(handed_on(found(deps, targets[i])->0).contains(row));
        lemma_contains_in(Seq::empty(), first, libs, row);
        assert(Seq::<(Seq<char>, Seq<char>)>::empty() + first + libs =~= all);
    }
}

/// Every crate is compiled against the outputs of what it depends on and requires,
/// each under the name that it is called by, with the directories of all files that it
/// is linked with, the native libraries among them, its features and its conditions.
pub proof fn law_compiled_against(config: ConfigModel, deps: Deps, target: Seq<char>, name: Seq<char>, path: Seq<char>)
    ensures
        links_with(config, target) && found(deps, target)->0.outputs.contains(path) ==> carries(
            common_args(config, deps),
            "--extern"@,
            called_as(config, target) + "="@ + path,
        ),
        products_of(config, deps).contains((name, path)) && parent_of(path) is Some ==> {
            &&& carries(common_args(config, deps), "-L"@, parent_of(path)->0)
            &&& after_prefix(name, "native_"@) matches Some(native) ==> carries(
                common_args(config, deps),
                "-l"@,
                "static="@ + native,
            ) && carries(common_args(config, deps), "-L"@, "native="@ + parent_of(path)->0)
        },
        extras_of(config, FEATURES).contains(name) ==> carries(
            common_args(config, deps),
            "--cfg"@,
            "feature=\""@ + name + "\""@,
        ),
        extras_of(config, RUSTC_CFGS).contains(name) ==> carries(common_args(config, deps), "--cfg"@, name),
        extra_of(config, CRATE_TYPE) == Some("proc-macro"@) ==> carries(
            common_args(config, deps),
            "--extern"@,
            "proc_macro"@,
        ),
{
    let libs = linked(config, deps);
    let products = products_of(config, deps);
    if links_with(config, target) && found(deps, target)->0.outputs.contains(path) {
        let row = (called_as(config, target), path);
        law_linked(config, deps, row.0, path);
        let k = choose|k: int| 0 <= k < libs.len() && libs[k] == row;
        law_library_args(libs, libs.len() as int, k);
        lemma_carries_at(library_args(libs, libs.len() as int), 2 * k);
        lemma_common_parts(config, deps, "--extern"@, row.0 + "="@ + path);
    }
    if products.contains((name, path)) && parent_of(path) is Some {
        let n = products.len() as int;
        let k = choose|k: int| 0 <= k < products.len() && products[k] == (name, path);
        law_search_args(products, n, k);
        lemma_carries_at(search_args(products, n), 2 * k);
        lemma_common_parts(config, deps, "-L"@, parent_of(path)->0);
        if let Some(native) = after_prefix(name, "native_"@) {
            lemma_native_product_args(products, n, k, native);
            lemma_common_parts(config, deps, "-l"@, "static="@ + native);
            lemma_common_parts(config, deps, "-L"@, "native="@ + parent_of(path)->0);
        }
    }
    let features = extras_of(config, FEATURES);
    if features.contains(name) {
        let k = choose|k: int| 0 <= k < features.len() && features[k] == name;
        law_feature_args(features, features.len() as int, k);
        lemma_carries_at(feature_args(features, features.len() as int), 2 * k);
        lemma_common_parts(config, deps, "--cfg"@, "feature=\""@ + name + "\""@);
    }
    let conditions = extras_of(config, RUSTC_CFGS);
    if conditions.contains(name) {
        let k = choose|k: int| 0 <= k < conditions.len() && conditions[k] == name;
        law_condition_args(conditions, conditions.len() as int, k);
        lemma_carries_at(condition_args(conditions, conditions.len() as int), 2 * k);
        lemma_common_parts(config, deps, "--cfg"@, name);
    }
    if extra_of(config, CRATE_TYPE) == Some("proc-macro"@) {
        lemma_carries_at(macro_args(config), 0);
        lemma_common_parts(config, deps, "--extern"@, "proc_macro"@);
    }
}

/// The first text under a key of a configuration, or another.
pub open spec fn said_or(config: ConfigModel, key: u32, other: Seq<char>) -> Seq<char> {
    match found_number(config.extras, key) {
        Some(list) => if list.len() > 0 {
            list[0]
        } else {
            other
        },
        None => other,
    }
}

/// Where the parts of a library's arguments stand.
proof fn lemma_library_parts(
    config: ConfigModel,
    deps: Deps,
    native: Seq<NativeSteps>,
    root: Seq<char>,
    names: (Seq<char>, Seq<char>, Seq<char>, Seq<char>),
    file: Seq<char>,
    flag: Seq<char>,
    value: Seq<char>,
)
    ensures
        ({
            let args = library_compile_args(config, deps, native, root, names, file);
            let naming = naming_args(names.0, names.1, names.2, names.3, file);
            let natives = native_build_args(native, native.len() as int);
            &&& carries(common_args(config, deps), flag, value) || carries(natives, flag, value) || carries(
                naming,
                flag,
                value,
            ) ==> carries(args, flag, value)
            &&& args.contains(root)
            &&& naming.contains(flag) ==> args.contains(flag)
        }),
{
    let args = library_compile_args(config, deps, native, root, names, file);
    let naming = naming_args(names.0, names.1, names.2, names.3, file);
    let natives = native_build_args(native, native.len() as int);
    let common = common_args(config, deps);
    let none = Seq::<Seq<char>>::empty();
    assert(args =~= none + common + (seq![root] + natives + naming));
    assert(args =~= common + seq![root] + (natives + naming));
    assert(args =~= (common + seq![root]) + natives + naming);
    assert(args =~= (common + seq![root] + natives) + naming + none);
    if carries(common, flag, value) {
        lemma_carries_in(none, common, seq![root] + natives + naming, flag, value);
    }
    if carries(natives, flag, value) {
        lemma_carries_in(common + seq![root], natives, naming, flag, value);
    }
    if carries(naming, flag, value) {
        lemma_carries_in(common + seq![root] + natives, naming, none, flag, value);
    }
    assert(seq![root][0] == root);
    lemma_contains_in(common, seq![root], natives + naming, root);
    if naming.contains(flag) {
        lemma_contains_in(common + seq![root] + natives, naming, none, flag);
    }
}

/// A library is compiled with the compiler that its first build dependency is, from its
/// root, as a crate of the configured type and name, into the one file that it leaves
/// behind: a file of that name in its directory. Where no type is configured it is an
/// `rlib`, where no name is it is called after the target, and where no edition is, it
/// is of the one of 2018. It carries all that it is compiled against, and the native
/// libraries that were made for it.
pub proof fn law_library_built(
    target: Seq<char>,
    config: ConfigModel,
    deps: Deps,
    working_directory: Seq<char>,
    os: Seq<char>,
    flag: Seq<char>,
    value: Seq<char>,
    k: int,
)
    requires
        config.kind == "rust_library"@,
    ensures
        rust_steps(target, config, deps, working_directory, os) matches Ok(steps) ==> {
            let crate_name = said_or(config, CRATE_NAME, crate_of(target));
            &&& found(deps, config.build_dependencies[0])->0.outputs[0] == steps.compiler
            &&& steps.args.contains(library_root(config, crate_of(target))->Ok_0)
            &&& carries(steps.args, "--crate-type"@, said_or(config, CRATE_TYPE, "rlib"@))
            &&& carries(steps.args, "--crate-name"@, crate_name)
            &&& steps.args.contains("--edition="@ + said_or(config, EDITION, "2018"@))
            &&& steps.output.outputs.len() == 1
            &&& carries(steps.args, "-o"@, steps.output.outputs[0])
            &&& exists|rest: Seq<char>|
                steps.output.outputs[0] == #[trigger] joined_path(working_directory, "lib"@ + crate_name + rest)
            &&& carries(common_args(config, deps), flag, value) ==> carries(steps.args, flag, value)
            &&& 0 <= k < steps.native.len() ==> carries(steps.args, "-l"@, "static="@ + steps.native[k].name)
        },
{
    reveal_strlit("rust_library");
    let name = crate_of(target);
    if let Ok(steps) = rust_steps(target, config, deps, working_directory, os) {
        let crate_name = extra_of(config, CRATE_NAME).unwrap_or(name);
        let crate_type = extra_of(config, CRATE_TYPE).unwrap_or("rlib"@);
        let edition = extra_of(config, EDITION).unwrap_or("2018"@);
        let metadata = metadata_in(working_directory);
        let file = library_file(working_directory, crate_name, metadata, crate_type, os);
        let root = library_root(config, name)->Ok_0;
        let names = (crate_name, crate_type, edition, metadata);
        let naming = naming_args(crate_name, crate_type, edition, metadata, file);
        lemma_carries_at(naming, 3);
        lemma_carries_at(naming, 5);
        lemma_carries_at(naming, 7);
        lemma_library_parts(config, deps, steps.native, root, names, file, "--crate-type"@, crate_type);
        lemma_library_parts(config, deps, steps.native, root, names, file, "--crate-name"@, crate_name);
        lemma_library_parts(config, deps, steps.native, root, names, file, "-o"@, file);
        lemma_library_parts(config, deps, steps.native, root, names, file, flag, value);
        assert(naming[0] == "--edition="@ + edition);
        assert(naming.contains("--edition="@ + edition));
        lemma_library_parts(config, deps, steps.native, root, names, file, "--edition="@ + edition, value);
        let ending = "."@ + library_ending(crate_type, os);
        let rest = "-"@ + metadata + ending;
        assert("lib"@ + crate_name + rest =~= "lib"@ + crate_name + "-"@ + metadata + ending);
        assert(file == joined_path(working_directory, "lib"@ + crate_name + rest));
        assert(steps.args == library_compile_args(config, deps, steps.native, root, names, file));
        assert(steps.output.outputs =~= seq![file]);
        assert(crate_name == said_or(config, CRATE_NAME, name));
        assert(steps.output.outputs[0] == joined_path(
            working_directory,
            "lib"@ + said_or(config, CRATE_NAME, crate_of(target)) + rest,
        ));
        if 0 <= k < steps.native.len() {
            let native = steps.native[k].name;
            lemma_native_build_args(steps.native, steps.native.len() as int, k);
            lemma_library_parts(config, deps, steps.native, root, names, file, "-l"@, "static="@ + native);
        }
    }
}

/// A program, or a test, is compiled with the compiler that its first build dependency
/// is, from its root, into the one file that it leaves behind, which is called after the
/// target; a test as one. Where no edition is configured it is of the one of 2021. It
/// carries all that it is compiled against.
pub proof fn law_executable_built(
    target: Seq<char>,
    config: ConfigModel,
    deps: Deps,
    working_directory: Seq<char>,
    os: Seq<char>,
    flag: Seq<char>,
    value: Seq<char>,
)
    requires
        config.kind == "rust_binary"@ || config.kind == "rust_test"@,
    ensures
        rust_steps(target, config, deps, working_directory, os) matches Ok(steps) ==> {
            let test = config.kind == "rust_test"@;
            &&& found(deps, config.build_dependencies[0])->0.outputs[0] == steps.compiler
            &&& steps.args.contains(executable_root(config, crate_of(target), test)->Ok_0)
            &&& test ==> steps.args.contains("--test"@)
            &&& steps.args.contains("--edition="@ + said_or(config, EDITION, "2021"@))
            &&& steps.output.outputs == seq![joined_path(working_directory, crate_of(target))]
            &&& carries(steps.args, "-o"@, joined_path(working_directory, crate_of(target)))
            &&& carries(common_args(config, deps), flag, value) ==> carries(steps.args, flag, value)
        },
{
    reveal_strlit("rust_library");
    reveal_strlit("rust_binary");
    reveal_strlit("rust_test");
    assert("rust_library"@.len() != "rust_binary"@.len() && "rust_library"@.len() != "rust_test"@.len());
    assert("rust_binary"@.len() != "rust_test"@.len());
    let test = config.kind == "rust_test"@;
    if let Ok(steps) = rust_steps(target, config, deps, working_directory, os) {
        let common = common_args(config, deps);
        let none = Seq::<Seq<char>>::empty();
        let root = executable_root(config, crate_of(target), test)->Ok_0;
        let file = joined_path(working_directory, crate_of(target));
        let edition = "--edition="@ + extra_of(config, EDITION).unwrap_or("2021"@);
        let tested = if test {
            seq!["--test"@]
        } else {
            none
        };
        let tail = seq!["-o"@, file, edition, "--color=always"@];
        assert(steps.args =~= none + common + (seq![root] + tested + tail));
        assert(steps.args =~= common + seq![root] + (tested + tail));
        assert(steps.args =~= (common + seq![root]) + tested + tail);
        assert(steps.args =~= (common + seq![root] + tested) + tail + none);
        if carries(common, flag, value) {
            lemma_carries_in(none, common, seq![root] + tested + tail, flag, value);
        }
        assert(seq![root][0] == root);
        lemma_contains_in(common, seq![root], tested + tail, root);
        if test {
            assert(tested[0] == "--test"@);
            lemma_contains_in(common + seq![root], tested, tail, "--test"@);
        }
        lemma_carries_at(tail, 0);
        lemma_carries_in(common + seq![root] + tested, tail, none, "-o"@, file);
        assert(tail[2] == edition);
        lemma_contains_in(common + seq![root] + tested, tail, none, edition);
    }
}

/// A library hands on all files that it is linked with, and the native libraries that
/// were made for it.
pub proof fn law_library_hands_on(
    target: Seq<char>,
    config: ConfigModel,
    deps: Deps,
    working_directory: Seq<char>,
    os: Seq<char>,
    name: Seq<char>,
    path: Seq<char>,
    k: int,
)
    requires
        config.kind == "rust_library"@,
    ensures
        rust_steps(target, config, deps, working_directory, os) matches Ok(steps) ==> {
            &&& products_of(config, deps).contains((name, path)) && !has_char(name, ':') ==> hands_on(
                steps.output,
                name,
                path,
            )
            &&& 0 <= k < steps.native.len() && !has_char(steps.native[k].name, ':') ==> hands_on(
                steps.output,
                "native_"@ + steps.native[k].name,
                steps.native[k].path,
            )
        },
{
    if let Ok(steps) = rust_steps(target, config, deps, working_directory, os) {
        let products = products_of(config, deps);
        let natives = native_products(steps.native);
        let all = products + natives;
        let list = product_texts(all);
        law_with_number(Seq::<(u32, Seq<Seq<char>>)>::empty(), TRANSITIVE_PRODUCTS, list, TRANSITIVE_PRODUCTS);
        assert(found_number(steps.output.extras, TRANSITIVE_PRODUCTS) == Some(list));
        if products.contains((name, path)) && !has_char(name, ':') {
            let i = choose|i: int| 0 <= i < products.len() && products[i] == (name, path);
            assert(all[i] == (name, path));
            lemma_handed_text(list[i], name, path);
        }
        if 0 <= k < steps.native.len() && !has_char(steps.native[k].name, ':') {
            let native = "native_"@ + steps.native[k].name;
            let i = products.len() + k;
            assert(all[i] == (native, steps.native[k].path));
            reveal_strlit("native_");
            lemma_position_from(steps.native[k].name, ':', 0);
            lemma_position_from(native, ':', 0);
            if has_char(native, ':') {
                let at = position(native, ':');
                assert(native[at] == ':');
                if at >= 7 {
                    assert(steps.native[k].name[at - 7] == ':');
                }
            }
            lemma_handed_text(list[i], native, steps.native[k].path);
        }
    }
}

proof fn lemma_handed_text(text: Seq<char>, name: Seq<char>, path: Seq<char>)
    requires
        text == name + ":"@ + path,
        !has_char(name, ':'),
    ensures
        cut(text, ':') == Some((name, path)),
{
    reveal_strlit(":");
    assert(":"@ =~= seq![':']);
    lemma_cut(name, ':', path);
}

/// What a configuration keeps under one of the keys is not kept under another.
pub proof fn law_extra_keys_distinct()
    ensures
        seq![FEATURES, CRATE_NAME, CRATE_TYPE, EDITION, ROOT_SOURCE, CRATE_ROOT, DEPENDENCY_ALIASES, RUSTC_CFGS,
            NATIVE_STATIC_LIBS, RUSTC_ENV].no_duplicates(),
{
}

/// Whether the file of a crate of a type ends with `ending` on a system: one that is loaded
/// at run time as the system's shared libraries do.
pub open spec fn ends_as(crate_type: Seq<char>, os: Seq<char>, ending: Seq<char>) -> bool {
    let shared = crate_type == "proc-macro"@ || crate_type == "cdylib"@ || crate_type == "dylib"@;
    ||| shared && os == "macos"@ && ending == "dylib"@
    ||| shared && os == "windows"@ && ending == "dll"@
    ||| shared && os != "macos"@ && os != "windows"@ && ending == "so"@
    ||| crate_type == "staticlib"@ && ending == "a"@
    ||| !shared && crate_type != "staticlib"@ && ending == "rlib"@
}

/// A library that is built in a directory that ends with a hash is told apart by the hash:
/// the compiler gets it as metadata, and the file has it in its name, between the name of
/// the crate and the ending for its type.
pub proof fn law_library_file(
    target: Seq<char>,
    config: ConfigModel,
    deps: Deps,
    dir: Seq<char>,
    stem: Seq<char>,
    hash: Seq<char>,
    os: Seq<char>,
    ending: Seq<char>,
)
    requires
        config.kind == "rust_library"@,
        !stem.contains('/') && !hash.contains('/') && !hash.contains('-'),
        dir.len() > 0 && dir.last() != '/',
        !(dir.len() > 1 && dir.last() == '.' && dir[dir.len() - 2] == '/'),
        ends_as(said_or(config, CRATE_TYPE, "rlib"@), os, ending),
    ensures
        ({
            let working_directory = dir.push('/') + (stem.push('-') + hash);
            let crate_name = said_or(config, CRATE_NAME, crate_of(target));
            rust_steps(target, config, deps, working_directory, os) matches Ok(steps) ==> {
                &&& carries(steps.args, "-C"@, "metadata="@ + hash)
                &&& steps.output.outputs == seq![
                    joined_path(working_directory, "lib"@ + crate_name + "-"@ + hash + ("."@ + ending)),
                ]
            }
        }),
{
    reveal_strlit("rust_library");
    reveal_strlit("");
    reveal_strlit(".");
    reveal_strlit("..");
    reveal_strlit("staticlib");
    reveal_strlit("proc-macro");
    reveal_strlit("cdylib");
    reveal_strlit("dylib");
    reveal_strlit("macos");
    reveal_strlit("windows");
    let last = stem.push('-') + hash;
    let working_directory = dir.push('/') + last;
    assert(last[stem.len() as int] == '-');
    assert(!last.contains('/')) by {
        if last.contains('/') {
            let i = choose|i: int| 0 <= i < last.len() && last[i] == '/';
            if i < stem.len() {
                assert(stem[i] == '/');
            } else {
                assert(i > stem.len());
                assert(hash[i - stem.len() - 1] == '/');
            }
        }
    }
    assert(last != ""@ && last != "."@ && last != ".."@) by {
        assert("."@[0] == '.');
        assert(".."@[0] == '.' && ".."@[1] == '.');
    }
    law_file_in(dir, last);
    law_cut_last(last, '-');
    assert(last.contains('-'));
    if let Some((a, b)) = cut_last(last, '-') {
        assert(a.push('-') + b == last);
        if a.len() < stem.len() {
            assert((a.push('-') + b)[stem.len() as int] == '-');
            assert(b[stem.len() - a.len() - 1] == '-');
            assert(b.contains('-'));
        }
        if a.len() > stem.len() {
            assert((a.push('-') + b)[a.len() as int] == '-');
            assert(hash[a.len() - stem.len() - 1] == '-');
            assert(hash.contains('-'));
        }
        assert(a.len() == stem.len());
        assert(b =~= hash) by {
            assert(b.len() == hash.len());
            assert forall|i: int| 0 <= i < b.len() implies b[i] == hash[i] by {
                assert((a.push('-') + b)[a.len() + 1 + i] == b[i]);
                assert(last[stem.len() + 1 + i] == hash[i]);
            }
        }
    }
    assert(metadata_in(working_directory) == hash);
    if let Ok(steps) = rust_steps(target, config, deps, working_directory, os) {
        let name = crate_of(target);
        let crate_name = extra_of(config, CRATE_NAME).unwrap_or(name);
        let crate_type = extra_of(config, CRATE_TYPE).unwrap_or("rlib"@);
        let edition = extra_of(config, EDITION).unwrap_or("2018"@);
        let file = library_file(working_directory, crate_name, hash, crate_type, os);
        let root = library_root(config, name)->Ok_0;
        let names = (crate_name, crate_type, edition, hash);
        let naming = naming_args(crate_name, crate_type, edition, hash, file);
        assert(crate_name == said_or(config, CRATE_NAME, name));
        assert(crate_type == said_or(config, CRATE_TYPE, "rlib"@));
        lemma_carries_at(naming, 1);
        lemma_library_parts(config, deps, steps.native, root, names, file, "-C"@, "metadata="@ + hash);
        assert(steps.args == library_compile_args(config, deps, steps.native, root, names, file));
        assert("staticlib"@.len() == 9 && "proc-macro"@.len() == 10 && "cdylib"@.len() == 6 && "dylib"@.len() == 5);
        assert("macos"@.len() == 5 && "windows"@.len() == 7);
        assert(library_ending(crate_type, os) == ending);
        assert(steps.output.outputs =~= seq![file]);
    }
}

/// Whether the text `name=value` is in `list`.
pub open spec fn assigns(list: Seq<Seq<char>>, name: Seq<char>, value: Seq<char>) -> bool {
    list.contains(name.push('=') + value)
}

/// The compiler runs with the variables that a target configures, and with no others.
pub proof fn law_compiler_env(list: Seq<Seq<char>>, n: int, name: Seq<char>, value: Seq<char>)
    requires
        0 <= n <= list.len(),
        !name.contains('='),
    ensures
        variables_in(list, n).contains((name, value)) <==> assigns(list.take(n), name, value),
    decreases n,
{
    let all = variables_in(list, n);
    if n > 0 {
        law_compiler_env(list, n - 1, name, value);
        let text = name.push('=') + value;
        assert(list.take(n) =~= list.take(n - 1).push(list[n - 1]));
        let (some, less) = (list.take(n), list.take(n - 1));
        assert(some.contains(text) <==> less.contains(text) || list[n - 1] == text) by {
            if some.contains(text) {
                let k = choose|k: int| 0 <= k < some.len() && some[k] == text;
                if k < n - 1 {
                    assert(less[k] == text);
                }
            }
            if less.contains(text) {
                let k = choose|k: int| 0 <= k < less.len() && less[k] == text;
                assert(some[k] == text);
            }
            if list[n - 1] == text {
                assert(some[n - 1] == text);
            }
        }
        law_cut(list[n - 1], '=');
        if list[n - 1] == text {
            lemma_position_from(name, '=', 0);
            assert(!has_char(name, '='));
            lemma_cut(name, '=', value);
            assert(text =~= name + seq!['='] + value);
        }
        let before = variables_in(list, n - 1);
        match cut(list[n - 1], '=') {
            Some(row) => {
                assert(all == before.push(row));
                if all.contains((name, value)) {
                    let k = choose|k: int| 0 <= k < all.len() && all[k] == (name, value);
                    if k < before.len() {
                        assert(before[k] == (name, value));
                    } else {
                        assert(row == (name, value));
                    }
                }
                if before.contains((name, value)) {
                    let k = choose|k: int| 0 <= k < before.len() && before[k] == (name, value);
                    assert(all[k] == (name, value));
                }
                if row == (name, value) {
                    assert(all[before.len() as int] == row);
                }
            },
            None => {
                assert(all == before);
            },
        }
    }
}

/// Every target is compiled with the variables that its configuration lists.
pub proof fn law_compiled_in(target: Seq<char>, config: ConfigModel, deps: Deps, working_directory: Seq<char>, os: Seq<char>)
    ensures
        rust_steps(target, config, deps, working_directory, os) matches Ok(steps) ==> {
            let list = found_number(config.extras, RUSTC_ENV).unwrap_or(Seq::empty());
            steps.env == variables_in(list, list.len() as int)
        },
{
}

} // verus!
