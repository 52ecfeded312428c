//! Linking: what a crate is compiled against, and how the compiler is told.

use vstd::prelude::*;

use crate::build_output_kind::TRANSITIVE_PRODUCTS;
use crate::config_extra_keys::{CRATE_TYPE, DEPENDENCY_ALIASES, FEATURES, RUSTC_CFGS, RUSTC_ENV};
use crate::model::{requirement_target, BuildOutput, Config, ConfigModel, Output, Requirement};
use crate::path::{parent, parent_of};
use crate::rust_plugin::names::{crate_of, extra, extra_of, extras, extras_of, rust_name};
use crate::rust_plugin::native::{NativeBuild, NativeSteps};
use crate::table::{found, found_number, in_order, ordered, with_row, Table};
use crate::text::{
    after_prefix, cat2, cat3, cut, cut_last, keep, keep_all, rsplit_once, same, split_once, strip_prefix, Duplicate,
};

verus! {

/// The outputs of what a target depends on.
pub type Deps = Seq<(Seq<char>, Output)>;

/// Files under names.
pub type Products = Seq<(Seq<char>, Seq<char>)>;

/// The targets that stand for the first `n` requirements.
pub open spec fn required_targets(requirements: Seq<Requirement>, n: int) -> Seq<Seq<char>>
    decreases n,
{
    if n <= 0 {
        Seq::empty()
    } else {
        required_targets(requirements, n - 1).push(requirement_target(requirements[n - 1]))
    }
}

/// What a target is linked with, in order and each once.
pub open spec fn runtime_targets(config: ConfigModel) -> Seq<Seq<char>> {
    ordered(
        config.dependencies + required_targets(
            config.external_requirements,
            config.external_requirements.len() as int,
        ),
    )
}

pub fn runtime_dependencies(config: &Config) -> (r: Vec<String>)
    ensures
        r.deep_view() == runtime_targets(config.deep_view()),
{
    let ghost list = config.external_requirements.deep_view();
    let ghost head = config.dependencies.deep_view();
    let mut all = config.dependencies.duplicate();
    let mut i: usize = 0;
    assert(all.deep_view() =~= head + required_targets(list, 0));
    while i < config.external_requirements.len()
        invariant
            i <= config.external_requirements.len(),
            list == config.external_requirements.deep_view(),
            all.deep_view() == head + required_targets(list, i as int),
        decreases config.external_requirements.len() - i,
    {
        assert(list[i as int] == config.external_requirements@[i as int].deep_view());
        keep(&mut all, config.external_requirements[i].target());
        i = i + 1;
        assert(all.deep_view() =~= head + required_targets(list, i as int));
    }
    in_order(&all)
}

/// Whether all that a target is linked with was built.
pub open spec fn all_built(targets: Seq<Seq<char>>, deps: Deps) -> bool {
    forall|i: int| 0 <= i < targets.len() ==> found(deps, #[trigger] targets[i]) is Some
}

/// The names that the first `n` of `list` give to targets.
pub open spec fn aliases_in(list: Seq<Seq<char>>, n: int) -> Products
    decreases n,
{
    if n <= 0 {
        Seq::empty()
    } else {
        match cut_last(list[n - 1], '=') {
            Some((target, name)) => with_row(aliases_in(list, n - 1), target, name),
            None => aliases_in(list, n - 1),
        }
    }
}

/// The names that a configuration gives to the targets it depends on.
pub open spec fn aliases_of(config: ConfigModel) -> Products {
    let list = extras_of(config, DEPENDENCY_ALIASES);
    aliases_in(list, list.len() as int)
}

pub fn dependency_aliases(config: &Config) -> (r: Table<String>)
    ensures
        r.deep_view() == aliases_of(config.deep_view()),
{
    let values = extras(config, DEPENDENCY_ALIASES);
    let ghost list = values.deep_view();
    let mut out: Table<String> = Table::new();
    let mut i: usize = 0;
    while i < values.len()
        invariant
            i <= values.len(),
            list == values.deep_view(),
            out.deep_view() == aliases_in(list, i as int),
        decreases values.len() - i,
    {
        assert(list[i as int] == values@[i as int]@);
        if let Some((target, name)) = rsplit_once(values[i].as_str(), '=') {
            out.insert(target, name);
        }
        i = i + 1;
    }
    out
}

/// `paths`, each under `name`.
pub open spec fn under_name(name: Seq<char>, paths: Seq<Seq<char>>) -> Products {
    paths.map_values(|path: Seq<char>| (name, path))
}

/// The libraries that the first `n` of `targets` are, under the names that they
/// have for the compiler.
pub open spec fn libraries_of(targets: Seq<Seq<char>>, aliases: Products, deps: Deps, n: int) -> Products
    decreases n,
{
    if n <= 0 {
        Seq::empty()
    } else {
        libraries_of(targets, aliases, deps, n - 1) + under_name(
            found(aliases, targets[n - 1]).unwrap_or(crate_of(targets[n - 1])),
            found(deps, targets[n - 1])->0.outputs,
        )
    }
}

/// The libraries that a target is linked with.
pub open spec fn linked(config: ConfigModel, deps: Deps) -> Products {
    let targets = runtime_targets(config);
    libraries_of(targets, aliases_of(config), deps, targets.len() as int)
}

fn add_under_name(out: &mut Vec<(String, String)>, name: &str, paths: &Vec<String>)
    ensures
        final(out).deep_view() == old(out).deep_view() + under_name(name@, paths.deep_view()),
{
    let ghost all = under_name(name@, paths.deep_view());
    let mut i: usize = 0;
    assert(out.deep_view() =~= old(out).deep_view() + all.take(0));
    while i < paths.len()
        invariant
            i <= paths.len(),
            all == under_name(name@, paths.deep_view()),
            out.deep_view() == old(out).deep_view() + all.take(i as int),
        decreases paths.len() - i,
    {
        assert(paths.deep_view()[i as int] == paths@[i as int]@);
        keep(out, (name.to_owned(), paths[i].clone()));
        i = i + 1;
        assert(all.take(i as int) =~= all.take(i - 1).push(all[i - 1]));
        assert(out.deep_view() =~= old(out).deep_view() + all.take(i as int));
    }
    assert(all.take(i as int) =~= all);
}

pub fn libraries(config: &Config, deps: &Table<BuildOutput>) -> (r: Vec<(String, String)>)
    requires
        all_built(runtime_targets(config.deep_view()), deps.deep_view()),
    ensures
        r.deep_view() == linked(config.deep_view(), deps.deep_view()),
{
    let aliases = dependency_aliases(config);
    let targets = runtime_dependencies(config);
    let ghost list = targets.deep_view();
    let mut out: Vec<(String, String)> = Vec::new();
    let mut i: usize = 0;
    assert(out.deep_view() =~= libraries_of(list, aliases.deep_view(), deps.deep_view(), 0));
    while i < targets.len()
        invariant
            i <= targets.len(),
            list == targets.deep_view(),
            all_built(list, deps.deep_view()),
            out.deep_view() == libraries_of(list, aliases.deep_view(), deps.deep_view(), i as int),
        decreases targets.len() - i,
    {
        assert(list[i as int] == targets@[i as int]@);
        let target = targets[i].as_str();
        let name = match aliases.get(target) {
            Some(name) => name.clone(),
            None => rust_name(target),
        };
        if let Some(output) = deps.get(target) {
            add_under_name(&mut out, name.as_str(), &output.outputs);
        }
        i = i + 1;
    }
    out
}

/// The files in the first `n` of `list`, each a name and a path with `:` between
/// them.
pub open spec fn products_in(list: Seq<Seq<char>>, n: int) -> Products
    decreases n,
{
    if n <= 0 {
        Seq::empty()
    } else {
        match cut(list[n - 1], ':') {
            Some(row) => products_in(list, n - 1).push(row),
            None => products_in(list, n - 1),
        }
    }
}

/// The files that a build hands on to what is linked with it.
pub open spec fn handed_on(output: Output) -> Products {
    let list = found_number(output.extras, TRANSITIVE_PRODUCTS).unwrap_or(Seq::empty());
    products_in(list, list.len() as int)
}

/// The files that the first `n` of `targets` hand on.
pub open spec fn all_handed_on(targets: Seq<Seq<char>>, deps: Deps, n: int) -> Products
    decreases n,
{
    if n <= 0 {
        Seq::empty()
    } else {
        all_handed_on(targets, deps, n - 1) + handed_on(found(deps, targets[n - 1])->0)
    }
}

/// The files that a target is linked with: those that are handed on, and the
/// libraries.
pub open spec fn products_of(config: ConfigModel, deps: Deps) -> Products {
    let targets = runtime_targets(config);
    all_handed_on(targets, deps, targets.len() as int) + linked(config, deps)
}

fn add_handed_on(out: &mut Vec<(String, String)>, output: &BuildOutput)
    ensures
        final(out).deep_view() == old(out).deep_view() + handed_on(output.deep_view()),
{
    if let Some(values) = output.extras.get(TRANSITIVE_PRODUCTS) {
        let ghost list = values.deep_view();
        let mut i: usize = 0;
        assert(out.deep_view() =~= old(out).deep_view() + products_in(list, 0));
        while i < values.len()
            invariant
                i <= values.len(),
                list == values.deep_view(),
                out.deep_view() == old(out).deep_view() + products_in(list, i as int),
            decreases values.len() - i,
        {
            assert(list[i as int] == values@[i as int]@);
            if let Some(row) = split_once(values[i].as_str(), ':') {
                keep(out, row);
            }
            i = i + 1;
            assert(out.deep_view() =~= old(out).deep_view() + products_in(list, i as int));
        }
    }
    assert(out.deep_view() =~= old(out).deep_view() + handed_on(output.deep_view()));
}

pub fn transitive_deps(config: &Config, deps: &Table<BuildOutput>) -> (r: Vec<(String, String)>)
    requires
        all_built(runtime_targets(config.deep_view()), deps.deep_view()),
    ensures
        r.deep_view() == products_of(config.deep_view(), deps.deep_view()),
{
    let targets = runtime_dependencies(config);
    let ghost list = targets.deep_view();
    let mut out: Vec<(String, String)> = Vec::new();
    let mut i: usize = 0;
    assert(out.deep_view() =~= all_handed_on(list, deps.deep_view(), 0));
    while i < targets.len()
        invariant
            i <= targets.len(),
            list == targets.deep_view(),
            all_built(list, deps.deep_view()),
            out.deep_view() == all_handed_on(list, deps.deep_view(), i as int),
        decreases targets.len() - i,
    {
        assert(list[i as int] == targets@[i as int]@);
        if let Some(output) = deps.get(targets[i].as_str()) {
            add_handed_on(&mut out, output);
        }
        i = i + 1;
    }
    let more = libraries(config, deps);
    keep_all(&mut out, &more);
    out
}

/// Whether each of `products` lies in a directory.
pub open spec fn all_in_dirs(products: Products) -> bool {
    forall|i: int| 0 <= i < products.len() ==> parent_of((#[trigger] products[i]).1) is Some
}

/// The arguments that name the first `n` libraries.
pub open spec fn library_args(libraries: Products, n: int) -> Seq<Seq<char>>
    decreases n,
{
    if n <= 0 {
        Seq::empty()
    } else {
        library_args(libraries, n - 1).push("--extern"@).push(libraries[n - 1].0 + "="@ + libraries[n - 1].1)
    }
}

/// The arguments that name the directories of the first `n` files.
pub open spec fn search_args(products: Products, n: int) -> Seq<Seq<char>>
    decreases n,
{
    if n <= 0 {
        Seq::empty()
    } else {
        search_args(products, n - 1).push("-L"@).push(parent_of(products[n - 1].1)->0)
    }
}

/// The arguments that link the native library `name` in `dir`.
pub open spec fn native_link(name: Seq<char>, dir: Seq<char>) -> Seq<Seq<char>> {
    seq!["-L"@, "native="@ + dir, "-l"@, "static="@ + name]
}

/// The arguments that link the native libraries among the first `n` files.
pub open spec fn native_product_args(products: Products, n: int) -> Seq<Seq<char>>
    decreases n,
{
    if n <= 0 {
        Seq::empty()
    } else {
        match (after_prefix(products[n - 1].0, "native_"@), parent_of(products[n - 1].1)) {
            (Some(name), Some(dir)) => native_product_args(products, n - 1) + native_link(name, dir),
            _ => native_product_args(products, n - 1),
        }
    }
}

/// The arguments that link the first `n` native libraries that were made.
pub open spec fn native_build_args(libs: Seq<NativeSteps>, n: int) -> Seq<Seq<char>>
    decreases n,
{
    if n <= 0 {
        Seq::empty()
    } else {
        native_build_args(libs, n - 1) + native_link(
            libs[n - 1].name,
            parent_of(libs[n - 1].path).unwrap_or(Seq::empty()),
        )
    }
}

/// The arguments that switch on the first `n` features.
pub open spec fn feature_args(features: Seq<Seq<char>>, n: int) -> Seq<Seq<char>>
    decreases n,
{
    if n <= 0 {
        Seq::empty()
    } else {
        feature_args(features, n - 1).push("--cfg"@).push("feature=\""@ + features[n - 1] + "\""@)
    }
}

/// The arguments that set the first `n` conditions.
pub open spec fn condition_args(conditions: Seq<Seq<char>>, n: int) -> Seq<Seq<char>>
    decreases n,
{
    if n <= 0 {
        Seq::empty()
    } else {
        condition_args(conditions, n - 1).push("--cfg"@).push(conditions[n - 1])
    }
}

/// The arguments that crates of the kind of macros need.
pub open spec fn macro_args(config: ConfigModel) -> Seq<Seq<char>> {
    if extra_of(config, CRATE_TYPE) == Some("proc-macro"@) {
        seq!["--extern"@, "proc_macro"@]
    } else {
        Seq::empty()
    }
}

/// The arguments with which any crate is compiled.
pub open spec fn common_args(config: ConfigModel, deps: Deps) -> Seq<Seq<char>> {
    let libs = linked(config, deps);
    let products = products_of(config, deps);
    let features = extras_of(config, FEATURES);
    let conditions = extras_of(config, RUSTC_CFGS);
    library_args(libs, libs.len() as int) + search_args(products, products.len() as int) + native_product_args(
        products,
        products.len() as int,
    ) + feature_args(features, features.len() as int) + condition_args(conditions, conditions.len() as int)
        + macro_args(config)
}

fn add_library_args(args: &mut Vec<String>, libs: &Vec<(String, String)>)
    ensures
        final(args).deep_view() == old(args).deep_view() + library_args(libs.deep_view(), libs.deep_view().len() as int),
{
    let ghost list = libs.deep_view();
    let mut i: usize = 0;
    assert(args.deep_view() =~= old(args).deep_view() + library_args(list, 0));
    while i < libs.len()
        invariant
            i <= libs.len(),
            list == libs.deep_view(),
            args.deep_view() == old(args).deep_view() + library_args(list, i as int),
        decreases libs.len() - i,
    {
        assert(list[i as int] == (libs@[i as int].0@, libs@[i as int].1@));
        keep(args, "--extern".to_owned());
        keep(args, cat3(libs[i].0.as_str(), "=", libs[i].1.as_str()));
        i = i + 1;
        assert(args.deep_view() =~= old(args).deep_view() + library_args(list, i as int));
    }
}

fn add_search_args(args: &mut Vec<String>, products: &Vec<(String, String)>)
    requires
        all_in_dirs(products.deep_view()),
    ensures
        final(args).deep_view() == old(args).deep_view() + search_args(
            products.deep_view(),
            products.deep_view().len() as int,
        ),
{
    let ghost list = products.deep_view();
    let mut i: usize = 0;
    assert(args.deep_view() =~= old(args).deep_view() + search_args(list, 0));
    while i < products.len()
        invariant
            i <= products.len(),
            list == products.deep_view(),
            all_in_dirs(list),
            args.deep_view() == old(args).deep_view() + search_args(list, i as int),
        decreases products.len() - i,
    {
        assert(list[i as int] == (products@[i as int].0@, products@[i as int].1@));
        if let Some(dir) = parent(products[i].1.as_str()) {
            keep(args, "-L".to_owned());
            keep(args, dir);
        }
        i = i + 1;
        assert(args.deep_view() =~= old(args).deep_view() + search_args(list, i as int));
    }
}

fn add_native_link(args: &mut Vec<String>, name: &str, dir: &str)
    ensures
        final(args).deep_view() == old(args).deep_view() + native_link(name@, dir@),
{
    keep(args, "-L".to_owned());
    keep(args, cat2("native=", dir));
    keep(args, "-l".to_owned());
    keep(args, cat2("static=", name));
    assert(args.deep_view() =~= old(args).deep_view() + native_link(name@, dir@));
}

fn add_native_product_args(args: &mut Vec<String>, products: &Vec<(String, String)>)
    ensures
        final(args).deep_view() == old(args).deep_view() + native_product_args(
            products.deep_view(),
            products.deep_view().len() as int,
        ),
{
    let ghost list = products.deep_view();
    let mut i: usize = 0;
    assert(args.deep_view() =~= old(args).deep_view() + native_product_args(list, 0));
    while i < products.len()
        invariant
            i <= products.len(),
            list == products.deep_view(),
            args.deep_view() == old(args).deep_view() + native_product_args(list, i as int),
        decreases products.len() - i,
    {
        assert(list[i as int] == (products@[i as int].0@, products@[i as int].1@));
        if let Some(name) = strip_prefix(products[i].0.as_str(), "native_") {
            if let Some(dir) = parent(products[i].1.as_str()) {
                add_native_link(args, name.as_str(), dir.as_str());
            }
        }
        i = i + 1;
        assert(args.deep_view() =~= old(args).deep_view() + native_product_args(list, i as int));
    }
}

/// Adds the arguments that link native libraries that were made.
pub fn add_native_build_args(args: &mut Vec<String>, libs: &Vec<NativeBuild>)
    ensures
        final(args).deep_view() == old(args).deep_view() + native_build_args(
            libs.deep_view(),
            libs.deep_view().len() as int,
        ),
{
    let ghost list = libs.deep_view();
    let mut i: usize = 0;
    assert(args.deep_view() =~= old(args).deep_view() + native_build_args(list, 0));
    while i < libs.len()
        invariant
            i <= libs.len(),
            list == libs.deep_view(),
            args.deep_view() == old(args).deep_view() + native_build_args(list, i as int),
        decreases libs.len() - i,
    {
        assert(list[i as int] == libs@[i as int].deep_view());
        let dir = match parent(libs[i].path.as_str()) {
            Some(dir) => dir,
            None => String::new(),
        };
        assert(parent_of(list[i as int].path) is None ==> dir@ =~= Seq::empty());
        add_native_link(args, libs[i].name.as_str(), dir.as_str());
        i = i + 1;
        assert(args.deep_view() =~= old(args).deep_view() + native_build_args(list, i as int));
    }
}

fn add_feature_args(args: &mut Vec<String>, features: &Vec<String>)
    ensures
        final(args).deep_view() == old(args).deep_view() + feature_args(
            features.deep_view(),
            features.deep_view().len() as int,
        ),
{
    let ghost list = features.deep_view();
    let mut i: usize = 0;
    assert(args.deep_view() =~= old(args).deep_view() + feature_args(list, 0));
    while i < features.len()
        invariant
            i <= features.len(),
            list == features.deep_view(),
            args.deep_view() == old(args).deep_view() + feature_args(list, i as int),
        decreases features.len() - i,
    {
        assert(list[i as int] == features@[i as int]@);
        keep(args, "--cfg".to_owned());
        keep(args, cat3("feature=\"", features[i].as_str(), "\""));
        i = i + 1;
        assert(args.deep_view() =~= old(args).deep_view() + feature_args(list, i as int));
    }
}

fn add_condition_args(args: &mut Vec<String>, conditions: &Vec<String>)
    ensures
        final(args).deep_view() == old(args).deep_view() + condition_args(
            conditions.deep_view(),
            conditions.deep_view().len() as int,
        ),
{
    let ghost list = conditions.deep_view();
    let mut i: usize = 0;
    assert(args.deep_view() =~= old(args).deep_view() + condition_args(list, 0));
    while i < conditions.len()
        invariant
            i <= conditions.len(),
            list == conditions.deep_view(),
            args.deep_view() == old(args).deep_view() + condition_args(list, i as int),
        decreases conditions.len() - i,
    {
        assert(list[i as int] == conditions@[i as int]@);
        keep(args, "--cfg".to_owned());
        keep(args, conditions[i].clone());
        i = i + 1;
        assert(args.deep_view() =~= old(args).deep_view() + condition_args(list, i as int));
    }
}

pub fn common_rustc_args(config: &Config, deps: &Table<BuildOutput>) -> (r: Vec<String>)
    requires
        all_built(runtime_targets(config.deep_view()), deps.deep_view()),
        all_in_dirs(products_of(config.deep_view(), deps.deep_view())),
    ensures
        r.deep_view() == common_args(config.deep_view(), deps.deep_view()),
{
    let libs = libraries(config, deps);
    let products = transitive_deps(config, deps);
    let mut args: Vec<String> = Vec::new();
    assert(args.deep_view() =~= Seq::<Seq<char>>::empty());
    add_library_args(&mut args, &libs);
    add_search_args(&mut args, &products);
    add_native_product_args(&mut args, &products);
    add_feature_args(&mut args, &extras(config, FEATURES));
    add_condition_args(&mut args, &extras(config, RUSTC_CFGS));
    if let Some(kind) = extra(config, CRATE_TYPE) {
        if same(kind.as_str(), "proc-macro") {
            keep(&mut args, "--extern".to_owned());
            keep(&mut args, "proc_macro".to_owned());
        }
    }
    assert(args.deep_view() =~= common_args(config.deep_view(), deps.deep_view()));
    args
}

/// The variables in the first `n` of `list`.
pub open spec fn variables_in(list: Seq<Seq<char>>, n: int) -> Products
    decreases n,
{
    if n <= 0 {
        Seq::empty()
    } else {
        match cut(list[n - 1], '=') {
            Some(row) => variables_in(list, n - 1).push(row),
            None => variables_in(list, n - 1),
        }
    }
}

/// The variables that the compiler sees.
pub open spec fn compiler_env(config: ConfigModel) -> Products {
    let list = extras_of(config, RUSTC_ENV);
    variables_in(list, list.len() as int)
}

pub fn rustc_env(config: &Config) -> (r: Vec<(String, String)>)
    ensures
        r.deep_view() == compiler_env(config.deep_view()),
{
    let values = extras(config, RUSTC_ENV);
    let ghost list = values.deep_view();
    let mut out: Vec<(String, String)> = Vec::new();
    let mut i: usize = 0;
    assert(out.deep_view() =~= variables_in(list, 0));
    while i < values.len()
        invariant
            i <= values.len(),
            list == values.deep_view(),
            out.deep_view() == variables_in(list, i as int),
        decreases values.len() - i,
    {
        assert(list[i as int] == values@[i as int]@);
        if let Some(row) = split_once(values[i].as_str(), '=') {
            keep(&mut out, row);
        }
        i = i + 1;
    }
    out
}

} // verus!
