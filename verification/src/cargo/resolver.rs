//! The Cargo ecosystem's part in a build: which packages a plan needs, and the
//! configuration of each package's target.
//!
//! The sources of a package come as an archive: the declared `curl` downloads it
//! into the directory that the package has in the cache, and the declared `tar`
//! unpacks it there. `cargo` is run for a plan's metadata alone, and no
//! `cargo fetch` fills a registry of its own.

use vstd::prelude::*;

use crate::cargo::cache::{plan_of_document, read_cached_dependency_plan};
use crate::cargo::cfg::Facts;
use crate::cargo::lock::{
    edges_of, entries_of, lock_entries, lock_parts, locked_edges, packages_in, parse_cargo_target, parse_lockstring,
    parse_packages, target_parts,
};
use crate::cargo::manifest::{manifest_of_text, parse_cargo_toml, CargoToml, Manifest, Needed, Rows};
use crate::cargo::plan::{
    metadata_to_dependency_plan, plan_id, plan_identity, plan_manifest, plan_of_output, platform, synthetic_manifest,
    ManifestFile,
};
use crate::cargo::recipes::{
    build_recipe, encode_native_static_lib, encoded_lib, known_recipe, CargoBuildRecipe, CargoNativeStaticLib, Recipe,
    StaticLib,
};
use crate::config_extra_keys;
use crate::context::{extend, locked_dependency, locked_version, with_rows, work_dir};
use crate::documents::{json_text, read_toml, toml_document, toml_rows};
use crate::error::{error, fault, outcome, Error, ErrorKind, Fault};
use crate::model::{Config, ConfigModel, DependencyPlan, ExternalRequirement, Plan, PluginContext, Requirement};
use crate::path::{file_name, file_name_of, join_path, joined_path};
use crate::table::{found, Numbered, Table};
use crate::text::{
    begins, begins_with, cat2, cat3, cat5, cut_last, keep, replace_char, rsplit_once, same, swapped, Duplicate,
};
use crate::value::ConfigTable;

verus! {

pub struct CargoResolver {
    pub locked_dependencies: Table<Table<String>>,
    pub build_recipes: Table<CargoBuildRecipe>,
}

/// What a `CargoResolver` knows.
#[verifier::ext_equal]
pub struct Resolver {
    pub locked_dependencies: Seq<(Seq<char>, Seq<(Seq<char>, Seq<char>)>)>,
    pub build_recipes: Seq<(Seq<char>, Recipe)>,
}

impl DeepView for CargoResolver {
    type V = Resolver;

    open spec fn deep_view(&self) -> Resolver {
        Resolver {
            locked_dependencies: self.locked_dependencies.deep_view(),
            build_recipes: self.build_recipes.deep_view(),
        }
    }
}

pub struct CargoDependencyPlanner {}

/// What is known after a lock file was read.
pub open spec fn resolver_of_rows(rows: Rows) -> Result<(Resolver, Seq<(Seq<char>, Seq<char>)>), Fault> {
    match packages_in(rows) {
        Err(e) => Err(e),
        Ok(packages) => Ok(
            (
                Resolver {
                    locked_dependencies: locked_edges(packages, packages.len() as int),
                    build_recipes: Seq::empty(),
                },
                lock_entries(packages, packages.len() as int),
            ),
        ),
    }
}

/// What is known after the lock file `content` was read.
pub open spec fn resolver_of_lock(content: Seq<char>) -> Result<(Resolver, Seq<(Seq<char>, Seq<char>)>), Fault> {
    match toml_rows(toml_document(content)) {
        Err(e) => Err(e),
        Ok(rows) => resolver_of_rows(rows),
    }
}

/// The rows that `pairs` collect to, each with the rows that its own collect to.
pub open spec fn collected_edges(pairs: Seq<(Seq<char>, Seq<(Seq<char>, Seq<char>)>)>) -> Seq<
    (Seq<char>, Seq<(Seq<char>, Seq<char>)>),
> {
    pairs.map_values(
        |pair: (Seq<char>, Seq<(Seq<char>, Seq<char>)>)| (pair.0, with_rows(Seq::empty(), pair.1)),
    )
}

/// The recipe that a resolver has for a package: one given for the target, one
/// given for the package in any version, or the known one.
pub open spec fn recipe_for(
    resolver: Resolver,
    facts: Facts,
    target: Seq<char>,
    package: Seq<char>,
    version: Seq<char>,
) -> Option<Recipe> {
    match found(resolver.build_recipes, target) {
        Some(recipe) => Some(recipe),
        None => match found(resolver.build_recipes, "cargo://"@ + package) {
            Some(recipe) => Some(recipe),
            None => known_recipe(facts, package, version),
        },
    }
}

/// What has to be on disk before the target of a package can be resolved.
pub struct CrateRequest {
    pub crate_name: String,
    pub crate_version: String,
    pub features: Vec<String>,
    pub workdir: String,
    pub url: String,
    pub tar_dest: String,
    pub dest: String,
}

/// What a `CrateRequest` says.
#[verifier::ext_equal]
pub struct Fetch {
    pub crate_name: Seq<char>,
    pub crate_version: Seq<char>,
    pub features: Seq<Seq<char>>,
    pub workdir: Seq<char>,
    pub url: Seq<char>,
    pub tar_dest: Seq<char>,
    pub dest: Seq<char>,
}

impl DeepView for CrateRequest {
    type V = Fetch;

    open spec fn deep_view(&self) -> Fetch {
        Fetch {
            crate_name: self.crate_name@,
            crate_version: self.crate_version@,
            features: self.features.deep_view(),
            workdir: self.workdir@,
            url: self.url@,
            tar_dest: self.tar_dest@,
            dest: self.dest@,
        }
    }
}

/// What is done next to have the sources of a package.
pub enum FetchStep {
    /// The file at the address `url` is downloaded to `dest`.
    Download { url: String, dest: String },
    /// The directory is removed.
    Clear(String),
    /// The directory `dest` is made, and `tar` is run with `args`.
    Unpack { dest: String, args: Vec<String> },
    /// The sources are there.
    Ready,
}

/// What a `FetchStep` says.
#[verifier::ext_equal]
pub enum FetchMove {
    Download { url: Seq<char>, dest: Seq<char> },
    Clear(Seq<char>),
    Unpack { dest: Seq<char>, args: Seq<Seq<char>> },
    Ready,
}

impl DeepView for FetchStep {
    type V = FetchMove;

    open spec fn deep_view(&self) -> FetchMove {
        match self {
            FetchStep::Download { url, dest } => FetchMove::Download { url: url@, dest: dest@ },
            FetchStep::Clear(dir) => FetchMove::Clear(dir@),
            FetchStep::Unpack { dest, args } => FetchMove::Unpack { dest: dest@, args: args.deep_view() },
            FetchStep::Ready => FetchMove::Ready,
        }
    }
}

/// The arguments that `tar` unpacks a package with.
pub open spec fn unpack_args(fetch: Fetch) -> Seq<Seq<char>> {
    seq!["xzvf"@, fetch.tar_dest, "-C"@, fetch.dest, "--strip-components=1"@]
}

/// What is done next to have the sources that `fetch` names: the archive is
/// downloaded unless it is there and not empty; it is unpacked into a new
/// directory unless the manifest is there.
pub open spec fn fetch_move(fetch: Fetch, archive: bool, manifest: bool, directory: bool) -> FetchMove {
    if !archive {
        FetchMove::Download { url: fetch.url, dest: fetch.tar_dest }
    } else if manifest {
        FetchMove::Ready
    } else if directory {
        FetchMove::Clear(fetch.dest)
    } else {
        FetchMove::Unpack { dest: fetch.dest, args: unpack_args(fetch) }
    }
}

impl CrateRequest {
    /// What is done next: `archive` says whether the archive is there and not
    /// empty, `manifest` whether the unpacked manifest is, and `directory`
    /// whether the directory is that the archive is unpacked to.
    pub fn next_step(&self, archive: bool, manifest: bool, directory: bool) -> (r: FetchStep)
        ensures
            r.deep_view() == fetch_move(self.deep_view(), archive, manifest, directory),
    {
        if !archive {
            FetchStep::Download { url: self.url.clone(), dest: self.tar_dest.clone() }
        } else if manifest {
            FetchStep::Ready
        } else if directory {
            FetchStep::Clear(self.dest.clone())
        } else {
            let mut args: Vec<String> = Vec::new();
            keep(&mut args, "xzvf".to_owned());
            keep(&mut args, self.tar_dest.clone());
            keep(&mut args, "-C".to_owned());
            keep(&mut args, self.dest.clone());
            keep(&mut args, "--strip-components=1".to_owned());
            assert(args.deep_view() =~= unpack_args(self.deep_view()));
            FetchStep::Unpack { dest: self.dest.clone(), args }
        }
    }
}

/// The lock string of a target: the locked one, or the version in its name.
pub open spec fn lock_string_of(lockfile: Seq<(Seq<char>, Seq<char>)>, target: Seq<char>, version: Option<Seq<char>>) -> Result<
    Seq<char>,
    Fault,
> {
    match (locked_version(lockfile, target), version) {
        (Ok(locked), _) => Ok(locked),
        (Err(_), Some(version)) => Ok(version),
        (Err(e), None) => Err(e),
    }
}

/// What has to be fetched for `target`.
pub open spec fn fetch_for(
    cache_dir: Seq<char>,
    lockfile: Seq<(Seq<char>, Seq<char>)>,
    attached: Option<Seq<char>>,
    target: Seq<char>,
) -> Result<Fetch, Fault> {
    match target_parts(target) {
        Err(e) => Err(e),
        Ok((name, version)) => match lock_string_of(lockfile, target, version) {
            Err(e) => Err(e),
            Ok(locked) => {
                let (crate_version, features) = lock_parts(locked);
                let workdir = work_dir(cache_dir, lockfile, attached, None);
                Ok(
                    Fetch {
                        crate_name: name,
                        crate_version,
                        features,
                        workdir,
                        url: "https://crates.io/api/v1/crates/"@ + name + "/"@ + crate_version + "/download"@,
                        tar_dest: joined_path(workdir, "crate.tar"@),
                        dest: joined_path(workdir, "crate"@),
                    },
                )
            },
        },
    }
}

/// The target of a dependency: as the resolver has it locked, as the context
/// has it locked, or the package in any version.
pub open spec fn target_of_package(
    resolver: Resolver,
    locked: Seq<(Seq<char>, Seq<(Seq<char>, Seq<char>)>)>,
    target: Seq<char>,
    package: Seq<char>,
) -> Seq<char> {
    match locked_dependency(resolver.locked_dependencies, target, package) {
        Some(found) => found,
        None => match locked_dependency(locked, target, package) {
            Some(found) => found,
            None => "cargo://"@ + package,
        },
    }
}

/// The targets of the first `n` dependencies.
pub open spec fn dependency_targets(
    resolver: Resolver,
    locked: Seq<(Seq<char>, Seq<(Seq<char>, Seq<char>)>)>,
    target: Seq<char>,
    deps: Seq<Needed>,
) -> Seq<Seq<char>> {
    deps.map_values(|d: Needed| target_of_package(resolver, locked, target, d.package))
}

/// The names under which the dependencies are used, each behind its target.
pub open spec fn dependency_aliases(
    resolver: Resolver,
    locked: Seq<(Seq<char>, Seq<(Seq<char>, Seq<char>)>)>,
    target: Seq<char>,
    deps: Seq<Needed>,
) -> Seq<Seq<char>> {
    deps.map_values(
        |d: Needed| target_of_package(resolver, locked, target, d.package) + "="@ + swapped(d.alias, '-', '_'),
    )
}

/// The file that the build script of a package would have generated.
pub open spec fn generated_source(package: Seq<char>, version: Seq<char>) -> Option<Seq<char>> {
    if version != "1.0.228"@ {
        None
    } else if package == "serde_core"@ {
        Some(
            "#[doc(hidden)]\npub mod __private228 {\n    #[doc(hidden)]\n    pub use crate::private::*;\n}\n"@,
        )
    } else if package == "serde"@ {
        Some(
            "#[doc(hidden)]\npub mod __private228 {\n    #[doc(hidden)]\n    pub use crate::private::*;\n}\nuse serde_core::__private228 as serde_core_private;\n"@,
        )
    } else {
        None
    }
}

/// The text to write to `private.rs` in the directory `out` of a package, where
/// its sources need one.
pub fn hermetic_cargo_source(package: &str, version: &str) -> (r: Option<String>)
    ensures
        r.deep_view() == generated_source(package@, version@),
{
    if !same(version, "1.0.228") {
        None
    } else if same(package, "serde_core") {
        Some(
            "#[doc(hidden)]\npub mod __private228 {\n    #[doc(hidden)]\n    pub use crate::private::*;\n}\n".to_owned(),
        )
    } else if same(package, "serde") {
        Some(
            "#[doc(hidden)]\npub mod __private228 {\n    #[doc(hidden)]\n    pub use crate::private::*;\n}\nuse serde_core::__private228 as serde_core_private;\n".to_owned(),
        )
    } else {
        None
    }
}

/// The directory with the generated file of a package, where it has one.
pub open spec fn generated_dir(workdir: Seq<char>, package: Seq<char>, version: Seq<char>) -> Option<Seq<char>> {
    match generated_source(package, version) {
        Some(_) => Some(joined_path(workdir, "out"@)),
        None => None,
    }
}

pub fn hermetic_cargo_out_dir(workdir: &str, package: &str, version: &str) -> (r: Option<String>)
    ensures
        r.deep_view() == generated_dir(workdir@, package@, version@),
{
    match hermetic_cargo_source(package, version) {
        Some(_) => Some(join_path(workdir, "out")),
        None => None,
    }
}

/// The conditions that a package is compiled with.
pub open spec fn compile_cfgs(recipe: Option<Recipe>, package: Seq<char>, version: Seq<char>) -> Seq<Seq<char>> {
    let given = match recipe {
        Some(recipe) => recipe.rustc_cfgs,
        None => Seq::empty(),
    };
    if package == "serde"@ && version == "1.0.228"@ {
        given.push("if_docsrs_then_no_serde_core"@)
    } else {
        given
    }
}

/// The native libraries that a package is linked with, each as one text.
pub open spec fn encoded_libs(recipe: Option<Recipe>) -> Seq<Seq<char>> {
    match recipe {
        Some(recipe) => recipe.native_static_libs.map_values(|lib: StaticLib| encoded_lib(lib)),
        None => Seq::empty(),
    }
}

/// The variables that a package is compiled with.
pub open spec fn compile_env(m: Manifest, out_dir: Option<Seq<char>>) -> Seq<Seq<char>> {
    match out_dir {
        Some(dir) => m.rustc_env.push("OUT_DIR="@ + dir),
        None => m.rustc_env,
    }
}

/// What the plugin that builds a package reads of its configuration.
pub open spec fn package_extras(
    m: Manifest,
    fetch: Fetch,
    aliases: Seq<Seq<char>>,
    recipe: Option<Recipe>,
    out_dir: Option<Seq<char>>,
) -> Seq<(u32, Seq<Seq<char>>)> {
    seq![
        (config_extra_keys::FEATURES, m.features),
        (config_extra_keys::CRATE_NAME, seq![m.crate_name]),
        (config_extra_keys::CRATE_TYPE, seq![m.crate_type]),
        (config_extra_keys::EDITION, seq![m.edition]),
        (config_extra_keys::ROOT_SOURCE, seq![m.root_source]),
        (config_extra_keys::CRATE_ROOT, seq![fetch.dest]),
        (config_extra_keys::DEPENDENCY_ALIASES, aliases),
        (config_extra_keys::RUSTC_CFGS, compile_cfgs(recipe, fetch.crate_name, fetch.crate_version)),
        (config_extra_keys::NATIVE_STATIC_LIBS, encoded_libs(recipe)),
        (config_extra_keys::RUSTC_ENV, compile_env(m, out_dir)),
    ]
}

/// The configuration of a package's target, once its manifest was read.
pub open spec fn package_config(
    resolver: Resolver,
    facts: Facts,
    locked: Seq<(Seq<char>, Seq<(Seq<char>, Seq<char>)>)>,
    target: Seq<char>,
    fetch: Fetch,
    m: Manifest,
    rust_files: Seq<Seq<char>>,
) -> Result<ConfigModel, Fault> {
    let recipe = recipe_for(resolver, facts, target, fetch.crate_name, fetch.crate_version);
    if m.has_build_script && recipe is None {
        Err(
            fault(
                ErrorKind::PermissionDenied,
                target + " declares build.rs, but no hermetic Cargo build recipe was provided"@,
            ),
        )
    } else {
        Ok(
            ConfigModel {
                dependencies: dependency_targets(resolver, locked, target, m.dependencies),
                external_requirements: Seq::empty(),
                build_plugin: "@rust_plugin"@,
                location: None,
                sources: rust_files,
                build_dependencies: seq!["@rust_compiler"@],
                kind: "rust_library"@,
                extras: package_extras(
                    m,
                    fetch,
                    dependency_aliases(resolver, locked, target, m.dependencies),
                    recipe,
                    generated_dir(fetch.workdir, fetch.crate_name, fetch.crate_version),
                ),
                hash: 0,
            },
        )
    }
}

/// The configuration of `target`, where the manifest of its package has the
/// text `content`.
pub open spec fn resolved_package(
    resolver: Resolver,
    facts: Facts,
    locked: Seq<(Seq<char>, Seq<(Seq<char>, Seq<char>)>)>,
    target: Seq<char>,
    fetch: Fetch,
    content: Seq<char>,
    script_exists: bool,
    rust_files: Seq<Seq<char>>,
) -> Result<ConfigModel, Fault> {
    match manifest_of_text(facts, joined_path(fetch.dest, "Cargo.toml"@), content, script_exists, fetch.features) {
        Err(e) => Err(e),
        Ok(m) => package_config(resolver, facts, locked, target, fetch, m, rust_files),
    }
}

fn one(s: String) -> (r: Vec<String>)
    ensures
        r.deep_view() == seq![s@],
{
    let mut out: Vec<String> = Vec::new();
    keep(&mut out, s);
    assert(out.deep_view() =~= seq![s@]);
    out
}

fn encode_libs(libs: &Vec<CargoNativeStaticLib>) -> (r: Vec<String>)
    ensures
        r.deep_view() == libs.deep_view().map_values(|lib: StaticLib| encoded_lib(lib)),
{
    let ghost all = libs.deep_view().map_values(|lib: StaticLib| encoded_lib(lib));
    let mut out: Vec<String> = Vec::new();
    let mut i: usize = 0;
    while i < libs.len()
        invariant
            i <= libs.len(),
            all == libs.deep_view().map_values(|lib: StaticLib| encoded_lib(lib)),
            out.deep_view() == all.take(i as int),
        decreases libs.len() - i,
    {
        keep(&mut out, encode_native_static_lib(&libs[i]));
        i = i + 1;
        assert(all.take(i as int) == all.take(i - 1).push(all[i - 1]));
    }
    assert(all.take(i as int) == all);
    out
}

impl CargoResolver {
    pub fn new() -> (r: Self)
        ensures
            r.deep_view() == (Resolver { locked_dependencies: Seq::empty(), build_recipes: Seq::empty() }),
    {
        CargoResolver { locked_dependencies: Table::new(), build_recipes: Table::new() }
    }

    pub fn with_build_recipes(self, recipes: Vec<(String, CargoBuildRecipe)>) -> (r: Self)
        ensures
            r.deep_view() == (Resolver {
                build_recipes: with_rows(self.deep_view().build_recipes, recipes.deep_view()),
                ..self.deep_view()
            }),
    {
        let mut resolver = self;
        extend(&mut resolver.build_recipes, &recipes);
        resolver
    }

    pub fn with_locked_dependencies(self, dependencies: Vec<(String, Vec<(String, String)>)>) -> (r: Self)
        ensures
            r.deep_view() == (Resolver {
                locked_dependencies: with_rows(
                    self.deep_view().locked_dependencies,
                    collected_edges(dependencies.deep_view()),
                ),
                ..self.deep_view()
            }),
    {
        let ghost all = collected_edges(dependencies.deep_view());
        let mut edges: Vec<(String, Table<String>)> = Vec::new();
        let mut i: usize = 0;
        while i < dependencies.len()
            invariant
                i <= dependencies.len(),
                all == collected_edges(dependencies.deep_view()),
                edges.deep_view() == all.take(i as int),
            decreases dependencies.len() - i,
        {
            let mut rows: Table<String> = Table::new();
            extend(&mut rows, &dependencies[i].1);
            keep(&mut edges, (dependencies[i].0.clone(), rows));
            i = i + 1;
            assert(all.take(i as int) == all.take(i - 1).push(all[i - 1]));
        }
        assert(all.take(i as int) == all);
        let mut resolver = self;
        extend(&mut resolver.locked_dependencies, &edges);
        resolver
    }

    /// Reads a lock file that was parsed already.
    pub fn from_lock_table(table: &ConfigTable) -> (r: Result<(Self, Table<String>), Error>)
        ensures
            outcome(r) == resolver_of_rows(table.deep_view()),
    {
        let packages = parse_packages(table)?;
        let resolver = CargoResolver { locked_dependencies: edges_of(&packages), build_recipes: Table::new() };
        Ok((resolver, entries_of(&packages)))
    }

    /// Reads the lock file `content`: a resolver for its packages, and their
    /// locked versions.
    pub fn from_cargo_lock(content: &str) -> (r: Result<(Self, Table<String>), Error>)
        ensures
            outcome(r) == resolver_of_lock(content@),
    {
        let table = read_toml(content)?;
        CargoResolver::from_lock_table(&table)
    }

    pub fn can_resolve(&self, target: &str) -> (r: bool)
        ensures
            r == begins(target@, "cargo://"@),
    {
        begins_with(target, "cargo://")
    }

    fn build_recipe(
        &self,
        context: &PluginContext,
        target: &str,
        package: &str,
        version: &str,
    ) -> (r: Option<CargoBuildRecipe>)
        ensures
            r.deep_view() == recipe_for(
                self.deep_view(),
                context.target_config.deep_view(),
                target@,
                package@,
                version@,
            ),
    {
        if let Some(recipe) = self.build_recipes.get(target) {
            return Some(recipe.duplicate());
        }
        if let Some(recipe) = self.build_recipes.get(cat2("cargo://", package).as_str()) {
            return Some(recipe.duplicate());
        }
        build_recipe(context, package, version)
    }

    /// What has to be fetched before `target` can be resolved.
    pub fn crate_request(&self, context: &PluginContext, target: &str) -> (r: Result<CrateRequest, Error>)
        ensures
            outcome(r) == fetch_for(
                context.cache_dir@,
                context.lockfile.deep_view(),
                context.target.deep_view(),
                target@,
            ),
    {
        let (crate_name, target_version) = parse_cargo_target(target)?;
        let locked = match context.get_locked_version(target) {
            Ok(locked) => locked,
            Err(e) => match target_version {
                Some(version) => version,
                None => return Err(e),
            },
        };
        let (crate_version, features) = parse_lockstring(locked.as_str());
        let workdir = context.working_directory();
        let url = cat5(
            "https://crates.io/api/v1/crates/",
            crate_name.as_str(),
            "/",
            crate_version.as_str(),
            "/download",
        );
        let tar_dest = join_path(workdir.as_str(), "crate.tar");
        let dest = join_path(workdir.as_str(), "crate");
        Ok(CrateRequest { crate_name, crate_version, features, workdir, url, tar_dest, dest })
    }

    fn dependency_target(&self, context: &PluginContext, target: &str, package: &str) -> (r: String)
        ensures
            r@ == target_of_package(self.deep_view(), context.locked_dependencies.deep_view(), target@, package@),
    {
        match crate::context::dependency_in(&self.locked_dependencies, target, package) {
            Some(found) => found,
            None => match context.get_locked_dependency(target, package) {
                Some(found) => found,
                None => cat2("cargo://", package),
            },
        }
    }

    /// The configuration of `target` from the manifest of its package.
    pub fn configure(
        &self,
        context: &PluginContext,
        target: &str,
        request: &CrateRequest,
        toml: CargoToml,
        rust_files: Vec<String>,
    ) -> (r: Result<Config, Error>)
        ensures
            outcome(r) == package_config(
                self.deep_view(),
                context.target_config.deep_view(),
                context.locked_dependencies.deep_view(),
                target@,
                request.deep_view(),
                toml.deep_view(),
                rust_files.deep_view(),
            ),
    {
        let ghost me = self.deep_view();
        let ghost locked = context.locked_dependencies.deep_view();
        let ghost m = toml.deep_view();
        let ghost fetch = request.deep_view();
        let recipe = self.build_recipe(
            context,
            target,
            request.crate_name.as_str(),
            request.crate_version.as_str(),
        );
        let ghost known = recipe.deep_view();
        if toml.has_build_script && recipe.is_none() {
            return Err(
                error(
                    ErrorKind::PermissionDenied,
                    cat2(target, " declares build.rs, but no hermetic Cargo build recipe was provided"),
                ),
            );
        }
        let mut deps: Vec<String> = Vec::new();
        let mut aliases: Vec<String> = Vec::new();
        let ghost all = m.dependencies;
        let ghost all_targets = dependency_targets(me, locked, target@, all);
        let ghost all_aliases = dependency_aliases(me, locked, target@, all);
        let mut i: usize = 0;
        while i < toml.dependencies.len()
            invariant
                i <= toml.dependencies.len(),
                me == self.deep_view(),
                locked == context.locked_dependencies.deep_view(),
                all == toml.dependencies.deep_view(),
                all_targets == dependency_targets(me, locked, target@, all),
                all_aliases == dependency_aliases(me, locked, target@, all),
                deps.deep_view() == all_targets.take(i as int),
                aliases.deep_view() == all_aliases.take(i as int),
            decreases toml.dependencies.len() - i,
        {
            assert(all[i as int] == toml.dependencies@[i as int].deep_view());
            let dep = &toml.dependencies[i];
            let dep_target = self.dependency_target(context, target, dep.package.as_str());
            let alias = replace_char(dep.alias.as_str(), '-', '_');
            keep(&mut aliases, cat3(dep_target.as_str(), "=", alias.as_str()));
            keep(&mut deps, dep_target);
            i = i + 1;
            assert(all_targets.take(i as int) == all_targets.take(i - 1).push(all_targets[i - 1]));
            assert(all_aliases.take(i as int) == all_aliases.take(i - 1).push(all_aliases[i - 1]));
        }
        assert(all_targets.take(i as int) == all_targets);
        assert(all_aliases.take(i as int) == all_aliases);
        let mut cfgs: Vec<String> = match &recipe {
            Some(recipe) => recipe.rustc_cfgs.duplicate(),
            None => Vec::new(),
        };
        assert(known is None ==> cfgs.deep_view() =~= Seq::empty());
        if same(request.crate_name.as_str(), "serde") && same(request.crate_version.as_str(), "1.0.228") {
            keep(&mut cfgs, "if_docsrs_then_no_serde_core".to_owned());
        }
        assert(cfgs.deep_view() == compile_cfgs(known, fetch.crate_name, fetch.crate_version));
        let libs: Vec<String> = match &recipe {
            Some(recipe) => encode_libs(&recipe.native_static_libs),
            None => Vec::new(),
        };
        assert(libs.deep_view() =~= encoded_libs(known));
        let mut env = toml.rustc_env;
        let out_dir = hermetic_cargo_out_dir(
            request.workdir.as_str(),
            request.crate_name.as_str(),
            request.crate_version.as_str(),
        );
        let ghost generated = out_dir.deep_view();
        if let Some(dir) = out_dir {
            keep(&mut env, cat2("OUT_DIR=", dir.as_str()));
        }
        assert(env.deep_view() == compile_env(m, generated));
        let mut extras: Vec<(u32, Vec<String>)> = Vec::new();
        keep(&mut extras, (config_extra_keys::FEATURES, toml.features));
        keep(&mut extras, (config_extra_keys::CRATE_NAME, one(toml.crate_name)));
        keep(&mut extras, (config_extra_keys::CRATE_TYPE, one(toml.crate_type)));
        keep(&mut extras, (config_extra_keys::EDITION, one(toml.edition)));
        keep(&mut extras, (config_extra_keys::ROOT_SOURCE, one(toml.root_source)));
        keep(&mut extras, (config_extra_keys::CRATE_ROOT, one(request.dest.clone())));
        keep(&mut extras, (config_extra_keys::DEPENDENCY_ALIASES, aliases));
        keep(&mut extras, (config_extra_keys::RUSTC_CFGS, cfgs));
        keep(&mut extras, (config_extra_keys::NATIVE_STATIC_LIBS, libs));
        keep(&mut extras, (config_extra_keys::RUSTC_ENV, env));
        assert(extras.deep_view() =~= package_extras(m, fetch, all_aliases, known, generated));
        let external_requirements: Vec<ExternalRequirement> = Vec::new();
        assert(external_requirements.deep_view() =~= Seq::<Requirement>::empty());
        Ok(
            Config {
                dependencies: deps,
                external_requirements,
                build_plugin: "@rust_plugin".to_owned(),
                location: None,
                sources: rust_files,
                build_dependencies: one("@rust_compiler".to_owned()),
                kind: "rust_library".to_owned(),
                extras: Numbered { rows: extras },
                hash: 0,
            },
        )
    }

    /// The configuration of `target`, once the sources of its package are there:
    /// `content` is the text of the package's manifest, `script_exists` says
    /// whether it has a `build.rs`, and `rust_files` are its sources.
    pub fn resolve(
        &self,
        context: &PluginContext,
        target: &str,
        content: &str,
        script_exists: bool,
        rust_files: Vec<String>,
    ) -> (r: Result<Config, Error>)
        ensures
            outcome(r) == (match fetch_for(
                context.cache_dir@,
                context.lockfile.deep_view(),
                context.target.deep_view(),
                target@,
            ) {
                Err(e) => Err(e),
                Ok(fetch) => resolved_package(
                    self.deep_view(),
                    context.target_config.deep_view(),
                    context.locked_dependencies.deep_view(),
                    target@,
                    fetch,
                    content@,
                    script_exists,
                    rust_files.deep_view(),
                ),
            }),
    {
        let request = self.crate_request(context, target)?;
        self.resolve_fetched(context, target, &request, content, script_exists, rust_files)
    }

    /// The configuration of `target`, once what `request` names was fetched.
    pub fn resolve_fetched(
        &self,
        context: &PluginContext,
        target: &str,
        request: &CrateRequest,
        content: &str,
        script_exists: bool,
        rust_files: Vec<String>,
    ) -> (r: Result<Config, Error>)
        ensures
            outcome(r) == resolved_package(
                self.deep_view(),
                context.target_config.deep_view(),
                context.locked_dependencies.deep_view(),
                target@,
                request.deep_view(),
                content@,
                script_exists,
                rust_files.deep_view(),
            ),
    {
        let manifest_path = join_path(request.dest.as_str(), "Cargo.toml");
        let toml = parse_cargo_toml(context, manifest_path.as_str(), content, script_exists, &request.features)?;
        self.configure(context, target, request, toml, rust_files)
    }
}

/// What Cargo has to be run on to make a plan.
pub struct PlanRequest {
    pub manifest: String,
    pub workdir: String,
    pub plan_cache: String,
    pub manifest_path: String,
    pub args: Vec<String>,
}

/// What a `PlanRequest` says.
#[verifier::ext_equal]
pub struct PlanRun {
    pub manifest: Seq<char>,
    pub workdir: Seq<char>,
    pub plan_cache: Seq<char>,
    pub manifest_path: Seq<char>,
    pub args: Seq<Seq<char>>,
}

impl DeepView for PlanRequest {
    type V = PlanRun;

    open spec fn deep_view(&self) -> PlanRun {
        PlanRun {
            manifest: self.manifest@,
            workdir: self.workdir@,
            plan_cache: self.plan_cache@,
            manifest_path: self.manifest_path@,
            args: self.args.deep_view(),
        }
    }
}

/// The first step of a plan: nothing is required, or Cargo has to be run.
pub enum PlanStep {
    Done(DependencyPlan),
    Run(PlanRequest),
}

/// What a `PlanStep` says.
#[verifier::ext_equal]
pub enum Stage {
    Done(Plan),
    Run(PlanRun),
}

impl DeepView for PlanStep {
    type V = Stage;

    open spec fn deep_view(&self) -> Stage {
        match self {
            PlanStep::Done(plan) => Stage::Done(plan.deep_view()),
            PlanStep::Run(request) => Stage::Run(request.deep_view()),
        }
    }
}

/// The arguments that Cargo is run with for a plan.
pub open spec fn metadata_args(manifest_path: Seq<char>, platform: Option<Seq<char>>) -> Seq<Seq<char>> {
    let plain = seq!["metadata"@, "--format-version=1"@, "--manifest-path"@, manifest_path];
    match platform {
        Some(target) => plain + seq!["--filter-platform"@, target],
        None => plain,
    }
}

/// The first step of a plan for `requirements`.
pub open spec fn first_step(
    cache_dir: Seq<char>,
    context_hash: u64,
    facts: Facts,
    requirements: Seq<Requirement>,
) -> Result<Stage, Fault> {
    if requirements.len() == 0 {
        Ok(Stage::Done(Plan { lockfile: Seq::empty(), locked_dependencies: Seq::empty() }))
    } else {
        match plan_manifest(requirements) {
            Err(e) => Err(e),
            Ok(manifest) => {
                let workdir = joined_path(
                    joined_path(joined_path(cache_dir, "dependency-plans"@), "cargo"@),
                    plan_identity(context_hash, requirements),
                );
                let manifest_path = joined_path(workdir, "Cargo.toml"@);
                Ok(
                    Stage::Run(
                        PlanRun {
                            manifest,
                            workdir,
                            plan_cache: joined_path(workdir, "plan.json"@),
                            manifest_path,
                            args: metadata_args(manifest_path, platform(facts)),
                        },
                    ),
                )
            },
        }
    }
}

impl CargoDependencyPlanner {
    pub fn new() -> (r: Self) {
        CargoDependencyPlanner {  }
    }

    pub fn ecosystem(&self) -> (r: &str)
        ensures
            r@ == "cargo"@,
    {
        "cargo"
    }

    /// The first step of a plan for `requirements`.
    pub fn plan(&self, context: &PluginContext, requirements: &Vec<ExternalRequirement>) -> (r: Result<PlanStep, Error>)
        ensures
            outcome(r) == first_step(
                context.cache_dir@,
                context.context_hash,
                context.target_config.deep_view(),
                requirements.deep_view(),
            ),
    {
        if requirements.len() == 0 {
            return Ok(PlanStep::Done(DependencyPlan::empty()));
        }
        let manifest = synthetic_manifest(requirements)?;
        let workdir = join_path(
            join_path(join_path(context.cache_dir.as_str(), "dependency-plans").as_str(), "cargo").as_str(),
            plan_id(context.context_hash, requirements).as_str(),
        );
        let plan_cache = join_path(workdir.as_str(), "plan.json");
        let manifest_path = join_path(workdir.as_str(), "Cargo.toml");
        let mut args: Vec<String> = Vec::new();
        keep(&mut args, "metadata".to_owned());
        keep(&mut args, "--format-version=1".to_owned());
        keep(&mut args, "--manifest-path".to_owned());
        keep(&mut args, manifest_path.clone());
        if let Some(target) = crate::cargo::plan::cargo_filter_platform(context) {
            keep(&mut args, "--filter-platform".to_owned());
            keep(&mut args, target);
        }
        assert(args.deep_view() =~= metadata_args(manifest_path@, platform(context.target_config.deep_view())));
        Ok(PlanStep::Run(PlanRequest { manifest, workdir, plan_cache, manifest_path, args }))
    }

    /// The plan that was kept, where `kept` is what came of reading the file that
    /// it is kept in, if there is one.
    pub fn kept_plan(&self, kept: Option<Result<String, Error>>) -> (r: Result<Option<DependencyPlan>, Error>)
        ensures
            outcome(r) == (match kept {
                None => Ok(None),
                Some(Err(e)) => Err(e.deep_view()),
                Some(Ok(text)) => match plan_of_document(json_text(text@)) {
                    Err(e) => Err(e),
                    Ok(plan) => Ok(Some(plan)),
                },
            }),
    {
        match kept {
            None => Ok(None),
            Some(Err(e)) => Err(e),
            Some(Ok(text)) => match read_cached_dependency_plan(text.as_str()) {
                Err(e) => Err(e),
                Ok(plan) => Ok(Some(plan)),
            },
        }
    }

    /// The plan for `requirements`, where `output` is what came of running Cargo;
    /// `files` are the manifests of the packages that it names.
    pub fn finish_plan(
        &self,
        context: &PluginContext,
        files: &Table<ManifestFile>,
        requirements: &Vec<ExternalRequirement>,
        output: Result<Vec<u8>, Error>,
    ) -> (r: Result<DependencyPlan, Error>)
        ensures
            outcome(r) == (match output {
                Err(e) => Err(fault(e.kind, "cargo metadata failed: "@ + e.message@)),
                Ok(bytes) => plan_of_output(
                    context.target_config.deep_view(),
                    files.deep_view(),
                    requirements.deep_view(),
                    bytes@,
                ),
            }),
    {
        match output {
            Err(e) => Err(error(e.kind, cat2("cargo metadata failed: ", e.message.as_str()))),
            Ok(bytes) => metadata_to_dependency_plan(context, files, requirements, &bytes),
        }
    }
}

/// The extension of a path: what follows the last `.` of its file name, where
/// something precedes it.
pub open spec fn extension_of(path: Seq<char>) -> Option<Seq<char>> {
    match file_name_of(path) {
        None => None,
        Some(name) => match cut_last(name, '.') {
            Some((stem, ext)) => if stem.len() == 0 {
                None
            } else {
                Some(ext)
            },
            None => None,
        },
    }
}

fn is_rust_file(path: &str) -> (r: bool)
    ensures
        r == (extension_of(path@) == Some("rs"@)),
{
    match file_name(path) {
        None => false,
        Some(name) => match rsplit_once(name.as_str(), '.') {
            Some((stem, ext)) => !stem.as_str().is_empty() && same(ext.as_str(), "rs"),
            None => false,
        },
    }
}

/// An entry of a directory that was listed.
pub struct DirEntry {
    pub path: String,
    pub symlink: bool,
    pub entries: Vec<DirEntry>,
}

/// The Rust files that an entry brings: those below it, then itself. What is
/// behind a symbolic link is left out.
pub open spec fn rust_files_of(entry: DirEntry) -> Seq<Seq<char>>
    decreases entry,
{
    if entry.symlink {
        Seq::empty()
    } else if extension_of(entry.path@) == Some("rs"@) {
        rust_files_in(entry.entries@, entry.entries@.len() as int).push(entry.path@)
    } else {
        rust_files_in(entry.entries@, entry.entries@.len() as int)
    }
}

/// The Rust files that the first `n` entries bring.
pub open spec fn rust_files_in(entries: Seq<DirEntry>, n: int) -> Seq<Seq<char>>
    decreases entries, n,
{
    if n <= 0 || n > entries.len() {
        Seq::empty()
    } else {
        rust_files_in(entries, n - 1) + rust_files_of(entries[n - 1])
    }
}

/// Appends the Rust files below the entries of a directory.
pub fn get_rust_files(entries: &Vec<DirEntry>, out: &mut Vec<String>)
    ensures
        final(out).deep_view() == old(out).deep_view() + rust_files_in(entries@, entries@.len() as int),
    decreases entries,
{
    let mut i: usize = 0;
    assert(out.deep_view() =~= old(out).deep_view() + rust_files_in(entries@, 0));
    while i < entries.len()
        invariant
            i <= entries.len(),
            out.deep_view() == old(out).deep_view() + rust_files_in(entries@, i as int),
        decreases entries.len() - i,
    {
        let ghost start = out.deep_view();
        if !entries[i].symlink {
            assert(decreases_to!(entries => entries@[i as int].entries));
            get_rust_files(&entries[i].entries, out);
            if is_rust_file(entries[i].path.as_str()) {
                keep(out, entries[i].path.clone());
            }
        }
        assert(out.deep_view() =~= start + rust_files_of(entries@[i as int]));
        i = i + 1;
        assert(out.deep_view() =~= old(out).deep_view() + rust_files_in(entries@, i as int));
    }
}

} // verus!
