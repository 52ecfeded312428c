//! Configured packages: what is fetched for the target of a package, and what it is then
//! configured with.

use vstd::prelude::*;

use crate::cargo::cfg::Facts;
use crate::cargo::lock::{lock_parts, target_parts};
use crate::cargo::manifest::Manifest;
use crate::cargo::plan::platform;
use crate::cargo::recipes::{encoded_lib, known_recipe, Recipe};
use crate::cargo::resolver::{
    compile_cfgs, extension_of, fetch_for, fetch_move, first_step, generated_source, package_config, recipe_for, rust_files_in,
    rust_files_of, target_of_package, DirEntry, Fetch, FetchMove, Resolver, Stage,
};
use crate::cargo::plan::{plan_identity, plan_manifest};
use crate::build_config_key;
use crate::config_extra_keys;
use crate::error::{ErrorKind, Fault};
use crate::model::{Plan, Requirement};
use crate::path::{file_name_of, joined_path};
use crate::table::{found, found_number};
use crate::text::{last_position, swapped};

verus! {

/// Which sources are fetched for a target: those of the package and in the version that the
/// lock file gives for it, or else in the version of its name; with the features that the
/// lock file gives. Without either the target is refused.
pub proof fn law_fetched(
    cache_dir: Seq<char>,
    lockfile: Seq<(Seq<char>, Seq<char>)>,
    attached: Option<Seq<char>>,
    target: Seq<char>,
    name: Seq<char>,
    version: Option<Seq<char>>,
)
    requires
        target_parts(target) == Ok::<_, Fault>((name, version)),
    ensures
        fetch_for(cache_dir, lockfile, attached, target) is Ok <==> found(lockfile, target) is Some || version is Some,
        fetch_for(cache_dir, lockfile, attached, target) matches Ok(fetch) ==> {
            let locked = if found(lockfile, target) is Some {
                found(lockfile, target)->0
            } else {
                version->0
            };
            &&& fetch.crate_name == name
            &&& (fetch.crate_version, fetch.features) == lock_parts(locked)
            &&& fetch.url == "https://crates.io/api/v1/crates/"@ + name + "/"@ + fetch.crate_version + "/download"@
            &&& fetch.tar_dest == joined_path(fetch.workdir, "crate.tar"@)
            &&& fetch.dest == joined_path(fetch.workdir, "crate"@)
        },
        fetch_for(cache_dir, lockfile, attached, target) matches Err(e) ==> e.kind == ErrorKind::NotFound,
{
}

/// How far the sources of a package have come.
pub open spec fn progress(archive: bool, manifest: bool, directory: bool) -> int {
    if !archive {
        3
    } else if manifest {
        0
    } else if directory {
        2
    } else {
        1
    }
}

/// What the files are after a step of fetching.
pub open spec fn after_step(step: FetchMove, archive: bool, manifest: bool, directory: bool) -> (bool, bool, bool) {
    match step {
        FetchMove::Download { .. } => (true, manifest, directory),
        FetchMove::Clear(_) => (archive, false, false),
        FetchMove::Unpack { .. } => (archive, true, true),
        FetchMove::Ready => (archive, manifest, directory),
    }
}

/// Fetching comes to its end: each step that does what it says brings the sources nearer,
/// and no step is left just where the archive and the manifest are there.
pub proof fn law_fetching_ends(fetch: Fetch, archive: bool, manifest: bool, directory: bool)
    ensures
        fetch_move(fetch, archive, manifest, directory) is Ready <==> archive && manifest,
        !(archive && manifest) ==> {
            let next = after_step(fetch_move(fetch, archive, manifest, directory), archive, manifest, directory);
            progress(next.0, next.1, next.2) < progress(archive, manifest, directory)
        },
{
}

/// What is downloaded is the package's archive, to the file that is unpacked; nothing but
/// the directory that it is unpacked to is removed.
pub proof fn law_fetch_steps(fetch: Fetch, archive: bool, manifest: bool, directory: bool)
    ensures
        match fetch_move(fetch, archive, manifest, directory) {
            FetchMove::Download { url, dest } => !archive && url == fetch.url && dest == fetch.tar_dest,
            FetchMove::Clear(dir) => directory && !manifest && dir == fetch.dest,
            FetchMove::Unpack { dest, args } => {
                &&& archive && !manifest && !directory
                &&& dest == fetch.dest
                &&& args.len() == 5 && args[0] == "xzvf"@ && args[1] == fetch.tar_dest
                &&& args[2] == "-C"@ && args[3] == fetch.dest && args[4] == "--strip-components=1"@
            },
            FetchMove::Ready => archive && manifest,
        },
{
}

/// A recipe that is given for a target comes before one that is given for its package, and
/// that before the known one.
pub proof fn law_recipe_chosen(resolver: Resolver, facts: Facts, target: Seq<char>, package: Seq<char>, version: Seq<char>)
    ensures
        found(resolver.build_recipes, target) matches Some(r) ==> recipe_for(resolver, facts, target, package, version)
            == Some(r),
        found(resolver.build_recipes, target) is None ==> (found(resolver.build_recipes, "cargo://"@ + package) matches Some(
            r,
        ) ==> recipe_for(resolver, facts, target, package, version) == Some(r)),
        found(resolver.build_recipes, target) is None && found(resolver.build_recipes, "cargo://"@ + package) is None
            ==> recipe_for(resolver, facts, target, package, version) == known_recipe(facts, package, version),
{
}

/// What replaces a build script is known of a version of a package, never of the package as
/// such, and what it makes of native sources is for the machines of one maker.
pub proof fn law_recipes_known(facts: Facts, package: Seq<char>, version: Seq<char>)
    requires
        known_recipe(facts, package, version) is Some,
    ensures
        package.len() > 0 && version.len() > 0,
        exists|i: int| 0 <= i < version.len() && '0' <= #[trigger] version[i] <= '9',
        known_recipe(facts, package, version)->0.native_static_libs.len() > 0 ==> {
            &&& found_number(facts, build_config_key::TARGET_VENDOR) == Some("apple"@)
            &&& found_number(facts, build_config_key::TARGET_ARCH) == Some("aarch64"@)
            &&& found_number(facts, build_config_key::TARGET_FAMILY) == Some("unix"@)
            &&& found_number(facts, build_config_key::TARGET_ENDIAN) == Some("little"@)
        },
{
    reveal_strlit("flatbuffers");
    reveal_strlit("25.12.19");
    reveal_strlit("generic-array");
    reveal_strlit("0.14.7");
    reveal_strlit("httparse");
    reveal_strlit("1.8.0");
    reveal_strlit("1.10.1");
    reveal_strlit("libc");
    reveal_strlit("0.2.151");
    reveal_strlit("0.2.186");
    reveal_strlit("proc-macro2");
    reveal_strlit("1.0.71");
    reveal_strlit("1.0.106");
    reveal_strlit("quote");
    reveal_strlit("1.0.45");
    reveal_strlit("rustls");
    reveal_strlit("0.23.31");
    reveal_strlit("serde");
    reveal_strlit("1.0.193");
    reveal_strlit("1.0.228");
    reveal_strlit("serde_json");
    reveal_strlit("1.0.117");
    reveal_strlit("serde_core");
    reveal_strlit("slab");
    reveal_strlit("0.4.9");
    reveal_strlit("0.4.12");
    reveal_strlit("syn");
    reveal_strlit("1.0.109");
    reveal_strlit("zerocopy");
    reveal_strlit("0.8.48");
    reveal_strlit("indexmap");
    reveal_strlit("1.9.3");
    reveal_strlit("ring");
    reveal_strlit("0.17.14");
    assert('0' <= version[0] <= '9');
}

/// A package is compiled under the conditions of its recipe, and one version of one package
/// under one more, which its script would have set.
pub proof fn law_conditions(recipe: Option<Recipe>, package: Seq<char>, version: Seq<char>)
    ensures
        recipe matches Some(r) ==> r.rustc_cfgs.is_prefix_of(compile_cfgs(recipe, package, version)),
        package == "serde"@ && version == "1.0.228"@ ==> compile_cfgs(recipe, package, version).last()
            == "if_docsrs_then_no_serde_core"@ && compile_cfgs(recipe, package, version).len() > 0,
        package != "serde"@ || version != "1.0.228"@ ==> compile_cfgs(recipe, package, version).len() == (if recipe is Some {
            recipe->0.rustc_cfgs.len()
        } else {
            0
        }),
{
    let all = compile_cfgs(recipe, package, version);
    if package == "serde"@ && version == "1.0.228"@ {
        assert(all[all.len() - 1] == "if_docsrs_then_no_serde_core"@);
    }
}

/// Whether `package` is locked to `to` for `target` in `locked`.
pub open spec fn locks(
    locked: Seq<(Seq<char>, Seq<(Seq<char>, Seq<char>)>)>,
    target: Seq<char>,
    package: Seq<char>,
    to: Seq<char>,
) -> bool {
    found(locked, target) matches Some(rows) && found(rows, package) == Some(to)
}

/// Whether `package` is locked for `target` in `locked`.
pub open spec fn locks_any(
    locked: Seq<(Seq<char>, Seq<(Seq<char>, Seq<char>)>)>,
    target: Seq<char>,
    package: Seq<char>,
) -> bool {
    exists|to: Seq<char>| #[trigger] locks(locked, target, package, to)
}

/// A dependency is on the target that it is locked to: in the lock file of the package's own
/// resolver, or else in the plan; where it is locked in neither, on the package in any
/// version.
pub proof fn law_dependency_target(
    resolver: Resolver,
    locked: Seq<(Seq<char>, Seq<(Seq<char>, Seq<char>)>)>,
    target: Seq<char>,
    package: Seq<char>,
    to: Seq<char>,
)
    ensures
        locks(resolver.locked_dependencies, target, package, to) ==> target_of_package(resolver, locked, target, package)
            == to,
        !locks_any(resolver.locked_dependencies, target, package) && locks(locked, target, package, to)
            ==> target_of_package(resolver, locked, target, package) == to,
        !locks_any(resolver.locked_dependencies, target, package) && !locks_any(locked, target, package)
            ==> target_of_package(resolver, locked, target, package) == "cargo://"@ + package,
{
    if let Some(rows) = found(resolver.locked_dependencies, target) {
        if let Some(other) = found(rows, package) {
            assert(locks(resolver.locked_dependencies, target, package, other));
        }
    }
    if let Some(rows) = found(locked, target) {
        if let Some(other) = found(rows, package) {
            assert(locks(locked, target, package, other));
        }
    }
}

/// A package is configured with every dependency of its manifest, in order, on the target
/// that it is locked to; and each is used under its alias with `_` for `-`.
pub proof fn law_package_dependencies(
    resolver: Resolver,
    facts: Facts,
    locked: Seq<(Seq<char>, Seq<(Seq<char>, Seq<char>)>)>,
    target: Seq<char>,
    fetch: Fetch,
    m: Manifest,
    rust_files: Seq<Seq<char>>,
    k: int,
)
    requires
        package_config(resolver, facts, locked, target, fetch, m, rust_files) is Ok,
        0 <= k < m.dependencies.len(),
    ensures
        ({
            let c = package_config(resolver, facts, locked, target, fetch, m, rust_files)->Ok_0;
            let to = target_of_package(resolver, locked, target, m.dependencies[k].package);
            &&& c.dependencies.len() == m.dependencies.len()
            &&& c.dependencies[k] == to
            &&& found_number(c.extras, config_extra_keys::DEPENDENCY_ALIASES) matches Some(aliases) && aliases.len()
                == m.dependencies.len() && aliases[k] == to + "="@ + swapped(m.dependencies[k].alias, '-', '_')
        }),
{
    let c = package_config(resolver, facts, locked, target, fetch, m, rust_files)->Ok_0;
    lemma_extra(c.extras, 6);
}

proof fn lemma_extra(rows: Seq<(u32, Seq<Seq<char>>)>, k: int)
    requires
        0 <= k < rows.len(),
        forall|i: int| 0 <= i < rows.len() ==> (#[trigger] rows[i]).0 == i,
    ensures
        found_number(rows, k as u32) == Some(rows[k].1),
{
    lemma_numbered(rows, 0, k);
}

proof fn lemma_numbered(rows: Seq<(u32, Seq<Seq<char>>)>, from: int, k: int)
    requires
        0 <= k < rows.len(),
        0 <= from,
        from + k <= u32::MAX,
        forall|i: int| 0 <= i < rows.len() ==> (#[trigger] rows[i]).0 == from + i,
    ensures
        found_number(rows, (from + k) as u32) == Some(rows[k].1),
    decreases k,
{
    assert(rows[0].0 == from);
    if k > 0 {
        let tail = rows.skip(1);
        assert forall|i: int| 0 <= i < tail.len() implies (#[trigger] tail[i]).0 == from + 1 + i by {
            assert(tail[i] == rows[i + 1]);
        }
        lemma_numbered(tail, from + 1, k - 1);
        assert(rows[k].0 == from + k);
    }
}

/// The configuration of a package says what its manifest says, and is refused just where the
/// package has a build script and there is no recipe for it.
pub proof fn law_package_configured(
    resolver: Resolver,
    facts: Facts,
    locked: Seq<(Seq<char>, Seq<(Seq<char>, Seq<char>)>)>,
    target: Seq<char>,
    fetch: Fetch,
    m: Manifest,
    rust_files: Seq<Seq<char>>,
)
    ensures
        package_config(resolver, facts, locked, target, fetch, m, rust_files) is Err <==> m.has_build_script && recipe_for(
            resolver,
            facts,
            target,
            fetch.crate_name,
            fetch.crate_version,
        ) is None,
        package_config(resolver, facts, locked, target, fetch, m, rust_files) matches Err(e) ==> e.kind
            == ErrorKind::PermissionDenied,
        package_config(resolver, facts, locked, target, fetch, m, rust_files) matches Ok(c) ==> {
            &&& c.kind == "rust_library"@
            &&& c.build_plugin == "@rust_plugin"@
            &&& c.build_dependencies.contains("@rust_compiler"@)
            &&& c.location is None
            &&& c.external_requirements.len() == 0
            &&& c.sources == rust_files
            &&& found_number(c.extras, config_extra_keys::FEATURES) == Some(m.features)
            &&& found_number(c.extras, config_extra_keys::CRATE_NAME) == Some(seq![m.crate_name])
            &&& found_number(c.extras, config_extra_keys::CRATE_TYPE) == Some(seq![m.crate_type])
            &&& found_number(c.extras, config_extra_keys::EDITION) == Some(seq![m.edition])
            &&& found_number(c.extras, config_extra_keys::ROOT_SOURCE) == Some(seq![m.root_source])
            &&& found_number(c.extras, config_extra_keys::CRATE_ROOT) == Some(seq![fetch.dest])
        },
{
    if let Ok(c) = package_config(resolver, facts, locked, target, fetch, m, rust_files) {
        assert(c.build_dependencies[0] == "@rust_compiler"@);
        lemma_extra(c.extras, 0);
        lemma_extra(c.extras, 1);
        lemma_extra(c.extras, 2);
        lemma_extra(c.extras, 3);
        lemma_extra(c.extras, 4);
        lemma_extra(c.extras, 5);
    }
}

/// A package is compiled with the conditions of its recipe, linked with the libraries of its
/// recipe, and sees the variables of its manifest.
pub proof fn law_package_recipe(
    resolver: Resolver,
    facts: Facts,
    locked: Seq<(Seq<char>, Seq<(Seq<char>, Seq<char>)>)>,
    target: Seq<char>,
    fetch: Fetch,
    m: Manifest,
    rust_files: Seq<Seq<char>>,
)
    requires
        package_config(resolver, facts, locked, target, fetch, m, rust_files) is Ok,
    ensures
        ({
            let c = package_config(resolver, facts, locked, target, fetch, m, rust_files)->Ok_0;
            let recipe = recipe_for(resolver, facts, target, fetch.crate_name, fetch.crate_version);
            let given = recipe.unwrap_or(
                Recipe { rustc_cfgs: Seq::empty(), native_static_libs: Seq::empty() },
            );
            &&& found_number(c.extras, config_extra_keys::RUSTC_CFGS) matches Some(cfgs) && {
                &&& forall|i: int| 0 <= i < given.rustc_cfgs.len() ==> cfgs.contains(#[trigger] given.rustc_cfgs[i])
                &&& fetch.crate_name != "serde"@ ==> cfgs == given.rustc_cfgs
            }
            &&& found_number(c.extras, config_extra_keys::NATIVE_STATIC_LIBS) matches Some(libs) && {
                &&& libs.len() == given.native_static_libs.len()
                &&& forall|i: int|
                    0 <= i < libs.len() ==> #[trigger] libs[i] == encoded_lib(given.native_static_libs[i])
            }
            &&& found_number(c.extras, config_extra_keys::RUSTC_ENV) matches Some(env) && {
                &&& forall|i: int| 0 <= i < m.rustc_env.len() ==> env.contains(#[trigger] m.rustc_env[i])
                &&& generated_source(fetch.crate_name, fetch.crate_version) is None ==> env == m.rustc_env
                &&& generated_source(fetch.crate_name, fetch.crate_version) is Some ==> env.contains(
                    "OUT_DIR="@ + joined_path(fetch.workdir, "out"@),
                )
            }
        }),
{
    let c = package_config(resolver, facts, locked, target, fetch, m, rust_files)->Ok_0;
    let recipe = recipe_for(resolver, facts, target, fetch.crate_name, fetch.crate_version);
    let given = recipe.unwrap_or(Recipe { rustc_cfgs: Seq::empty(), native_static_libs: Seq::empty() });
    lemma_extra(c.extras, 7);
    lemma_extra(c.extras, 8);
    lemma_extra(c.extras, 9);
    let cfgs = c.extras[7].1;
    let env = c.extras[9].1;
    assert forall|i: int| 0 <= i < given.rustc_cfgs.len() implies cfgs.contains(#[trigger] given.rustc_cfgs[i]) by {
        assert(cfgs[i] == given.rustc_cfgs[i]);
    }
    assert forall|i: int| 0 <= i < m.rustc_env.len() implies env.contains(#[trigger] m.rustc_env[i]) by {
        assert(env[i] == m.rustc_env[i]);
    }
    if generated_source(fetch.crate_name, fetch.crate_version) is Some {
        assert(env.last() == "OUT_DIR="@ + joined_path(fetch.workdir, "out"@));
    }
}

/// Whether `path` is that of a Rust file which is an entry, or lies below it with no
/// symbolic link on the way.
pub open spec fn holds_file(entry: DirEntry, path: Seq<char>) -> bool
    decreases entry,
{
    &&& !entry.symlink
    &&& (entry.path@ == path && extension_of(path) == Some("rs"@)) || exists|k: int|
        #![trigger entry.entries@[k]]
        0 <= k < entry.entries@.len() && holds_file(entry.entries@[k], path)
}

/// The Rust files of a directory are those that its entries hold, and no others.
pub proof fn law_rust_files(entries: Seq<DirEntry>, n: int, path: Seq<char>)
    requires
        0 <= n <= entries.len(),
    ensures
        rust_files_in(entries, n).contains(path) <==> exists|k: int|
            #![trigger entries[k]]
            0 <= k < n && holds_file(entries[k], path),
    decreases entries, n,
{
    if n > 0 {
        law_rust_files(entries, n - 1, path);
        let e = entries[n - 1];
        let front = rust_files_in(entries, n - 1);
        let mine = rust_files_of(e);
        lemma_rust_file(e, path);
        let all = front + mine;
        if all.contains(path) {
            let k = choose|k: int| 0 <= k < all.len() && all[k] == path;
            assert(if k < front.len() { front[k] == path } else { mine[k - front.len()] == path });
        }
        if front.contains(path) {
            let k = choose|k: int| 0 <= k < front.len() && front[k] == path;
            assert(all[k] == path);
        }
        if mine.contains(path) {
            let k = choose|k: int| 0 <= k < mine.len() && mine[k] == path;
            assert(all[front.len() + k] == path);
            assert(holds_file(entries[n - 1], path));
        }
    }
}

proof fn lemma_rust_file(e: DirEntry, path: Seq<char>)
    ensures
        rust_files_of(e).contains(path) <==> holds_file(e, path),
    decreases e, 0int,
{
    if !e.symlink {
        let n = e.entries@.len() as int;
        law_rust_files(e.entries@, n, path);
        let below = rust_files_in(e.entries@, n);
        if extension_of(e.path@) == Some("rs"@) {
            let all = below.push(e.path@);
            assert(all[below.len() as int] == e.path@);
            if below.contains(path) {
                let k = choose|k: int| 0 <= k < below.len() && below[k] == path;
                assert(all[k] == path);
            }
            if all.contains(path) && !below.contains(path) {
                let k = choose|k: int| 0 <= k < all.len() && all[k] == path;
                if k < below.len() {
                    assert(below[k] == path);
                }
            }
        }
    }
}

proof fn lemma_last_position(s: Seq<char>, c: char, n: int)
    requires
        0 <= n <= s.len(),
    ensures
        -1 <= last_position(s, c, n) < n,
        last_position(s, c, n) >= 0 ==> s[last_position(s, c, n)] == c,
        forall|j: int| last_position(s, c, n) < j < n ==> s[j] != c,
    decreases n,
{
    if n > 0 && s[n - 1] != c {
        lemma_last_position(s, c, n - 1);
    }
}

/// The extension of a path is what follows the last dot of its file name; a name that has
/// its only dot in front has none.
pub proof fn law_extension(path: Seq<char>, stem: Seq<char>, ext: Seq<char>)
    requires
        file_name_of(path) == Some(stem + seq!['.'] + ext),
        !ext.contains('.'),
    ensures
        stem.len() > 0 ==> extension_of(path) == Some(ext),
        stem.len() == 0 ==> extension_of(path) is None,
{
    let name = stem + seq!['.'] + ext;
    lemma_last_position(name, '.', name.len() as int);
    let at = last_position(name, '.', name.len() as int);
    assert(name[stem.len() as int] == '.');
    if at > stem.len() {
        assert(ext[at - stem.len() - 1] == '.');
    }
    assert(at == stem.len());
    assert(name.subrange(0, at) =~= stem);
    assert(name.subrange(at + 1, name.len() as int) =~= ext);
}

/// A plan for nothing is empty and runs nothing; any other is made in a directory of its own
/// identity, from the manifest for its requirements, for the machine that is built for.
pub proof fn law_plan_started(cache_dir: Seq<char>, context_hash: u64, facts: Facts, requirements: Seq<Requirement>)
    ensures
        requirements.len() == 0 ==> first_step(cache_dir, context_hash, facts, requirements) == Ok::<Stage, Fault>(
            Stage::Done(Plan { lockfile: Seq::empty(), locked_dependencies: Seq::empty() }),
        ),
        requirements.len() > 0 ==> match first_step(cache_dir, context_hash, facts, requirements) {
            Err(e) => plan_manifest(requirements) == Err::<Seq<char>, Fault>(e),
            Ok(stage) => stage matches Stage::Run(run) && {
                &&& plan_manifest(requirements) == Ok::<Seq<char>, Fault>(run.manifest)
                &&& run.manifest_path == joined_path(run.workdir, "Cargo.toml"@)
                &&& run.plan_cache == joined_path(run.workdir, "plan.json"@)
                &&& exists|dir: Seq<char>|
                    run.workdir == #[trigger] joined_path(dir, plan_identity(context_hash, requirements))
                &&& run.args.len() >= 4 && run.args[0] == "metadata"@ && run.args[1] == "--format-version=1"@
                &&& run.args[2] == "--manifest-path"@ && run.args[3] == run.manifest_path
                &&& platform(facts) is None ==> run.args.len() == 4
                &&& platform(facts) matches Some(triple) ==> run.args.len() == 6 && run.args[4] == "--filter-platform"@
                    && run.args[5] == triple
            },
        },
{
    if requirements.len() > 0 && plan_manifest(requirements) is Ok {
        let dir = joined_path(joined_path(cache_dir, "dependency-plans"@), "cargo"@);
        let workdir = joined_path(dir, plan_identity(context_hash, requirements));
        let plain = seq!["metadata"@, "--format-version=1"@, "--manifest-path"@, joined_path(workdir, "Cargo.toml"@)];
        assert(plain.len() == 4);
    }
}

/// The platform that a plan is for is the machine's architecture, vendor, system and, where
/// it has one, environment, with `-` between them; Apple's desktop system has its own name.
pub proof fn law_platform(facts: Facts, arch: Seq<char>, vendor: Seq<char>, os: Seq<char>)
    requires
        found_number(facts, build_config_key::TARGET_ARCH) == Some(arch),
        found_number(facts, build_config_key::TARGET_VENDOR) == Some(vendor),
        found_number(facts, build_config_key::TARGET_OS) == Some(os),
    ensures
        os != "macos"@ && (found_number(facts, build_config_key::TARGET_ENV) matches Some(env) && env.len() > 0)
            ==> platform(facts) == Some(
            arch + "-"@ + vendor + "-"@ + os + "-"@ + found_number(facts, build_config_key::TARGET_ENV)->0,
        ),
        os != "macos"@ && found_number(facts, build_config_key::TARGET_ENV) is None ==> platform(facts) == Some(
            arch + "-"@ + vendor + "-"@ + os,
        ),
        os == "macos"@ && found_number(facts, build_config_key::TARGET_ENV) is None ==> platform(facts) == Some(
            arch + "-"@ + vendor + "-darwin"@,
        ),
        os == "macos"@ && found_number(facts, build_config_key::TARGET_ENV) == Some(""@) ==> platform(facts) == Some(
            arch + "-"@ + vendor + "-darwin"@,
        ),
{
    reveal_strlit("");
    reveal_strlit("-");
    reveal_strlit("darwin");
    reveal_strlit("-darwin");
    assert(arch + "-"@ + vendor + "-"@ + "darwin"@ =~= arch + "-"@ + vendor + "-darwin"@);
}

} // verus!
