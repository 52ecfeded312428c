//! Making: how targets of Rust's are called and configured, and how the native libraries of
//! a crate are made.

use vstd::prelude::*;

use crate::cargo::recipes::StaticLib;
use crate::config_extra_keys::{CRATE_NAME, CRATE_TYPE, EDITION, ROOT_SOURCE};
use crate::digest::decimal;
use crate::model::ConfigModel;
use crate::path::{absolute, climbs, joined_path};
use crate::plugin_abi::RuleRequest;
use crate::rust_plugin::native::{
    all_compile_args, compile_args, header_args, lib_in, native_steps, object_of, objects_of, sanitized, steps_for,
    NativeSteps,
};
use crate::rust_plugin::names::{
    behind_last, crate_of, executable_files, executable_root, extra_of, is_candidate, is_called, library_files,
    library_root, short_name,
};
use crate::rust_plugin::rule::{rule_extras, rust_rule, source_in_package, with_field};
use crate::table::{found, found_number, law_with_number};
use crate::text::{has_char, last_position, lemma_cut};

verus! {

proof fn lemma_last(s: Seq<char>, c: char, n: int)
    requires
        0 <= n <= s.len(),
    ensures
        -1 <= last_position(s, c, n) < n,
        last_position(s, c, n) >= 0 ==> s[last_position(s, c, n)] == c,
        forall|j: int| last_position(s, c, n) < j < n ==> s[j] != c,
    decreases n,
{
    if n > 0 && s[n - 1] != c {
        lemma_last(s, c, n - 1);
    }
}

proof fn lemma_behind(a: Seq<char>, c: char, b: Seq<char>)
    requires
        !b.contains(c),
    ensures
        behind_last(a + seq![c] + b, c) == b,
        behind_last(b, c) == b,
{
    let s = a + seq![c] + b;
    lemma_last(s, c, s.len() as int);
    lemma_last(b, c, b.len() as int);
    let at = last_position(s, c, s.len() as int);
    assert(s[a.len() as int] == c);
    if at > a.len() {
        assert(b[at - a.len() - 1] == c);
    }
    assert(s.subrange(at + 1, s.len() as int) =~= b);
    let other = last_position(b, c, b.len() as int);
    if other >= 0 {
        assert(b.contains(b[other]));
    }
}

/// A target is called by the last part of its name: what stands behind its package, or
/// behind the last of its directories.
pub proof fn law_short_name(dir: Seq<char>, package: Seq<char>, name: Seq<char>)
    requires
        !name.contains('/') && !name.contains(':'),
        !package.contains('/'),
    ensures
        short_name(dir + seq!['/'] + package + seq![':'] + name) == name,
        short_name(dir + seq!['/'] + name) == name,
        short_name(name) == name,
{
    let tail = package + seq![':'] + name;
    assert(!tail.contains('/')) by {
        if tail.contains('/') {
            let k = choose|k: int| 0 <= k < tail.len() && tail[k] == '/';
            if k < package.len() {
                assert(package[k] == '/');
            } else {
                assert(name[k - package.len() - 1] == '/');
            }
        }
    }
    assert(dir + seq!['/'] + package + seq![':'] + name =~= dir + seq!['/'] + tail);
    lemma_behind(dir, '/', tail);
    lemma_behind(package, ':', name);
    lemma_behind(dir, '/', name);
}

/// The crate of a target is called as the target, without a version and with `_` for `-`.
pub proof fn law_crate_name(dir: Seq<char>, name: Seq<char>, version: Seq<char>, i: int)
    requires
        !name.contains('/') && !name.contains(':') && !has_char(name, '@'),
        !version.contains('/') && !version.contains(':'),
        0 <= i < name.len(),
    ensures
        ({
            let plain = crate_of(dir + seq!['/'] + name);
            let versioned = crate_of(dir + seq!['/'] + name + seq!['@'] + version);
            &&& plain == versioned
            &&& plain.len() == name.len()
            &&& plain[i] == if name[i] == '-' {
                '_'
            } else {
                name[i]
            }
        }),
{
    let full = name + seq!['@'] + version;
    assert(!full.contains('/') && !full.contains(':')) by {
        if full.contains('/') || full.contains(':') {
            let k = choose|k: int| 0 <= k < full.len() && (full[k] == '/' || full[k] == ':');
            if k < name.len() {
                assert(name.contains(name[k]));
            } else if k > name.len() {
                assert(version.contains(version[k - name.len() - 1]));
            }
        }
    }
    assert(dir + seq!['/'] + name + seq!['@'] + version =~= dir + seq!['/'] + full);
    law_short_name(dir, Seq::empty(), name);
    law_short_name(dir, Seq::empty(), full);
    lemma_cut(name, '@', version);
}

/// The root of a target is the one that it states; else one of its sources that is called as
/// a root is, and none where there is none.
pub proof fn law_root_source(config: ConfigModel, name: Seq<char>)
    ensures
        extra_of(config, ROOT_SOURCE) matches Some(root) ==> library_root(config, name) == Ok::<_, Seq<char>>(root)
            && executable_root(config, name, false) == Ok::<_, Seq<char>>(root) && executable_root(config, name, true)
            == Ok::<_, Seq<char>>(root),
        extra_of(config, ROOT_SOURCE) is None ==> {
            &&& library_root(config, name) matches Ok(root) ==> config.sources.contains(root) && (is_called(root, "lib.rs"@)
                || is_called(root, name + ".rs"@))
            &&& library_root(config, name) is Err ==> forall|k: int|
                0 <= k < config.sources.len() ==> !is_called(#[trigger] config.sources[k], "lib.rs"@) && !is_called(
                    config.sources[k],
                    name + ".rs"@,
                )
            &&& executable_root(config, name, false) matches Ok(root) ==> config.sources.contains(root) && (is_called(
                root,
                "main.rs"@,
            ) || is_called(root, name + ".rs"@))
            &&& executable_root(config, name, false) is Err ==> forall|k: int|
                0 <= k < config.sources.len() ==> !is_called(#[trigger] config.sources[k], "main.rs"@) && !is_called(
                    config.sources[k],
                    name + ".rs"@,
                )
            &&& executable_root(config, name, true) matches Ok(root) ==> config.sources.contains(root) && (is_called(
                root,
                "main.rs"@,
            ) || is_called(root, "lib.rs"@) || is_called(root, name + ".rs"@))
            &&& executable_root(config, name, true) is Err ==> forall|k: int|
                0 <= k < config.sources.len() ==> !is_called(#[trigger] config.sources[k], "main.rs"@) && !is_called(
                    config.sources[k],
                    "lib.rs"@,
                ) && !is_called(config.sources[k], name + ".rs"@)
        },
{
    if extra_of(config, ROOT_SOURCE) is None {
        let library = library_files(name);
        let program = executable_files(name, false);
        let test = executable_files(name, true);
        crate::rust_plugin::names::law_best_root(config.sources, library);
        crate::rust_plugin::names::law_best_root(config.sources, program);
        crate::rust_plugin::names::law_best_root(config.sources, test);
        assert(library[0] == "lib.rs"@ && library[1] == name + ".rs"@);
        assert(program[0] == name + ".rs"@ && program[1] == "main.rs"@);
        assert(test[0] == name + ".rs"@ && test[1] == "main.rs"@ && test[2] == "lib.rs"@);
        assert forall|k: int| 0 <= k < config.sources.len() implies {
            &&& !is_candidate(#[trigger] config.sources[k], library) ==> !is_called(config.sources[k], "lib.rs"@)
                && !is_called(config.sources[k], name + ".rs"@)
            &&& !is_candidate(config.sources[k], program) ==> !is_called(config.sources[k], "main.rs"@) && !is_called(
                config.sources[k],
                name + ".rs"@,
            )
            &&& !is_candidate(config.sources[k], test) ==> !is_called(config.sources[k], "main.rs"@) && !is_called(
                config.sources[k],
                "lib.rs"@,
            ) && !is_called(config.sources[k], name + ".rs"@)
        } by {
            let s = config.sources[k];
            if is_called(s, "lib.rs"@) {
                assert(is_called(s, library[0]) && is_called(s, test[2]));
            }
            if is_called(s, name + ".rs"@) {
                assert(is_called(s, library[1]) && is_called(s, program[0]) && is_called(s, test[0]));
            }
            if is_called(s, "main.rs"@) {
                assert(is_called(s, program[1]) && is_called(s, test[1]));
            }
        }
    }
}

proof fn lemma_field(extras: Seq<(u32, Seq<Seq<char>>)>, fields: Seq<(Seq<char>, Seq<char>)>, field: Seq<char>, key: u32, other: u32)
    ensures
        found_number(with_field(extras, fields, field, key), other) == if other == key && found(fields, field) is Some {
            Some(seq![found(fields, field)->0])
        } else {
            found_number(extras, other)
        },
{
    if let Some(text) = found(fields, field) {
        law_with_number(extras, key, seq![text], other);
    }
}

/// A target of Rust's is configured with what it states: its dependencies, requirements,
/// sources and kind, and the names, edition and type of its crate where it states them.
pub proof fn law_rule_configured(request: RuleRequest)
    requires
        rust_rule(request) is Ok,
    ensures
        ({
            let c = rust_rule(request)->Ok_0;
            let fields = request.string_fields;
            &&& c.dependencies == request.dependencies
            &&& c.external_requirements == request.cargo_requirements
            &&& c.sources == request.sources
            &&& c.kind == request.kind
            &&& c.build_plugin == "@rust_plugin"@
            &&& c.build_dependencies.len() == 1 && c.build_dependencies[0] == "@rust_compiler"@
            &&& extra_of(c, EDITION) == found(fields, "edition"@)
            &&& extra_of(c, CRATE_NAME) == found(fields, "crate_name"@)
            &&& extra_of(c, CRATE_TYPE) == found(fields, "crate_type"@)
            &&& found(fields, "root_source"@) is None ==> extra_of(c, ROOT_SOURCE) is None
            &&& found(fields, "root_source"@) matches Some(root) ==> extra_of(c, ROOT_SOURCE) == Some(
                joined_path(request.package_dir, root),
            ) && !absolute(root) && !climbs(root)
        }),
{
    let fields = request.string_fields;
    let none = Seq::<(u32, Seq<Seq<char>>)>::empty();
    let one = with_field(none, fields, "edition"@, EDITION);
    let two = with_field(one, fields, "crate_name"@, CRATE_NAME);
    let three = rule_extras(request);
    let c = rust_rule(request)->Ok_0;
    lemma_one_key(none, one, two, three, fields, EDITION);
    lemma_one_key(none, one, two, three, fields, CRATE_NAME);
    lemma_one_key(none, one, two, three, fields, CRATE_TYPE);
    lemma_one_key(none, one, two, three, fields, ROOT_SOURCE);
    if let Some(root) = found(fields, "root_source"@) {
        let path = source_in_package(request.package_dir, root)->Ok_0;
        law_with_number(three, ROOT_SOURCE, seq![path], EDITION);
        law_with_number(three, ROOT_SOURCE, seq![path], CRATE_NAME);
        law_with_number(three, ROOT_SOURCE, seq![path], CRATE_TYPE);
        law_with_number(three, ROOT_SOURCE, seq![path], ROOT_SOURCE);
    }
}

proof fn lemma_one_key(
    none: Seq<(u32, Seq<Seq<char>>)>,
    one: Seq<(u32, Seq<Seq<char>>)>,
    two: Seq<(u32, Seq<Seq<char>>)>,
    three: Seq<(u32, Seq<Seq<char>>)>,
    fields: Seq<(Seq<char>, Seq<char>)>,
    key: u32,
)
    requires
        none.len() == 0,
        one == with_field(none, fields, "edition"@, EDITION),
        two == with_field(one, fields, "crate_name"@, CRATE_NAME),
        three == with_field(two, fields, "crate_type"@, CRATE_TYPE),
    ensures
        found_number(three, key) == if key == CRATE_TYPE && found(fields, "crate_type"@) is Some {
            Some(seq![found(fields, "crate_type"@)->0])
        } else if key == CRATE_NAME && found(fields, "crate_name"@) is Some {
            Some(seq![found(fields, "crate_name"@)->0])
        } else if key == EDITION && found(fields, "edition"@) is Some {
            Some(seq![found(fields, "edition"@)->0])
        } else {
            None
        },
{
    lemma_field(none, fields, "edition"@, EDITION, key);
    lemma_field(one, fields, "crate_name"@, CRATE_NAME, key);
    lemma_field(two, fields, "crate_type"@, CRATE_TYPE, key);
}

/// A target whose root is not a path below its package is refused.
pub proof fn law_rule_refused(request: RuleRequest)
    ensures
        rust_rule(request) is Err <==> (found(request.string_fields, "root_source"@) matches Some(root) && (absolute(root)
            || climbs(root))),
{
}

proof fn lemma_steps(crate_root: Seq<char>, lib: StaticLib, dir: Seq<char>, n: int)
    requires
        0 <= n,
    ensures
        all_compile_args(crate_root, lib, dir, n).len() == n,
        objects_of(dir, lib.sources, n).len() == n,
        forall|k: int| 0 <= k < n ==> #[trigger] all_compile_args(crate_root, lib, dir, n)[k] == compile_args(crate_root, lib, dir, k),
        forall|k: int| 0 <= k < n ==> #[trigger] objects_of(dir, lib.sources, n)[k] == object_of(dir, lib.sources, k),
    decreases n,
{
    if n > 0 {
        lemma_steps(crate_root, lib, dir, n - 1);
    }
}

proof fn lemma_headers(crate_root: Seq<char>, dirs: Seq<Seq<char>>, n: int, k: int)
    requires
        0 <= k < n <= dirs.len(),
    ensures
        header_args(crate_root, dirs, n).len() == 2 * n,
        header_args(crate_root, dirs, n)[2 * k] == "-I"@,
        header_args(crate_root, dirs, n)[2 * k + 1] == joined_path(crate_root, dirs[k]),
    decreases n,
{
    if n > 1 {
        lemma_headers(crate_root, dirs, n - 1, if k < n - 1 { k } else { 0 });
    } else {
        reveal_with_fuel(header_args, 2);
    }
}

/// Each source of a native library is compiled by one command, from its file below the crate
/// to an object that the command for the library then takes in; and with the library's own
/// headers and flags.
pub proof fn law_native_steps(crate_root: Seq<char>, native_dir: Seq<char>, lib: StaticLib, k: int)
    requires
        0 <= k < lib.sources.len(),
    ensures
        ({
            let steps = native_steps(crate_root, native_dir, lib);
            let args = steps.compiles[k];
            &&& steps.compiles.len() == lib.sources.len()
            &&& args[0] == "-c"@ && args[1] == joined_path(crate_root, lib.sources[k])
            &&& args[2] == "-o"@ && args[3] == steps.archive[k + 2]
            &&& forall|i: int| 0 <= i < lib.flags.len() ==> args.contains(#[trigger] lib.flags[i])
            &&& steps.archive.len() == lib.sources.len() + 2
            &&& steps.archive[0] == "crs"@ && steps.archive[1] == steps.path
            &&& steps.path == joined_path(steps.dir, "lib"@ + lib.name + ".a"@)
            &&& steps.dir == joined_path(native_dir, lib.name) && steps.name == lib.name
            &&& steps.archive[k + 2] == joined_path(steps.dir, decimal(k) + "-"@ + sanitized(lib.sources[k]) + ".o"@)
        }),
{
    let dir = joined_path(native_dir, lib.name);
    lemma_steps(crate_root, lib, dir, lib.sources.len() as int);
    let args = compile_args(crate_root, lib, dir, k);
    let headers = header_args(crate_root, lib.include_dirs, lib.include_dirs.len() as int);
    assert forall|i: int| 0 <= i < lib.flags.len() implies args.contains(#[trigger] lib.flags[i]) by {
        assert(args[4 + headers.len() + i] == lib.flags[i]);
    }
}

/// Each source of a native library is compiled with each of the library's directories of
/// headers, below the crate.
pub proof fn law_native_headers(crate_root: Seq<char>, native_dir: Seq<char>, lib: StaticLib, k: int, d: int)
    requires
        0 <= k < lib.sources.len(),
        0 <= d < lib.include_dirs.len(),
    ensures
        ({
            let args = native_steps(crate_root, native_dir, lib).compiles[k];
            exists|i: int|
                0 <= i < args.len() - 1 && #[trigger] args[i] == "-I"@ && args[i + 1] == joined_path(
                    crate_root,
                    lib.include_dirs[d],
                )
        }),
{
    let dir = joined_path(native_dir, lib.name);
    lemma_steps(crate_root, lib, dir, lib.sources.len() as int);
    lemma_headers(crate_root, lib.include_dirs, lib.include_dirs.len() as int, d);
    let args = compile_args(crate_root, lib, dir, k);
    assert(native_steps(crate_root, native_dir, lib).compiles[k] == args);
    assert(args[4 + 2 * d] == "-I"@);
    assert(args[4 + 2 * d + 1] == joined_path(crate_root, lib.include_dirs[d]));
}

/// The native libraries of a crate are all made that its configuration names.
pub proof fn law_native_builds(
    crate_root: Seq<char>,
    native_dir: Seq<char>,
    encoded: Seq<Seq<char>>,
    i: int,
    done: Seq<NativeSteps>,
)
    requires
        0 <= i <= encoded.len(),
    ensures
        steps_for(crate_root, native_dir, encoded, i, done) is Ok <==> forall|k: int|
            i <= k < encoded.len() ==> lib_in(#[trigger] encoded[k]) is Ok,
        steps_for(crate_root, native_dir, encoded, i, done) matches Ok(list) ==> {
            &&& list.len() == done.len() + encoded.len() - i
            &&& list.take(done.len() as int) == done
            &&& forall|k: int|
                i <= k < encoded.len() ==> (lib_in(#[trigger] encoded[k]) matches Ok(lib) && list[done.len() + k - i]
                    == native_steps(crate_root, native_dir, lib))
        },
    decreases encoded.len() - i,
{
    if i < encoded.len() {
        if let Ok(lib) = lib_in(encoded[i]) {
            let next = done.push(native_steps(crate_root, native_dir, lib));
            law_native_builds(crate_root, native_dir, encoded, i + 1, next);
            if let Ok(list) = steps_for(crate_root, native_dir, encoded, i + 1, next) {
                assert(list.take(done.len() as int) =~= done) by {
                    assert forall|k: int| 0 <= k < done.len() implies list[k] == done[k] by {
                        assert(list.take(next.len() as int)[k] == next[k]);
                    }
                }
                assert(list.take(next.len() as int)[done.len() as int] == next.last());
            }
        }
    } else {
        assert(done.take(done.len() as int) =~= done);
    }
}

} // verus!
