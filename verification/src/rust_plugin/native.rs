//! Native libraries: the static libraries of C that a crate brings, and the
//! commands that make them.

use vstd::prelude::*;

use crate::cargo::recipes::{encoded_lib, CargoNativeStaticLib, StaticLib};
use crate::config_extra_keys::{CRATE_ROOT, NATIVE_STATIC_LIBS};
use crate::digest::{decimal, decimal_of};
use crate::error::{fault, invalid_data, outcome, Error, ErrorKind, Fault};
use crate::model::{Config, ConfigModel};
use crate::path::{join_path, joined_path};
use crate::rust_plugin::names::{extra, extra_of, extras, extras_of};
use crate::text::{
    cat3, cat4, has_char, joined, keep, keep_all, lemma_pieces_joined, pieces, replace_char, split, swapped,
};

verus! {

/// Those of `list` that are not empty.
pub open spec fn nonempty(list: Seq<Seq<char>>) -> Seq<Seq<char>>
    decreases list.len(),
{
    if list.len() == 0 {
        Seq::empty()
    } else if list.last().len() == 0 {
        nonempty(list.drop_last())
    } else {
        nonempty(list.drop_last()).push(list.last())
    }
}

/// The texts in a list of a recipe.
pub open spec fn recipe_list(value: Seq<char>) -> Seq<Seq<char>> {
    nonempty(pieces(value, ';'))
}

pub fn split_recipe_list(value: &str) -> (r: Vec<String>)
    ensures
        r.deep_view() == recipe_list(value@),
{
    let parts = split(value, ';');
    let ghost list = parts.deep_view();
    let mut out: Vec<String> = Vec::new();
    assert(out.deep_view() =~= Seq::<Seq<char>>::empty());
    let mut i: usize = 0;
    while i < parts.len()
        invariant
            i <= parts.len(),
            list == parts.deep_view(),
            out.deep_view() == nonempty(list.take(i as int)),
        decreases parts.len() - i,
    {
        assert(list[i as int] == parts@[i as int]@);
        assert(list.take(i + 1).drop_last() =~= list.take(i as int));
        if !parts[i].as_str().is_empty() {
            keep(&mut out, parts[i].clone());
        }
        i = i + 1;
    }
    assert(list.take(i as int) =~= list);
    out
}

/// The part `i` of `parts`; empty where there is none.
pub open spec fn part_at(parts: Seq<Seq<char>>, i: int) -> Seq<char> {
    if i < parts.len() {
        parts[i]
    } else {
        Seq::empty()
    }
}

fn part(parts: &Vec<String>, i: usize) -> (r: String)
    ensures
        r@ == part_at(parts.deep_view(), i as int),
{
    if i < parts.len() {
        assert(parts.deep_view()[i as int] == parts@[i as int]@);
        parts[i].clone()
    } else {
        let none = String::new();
        assert(none@ =~= Seq::empty());
        none
    }
}

/// The library that a line of text states.
pub open spec fn lib_in(encoded: Seq<char>) -> Result<StaticLib, Fault> {
    let parts = pieces(encoded, '|');
    if part_at(parts, 0).len() == 0 {
        Err(fault(ErrorKind::InvalidData, "native static lib is missing a name"@))
    } else {
        Ok(
            StaticLib {
                name: part_at(parts, 0),
                sources: recipe_list(part_at(parts, 1)),
                include_dirs: recipe_list(part_at(parts, 2)),
                flags: recipe_list(part_at(parts, 3)),
            },
        )
    }
}

pub fn parse_native_static_lib(encoded: &str) -> (r: Result<CargoNativeStaticLib, Error>)
    ensures
        outcome(r) == lib_in(encoded@),
{
    let parts = split(encoded, '|');
    let name = part(&parts, 0);
    if name.as_str().is_empty() {
        return Err(invalid_data("native static lib is missing a name"));
    }
    Ok(
        CargoNativeStaticLib {
            name,
            sources: split_recipe_list(part(&parts, 1).as_str()),
            include_dirs: split_recipe_list(part(&parts, 2).as_str()),
            flags: split_recipe_list(part(&parts, 3).as_str()),
        },
    )
}

/// Whether a text can stand in a recipe: it is not empty, and holds none of the
/// characters that separate texts there.
pub open spec fn plain(text: Seq<char>) -> bool {
    text.len() > 0 && !has_char(text, ';') && !has_char(text, '|')
}

/// Whether all of `list` can stand in a recipe.
pub open spec fn all_plain(list: Seq<Seq<char>>) -> bool {
    forall|i: int| 0 <= i < list.len() ==> plain(#[trigger] list[i])
}

proof fn lemma_nonempty(list: Seq<Seq<char>>)
    requires
        all_plain(list),
    ensures
        nonempty(list) == list,
    decreases list.len(),
{
    if list.len() > 0 {
        assert(plain(list[list.len() - 1]));
        assert forall|i: int| 0 <= i < list.drop_last().len() implies plain(#[trigger] list.drop_last()[i]) by {
            assert(plain(list[i]));
        }
        lemma_nonempty(list.drop_last());
        assert(list.drop_last().push(list.last()) =~= list);
    } else {
        assert(nonempty(list) =~= list);
    }
}

proof fn lemma_no_char(s: Seq<char>, c: char)
    ensures
        (forall|i: int| 0 <= i < s.len() ==> s[i] != c) <==> !has_char(s, c),
{
    crate::text::lemma_position_from(s, c, 0);
}

proof fn lemma_joined_no_bar(list: Seq<Seq<char>>)
    requires
        all_plain(list),
    ensures
        !has_char(joined(list, seq![';']), '|'),
    decreases list.len(),
{
    let s = joined(list, seq![';']);
    if list.len() == 0 {
        lemma_no_char(s, '|');
    } else if list.len() == 1 {
        assert(plain(list[0]));
    } else {
        assert(plain(list[list.len() - 1]));
        assert forall|i: int| 0 <= i < list.drop_last().len() implies plain(#[trigger] list.drop_last()[i]) by {
            assert(plain(list[i]));
        }
        lemma_joined_no_bar(list.drop_last());
        lemma_no_char(joined(list.drop_last(), seq![';']), '|');
        lemma_no_char(list.last(), '|');
        lemma_no_char(s, '|');
    }
}

proof fn lemma_recipe_list(list: Seq<Seq<char>>)
    requires
        all_plain(list),
    ensures
        recipe_list(joined(list, seq![';'])) == list,
{
    if list.len() == 0 {
        let s = joined(list, seq![';']);
        assert(s.len() == 0);
        assert(pieces(s, ';') =~= seq![s]);
        assert(seq![s].drop_last() =~= Seq::<Seq<char>>::empty());
        assert(nonempty(seq![s].drop_last()) =~= Seq::<Seq<char>>::empty());
        assert(nonempty(seq![s]) =~= list);
    } else {
        assert forall|i: int| 0 <= i < list.len() implies !has_char(#[trigger] list[i], ';') by {
            assert(plain(list[i]));
        }
        lemma_pieces_joined(list, ';');
        lemma_nonempty(list);
    }
}

/// A library is read as the one that was written.
pub proof fn law_lib_read_back(lib: StaticLib)
    requires
        plain(lib.name),
        all_plain(lib.sources),
        all_plain(lib.include_dirs),
        all_plain(lib.flags),
    ensures
        lib_in(encoded_lib(lib)) == Ok::<StaticLib, Fault>(lib),
{
    reveal_strlit("|");
    reveal_strlit(";");
    assert("|"@ =~= seq!['|']);
    assert(";"@ =~= seq![';']);
    let parts = seq![
        lib.name,
        joined(lib.sources, seq![';']),
        joined(lib.include_dirs, seq![';']),
        joined(lib.flags, seq![';']),
    ];
    lemma_joined_no_bar(lib.sources);
    lemma_joined_no_bar(lib.include_dirs);
    lemma_joined_no_bar(lib.flags);
    assert forall|i: int| 0 <= i < parts.len() implies !has_char(#[trigger] parts[i], '|') by {
        if i == 0 {
        } else if i == 1 {
        } else if i == 2 {
        } else {
            assert(i == 3);
        }
    }
    lemma_pieces_joined(parts, '|');
    lemma_recipe_list(lib.sources);
    lemma_recipe_list(lib.include_dirs);
    lemma_recipe_list(lib.flags);
}

/// `path` as part of a file's name.
pub open spec fn sanitized(path: Seq<char>) -> Seq<char> {
    swapped(swapped(swapped(path, '/', '_'), '.', '_'), '-', '_')
}

pub fn sanitize_path(path: &str) -> (r: String)
    ensures
        r@ == sanitized(path@),
{
    replace_char(replace_char(replace_char(path, '/', '_').as_str(), '.', '_').as_str(), '-', '_')
}

/// The commands that make a native library: one for each source, and one for
/// the library.
pub struct NativeBuild {
    pub name: String,
    pub dir: String,
    pub compiles: Vec<Vec<String>>,
    pub archive: Vec<String>,
    pub path: String,
}

/// What a `NativeBuild` says.
#[verifier::ext_equal]
pub struct NativeSteps {
    pub name: Seq<char>,
    pub dir: Seq<char>,
    pub compiles: Seq<Seq<Seq<char>>>,
    pub archive: Seq<Seq<char>>,
    pub path: Seq<char>,
}

impl DeepView for NativeBuild {
    type V = NativeSteps;

    open spec fn deep_view(&self) -> NativeSteps {
        NativeSteps {
            name: self.name@,
            dir: self.dir@,
            compiles: self.compiles.deep_view(),
            archive: self.archive.deep_view(),
            path: self.path@,
        }
    }
}

/// The file that the source `i` becomes.
pub open spec fn object_of(dir: Seq<char>, sources: Seq<Seq<char>>, i: int) -> Seq<char> {
    joined_path(dir, decimal(i) + "-"@ + sanitized(sources[i]) + ".o"@)
}

/// The files that the first `n` sources become.
pub open spec fn objects_of(dir: Seq<char>, sources: Seq<Seq<char>>, n: int) -> Seq<Seq<char>>
    decreases n,
{
    if n <= 0 {
        Seq::empty()
    } else {
        objects_of(dir, sources, n - 1).push(object_of(dir, sources, n - 1))
    }
}

/// The arguments that name the first `n` directories with headers.
pub open spec fn header_args(crate_root: Seq<char>, dirs: Seq<Seq<char>>, n: int) -> Seq<Seq<char>>
    decreases n,
{
    if n <= 0 {
        Seq::empty()
    } else {
        header_args(crate_root, dirs, n - 1).push("-I"@).push(joined_path(crate_root, dirs[n - 1]))
    }
}

/// The arguments that compile the source `i`.
pub open spec fn compile_args(crate_root: Seq<char>, lib: StaticLib, dir: Seq<char>, i: int) -> Seq<Seq<char>> {
    seq!["-c"@, joined_path(crate_root, lib.sources[i]), "-o"@, object_of(dir, lib.sources, i)] + header_args(
        crate_root,
        lib.include_dirs,
        lib.include_dirs.len() as int,
    ) + lib.flags
}

/// The arguments of each command that compiles one of the first `n` sources.
pub open spec fn all_compile_args(crate_root: Seq<char>, lib: StaticLib, dir: Seq<char>, n: int) -> Seq<Seq<Seq<char>>>
    decreases n,
{
    if n <= 0 {
        Seq::empty()
    } else {
        all_compile_args(crate_root, lib, dir, n - 1).push(compile_args(crate_root, lib, dir, n - 1))
    }
}

/// The file of the library `name`.
pub open spec fn archive_of(dir: Seq<char>, name: Seq<char>) -> Seq<char> {
    joined_path(dir, "lib"@ + name + ".a"@)
}

/// The commands that make `lib`, below the directory `native_dir`.
pub open spec fn native_steps(crate_root: Seq<char>, native_dir: Seq<char>, lib: StaticLib) -> NativeSteps {
    let dir = joined_path(native_dir, lib.name);
    NativeSteps {
        name: lib.name,
        dir,
        compiles: all_compile_args(crate_root, lib, dir, lib.sources.len() as int),
        archive: seq!["crs"@, archive_of(dir, lib.name)] + objects_of(dir, lib.sources, lib.sources.len() as int),
        path: archive_of(dir, lib.name),
    }
}

fn compile_command(crate_root: &str, lib: &CargoNativeStaticLib, dir: &str, i: usize) -> (r: (Vec<String>, String))
    requires
        i < lib.sources@.len(),
    ensures
        r.0.deep_view() == compile_args(crate_root@, lib.deep_view(), dir@, i as int),
        r.1@ == object_of(dir@, lib.deep_view().sources, i as int),
{
    let ghost model = lib.deep_view();
    assert(model.sources[i as int] == lib.sources@[i as int]@);
    let source = lib.sources[i].as_str();
    let object = join_path(
        dir,
        cat4(decimal_of(i as u64).as_str(), "-", sanitize_path(source).as_str(), ".o").as_str(),
    );
    let mut args: Vec<String> = Vec::new();
    keep(&mut args, "-c".to_owned());
    keep(&mut args, join_path(crate_root, source));
    keep(&mut args, "-o".to_owned());
    keep(&mut args, object.clone());
    let ghost head = args.deep_view();
    assert(head =~= seq!["-c"@, joined_path(crate_root@, source@), "-o"@, object@]);
    let ghost dirs = model.include_dirs;
    let mut k: usize = 0;
    assert(args.deep_view() =~= head + header_args(crate_root@, dirs, 0));
    while k < lib.include_dirs.len()
        invariant
            k <= lib.include_dirs.len(),
            dirs == lib.include_dirs.deep_view(),
            args.deep_view() == head + header_args(crate_root@, dirs, k as int),
        decreases lib.include_dirs.len() - k,
    {
        assert(dirs[k as int] == lib.include_dirs@[k as int]@);
        keep(&mut args, "-I".to_owned());
        keep(&mut args, join_path(crate_root, lib.include_dirs[k].as_str()));
        k = k + 1;
        assert(args.deep_view() =~= head + header_args(crate_root@, dirs, k as int));
    }
    keep_all(&mut args, &lib.flags);
    (args, object)
}

fn native_build(crate_root: &str, native_dir: &str, lib: &CargoNativeStaticLib) -> (r: NativeBuild)
    ensures
        r.deep_view() == native_steps(crate_root@, native_dir@, lib.deep_view()),
{
    let ghost model = lib.deep_view();
    let dir = join_path(native_dir, lib.name.as_str());
    let path = join_path(dir.as_str(), cat3("lib", lib.name.as_str(), ".a").as_str());
    let mut compiles: Vec<Vec<String>> = Vec::new();
    let mut archive: Vec<String> = Vec::new();
    keep(&mut archive, "crs".to_owned());
    keep(&mut archive, path.clone());
    let ghost head = seq!["crs"@, path@];
    let mut i: usize = 0;
    assert(compiles.deep_view() =~= all_compile_args(crate_root@, model, dir@, 0));
    assert(archive.deep_view() =~= head + objects_of(dir@, model.sources, 0));
    while i < lib.sources.len()
        invariant
            i <= lib.sources.len(),
            model == lib.deep_view(),
            compiles.deep_view() == all_compile_args(crate_root@, model, dir@, i as int),
            archive.deep_view() == head + objects_of(dir@, model.sources, i as int),
        decreases lib.sources.len() - i,
    {
        let (args, object) = compile_command(crate_root, lib, dir.as_str(), i);
        keep(&mut compiles, args);
        keep(&mut archive, object);
        i = i + 1;
        assert(archive.deep_view() =~= head + objects_of(dir@, model.sources, i as int));
    }
    NativeBuild { name: lib.name.clone(), dir, compiles, archive, path }
}

/// `done` with the commands that make the libraries `encoded[i..]`.
pub open spec fn steps_for(
    crate_root: Seq<char>,
    native_dir: Seq<char>,
    encoded: Seq<Seq<char>>,
    i: int,
    done: Seq<NativeSteps>,
) -> Result<Seq<NativeSteps>, Fault>
    decreases encoded.len() - i,
{
    if i >= encoded.len() {
        Ok(done)
    } else {
        match lib_in(encoded[i]) {
            Err(e) => Err(e),
            Ok(lib) => steps_for(
                crate_root,
                native_dir,
                encoded,
                i + 1,
                done.push(native_steps(crate_root, native_dir, lib)),
            ),
        }
    }
}

/// The commands that make the native libraries of a crate that is compiled in
/// `working_directory`.
pub open spec fn native_builds(config: ConfigModel, working_directory: Seq<char>) -> Result<Seq<NativeSteps>, Fault> {
    match extra_of(config, CRATE_ROOT) {
        None => Ok(Seq::empty()),
        Some(crate_root) => steps_for(
            crate_root,
            joined_path(working_directory, "native"@),
            extras_of(config, NATIVE_STATIC_LIBS),
            0,
            Seq::empty(),
        ),
    }
}

pub fn build_native_static_libs(config: &Config, working_directory: &str) -> (r: Result<Vec<NativeBuild>, Error>)
    ensures
        outcome(r) == native_builds(config.deep_view(), working_directory@),
{
    let mut out: Vec<NativeBuild> = Vec::new();
    assert(out.deep_view() =~= Seq::<NativeSteps>::empty());
    let crate_root = match extra(config, CRATE_ROOT) {
        Some(root) => root,
        None => return Ok(out),
    };
    let native_dir = join_path(working_directory, "native");
    let encoded = extras(config, NATIVE_STATIC_LIBS);
    let ghost list = encoded.deep_view();
    let mut i: usize = 0;
    while i < encoded.len()
        invariant
            i <= encoded.len(),
            list == encoded.deep_view(),
            native_builds(config.deep_view(), working_directory@) == steps_for(
                crate_root@,
                native_dir@,
                list,
                i as int,
                out.deep_view(),
            ),
        decreases encoded.len() - i,
    {
        assert(list[i as int] == encoded@[i as int]@);
        let lib = parse_native_static_lib(encoded[i].as_str())?;
        keep(&mut out, native_build(crate_root.as_str(), native_dir.as_str(), &lib));
        i = i + 1;
    }
    Ok(out)
}

} // verus!
