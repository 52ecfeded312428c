//! Names: how targets are called, and which of their sources is the root.

use vstd::prelude::*;

use crate::config_extra_keys::ROOT_SOURCE;
use crate::model::{Config, ConfigModel};
use crate::table::found_number;
use crate::text::{
    cat2, cat3, cut, cut_last, ends, ends_with, pieces, replace_char, rsplit_once, same, split, split_once, swapped,
};

verus! {

/// What stands behind the last `c` of `s`.
pub open spec fn behind_last(s: Seq<char>, c: char) -> Seq<char> {
    match cut_last(s, c) {
        Some((_, tail)) => tail,
        None => s,
    }
}

/// The last part of a target's name.
pub open spec fn short_name(target: Seq<char>) -> Seq<char> {
    behind_last(behind_last(target, '/'), ':')
}

fn tail_behind(s: &str, c: char) -> (r: String)
    ensures
        r@ == behind_last(s@, c),
{
    match rsplit_once(s, c) {
        Some((_, tail)) => tail,
        None => s.to_owned(),
    }
}

pub fn target_shortname(target: &str) -> (r: String)
    ensures
        r@ == short_name(target@),
{
    tail_behind(tail_behind(target, '/').as_str(), ':')
}

/// What a target is called in Rust: the last part of its name, without a
/// version, with `_` for `-`.
pub open spec fn crate_of(target: Seq<char>) -> Seq<char> {
    let name = match cut(short_name(target), '@') {
        Some((name, _)) => name,
        None => short_name(target),
    };
    swapped(name, '-', '_')
}

pub fn rust_name(target: &str) -> (r: String)
    ensures
        r@ == crate_of(target@),
{
    let short = target_shortname(target);
    let name = match split_once(short.as_str(), '@') {
        Some((name, _)) => name,
        None => short,
    };
    replace_char(name.as_str(), '-', '_')
}

/// What a configuration says under `key`.
pub open spec fn extras_of(config: ConfigModel, key: u32) -> Seq<Seq<char>> {
    found_number(config.extras, key).unwrap_or(Seq::empty())
}

/// The first text that a configuration says under `key`.
pub open spec fn extra_of(config: ConfigModel, key: u32) -> Option<Seq<char>> {
    if extras_of(config, key).len() > 0 {
        Some(extras_of(config, key)[0])
    } else {
        None
    }
}

/// What a configuration says under `key`.
pub fn extras(config: &Config, key: u32) -> (r: Vec<String>)
    ensures
        r.deep_view() == extras_of(config.deep_view(), key),
{
    match config.extras.get(key) {
        Some(values) => crate::text::Duplicate::duplicate(values),
        None => {
            let none: Vec<String> = Vec::new();
            assert(none.deep_view() =~= Seq::empty());
            none
        },
    }
}

/// The first text that a configuration says under `key`.
pub fn extra(config: &Config, key: u32) -> (r: Option<String>)
    ensures
        r.deep_view() == extra_of(config.deep_view(), key),
{
    let values = extras(config, key);
    if values.len() > 0 {
        assert(values.deep_view()[0] == values@[0]@);
        Some(values[0].clone())
    } else {
        None
    }
}

/// The first text that a configuration says under `key`, or `default`.
pub fn extra_or(config: &Config, key: u32, default: &str) -> (r: String)
    ensures
        r@ == extra_of(config.deep_view(), key).unwrap_or(default@),
{
    match extra(config, key) {
        Some(value) => value,
        None => default.to_owned(),
    }
}

/// Whether `source` is a file called `file`, in whichever directory.
pub open spec fn is_called(source: Seq<char>, file: Seq<char>) -> bool {
    source == file || ends(source, "/"@ + file)
}

fn called(source: &str, file: &str) -> (r: bool)
    ensures
        r == is_called(source@, file@),
{
    same(source, file) || ends_with(source, cat2("/", file).as_str())
}

/// Whether `source` can be the root of a target: it is called as one of `files`.
pub open spec fn is_candidate(source: Seq<char>, files: Seq<Seq<char>>) -> bool {
    exists|i: int| 0 <= i < files.len() && is_called(source, #[trigger] files[i])
}

fn candidate(source: &str, files: &Vec<String>) -> (r: bool)
    ensures
        r == is_candidate(source@, files.deep_view()),
{
    let ghost list = files.deep_view();
    let mut i: usize = 0;
    while i < files.len()
        invariant
            i <= files.len(),
            list == files.deep_view(),
            forall|j: int| 0 <= j < i ==> !is_called(source@, #[trigger] list[j]),
        decreases files.len() - i,
    {
        assert(list[i as int] == files@[i as int]@);
        if called(source, files[i].as_str()) {
            return true;
        }
        i = i + 1;
    }
    false
}

/// How deep a source lies.
pub open spec fn depth(source: Seq<char>) -> nat {
    pieces(source, '/').len()
}

/// The better root: the one that lies less deep, and of two the first.
pub open spec fn better_root(best: Option<Seq<char>>, source: Seq<char>) -> Seq<char> {
    match best {
        None => source,
        Some(best) => if depth(source) < depth(best) {
            source
        } else {
            best
        },
    }
}

/// The best root among `best` and the sources `sources[i..]`.
pub open spec fn best_root(
    sources: Seq<Seq<char>>,
    files: Seq<Seq<char>>,
    i: int,
    best: Option<Seq<char>>,
) -> Option<Seq<char>>
    decreases sources.len() - i,
{
    if i >= sources.len() {
        best
    } else if is_candidate(sources[i], files) {
        best_root(sources, files, i + 1, Some(better_root(best, sources[i])))
    } else {
        best_root(sources, files, i + 1, best)
    }
}

fn find_root(sources: &Vec<String>, files: &Vec<String>) -> (r: Option<String>)
    ensures
        r.deep_view() == best_root(sources.deep_view(), files.deep_view(), 0, None),
{
    let ghost list = sources.deep_view();
    let ghost tails = files.deep_view();
    let mut best: Option<String> = None;
    let mut i: usize = 0;
    while i < sources.len()
        invariant
            i <= sources.len(),
            list == sources.deep_view(),
            tails == files.deep_view(),
            best_root(list, tails, 0, None) == best_root(list, tails, i as int, best.deep_view()),
        decreases sources.len() - i,
    {
        assert(list[i as int] == sources@[i as int]@);
        let source = &sources[i];
        if candidate(source.as_str(), files) {
            best = match best {
                None => Some(source.clone()),
                Some(before) => if split(source.as_str(), '/').len() < split(before.as_str(), '/').len() {
                    Some(source.clone())
                } else {
                    Some(before)
                },
            };
        }
        i = i + 1;
    }
    best
}

/// The best root is one of the sources, is called as a root is, and no other such
/// source lies less deep.
pub proof fn law_best_root(sources: Seq<Seq<char>>, files: Seq<Seq<char>>)
    ensures
        match best_root(sources, files, 0, None) {
            None => forall|i: int| 0 <= i < sources.len() ==> !is_candidate(#[trigger] sources[i], files),
            Some(root) => sources.contains(root) && is_candidate(root, files) && forall|i: int|
                0 <= i < sources.len() && is_candidate(#[trigger] sources[i], files) ==> depth(root) <= depth(
                    sources[i],
                ),
        },
{
    lemma_best_root(sources, files, 0, None);
}

proof fn lemma_best_root(sources: Seq<Seq<char>>, files: Seq<Seq<char>>, i: int, best: Option<Seq<char>>)
    requires
        0 <= i <= sources.len(),
        best matches Some(root) ==> sources.contains(root) && is_candidate(root, files),
    ensures
        match best_root(sources, files, i, best) {
            None => best is None && forall|j: int|
                i <= j < sources.len() ==> !is_candidate(#[trigger] sources[j], files),
            Some(root) => sources.contains(root) && is_candidate(root, files) && (best matches Some(before)
                ==> depth(root) <= depth(before)) && forall|j: int|
                i <= j < sources.len() && is_candidate(#[trigger] sources[j], files) ==> depth(root) <= depth(
                    sources[j],
                ),
        },
    decreases sources.len() - i,
{
    if i < sources.len() {
        if is_candidate(sources[i], files) {
            lemma_best_root(sources, files, i + 1, Some(better_root(best, sources[i])));
        } else {
            lemma_best_root(sources, files, i + 1, best);
        }
    }
}

/// How the root of a library called `name` is called.
pub open spec fn library_files(name: Seq<char>) -> Seq<Seq<char>> {
    seq!["lib.rs"@, name + ".rs"@]
}

/// The root of a library.
pub open spec fn library_root(config: ConfigModel, name: Seq<char>) -> Result<Seq<char>, Seq<char>> {
    match extra_of(config, ROOT_SOURCE) {
        Some(root) => Ok(root),
        None => match best_root(config.sources, library_files(name), 0, None) {
            Some(root) => Ok(root),
            None => Err("no lib.rs or "@ + name + ".rs source file specified!"@),
        },
    }
}

/// What a text, or the message in its place, says.
pub open spec fn text_told(r: Result<String, String>) -> Result<Seq<char>, Seq<char>> {
    match r {
        Ok(text) => Ok(text@),
        Err(message) => Err(message@),
    }
}

pub fn library_root_source(config: &Config, name: &str) -> (r: Result<String, String>)
    ensures
        text_told(r) == library_root(config.deep_view(), name@),
{
    if let Some(root) = extra(config, ROOT_SOURCE) {
        return Ok(root);
    }
    let mut files: Vec<String> = Vec::new();
    crate::text::keep(&mut files, "lib.rs".to_owned());
    crate::text::keep(&mut files, cat2(name, ".rs"));
    assert(files.deep_view() =~= library_files(name@));
    match find_root(&config.sources, &files) {
        Some(root) => Ok(root),
        None => Err(cat3("no lib.rs or ", name, ".rs source file specified!")),
    }
}

/// How the root of a program, or of a test, called `name` is called.
pub open spec fn executable_files(name: Seq<char>, test: bool) -> Seq<Seq<char>> {
    if test {
        seq![name + ".rs"@, "main.rs"@, "lib.rs"@]
    } else {
        seq![name + ".rs"@, "main.rs"@]
    }
}

/// The root of a program, or of a test.
pub open spec fn executable_root(config: ConfigModel, name: Seq<char>, test: bool) -> Result<Seq<char>, Seq<char>> {
    match extra_of(config, ROOT_SOURCE) {
        Some(root) => Ok(root),
        None => match best_root(config.sources, executable_files(name, test), 0, None) {
            Some(root) => Ok(root),
            None => Err("no main.rs, lib.rs, or "@ + name + ".rs source file specified!"@),
        },
    }
}

pub fn executable_root_source(config: &Config, name: &str, test: bool) -> (r: Result<String, String>)
    ensures
        text_told(r) == executable_root(config.deep_view(), name@, test),
{
    if let Some(root) = extra(config, ROOT_SOURCE) {
        return Ok(root);
    }
    let mut files: Vec<String> = Vec::new();
    crate::text::keep(&mut files, cat2(name, ".rs"));
    crate::text::keep(&mut files, "main.rs".to_owned());
    if test {
        crate::text::keep(&mut files, "lib.rs".to_owned());
    }
    assert(files.deep_view() =~= executable_files(name@, test));
    match find_root(&config.sources, &files) {
        Some(root) => Ok(root),
        None => Err(cat3("no main.rs, lib.rs, or ", name, ".rs source file specified!")),
    }
}

} // verus!
