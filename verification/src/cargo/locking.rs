//! Locking: what a lock file says of its packages.

use vstd::prelude::*;

use crate::cargo::lock::{
    count_named, dependency_rows, dependency_target, first_match, lock_dependency, lock_entries, locked_edges,
    locked_package, locked_packages, package_target, target_parts, versioned_name, Locked,
};
use crate::error::Fault;
use crate::table::{found, law_with_row, with_row};
use crate::text::{begins, has_char, is_space, lemma_cut, words, words_from};
use crate::value::{member, texts_in, Node};

verus! {

proof fn lemma_word(s: Seq<char>, start: int, i: int, end: int)
    requires
        0 <= start <= i <= end <= s.len(),
        start < end,
        forall|k: int| i <= k < end ==> !is_space(#[trigger] s[k]),
        end < s.len() ==> is_space(s[end]),
    ensures
        words_from(s, start, i) == seq![s.subrange(start, end)] + (if end < s.len() {
            words_from(s, end + 1, end + 1)
        } else {
            Seq::empty()
        }),
    decreases end - i,
{
    if i < end {
        assert(!is_space(s[i]));
        lemma_word(s, start, i + 1, end);
    } else if end == s.len() {
        assert(words_from(s, start, i) =~= seq![s.subrange(start, end)]);
        assert(seq![s.subrange(start, end)] + Seq::<Seq<char>>::empty() =~= seq![s.subrange(start, end)]);
    }
}

/// Whether `s` is one word.
pub open spec fn is_word(s: Seq<char>) -> bool {
    s.len() > 0 && forall|k: int| 0 <= k < s.len() ==> !is_space(#[trigger] s[k])
}

/// A dependency is written in a lock file as its name; as its name and version; or with its
/// source behind them.
pub proof fn law_lock_dependency(name: Seq<char>, version: Seq<char>, source: Seq<char>)
    requires
        is_word(name),
        is_word(version),
    ensures
        lock_dependency(name) == (name, None::<Seq<char>>),
        lock_dependency(name + seq![' '] + version) == (name, Some(version)),
        lock_dependency(name + seq![' '] + version + seq![' '] + source) == (name, Some(version)),
{
    lemma_word(name, 0, 0, name.len() as int);
    assert(name.subrange(0, name.len() as int) =~= name);
    let a = name.len() as int;
    let b = a + 1 + version.len();
    let two = name + seq![' '] + version;
    assert forall|k: int| 0 <= k < a implies !is_space(#[trigger] two[k]) by {
        assert(two[k] == name[k]);
    }
    assert forall|k: int| a + 1 <= k < b implies !is_space(#[trigger] two[k]) by {
        assert(two[k] == version[k - a - 1]);
    }
    lemma_word(two, 0, 0, a);
    lemma_word(two, a + 1, a + 1, b);
    assert(two.subrange(0, a) =~= name);
    assert(two.subrange(a + 1, b) =~= version);
    assert(words(two) =~= seq![name, version]);
    let three = two + seq![' '] + source;
    assert forall|k: int| 0 <= k < a implies !is_space(#[trigger] three[k]) by {
        assert(three[k] == name[k]);
    }
    assert forall|k: int| a + 1 <= k < b implies !is_space(#[trigger] three[k]) by {
        assert(three[k] == version[k - a - 1]);
    }
    lemma_word(three, 0, 0, a);
    lemma_word(three, a + 1, a + 1, b);
    assert(three.subrange(0, a) =~= name);
    assert(three.subrange(a + 1, b) =~= version);
    assert(words(three)[0] == name && words(three)[1] == version);
}

/// Whether a package of a lock file is the one that a dependency names.
pub open spec fn is_named(p: Locked, name: Seq<char>, version: Option<Seq<char>>) -> bool {
    p.name == name && (version matches Some(v) ==> p.version == v)
}

/// The package that a dependency names is the first of that name and version; there is none
/// just where no package is so named.
pub proof fn law_first_match(packages: Seq<Locked>, name: Seq<char>, version: Option<Seq<char>>, i: int)
    requires
        0 <= i <= packages.len(),
    ensures
        match first_match(packages, name, version, i) {
            Some(p) => exists|k: int|
                i <= k < packages.len() && #[trigger] packages[k] == p && is_named(p, name, version) && forall|j: int|
                    i <= j < k ==> !is_named(#[trigger] packages[j], name, version),
            None => forall|k: int| i <= k < packages.len() ==> !is_named(#[trigger] packages[k], name, version),
        },
    decreases packages.len() - i,
{
    if i < packages.len() {
        law_first_match(packages, name, version, i + 1);
        if is_named(packages[i], name, version) {
            assert(packages[i] == first_match(packages, name, version, i)->0);
        }
    }
}

/// Whether two packages of a lock file have the given name.
pub open spec fn several_named(packages: Seq<Locked>, name: Seq<char>) -> bool {
    exists|i: int, j: int|
        0 <= i < j < packages.len() && (#[trigger] packages[i]).name == name && (#[trigger] packages[j]).name == name
}

proof fn lemma_count(packages: Seq<Locked>, name: Seq<char>, n: int)
    requires
        0 <= n <= packages.len(),
    ensures
        count_named(packages, name, n) >= 0,
        count_named(packages, name, n) >= 1 <==> exists|i: int| 0 <= i < n && (#[trigger] packages[i]).name == name,
        count_named(packages, name, n) >= 2 <==> exists|i: int, j: int|
            0 <= i < j < n && (#[trigger] packages[i]).name == name && (#[trigger] packages[j]).name == name,
    decreases n,
{
    if n > 0 {
        lemma_count(packages, name, n - 1);
        if packages[n - 1].name == name {
            if count_named(packages, name, n - 1) >= 1 {
                let i = choose|i: int| 0 <= i < n - 1 && (#[trigger] packages[i]).name == name;
                assert(packages[i].name == name && packages[n - 1].name == name);
            }
        }
    }
}

/// The target of a locked package is its name, and its version too where its name has
/// several.
pub proof fn law_locked_target(packages: Seq<Locked>, name: Seq<char>, version: Seq<char>)
    ensures
        package_target(packages, name, version) == if several_named(packages, name) {
            "cargo://"@ + name + "@"@ + version
        } else {
            "cargo://"@ + name
        },
{
    lemma_count(packages, name, packages.len() as int);
}

/// Whether a locked package goes by `key`: its target, or its name with the version.
pub open spec fn answers_to(packages: Seq<Locked>, p: Locked, key: Seq<char>) -> bool {
    key == package_target(packages, p.name, p.version) || key == "cargo://"@ + p.name + "@"@ + p.version
}

/// A lock file has under each target the version of the last package that goes by it, and
/// nothing under any other.
pub proof fn law_lock_entries(packages: Seq<Locked>, n: int, key: Seq<char>)
    requires
        0 <= n <= packages.len(),
    ensures
        match found(lock_entries(packages, n), key) {
            Some(version) => exists|i: int|
                0 <= i < n && answers_to(packages, #[trigger] packages[i], key) && version == packages[i].version
                    && forall|j: int| i < j < n ==> !answers_to(packages, #[trigger] packages[j], key),
            None => forall|i: int| 0 <= i < n ==> !answers_to(packages, #[trigger] packages[i], key),
        },
    decreases n,
{
    if n > 0 {
        law_lock_entries(packages, n - 1, key);
        let p = packages[n - 1];
        let before = lock_entries(packages, n - 1);
        let target = package_target(packages, p.name, p.version);
        law_with_row(before, target, p.version, key);
        law_with_row(with_row(before, target, p.version), versioned_name(p.name, p.version), p.version, key);
        if answers_to(packages, p, key) {
            assert(answers_to(packages, packages[n - 1], key));
        }
    }
}

/// Whether a dependency of a locked package says that `key` is `target`: `key` is the name
/// that it gives, and `target` that of the package which it names.
pub open spec fn points_at(packages: Seq<Locked>, dependency: Seq<char>, key: Seq<char>, target: Seq<char>) -> bool {
    &&& lock_dependency(dependency).0 == key
    &&& first_match(packages, key, lock_dependency(dependency).1, 0) matches Some(p) && target == package_target(
        packages,
        p.name,
        p.version,
    )
}

/// Whether a dependency of a locked package says what `key` is.
pub open spec fn points(packages: Seq<Locked>, dependency: Seq<char>, key: Seq<char>) -> bool {
    exists|target: Seq<char>| #[trigger] points_at(packages, dependency, key, target)
}

/// Each dependency of a locked package is locked, under its name, to the package that it
/// names; of two of one name the last is.
pub proof fn law_dependency_rows(packages: Seq<Locked>, dependencies: Seq<Seq<char>>, n: int, key: Seq<char>)
    requires
        0 <= n <= dependencies.len(),
    ensures
        match found(dependency_rows(packages, dependencies, n), key) {
            Some(target) => exists|i: int|
                0 <= i < n && points_at(packages, #[trigger] dependencies[i], key, target) && forall|j: int|
                    i < j < n ==> !points(packages, #[trigger] dependencies[j], key),
            None => forall|i: int| 0 <= i < n ==> !points(packages, #[trigger] dependencies[i], key),
        },
    decreases n,
{
    if n > 0 {
        law_dependency_rows(packages, dependencies, n - 1, key);
        let dep = dependencies[n - 1];
        let before = dependency_rows(packages, dependencies, n - 1);
        let name = lock_dependency(dep).0;
        match dependency_target(packages, dep) {
            Some(target) => {
                law_with_row(before, name, target, key);
                if key == name {
                    assert(points_at(packages, dependencies[n - 1], key, target));
                } else {
                    assert(!points(packages, dependencies[n - 1], key));
                }
            },
            None => {
                assert(!points(packages, dependencies[n - 1], key));
            },
        }
    }
}

/// A lock file has under each target what the last package that goes by it depends on, and
/// nothing under any other.
pub proof fn law_locked_edges(packages: Seq<Locked>, n: int, key: Seq<char>)
    requires
        0 <= n <= packages.len(),
    ensures
        match found(locked_edges(packages, n), key) {
            Some(rows) => exists|i: int|
                0 <= i < n && answers_to(packages, #[trigger] packages[i], key) && rows == dependency_rows(
                    packages,
                    packages[i].dependencies,
                    packages[i].dependencies.len() as int,
                ) && forall|j: int| i < j < n ==> !answers_to(packages, #[trigger] packages[j], key),
            None => forall|i: int| 0 <= i < n ==> !answers_to(packages, #[trigger] packages[i], key),
        },
    decreases n,
{
    if n > 0 {
        law_locked_edges(packages, n - 1, key);
        let p = packages[n - 1];
        let rows = dependency_rows(packages, p.dependencies, p.dependencies.len() as int);
        let before = locked_edges(packages, n - 1);
        let target = package_target(packages, p.name, p.version);
        law_with_row(before, target, rows, key);
        law_with_row(with_row(before, target, rows), versioned_name(p.name, p.version), rows, key);
        if answers_to(packages, p, key) {
            assert(answers_to(packages, packages[n - 1], key));
        }
    }
}

/// Whether an entry of a lock file says what is known of a package.
pub open spec fn says_locked(entry: Node, p: Locked) -> bool {
    &&& member(Some(entry), "name"@) == Some(Node::Text(p.name))
    &&& member(Some(entry), "version"@) == Some(Node::Text(p.version))
    &&& match member(Some(entry), "dependencies"@) {
        Some(Node::Array(items)) => p.dependencies == texts_in(items),
        _ => p.dependencies.len() == 0,
    }
}

/// Whether an entry of a lock file has a name and a version.
pub open spec fn is_entry(entry: Node) -> bool {
    &&& member(Some(entry), "name"@) matches Some(Node::Text(_))
    &&& member(Some(entry), "version"@) matches Some(Node::Text(_))
}

/// The packages of a lock file are its entries, in order; one without a name or a version is
/// refused.
pub proof fn law_locked_packages(entries: Seq<Node>, i: int)
    requires
        0 <= i <= entries.len(),
    ensures
        locked_packages(entries, i) is Ok <==> forall|k: int| i <= k < entries.len() ==> is_entry(#[trigger] entries[k]),
        locked_packages(entries, i) matches Ok(list) ==> {
            &&& list.len() == entries.len() - i
            &&& forall|k: int| i <= k < entries.len() ==> says_locked(#[trigger] entries[k], list[k - i])
        },
    decreases entries.len() - i,
{
    if i < entries.len() {
        law_locked_packages(entries, i + 1);
        assert(is_entry(entries[i]) <==> locked_package(entries[i]) is Ok);
        if let (Ok(p), Ok(rest)) = (locked_package(entries[i]), locked_packages(entries, i + 1)) {
            let list = seq![p] + rest;
            assert(says_locked(entries[i], p));
            assert forall|k: int| i <= k < entries.len() implies says_locked(#[trigger] entries[k], list[k - i]) by {
                if k > i {
                    assert(list[k - i] == rest[k - (i + 1)]);
                }
            }
        }
    }
}

/// A target of a package names it, in any version or in one.
pub proof fn law_target_read(name: Seq<char>, version: Seq<char>, other: Seq<char>)
    requires
        !has_char(name, '@'),
        !begins(other, "cargo://"@),
    ensures
        target_parts("cargo://"@ + name) == Ok::<_, Fault>((name, None::<Seq<char>>)),
        target_parts("cargo://"@ + name + "@"@ + version) == Ok::<_, Fault>((name, Some(version))),
        target_parts(other) is Err,
{
    reveal_strlit("cargo://");
    reveal_strlit("@");
    let plain = "cargo://"@ + name;
    let full = "cargo://"@ + name + "@"@ + version;
    assert(plain.subrange(0, 8) =~= "cargo://"@);
    assert(plain.subrange(8, plain.len() as int) =~= name);
    assert(full.subrange(0, 8) =~= "cargo://"@);
    assert(full.subrange(8, full.len() as int) =~= name + seq!['@'] + version);
    lemma_cut(name, '@', version);
}

} // verus!
