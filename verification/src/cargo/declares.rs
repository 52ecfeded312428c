//! Declarations: what a manifest makes a package depend on, and on which machines.

use vstd::prelude::*;

use crate::build_config_key;
use crate::cargo::cfg::{call_arguments, fact_key, holds, plain_holds, Facts};
use crate::cargo::features::{enabled_features, Features};
use crate::cargo::manifest::{
    all_declared, asked_by, asks, declared, declared_in, declared_in_sections, declared_under, feature_rows, has_alias,
    manifest, needed, optional_alias, package_environment, section_applies, version_halves, wanted, Declared, Needed,
    Rows,
};
use crate::error::Fault;
use crate::path::{joined_path, parent_of};
use crate::table::{found, found_number};
use crate::text::{
    after_prefix, begins, cut, ends, has_char, has_text, is_space, lemma_cut, lemma_position_from, lemma_position_is,
    end_of_text, lemma_pieces_joined, lemma_trimmed_behind_space, lemma_trimmed_same, occurs_from, trimmed_end,
    trimmed_start, joined, position, run_end, run_from, swapped, trimmed, without_surrounding, without_trailing,
};
use crate::value::{member, rows_in, texts_in, texts_under, Node};

verus! {

/// Whether `m`, a member of a feature, asks for the dependency `alias`: by `dep:` before its
/// name; by its name, where no feature has that name; or by its name and a feature of it
/// behind `/`, unless `?` stands there.
pub open spec fn calls_for(specs: Seq<Declared>, features: Features, m: Seq<char>, alias: Seq<char>) -> bool {
    if begins(m, "dep:"@) {
        m == "dep:"@ + alias
    } else {
        &&& exists|i: int| 0 <= i < specs.len() && (#[trigger] specs[i]).optional && specs[i].alias == alias
        &&& !alias.contains('/')
        &&& (m == alias && found(features, m) is None) || (begins(m, alias + seq!['/']) && !has_text(m, "?/"@))
    }
}

proof fn lemma_has_char(s: Seq<char>, c: char)
    ensures
        has_char(s, c) <==> s.contains(c),
{
    lemma_position_from(s, c, 0);
    if s.contains(c) {
        let i = choose|i: int| 0 <= i < s.len() && s[i] == c;
        if !has_char(s, c) {
            assert(s[i] != c);
        }
    }
}

proof fn lemma_occurs(s: Seq<char>, part: Seq<char>, i: int, at: int)
    requires
        0 <= i <= at,
        at + part.len() <= s.len(),
        s.subrange(at, at + part.len()) == part,
    ensures
        occurs_from(s, part, i),
    decreases at - i,
{
    if i < at {
        lemma_occurs(s, part, i + 1, at);
    }
}

/// What a member of a feature asks for is what it calls for.
pub proof fn law_asked(specs: Seq<Declared>, features: Features, m: Seq<char>, alias: Seq<char>)
    ensures
        asked_by(specs, features, m) == Some(alias) <==> calls_for(specs, features, m, alias),
{
    reveal_strlit("dep:");
    reveal_strlit("?/");
    lemma_has_char(alias, '/');
    lemma_has_char(m, '/');
    if begins(m, "dep:"@) {
        let dep = after_prefix(m, "dep:"@)->0;
        assert(m =~= "dep:"@ + dep);
        assert(("dep:"@ + alias).subrange(4, 4 + alias.len() as int) =~= alias);
    } else if let Some((head, tail)) = cut(m, '/') {
        lemma_position_from(m, '/', 0);
        let at = position(m, '/');
        lemma_has_char(head, '/');
        assert(m =~= head + seq!['/'] + tail);
        assert((head + seq!['/']).len() == at + 1);
        assert(m.subrange(0, at + 1) =~= head + seq!['/']);
        if head.len() > 0 && head.last() == '?' {
            assert(m.subrange(at - 1, at + 1) =~= "?/"@);
            lemma_occurs(m, "?/"@, 0, at - 1);
        } else {
            assert(without_trailing(head, '?') =~= head);
        }
        if begins(m, alias + seq!['/']) && !alias.contains('/') {
            assert((alias + seq!['/'])[alias.len() as int] == '/');
            assert(m[alias.len() as int] == m.subrange(0, alias.len() as int + 1)[alias.len() as int]);
            assert forall|j: int| 0 <= j < alias.len() implies m[j] != '/' by {
                assert(m[j] == m.subrange(0, alias.len() as int + 1)[j]);
                assert(alias[j] == (alias + seq!['/'])[j]);
            }
            lemma_position_is(m, '/', 0, alias.len() as int);
            assert(head =~= alias) by {
                assert forall|j: int| 0 <= j < alias.len() implies head[j] == alias[j] by {
                    assert(m[j] == m.subrange(0, alias.len() as int + 1)[j]);
                    assert(alias[j] == (alias + seq!['/'])[j]);
                }
            }
        }
        assert(optional_alias(specs, alias) <==> exists|i: int|
            0 <= i < specs.len() && (#[trigger] specs[i]).optional && specs[i].alias == alias);
    } else {
        if begins(m, alias + seq!['/']) {
            assert((alias + seq!['/'])[alias.len() as int] == '/');
            assert(m[alias.len() as int] == m.subrange(0, alias.len() as int + 1)[alias.len() as int]);
            assert(m.contains('/'));
        }
        assert(optional_alias(specs, alias) <==> exists|i: int|
            0 <= i < specs.len() && (#[trigger] specs[i]).optional && specs[i].alias == alias);
    }
}

/// Whether the enabled features call for an optional dependency: one of them has its name,
/// or a member that calls for it.
pub open spec fn called_for(specs: Seq<Declared>, features: Features, enabled: Seq<Seq<char>>, alias: Seq<char>) -> bool {
    ||| enabled.contains(alias)
    ||| exists|f: Seq<char>, m: Seq<char>| #[trigger]
        enabled.contains(f) && #[trigger] has_member(features, f, m) && calls_for(specs, features, m, alias)
}

/// Whether the feature `f` has the member `m`.
pub open spec fn has_member(features: Features, f: Seq<char>, m: Seq<char>) -> bool {
    found(features, f) matches Some(members) && members.contains(m)
}

/// Whether a declared dependency is one that the package has with the enabled features.
pub open spec fn in_use(specs: Seq<Declared>, features: Features, enabled: Seq<Seq<char>>, spec_: Declared) -> bool {
    spec_.optional ==> called_for(specs, features, enabled, spec_.alias)
}

proof fn lemma_wanted(specs: Seq<Declared>, features: Features, enabled: Seq<Seq<char>>, i: int)
    requires
        0 <= i < specs.len(),
    ensures
        in_use(specs, features, enabled, specs[i]) <==> (!specs[i].optional || wanted(
            specs,
            features,
            enabled,
            specs[i].alias,
        )),
{
    let alias = specs[i].alias;
    if specs[i].optional {
        assert(optional_alias(specs, alias));
        if wanted(specs, features, enabled, alias) && !enabled.contains(alias) {
            let k = choose|k: int| 0 <= k < enabled.len() && asks(specs, features, #[trigger] enabled[k], alias);
            let members = found(features, enabled[k])->0;
            let j = choose|j: int| 0 <= j < members.len() && asked_by(specs, features, #[trigger] members[j]) == Some(alias);
            law_asked(specs, features, members[j], alias);
            assert(has_member(features, enabled[k], members[j]));
            assert(enabled.contains(enabled[k]));
        }
        if called_for(specs, features, enabled, alias) && !enabled.contains(alias) {
            let (f, m) = choose|f: Seq<char>, m: Seq<char>| #[trigger]
                enabled.contains(f) && #[trigger] has_member(features, f, m) && calls_for(specs, features, m, alias);
            law_asked(specs, features, m, alias);
            let members = found(features, f)->0;
            let j = choose|j: int| 0 <= j < members.len() && members[j] == m;
            assert(asked_by(specs, features, members[j]) == Some(alias));
            assert(asks(specs, features, f, alias));
            let k = choose|k: int| 0 <= k < enabled.len() && enabled[k] == f;
            assert(asks(specs, features, enabled[k], alias));
        }
    }
}

/// A package has every declared dependency that is in use, and no other; of several under
/// one alias it has the first.
pub proof fn law_needed(specs: Seq<Declared>, features: Features, enabled: Seq<Seq<char>>, n: int, d: Needed)
    requires
        0 <= n <= specs.len(),
    ensures
        needed(specs, features, enabled, n).contains(d) <==> exists|i: int|
            0 <= i < n && #[trigger] specs[i].alias == d.alias && specs[i].package == d.package && in_use(
                specs,
                features,
                enabled,
                specs[i],
            ) && forall|j: int|
                0 <= j < i && #[trigger] specs[j].alias == d.alias ==> !in_use(specs, features, enabled, specs[j]),
        forall|j: int, k: int|
            0 <= j < k < needed(specs, features, enabled, n).len() ==> (#[trigger] needed(
                specs,
                features,
                enabled,
                n,
            )[j]).alias != (#[trigger] needed(specs, features, enabled, n)[k]).alias,
    decreases n,
{
    if n > 0 {
        let list = needed(specs, features, enabled, n - 1);
        let s = specs[n - 1];
        law_needed(specs, features, enabled, n - 1, d);
        lemma_wanted(specs, features, enabled, n - 1);
        if in_use(specs, features, enabled, s) {
            lemma_aliases(specs, features, enabled, n - 1, s.alias);
            let more = list.push(Needed { alias: s.alias, package: s.package });
            if has_alias(list, s.alias) {
                let w = choose|i: int|
                    0 <= i < n - 1 && #[trigger] specs[i].alias == s.alias && in_use(specs, features, enabled, specs[i]);
                assert(specs[w].alias == s.alias);
            } else {
                assert forall|j: int| 0 <= j < n - 1 && #[trigger] specs[j].alias == s.alias implies !in_use(
                    specs,
                    features,
                    enabled,
                    specs[j],
                ) by {}
                assert(more[n_of(list)] == (Needed { alias: s.alias, package: s.package }));
                if list.contains(d) {
                    let k = choose|k: int| 0 <= k < list.len() && list[k] == d;
                    assert(more[k] == d);
                }
                if more.contains(d) && !list.contains(d) {
                    let k = choose|k: int| 0 <= k < more.len() && more[k] == d;
                    assert(k == list.len()) by {
                        if k < list.len() {
                            assert(list[k] == d);
                        }
                    }
                    assert(specs[n - 1].alias == d.alias);
                }
            }
        }
    }
}

spec fn n_of(list: Seq<Needed>) -> int {
    list.len() as int
}

proof fn lemma_aliases(specs: Seq<Declared>, features: Features, enabled: Seq<Seq<char>>, n: int, alias: Seq<char>)
    requires
        0 <= n <= specs.len(),
    ensures
        has_alias(needed(specs, features, enabled, n), alias) <==> exists|i: int|
            0 <= i < n && #[trigger] specs[i].alias == alias && in_use(specs, features, enabled, specs[i]),
    decreases n,
{
    if n > 0 {
        let list = needed(specs, features, enabled, n - 1);
        let s = specs[n - 1];
        lemma_aliases(specs, features, enabled, n - 1, alias);
        lemma_wanted(specs, features, enabled, n - 1);
        lemma_aliases(specs, features, enabled, n - 1, s.alias);
        let more = list.push(Needed { alias: s.alias, package: s.package });
        assert(more[n_of(list)].alias == s.alias);
        if has_alias(list, alias) {
            let k = choose|k: int| 0 <= k < list.len() && (#[trigger] list[k]).alias == alias;
            assert(more[k].alias == alias);
        }
        if has_alias(more, alias) && !has_alias(list, alias) {
            let k = choose|k: int| 0 <= k < more.len() && (#[trigger] more[k]).alias == alias;
            assert(k == list.len()) by {
                if k < list.len() {
                    assert(list[k].alias == alias);
                }
            }
            assert(specs[n - 1].alias == alias);
        }
    }
}

/// What a row of a table of dependencies declares: the package that it names, or one named
/// as the row; it is optional just where the row says so.
pub proof fn law_declared(alias: Seq<char>, value: Node)
    ensures
        declared(alias, value).alias == alias,
        member(Some(value), "package"@) matches Some(Node::Text(package)) ==> declared(alias, value).package == package,
        !(member(Some(value), "package"@) is Some && member(Some(value), "package"@)->0 is Text) ==> declared(
            alias,
            value,
        ).package == alias,
        declared(alias, value).optional <==> member(Some(value), "optional"@) == Some(Node::Bool(true)),
{
}

/// Whether `rows`, a table that is under `dependencies` of `value`, has a row that declares
/// `d`.
pub open spec fn declares(value: Node, d: Declared) -> bool {
    rows_in(member(Some(value), "dependencies"@)) matches Some(rows) && exists|k: int|
        0 <= k < rows.len() && declared((#[trigger] rows[k]).0, rows[k].1) == d
}

proof fn lemma_declared_under(value: Node, d: Declared)
    ensures
        declared_under(Some(value)).contains(d) <==> declares(value, d),
{
    if let Some(rows) = rows_in(member(Some(value), "dependencies"@)) {
        let list = declared_in(rows);
        if list.contains(d) {
            let k = choose|k: int| 0 <= k < list.len() && list[k] == d;
            assert(declared(rows[k].0, rows[k].1) == d);
        }
        if declares(value, d) {
            let k = choose|k: int| 0 <= k < rows.len() && declared((#[trigger] rows[k]).0, rows[k].1) == d;
            assert(list[k] == d);
        }
    }
}

/// Whether a section of a manifest's `target` table is for a machine.
pub open spec fn is_for(facts: Facts, section: (Seq<char>, Node)) -> bool {
    section_applies(facts, section.0) == Ok::<bool, Fault>(true)
}

/// What is declared for a machine beside the plain dependencies is what the sections declare
/// that are for it. It is known unless a section has a condition that cannot be read.
pub proof fn law_sections(facts: Facts, rows: Rows, i: int, d: Declared)
    requires
        0 <= i <= rows.len(),
    ensures
        declared_in_sections(facts, rows, i) is Ok <==> forall|k: int|
            i <= k < rows.len() ==> section_applies(facts, (#[trigger] rows[k]).0) is Ok,
        declared_in_sections(facts, rows, i) matches Ok(list) ==> (list.contains(d) <==> exists|k: int|
            i <= k < rows.len() && is_for(facts, #[trigger] rows[k]) && declares(rows[k].1, d)),
    decreases rows.len() - i,
{
    if i < rows.len() {
        law_sections(facts, rows, i + 1, d);
        lemma_declared_under(rows[i].1, d);
        if let Ok(rest) = declared_in_sections(facts, rows, i + 1) {
            let mine = declared_under(Some(rows[i].1));
            lemma_either(mine, rest, d);
            if is_for(facts, rows[i]) {
                if exists|k: int| i <= k < rows.len() && is_for(facts, #[trigger] rows[k]) && declares(rows[k].1, d) {
                    let k = choose|k: int| i <= k < rows.len() && is_for(facts, #[trigger] rows[k]) && declares(rows[k].1, d);
                    assert(k == i || is_for(facts, rows[k]));
                }
            }
        }
    }
}

proof fn lemma_either<T>(a: Seq<T>, b: Seq<T>, x: T)
    ensures
        (a + b).contains(x) <==> a.contains(x) || b.contains(x),
{
    let both = a + b;
    if both.contains(x) {
        let i = choose|i: int| 0 <= i < both.len() && both[i] == x;
        assert(if i < a.len() { a[i] == x } else { b[i - a.len()] == x });
    }
    if a.contains(x) {
        let i = choose|i: int| 0 <= i < a.len() && a[i] == x;
        assert(both[i] == x);
    }
    if b.contains(x) {
        let i = choose|i: int| 0 <= i < b.len() && b[i] == x;
        assert(both[a.len() + i] == x);
    }
}

/// A manifest declares, for a machine, its plain dependencies and those of each of its
/// sections that is for the machine.
pub proof fn law_all_declared(facts: Facts, rows: Rows, d: Declared)
    ensures
        all_declared(facts, rows) matches Ok(list) ==> (list.contains(d) <==> declares(Node::Table(rows), d) || (rows_in(
            found(rows, "target"@),
        ) matches Some(sections) && exists|k: int|
            0 <= k < sections.len() && is_for(facts, #[trigger] sections[k]) && declares(sections[k].1, d))),
        all_declared(facts, rows) is Err ==> exists|sections: Rows, k: int|
            rows_in(found(rows, "target"@)) == Some(sections) && 0 <= k < sections.len() && section_applies(
                facts,
                (#[trigger] sections[k]).0,
            ) is Err,
{
    lemma_declared_under(Node::Table(rows), d);
    if let Some(sections) = rows_in(found(rows, "target"@)) {
        law_sections(facts, sections, 0, d);
        if let Ok(rest) = declared_in_sections(facts, sections, 0) {
            lemma_either(declared_under(Some(Node::Table(rows))), rest, d);
        } else {
            let k = choose|k: int| 0 <= k < sections.len() && section_applies(facts, (#[trigger] sections[k]).0) is Err;
            assert(section_applies(facts, sections[k].0) is Err);
        }
    }
}

/// A section `cfg(..)` is for the machines on which its condition holds; one that names a
/// machine in another way is for none.
pub proof fn law_section_condition(facts: Facts, condition: Seq<char>, other: Seq<char>)
    requires
        !(begins(other, "cfg("@) && ends(other, ")"@)),
    ensures
        section_applies(facts, "cfg("@ + condition + ")"@) == holds(facts, condition),
        section_applies(facts, other) == Ok::<bool, Fault>(false),
{
    reveal_strlit("cfg(");
    reveal_strlit(")");
    let s = "cfg("@ + condition + ")"@;
    assert(s.subrange(0, 4) =~= "cfg("@);
    assert(s.subrange(s.len() - 1, s.len() as int) =~= ")"@);
    assert(s.subrange(4, s.len() - 1) =~= condition);
}

/// Whether `key` is the name that conditions have for the fact of the given number.
pub open spec fn names_fact(key: Seq<char>, number: u32) -> bool {
    ||| key == "target_family"@ && number == build_config_key::TARGET_FAMILY
    ||| key == "target_os"@ && number == build_config_key::TARGET_OS
    ||| key == "target_env"@ && number == build_config_key::TARGET_ENV
    ||| key == "target_arch"@ && number == build_config_key::TARGET_ARCH
    ||| key == "target_vendor"@ && number == build_config_key::TARGET_VENDOR
    ||| key == "target_endian"@ && number == build_config_key::TARGET_ENDIAN
}

proof fn lemma_fact_names()
    ensures
        !has_char("target_family"@, '='),
        !has_char("target_os"@, '='),
        !has_char("target_env"@, '='),
        !has_char("target_arch"@, '='),
        !has_char("target_vendor"@, '='),
        !has_char("target_endian"@, '='),
{
    reveal_strlit("target_family");
    reveal_strlit("target_os");
    reveal_strlit("target_env");
    reveal_strlit("target_arch");
    reveal_strlit("target_vendor");
    reveal_strlit("target_endian");
    lemma_position_from("target_family"@, '=', 0);
    lemma_position_from("target_os"@, '=', 0);
    lemma_position_from("target_env"@, '=', 0);
    lemma_position_from("target_arch"@, '=', 0);
    lemma_position_from("target_vendor"@, '=', 0);
    lemma_position_from("target_endian"@, '=', 0);
}

/// No condition on a fact is a call.
proof fn lemma_no_call(key: Seq<char>, rest: Seq<char>)
    requires
        exists|number: u32| names_fact(key, number),
    ensures
        call_arguments(key + rest, "all"@) is None,
        call_arguments(key + rest, "any"@) is None,
        call_arguments(key + rest, "not"@) is None,
        key.len() > 0 && key[0] == 't' && !is_space(key.last()),
{
    reveal_strlit("target_family");
    reveal_strlit("target_os");
    reveal_strlit("target_env");
    reveal_strlit("target_arch");
    reveal_strlit("target_vendor");
    reveal_strlit("target_endian");
    reveal_strlit("all");
    reveal_strlit("any");
    reveal_strlit("not");
    let s = key + rest;
    assert(s[0] == 't');
    assert(s.len() >= 3 ==> s.subrange(0, 3)[0] == 't');
}

proof fn lemma_unquoted(value: Seq<char>)
    requires
        !value.contains('"'),
    ensures
        without_surrounding(seq!['"'] + value + seq!['"'], '"') == value,
{
    let s = seq!['"'] + value + seq!['"'];
    if value.len() == 0 {
        assert(s[0] == '"' && s[1] == '"');
        reveal_with_fuel(run_from, 3);
        assert(run_from(s, '"', 0) == 2);
        assert(without_surrounding(s, '"') =~= value);
    } else {
        assert(s[1] == value[0]);
        assert(value.contains(value[0]));
        assert(value.contains(value.last()));
        reveal_with_fuel(run_from, 3);
        assert(run_from(s, '"', 0) == 1);
        let t = s.subrange(1, s.len() as int);
        assert(t =~= value + seq!['"']);
        reveal_with_fuel(run_end, 3);
        assert(t[t.len() - 1] == '"');
        assert(t[t.len() - 2] == value.last());
        assert(run_end(t, '"', t.len() as int) == t.len() - 1);
        assert(t.subrange(0, t.len() - 1) =~= value);
    }
}

/// A condition on a fact that is written with `=` between the key and the value, where
/// white space may stand on both sides of it.
proof fn lemma_condition(facts: Facts, key: Seq<char>, number: u32, left: Seq<char>, right: Seq<char>, value: Seq<char>)
    requires
        names_fact(key, number),
        begins(left, key),
        !has_char(left, '='),
        trimmed(left) == key,
        right.len() > 0 && right.last() == '"',
        without_surrounding(trimmed(right), '"') == value,
    ensures
        holds(facts, left + seq!['='] + right) == Ok::<bool, Fault>(found_number(facts, number) == Some(value)),
{
    let s = left + seq!['='] + right;
    let rest = left.subrange(key.len() as int, left.len() as int) + seq!['='] + right;
    assert(left =~= key + left.subrange(key.len() as int, left.len() as int));
    assert(s =~= key + rest);
    lemma_no_call(key, rest);
    assert(s[0] == 't' && s.last() == '"');
    lemma_trimmed_same(s);
    lemma_cut(left, '=', right);
    lemma_fact_key(key, number);
    assert(s != "unix"@ && s != "windows"@) by {
        reveal_strlit("unix");
        reveal_strlit("windows");
        assert("windows"@[0] == 'w');
        assert("unix"@[0] == 'u');
    }
    assert(plain_holds(facts, s) == (found_number(facts, number) == Some(value)));
}

/// A condition `name = "value"` on a fact, with or without the spaces, holds just where the
/// fact has that value.
pub proof fn law_fact_condition(facts: Facts, key: Seq<char>, number: u32, value: Seq<char>)
    requires
        names_fact(key, number),
        !value.contains('"'),
    ensures
        holds(facts, key + "=\""@ + value + "\""@) == Ok::<bool, Fault>(found_number(facts, number) == Some(value)),
        holds(facts, key + " = \""@ + value + "\""@) == Ok::<bool, Fault>(found_number(facts, number) == Some(value)),
{
    lemma_fact_names();
    lemma_no_call(key, Seq::empty());
    reveal_strlit("=\"");
    reveal_strlit(" = \"");
    reveal_strlit("\"");
    let quoted = seq!['"'] + value + seq!['"'];
    lemma_unquoted(value);
    lemma_trimmed_same(quoted);
    lemma_trimmed_same(key);
    assert(key.subrange(0, key.len() as int) =~= key);
    assert(key + "=\""@ + value + "\""@ =~= key + seq!['='] + quoted);
    lemma_condition(facts, key, number, key, quoted, value);
    let wide = key + seq![' '];
    assert(wide.subrange(0, key.len() as int) =~= key);
    assert(key + " = \""@ + value + "\""@ =~= wide + seq!['='] + (seq![' '] + quoted));
    lemma_position_from(key, '=', 0);
    lemma_position_is(wide, '=', 0, wide.len() as int);
    lemma_trimmed_behind_space(quoted);
    lemma_trailing_space(key);
    lemma_condition(facts, key, number, wide, seq![' '] + quoted, value);
}

/// `unix` and `windows` say which family the machine is of.
pub proof fn law_family_condition(facts: Facts)
    ensures
        holds(facts, "unix"@) == holds(facts, "target_family = \"unix\""@),
        holds(facts, "windows"@) == holds(facts, "target_family = \"windows\""@),
        found_number(facts, build_config_key::TARGET_FAMILY) == Some("unix"@) ==> holds(facts, "unix"@) == Ok::<bool, Fault>(
            true,
        ),
{
    reveal_strlit("unix");
    reveal_strlit("windows");
    reveal_strlit("all");
    reveal_strlit("any");
    reveal_strlit("not");
    lemma_trimmed_same("unix"@);
    lemma_trimmed_same("windows"@);
    assert("windows"@.subrange(0, 3)[0] == 'w');
    assert("unix"@.subrange(0, 3)[0] == 'u');
    law_fact_condition(facts, "target_family"@, build_config_key::TARGET_FAMILY, "unix"@);
    law_fact_condition(facts, "target_family"@, build_config_key::TARGET_FAMILY, "windows"@);
    reveal_strlit("target_family");
    reveal_strlit(" = \"");
    reveal_strlit("\"");
    reveal_strlit("target_family = \"unix\"");
    reveal_strlit("target_family = \"windows\"");
    assert("target_family = \"unix\""@ =~= "target_family"@ + " = \""@ + "unix"@ + "\""@);
    assert("target_family = \"windows\""@ =~= "target_family"@ + " = \""@ + "windows"@ + "\""@);
}

proof fn lemma_trailing_space(s: Seq<char>)
    requires
        s.len() > 0 && !is_space(s[0]) && !is_space(s.last()),
    ensures
        trimmed(s + seq![' ']) == s,
{
    let t = s + seq![' '];
    assert(t[0] == s[0]);
    assert(trimmed_start(t) =~= t);
    reveal_with_fuel(end_of_text, 3);
    assert(t[t.len() - 1] == ' ');
    assert(t[t.len() - 2] == s.last());
    assert(end_of_text(t, t.len() as int) == t.len() - 1);
    assert(trimmed_end(t) =~= s);
}

proof fn lemma_fact_key(key: Seq<char>, number: u32)
    requires
        names_fact(key, number),
    ensures
        fact_key(key) == Some(number),
{
    reveal_strlit("target_family");
    reveal_strlit("target_os");
    reveal_strlit("target_env");
    reveal_strlit("target_arch");
    reveal_strlit("target_vendor");
    reveal_strlit("target_endian");
    assert("target_family"@[7] == 'f');
    assert("target_os"@[7] == 'o');
    assert("target_env"@[8] == 'n' && "target_env"@[9] == 'v');
    assert("target_arch"@[7] == 'a');
    assert("target_vendor"@[7] == 'v');
    assert("target_endian"@[9] == 'd');
    assert("target_env"@.len() == 10 && "target_endian"@.len() == 13);
}

/// A manifest can be read just where it is in a directory, has a package with a name, says
/// nothing impossible of a build script, and has conditions that can be read.
pub proof fn law_manifest_accepted(facts: Facts, filename: Seq<char>, rows: Rows, script_exists: bool, requested: Seq<Seq<char>>)
    ensures
        manifest(facts, filename, rows, script_exists, requested) is Ok <==> {
            &&& parent_of(filename) is Some
            &&& member(found(rows, "package"@), "name"@) matches Some(Node::Text(_))
            &&& match member(found(rows, "package"@), "build"@) {
                None => true,
                Some(value) => value is Text || value == Node::Bool(false),
            }
            &&& all_declared(facts, rows) is Ok
        },
{
}

/// What is said under `key` of the table `part` of a manifest, or `default` where no text
/// is.
pub open spec fn says_or(rows: Rows, part: Seq<char>, key: Seq<char>, default: Seq<char>) -> Seq<char> {
    match member(found(rows, part), key) {
        Some(Node::Text(s)) => s,
        _ => default,
    }
}

/// What a manifest says of the library of its package: the name of the crate is that of the
/// library, or else that of the package, with `_` for `-`; the sources start at the given
/// file, or else at the usual one.
pub proof fn law_manifest_library(facts: Facts, filename: Seq<char>, rows: Rows, script_exists: bool, requested: Seq<Seq<char>>)
    requires
        manifest(facts, filename, rows, script_exists, requested) is Ok,
    ensures
        ({
            let m = manifest(facts, filename, rows, script_exists, requested)->Ok_0;
            let name = says_or(rows, "lib"@, "name"@, says_or(rows, "package"@, "name"@, ""@));
            &&& m.crate_name.len() == name.len()
            &&& forall|i: int|
                0 <= i < name.len() ==> #[trigger] m.crate_name[i] == if name[i] == '-' {
                    '_'
                } else {
                    name[i]
                }
            &&& m.crate_type == if member(found(rows, "lib"@), "proc-macro"@) == Some(Node::Bool(true)) {
                "proc-macro"@
            } else {
                "rlib"@
            }
            &&& m.edition == says_or(rows, "package"@, "edition"@, "2015"@)
            &&& m.root_source == joined_path(parent_of(filename)->0, says_or(rows, "lib"@, "path"@, "src/lib.rs"@))
            &&& m.has_build_script == match member(found(rows, "package"@), "build"@) {
                None => script_exists,
                Some(value) => value is Text,
            }
        }),
{
}

/// A package has the dependencies of its manifest that are in use with the features that
/// are requested of it.
pub proof fn law_manifest_dependencies(
    facts: Facts,
    filename: Seq<char>,
    rows: Rows,
    script_exists: bool,
    requested: Seq<Seq<char>>,
    d: Declared,
)
    requires
        manifest(facts, filename, rows, script_exists, requested) is Ok,
        all_declared(facts, rows)->Ok_0.contains(d),
    ensures
        ({
            let m = manifest(facts, filename, rows, script_exists, requested)->Ok_0;
            let specs = all_declared(facts, rows)->Ok_0;
            &&& m.features == enabled_features(feature_rows(rows), requested)
            &&& in_use(specs, feature_rows(rows), m.features, d) ==> has_alias(m.dependencies, d.alias)
            &&& !d.optional ==> has_alias(m.dependencies, d.alias)
        }),
{
    let specs = all_declared(facts, rows)->Ok_0;
    let enabled = enabled_features(feature_rows(rows), requested);
    let i = choose|i: int| 0 <= i < specs.len() && specs[i] == d;
    lemma_aliases(specs, feature_rows(rows), enabled, specs.len() as int, d.alias);
    assert(specs[i].alias == d.alias);
}

/// The features of a manifest have the texts of their arrays as members.
pub proof fn law_feature_rows(rows: Rows, table: Rows, k: int, m: Seq<char>)
    requires
        found(rows, "features"@) == Some(Node::Table(table)),
        0 <= k < table.len(),
    ensures
        feature_rows(rows).len() == table.len(),
        feature_rows(rows)[k].0 == table[k].0,
        feature_rows(rows)[k].1.contains(m) <==> (table[k].1 matches Node::Array(items) && items.contains(Node::Text(m))),
{
    if let Node::Array(items) = table[k].1 {
        law_texts(items, m);
    }
}

/// The texts among values are those that are texts.
pub proof fn law_texts(items: Seq<Node>, s: Seq<char>)
    ensures
        texts_in(items).contains(s) <==> items.contains(Node::Text(s)),
    decreases items.len(),
{
    if items.len() > 0 {
        let front = items.drop_last();
        law_texts(front, s);
        assert(items =~= front.push(items.last()));
        if let Node::Text(last) = items.last() {
            let list = texts_in(front);
            assert(list.push(last)[list.len() as int] == last);
            if list.contains(s) {
                let k = choose|k: int| 0 <= k < list.len() && list[k] == s;
                assert(list.push(last)[k] == s);
            }
        }
        if front.contains(Node::Text(s)) {
            let k = choose|k: int| 0 <= k < front.len() && front[k] == Node::Text(s);
            assert(items[k] == Node::Text(s));
        }
        if items.contains(Node::Text(s)) && !front.contains(Node::Text(s)) {
            let k = choose|k: int| 0 <= k < items.len() && items[k] == Node::Text(s);
            if k < front.len() {
                assert(front[k] == Node::Text(s));
            }
        }
    }
}

/// Whether the variable `name` is set to `value` among `env`.
pub open spec fn has_set(env: Seq<Seq<char>>, name: Seq<char>, value: Seq<char>) -> bool {
    env.contains(name + "="@ + value)
}

/// The compilation of a package sees what its manifest says of it.
pub proof fn law_environment(package: Rows, dir: Seq<char>, name: Seq<char>, version: Seq<char>)
    ensures
        ({
            let env = package_environment(package, dir, name, version);
            let top = Seq::<(Seq<char>, Node)>::empty().push(("package"@, Node::Table(package)));
            &&& has_set(env, "CARGO_MANIFEST_DIR"@, dir)
            &&& has_set(env, "CARGO_PKG_NAME"@, name)
            &&& has_set(env, "CARGO_PKG_VERSION"@, version)
            &&& has_set(env, "CARGO_CRATE_NAME"@, swapped(name, '-', '_'))
            &&& has_set(env, "CARGO_PKG_DESCRIPTION"@, says_or(top, "package"@, "description"@, ""@))
            &&& has_set(env, "CARGO_PKG_HOMEPAGE"@, says_or(top, "package"@, "homepage"@, ""@))
            &&& has_set(env, "CARGO_PKG_REPOSITORY"@, says_or(top, "package"@, "repository"@, ""@))
            &&& has_set(env, "CARGO_PKG_LICENSE"@, says_or(top, "package"@, "license"@, ""@))
            &&& has_set(env, "CARGO_PKG_LICENSE_FILE"@, says_or(top, "package"@, "license-file"@, ""@))
            &&& has_set(env, "CARGO_PKG_README"@, says_or(top, "package"@, "readme"@, ""@))
            &&& has_set(env, "CARGO_PKG_RUST_VERSION"@, says_or(top, "package"@, "rust-version"@, ""@))
            &&& found(package, "links"@) matches Some(Node::Text(links)) ==> has_set(env, "CARGO_MANIFEST_LINKS"@, links)
        }),
{
    let env = package_environment(package, dir, name, version);
    let top = Seq::<(Seq<char>, Node)>::empty().push(("package"@, Node::Table(package)));
    assert(found(top, "package"@) == Some(Node::Table(package)));
    assert(env[0] == "CARGO_MANIFEST_DIR"@ + "="@ + dir);
    assert(env[1] == "CARGO_PKG_NAME"@ + "="@ + name);
    assert(env[2] == "CARGO_CRATE_NAME"@ + "="@ + swapped(name, '-', '_'));
    assert(env[3] == "CARGO_PKG_VERSION"@ + "="@ + version);
    assert(env[9] == "CARGO_PKG_DESCRIPTION"@ + "="@ + says_or(top, "package"@, "description"@, ""@));
    assert(env[10] == "CARGO_PKG_HOMEPAGE"@ + "="@ + says_or(top, "package"@, "homepage"@, ""@));
    assert(env[11] == "CARGO_PKG_REPOSITORY"@ + "="@ + says_or(top, "package"@, "repository"@, ""@));
    assert(env[12] == "CARGO_PKG_LICENSE"@ + "="@ + says_or(top, "package"@, "license"@, ""@));
    assert(env[13] == "CARGO_PKG_LICENSE_FILE"@ + "="@ + says_or(top, "package"@, "license-file"@, ""@));
    assert(env[14] == "CARGO_PKG_README"@ + "="@ + says_or(top, "package"@, "readme"@, ""@));
    assert(env[15] == "CARGO_PKG_RUST_VERSION"@ + "="@ + says_or(top, "package"@, "rust-version"@, ""@));
    if let Some(Node::Text(links)) = found(package, "links"@) {
        assert(env[16] == "CARGO_MANIFEST_LINKS"@ + "="@ + links);
    }
}

/// The compilation of a package sees the parts of its version, and its authors.
pub proof fn law_version_environment(
    package: Rows,
    dir: Seq<char>,
    name: Seq<char>,
    major: Seq<char>,
    minor: Seq<char>,
    patch: Seq<char>,
    pre: Seq<char>,
)
    requires
        !has_char(major, '.') && !has_char(minor, '.') && !has_char(patch, '.'),
        !major.contains('-') && !minor.contains('-') && !patch.contains('-'),
    ensures
        ({
            let plain = package_environment(package, dir, name, joined(seq![major, minor, patch], seq!['.']));
            let early = package_environment(package, dir, name, joined(seq![major, minor, patch], seq!['.']) + seq!['-'] + pre);
            &&& has_set(plain, "CARGO_PKG_VERSION_MAJOR"@, major) && has_set(early, "CARGO_PKG_VERSION_MAJOR"@, major)
            &&& has_set(plain, "CARGO_PKG_VERSION_MINOR"@, minor) && has_set(early, "CARGO_PKG_VERSION_MINOR"@, minor)
            &&& has_set(plain, "CARGO_PKG_VERSION_PATCH"@, patch) && has_set(early, "CARGO_PKG_VERSION_PATCH"@, patch)
            &&& has_set(plain, "CARGO_PKG_VERSION_PRE"@, ""@) && has_set(early, "CARGO_PKG_VERSION_PRE"@, pre)
            &&& has_set(plain, "CARGO_PKG_AUTHORS"@, joined(texts_under(package, "authors"@), ":"@))
        }),
{
    let parts = seq![major, minor, patch];
    let version = joined(parts, seq!['.']);
    assert(parts.drop_last() =~= seq![major, minor]);
    assert(seq![major, minor].drop_last() =~= seq![major]);
    reveal_with_fuel(joined, 4);
    assert(version =~= major + seq!['.'] + minor + seq!['.'] + patch);
    lemma_pieces_joined(parts, '.');
    lemma_has_char(version, '-');
    assert(!version.contains('-')) by {
        if version.contains('-') {
            let k = choose|k: int| 0 <= k < version.len() && version[k] == '-';
            let a = major.len() as int;
            let b = a + 1 + minor.len();
            if k < a {
                assert(major[k] == '-');
            } else if a < k < b {
                assert(minor[k - a - 1] == '-');
            } else if b < k {
                assert(patch[k - b - 1] == '-');
            }
        }
    }
    lemma_cut(version, '-', pre);
    let early_version = version + seq!['-'] + pre;
    assert(version_halves(early_version) == (version, pre));
    assert(version_halves(version) == (version, ""@));
    let plain = package_environment(package, dir, name, version);
    let early = package_environment(package, dir, name, early_version);
    assert(plain[4] == "CARGO_PKG_VERSION_MAJOR"@ + "="@ + major);
    assert(early[4] == "CARGO_PKG_VERSION_MAJOR"@ + "="@ + major);
    assert(plain[5] == "CARGO_PKG_VERSION_MINOR"@ + "="@ + minor);
    assert(early[5] == "CARGO_PKG_VERSION_MINOR"@ + "="@ + minor);
    assert(plain[6] == "CARGO_PKG_VERSION_PATCH"@ + "="@ + patch);
    assert(early[6] == "CARGO_PKG_VERSION_PATCH"@ + "="@ + patch);
    assert(plain[7] == "CARGO_PKG_VERSION_PRE"@ + "="@ + ""@);
    assert(early[7] == "CARGO_PKG_VERSION_PRE"@ + "="@ + pre);
    assert(plain[8] == "CARGO_PKG_AUTHORS"@ + "="@ + joined(texts_under(package, "authors"@), ":"@));
}

} // verus!
