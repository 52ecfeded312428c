//! Labels: how targets are named, `//package:target` or `:target`, and the
//! patterns `//package/...` that stand for all targets below a package.

use vstd::prelude::*;

use crate::error::{error, fault, outcome, Error, ErrorKind, Fault};
use crate::text::{
    after_prefix, before_suffix, begins, begins_with, cat2, cat3, cat4, contains_char, cut, has_char, holds_text,
    lemma_cut, lemma_position_from, lemma_position_is, pieces, position, run_end, run_from, same, split, split_once,
    strip_prefix, strip_suffix, trim_matches, without_surrounding, Duplicate,
};

verus! {

/// A target: its package, a path below the workspace, and its name there.
pub struct Label {
    pub package: String,
    pub name: String,
}

/// What a `Label` says.
#[verifier::ext_equal]
pub struct Named {
    pub package: Seq<char>,
    pub name: Seq<char>,
}

impl DeepView for Label {
    type V = Named;

    open spec fn deep_view(&self) -> Named {
        Named { package: self.package@, name: self.name@ }
    }
}

impl Duplicate for Label {
    fn duplicate(&self) -> (r: Self) {
        Label { package: self.package.clone(), name: self.name.clone() }
    }
}

/// The fault for a text that is no label.
pub open spec fn no_label(value: Seq<char>) -> Fault {
    fault(ErrorKind::InvalidInput, "invalid label "@ + value + "; expected //package:target or :target"@)
}

pub fn invalid_label(value: &str) -> (r: Error)
    ensures
        r.deep_view() == no_label(value@),
{
    error(ErrorKind::InvalidInput, cat3("invalid label ", value, "; expected //package:target or :target"))
}

/// Whether a package leads out of the workspace.
pub open spec fn leaves(package: Seq<char>) -> bool {
    pieces(package, '/').contains(".."@) || begins(package, "/"@)
}

fn package_leaves(package: &str) -> (r: bool)
    ensures
        r == leaves(package@),
{
    holds_text(&split(package, '/'), "..") || begins_with(package, "/")
}

/// The package and the name in the label `value`, before they are checked.
pub open spec fn label_parts(value: Seq<char>, current_package: Seq<char>) -> Option<(Seq<char>, Seq<char>)> {
    match after_prefix(value, "//"@) {
        Some(rest) => cut(rest, ':'),
        None => match after_prefix(value, ":"@) {
            Some(name) => Some((current_package, name)),
            None => None,
        },
    }
}

/// The target that the label `value` names in the package `current_package`.
pub open spec fn label_in(value: Seq<char>, current_package: Seq<char>) -> Result<Named, Fault> {
    match label_parts(value, current_package) {
        None => Err(no_label(value)),
        Some((package, name)) => if name.len() == 0 || leaves(package) {
            Err(no_label(value))
        } else {
            Ok(Named { package: without_surrounding(package, '/'), name })
        },
    }
}

pub fn parse_label(value: &str, current_package: &str) -> (r: Result<Label, Error>)
    ensures
        outcome(r) == label_in(value@, current_package@),
{
    let (package, name) = if let Some(rest) = strip_prefix(value, "//") {
        match split_once(rest.as_str(), ':') {
            Some(parts) => parts,
            None => return Err(invalid_label(value)),
        }
    } else if let Some(name) = strip_prefix(value, ":") {
        (current_package.to_owned(), name)
    } else {
        return Err(invalid_label(value));
    };
    if name.as_str().is_empty() || package_leaves(package.as_str()) {
        return Err(invalid_label(value));
    }
    Ok(Label { package: trim_matches(package.as_str(), '/'), name })
}

/// The package of the pattern `//package/...`, where `value` is one.
pub open spec fn pattern_package(value: Seq<char>) -> Result<Option<Seq<char>>, Fault> {
    match after_prefix(value, "//"@) {
        None => Ok(None),
        Some(rest) => {
            let package = if rest == "..."@ {
                Some(""@)
            } else {
                before_suffix(rest, "/..."@)
            };
            match package {
                None => Ok(None),
                Some(package) => if has_char(package, ':') || leaves(package) {
                    Err(no_label(value))
                } else {
                    Ok(Some(without_surrounding(package, '/')))
                },
            }
        },
    }
}

pub fn recursive_package_pattern(value: &str) -> (r: Result<Option<String>, Error>)
    ensures
        outcome(r) == pattern_package(value@),
{
    let rest = match strip_prefix(value, "//") {
        Some(rest) => rest,
        None => return Ok(None),
    };
    let package = if same(rest.as_str(), "...") {
        "".to_owned()
    } else {
        match strip_suffix(rest.as_str(), "/...") {
            Some(package) => package,
            None => return Ok(None),
        }
    };
    if contains_char(package.as_str(), ':') || package_leaves(package.as_str()) {
        return Err(invalid_label(value));
    }
    Ok(Some(trim_matches(package.as_str(), '/')))
}

/// How a target is written.
pub open spec fn canonical(label: Named) -> Seq<char> {
    if label.package.len() == 0 {
        "//:"@ + label.name
    } else {
        "//"@ + label.package + ":"@ + label.name
    }
}

pub fn canonical_label(label: &Label) -> (r: String)
    ensures
        r@ == canonical(label.deep_view()),
{
    if label.package.as_str().is_empty() {
        cat2("//:", label.name.as_str())
    } else {
        cat4("//", label.package.as_str(), ":", label.name.as_str())
    }
}

/// The label `value` as it is written, in the package `current_package`.
pub open spec fn canonical_in(value: Seq<char>, current_package: Seq<char>) -> Result<Seq<char>, Fault> {
    match label_in(value, current_package) {
        Ok(label) => Ok(canonical(label)),
        Err(e) => Err(e),
    }
}

pub fn canonical_of(value: &str, current_package: &str) -> (r: Result<String, Error>)
    ensures
        outcome(r) == canonical_in(value@, current_package@),
{
    match parse_label(value, current_package) {
        Ok(label) => Ok(canonical_label(&label)),
        Err(e) => Err(e),
    }
}

/// What `value` stands for: a label as it is written; anything else is the name
/// of a target elsewhere.
pub open spec fn label_or_external(value: Seq<char>, current_package: Seq<char>) -> Result<Seq<char>, Fault> {
    if begins(value, "//"@) || begins(value, ":"@) {
        canonical_in(value, current_package)
    } else {
        Ok(value)
    }
}

pub fn parse_label_or_external(value: &str, current_package: &str) -> (r: Result<String, Error>)
    ensures
        outcome(r) == label_or_external(value@, current_package@),
{
    if begins_with(value, "//") || begins_with(value, ":") {
        return canonical_of(value, current_package);
    }
    Ok(value.to_owned())
}

/// A `c` at the end adds an empty piece.
proof fn lemma_pieces_trailing(s: Seq<char>, c: char)
    requires
        s.len() > 0,
        s.last() == c,
    ensures
        pieces(s, c) == pieces(s.drop_last(), c).push(Seq::empty()),
    decreases s.len(),
{
    let t = s.drop_last();
    lemma_position_from(s, c, 0);
    let at = position(s, c);
    if at == s.len() {
        assert(s[s.len() - 1] != c);
    }
    let rest = s.subrange(at + 1, s.len() as int);
    if at == t.len() {
        lemma_position_is(t, c, 0, t.len() as int);
        assert(rest =~= Seq::empty());
        assert(position(rest, c) == 0);
        assert(s.subrange(0, at) =~= t);
        assert(pieces(rest, c) =~= seq![Seq::<char>::empty()]);
        assert(pieces(s, c) =~= seq![t, Seq::empty()]);
        assert(pieces(t, c) =~= seq![t]);
        assert(pieces(t, c).push(Seq::empty()) =~= seq![t, Seq::empty()]);
    } else {
        lemma_position_is(t, c, 0, at);
        lemma_pieces_trailing(rest, c);
        assert(rest.drop_last() =~= t.subrange(at + 1, t.len() as int));
        assert(s.subrange(0, at) =~= t.subrange(0, at));
        assert(pieces(s, c) =~= pieces(t, c).push(Seq::empty()));
    }
}

proof fn lemma_without_trailing(s: Seq<char>, c: char, n: int)
    requires
        0 <= n <= s.len(),
    ensures
        0 <= run_end(s, c, n) <= n,
        run_end(s, c, n) > 0 ==> s[run_end(s, c, n) - 1] != c,
        forall|part: Seq<char>| pieces(s.subrange(0, run_end(s, c, n)), c).contains(part) ==> #[trigger] pieces(s.subrange(0, n), c).contains(
            part,
        ),
    decreases n,
{
    if n > 0 && s[n - 1] == c {
        lemma_without_trailing(s, c, n - 1);
        let whole = s.subrange(0, n);
        lemma_pieces_trailing(whole, c);
        assert(whole.drop_last() =~= s.subrange(0, n - 1));
        assert forall|part: Seq<char>| pieces(s.subrange(0, n - 1), c).contains(part) implies #[trigger] pieces(whole, c).contains(
            part,
        ) by {
            let short = pieces(s.subrange(0, n - 1), c);
            let i = choose|i: int| 0 <= i < short.len() && short[i] == part;
            assert(pieces(whole, c)[i] == part);
        }
    }
}

proof fn lemma_run(s: Seq<char>, c: char, i: int)
    requires
        0 <= i <= s.len(),
    ensures
        0 <= run_from(s, c, i) <= s.len() - i,
        i + run_from(s, c, i) < s.len() ==> s[i + run_from(s, c, i)] != c,
        forall|part: Seq<char>|
            pieces(s.subrange(i + run_from(s, c, i), s.len() as int), c).contains(part) ==> #[trigger] pieces(
                s.subrange(i, s.len() as int),
                c,
            ).contains(part),
    decreases s.len() - i,
{
    if i < s.len() && s[i] == c {
        lemma_run(s, c, i + 1);
        let whole = s.subrange(i, s.len() as int);
        let rest = s.subrange(i + 1, s.len() as int);
        assert(position(whole, c) == 0);
        assert(whole.subrange(1, whole.len() as int) =~= rest);
        assert forall|part: Seq<char>| pieces(rest, c).contains(part) implies #[trigger] pieces(whole, c).contains(part) by {
            let short = pieces(rest, c);
            let j = choose|j: int| 0 <= j < short.len() && short[j] == part;
            assert(pieces(whole, c)[j + 1] == part);
        }
        assert(i + 1 + run_from(s, c, i + 1) == i + run_from(s, c, i));
    }
}

/// What is left of a package that stays inside the workspace stays inside it,
/// has nothing more to be taken off, and holds only characters of the package.
proof fn lemma_settled(package: Seq<char>)
    requires
        !leaves(package),
    ensures
        !leaves(without_surrounding(package, '/')),
        without_surrounding(without_surrounding(package, '/'), '/') == without_surrounding(package, '/'),
        !has_char(package, ':') ==> !has_char(without_surrounding(package, '/'), ':'),
{
    reveal_strlit("/");
    let n = package.len() as int;
    lemma_run(package, '/', 0);
    let start = run_from(package, '/', 0);
    let tail = package.subrange(start, n);
    assert(package.subrange(0, n) =~= package);
    lemma_without_trailing(tail, '/', tail.len() as int);
    assert(tail.subrange(0, tail.len() as int) =~= tail);
    let end = run_end(tail, '/', tail.len() as int);
    let r = without_surrounding(package, '/');
    assert(r =~= tail.subrange(0, end));
    if pieces(r, '/').contains(".."@) {
        assert(pieces(tail, '/').contains(".."@));
        assert(pieces(package, '/').contains(".."@));
    }
    if r.len() > 0 {
        assert(r[0] == package[start]);
        assert(r.subrange(0, 1) =~= seq![r[0]]);
        assert(r.last() == tail[end - 1]);
    }
    assert(run_from(r, '/', 0) == 0);
    assert(r.subrange(0, r.len() as int) =~= r);
    assert(run_end(r, '/', r.len() as int) == r.len());
    if !has_char(package, ':') {
        lemma_position_from(package, ':', 0);
        lemma_position_from(r, ':', 0);
        if has_char(r, ':') {
            let at = position(r, ':');
            assert(r[at] == package[start + at]);
        }
    }
}

/// A label that is written as it should be is read as the same target, in
/// whichever package: so writing it again changes nothing.
pub proof fn law_canonical_label(value: Seq<char>, current_package: Seq<char>, other_package: Seq<char>)
    requires
        !has_char(current_package, ':'),
    ensures
        label_in(value, current_package) matches Ok(label) ==> label_in(canonical(label), other_package) == Ok::<Named, Fault>(
            label,
        ),
{
    if let Ok(label) = label_in(value, current_package) {
        reveal_strlit("//");
        reveal_strlit(":");
        reveal_strlit("//:");
        reveal_strlit("/");
        let (package, name) = label_parts(value, current_package)->0;
        if let Some(rest) = after_prefix(value, "//"@) {
            lemma_position_from(rest, ':', 0);
            lemma_position_from(package, ':', 0);
            if has_char(package, ':') {
                assert(rest[position(package, ':')] == ':');
            }
        }
        lemma_settled(package);
        let text = canonical(label);
        let rest = label.package + seq![':'] + name;
        lemma_cut(label.package, ':', name);
        assert("//:"@ =~= "//"@ + ":"@);
        assert(text =~= "//"@ + rest);
        assert(text.subrange(0, 2) =~= "//"@);
        assert(text.subrange(2, text.len() as int) =~= rest);
    }
}

/// A target is never outside of the workspace, and always has a name.
pub proof fn law_label_inside(value: Seq<char>, current_package: Seq<char>)
    ensures
        label_in(value, current_package) matches Ok(label) ==> !leaves(label.package) && label.name.len() > 0,
{
    if let Some((package, name)) = label_parts(value, current_package) {
        if !leaves(package) {
            lemma_settled(package);
        }
    }
}

/// A text is never both a pattern and a label.
pub proof fn law_pattern_is_no_label(value: Seq<char>, current_package: Seq<char>)
    ensures
        pattern_package(value) matches Ok(Some(_)) ==> label_in(value, current_package) is Err,
{
    if let Ok(Some(_)) = pattern_package(value) {
        reveal_strlit("...");
        reveal_strlit("/...");
        reveal_strlit("");
        let rest = after_prefix(value, "//"@)->0;
        lemma_position_from(rest, ':', 0);
        if has_char(rest, ':') {
            let at = position(rest, ':');
            if rest != "..."@ {
                let package = before_suffix(rest, "/..."@)->0;
                lemma_position_from(package, ':', 0);
                if at < package.len() {
                    assert(package[at] == ':');
                } else {
                    assert(rest[at] == rest.subrange(rest.len() - 4, rest.len() as int)[at - (rest.len() - 4)]);
                }
            }
        }
    }
}

} // verus!
