//! Text: the string operations that the rest of the library is written with,
//! each stated over sequences of characters.

use vstd::prelude::*;

verus! {

/// `String::push` appends one character.
pub assume_specification[ std::string::String::push ](s: &mut std::string::String, c: char)
    ensures
        final(s)@ == old(s)@.push(c),
;

/// A value of which a second, equal one can be made.
pub trait Duplicate: DeepView + Sized {
    fn duplicate(&self) -> (r: Self)
        ensures
            r.deep_view() == self.deep_view(),
    ;
}

impl Duplicate for String {
    fn duplicate(&self) -> (r: Self) {
        self.clone()
    }
}

impl Duplicate for bool {
    fn duplicate(&self) -> (r: Self) {
        *self
    }
}

impl Duplicate for u32 {
    fn duplicate(&self) -> (r: Self) {
        *self
    }
}

impl Duplicate for u64 {
    fn duplicate(&self) -> (r: Self) {
        *self
    }
}

impl Duplicate for usize {
    fn duplicate(&self) -> (r: Self) {
        *self
    }
}

impl<T: Duplicate> Duplicate for Vec<T> {
    fn duplicate(&self) -> (r: Self) {
        let mut out: Vec<T> = Vec::new();
        let mut i: usize = 0;
        while i < self.len()
            invariant
                i <= self.len(),
                out.deep_view() == self.deep_view().take(i as int),
            decreases self.len() - i,
        {
            keep(&mut out, self[i].duplicate());
            i = i + 1;
            assert(self.deep_view().take(i as int) == self.deep_view().take(i - 1).push(self.deep_view()[i - 1]));
        }
        assert(self.deep_view().take(self.len() as int) == self.deep_view());
        out
    }
}

impl<T: Duplicate> Duplicate for Option<T> {
    fn duplicate(&self) -> (r: Self) {
        match self {
            Some(value) => Some(value.duplicate()),
            None => None,
        }
    }
}

impl<A: Duplicate, B: Duplicate> Duplicate for (A, B) {
    fn duplicate(&self) -> (r: Self) {
        (self.0.duplicate(), self.1.duplicate())
    }
}

/// Appends `item` to `items`.
pub fn keep<T: DeepView>(items: &mut Vec<T>, item: T)
    ensures
        final(items)@ == old(items)@.push(item),
        final(items).deep_view() == old(items).deep_view().push(item.deep_view()),
{
    items.push(item);
    assert(items.deep_view() == old(items).deep_view().push(item.deep_view()));
}

/// Appends copies of all of `more` to `items`.
pub fn keep_all<T: Duplicate>(items: &mut Vec<T>, more: &Vec<T>)
    ensures
        final(items).deep_view() == old(items).deep_view() + more.deep_view(),
{
    let mut i: usize = 0;
    while i < more.len()
        invariant
            i <= more.len(),
            items.deep_view() == old(items).deep_view() + more.deep_view().take(i as int),
        decreases more.len() - i,
    {
        keep(items, more[i].duplicate());
        i = i + 1;
        assert(more.deep_view().take(i as int) == more.deep_view().take(i - 1).push(more.deep_view()[i - 1]));
        assert(items.deep_view() == old(items).deep_view() + more.deep_view().take(i as int));
    }
    assert(more.deep_view().take(more.len() as int) == more.deep_view());
}

/// The characters of `s`, as a vector that can be indexed.
pub fn chars_of(s: &str) -> (r: Vec<char>)
    ensures
        r@ == s@,
{
    let mut out: Vec<char> = Vec::new();
    for c in iter: s.chars()
        invariant
            iter.seq() == s@,
            out@ == s@.take(iter.index()),
    {
        out.push(c);
        assert(s@.take(iter.index() + 1) == s@.take(iter.index()).push(c));
    }
    assert(s@.take(s@.len() as int) == s@);
    out
}

/// The text made of `chars[from..to]`.
pub fn text_of(chars: &Vec<char>, from: usize, to: usize) -> (r: String)
    requires
        from <= to <= chars@.len(),
    ensures
        r@ == chars@.subrange(from as int, to as int),
{
    let mut out = String::new();
    let mut i: usize = from;
    while i < to
        invariant
            from <= i <= to <= chars@.len(),
            out@ == chars@.subrange(from as int, i as int),
        decreases to - i,
    {
        out.push(chars[i]);
        assert(chars@.subrange(from as int, i + 1) == chars@.subrange(from as int, i as int).push(chars@[i as int]));
        i = i + 1;
    }
    out
}

/// Whether two texts have the same characters.
pub fn same(a: &str, b: &str) -> (r: bool)
    ensures
        r == (a@ == b@),
{
    let x = chars_of(a);
    let y = chars_of(b);
    if x.len() != y.len() {
        return false;
    }
    let mut i: usize = 0;
    while i < x.len()
        invariant
            i <= x.len() == y.len(),
            x@ == a@,
            y@ == b@,
            forall|j: int| 0 <= j < i ==> x@[j] == y@[j],
        decreases x.len() - i,
    {
        if x[i] != y[i] {
            return false;
        }
        i = i + 1;
    }
    assert(x@ == y@);
    true
}

pub fn cat2(a: &str, b: &str) -> (r: String)
    ensures
        r@ == a@ + b@,
{
    let mut out = a.to_owned();
    out.append(b);
    out
}

pub fn cat3(a: &str, b: &str, c: &str) -> (r: String)
    ensures
        r@ == a@ + b@ + c@,
{
    let mut out = cat2(a, b);
    out.append(c);
    out
}

pub fn cat4(a: &str, b: &str, c: &str, d: &str) -> (r: String)
    ensures
        r@ == a@ + b@ + c@ + d@,
{
    let mut out = cat3(a, b, c);
    out.append(d);
    out
}

pub fn cat5(a: &str, b: &str, c: &str, d: &str, e: &str) -> (r: String)
    ensures
        r@ == a@ + b@ + c@ + d@ + e@,
{
    let mut out = cat4(a, b, c, d);
    out.append(e);
    out
}

/// Whether `s` begins with `prefix`.
pub open spec fn begins(s: Seq<char>, prefix: Seq<char>) -> bool {
    s.len() >= prefix.len() && s.subrange(0, prefix.len() as int) == prefix
}

/// Whether `s` ends with `suffix`.
pub open spec fn ends(s: Seq<char>, suffix: Seq<char>) -> bool {
    s.len() >= suffix.len() && s.subrange(s.len() - suffix.len(), s.len() as int) == suffix
}

/// What follows `prefix` in `s`, where `s` begins with it.
pub open spec fn after_prefix(s: Seq<char>, prefix: Seq<char>) -> Option<Seq<char>> {
    if begins(s, prefix) {
        Some(s.subrange(prefix.len() as int, s.len() as int))
    } else {
        None
    }
}

/// What precedes `suffix` in `s`, where `s` ends with it.
pub open spec fn before_suffix(s: Seq<char>, suffix: Seq<char>) -> Option<Seq<char>> {
    if ends(s, suffix) {
        Some(s.subrange(0, s.len() - suffix.len()))
    } else {
        None
    }
}

/// Whether `part` stands in `chars` at position `at`.
fn stands_at(chars: &Vec<char>, part: &Vec<char>, at: usize) -> (r: bool)
    requires
        at <= chars@.len(),
    ensures
        r == (at + part@.len() <= chars@.len() && chars@.subrange(at as int, at + part@.len()) == part@),
{
    if part.len() > chars.len() - at {
        return false;
    }
    let mut i: usize = 0;
    while i < part.len()
        invariant
            i <= part.len(),
            at + part.len() <= chars.len(),
            forall|j: int| 0 <= j < i ==> chars@[at + j] == part@[j],
        decreases part.len() - i,
    {
        if chars[at + i] != part[i] {
            assert(chars@.subrange(at as int, at + part@.len())[i as int] != part@[i as int]);
            return false;
        }
        i = i + 1;
    }
    assert(chars@.subrange(at as int, at + part@.len()) == part@);
    true
}

pub fn begins_with(s: &str, prefix: &str) -> (r: bool)
    ensures
        r == begins(s@, prefix@),
{
    stands_at(&chars_of(s), &chars_of(prefix), 0)
}

pub fn ends_with(s: &str, suffix: &str) -> (r: bool)
    ensures
        r == ends(s@, suffix@),
{
    let chars = chars_of(s);
    let part = chars_of(suffix);
    part.len() <= chars.len() && stands_at(&chars, &part, chars.len() - part.len())
}

pub fn strip_prefix(s: &str, prefix: &str) -> (r: Option<String>)
    ensures
        r.deep_view() == after_prefix(s@, prefix@),
{
    let chars = chars_of(s);
    let part = chars_of(prefix);
    if stands_at(&chars, &part, 0) {
        Some(text_of(&chars, part.len(), chars.len()))
    } else {
        None
    }
}

pub fn strip_suffix(s: &str, suffix: &str) -> (r: Option<String>)
    ensures
        r.deep_view() == before_suffix(s@, suffix@),
{
    let chars = chars_of(s);
    let part = chars_of(suffix);
    if part.len() <= chars.len() && stands_at(&chars, &part, chars.len() - part.len()) {
        Some(text_of(&chars, 0, chars.len() - part.len()))
    } else {
        None
    }
}

/// The first position of `c` in `s` at or after `i`; the length of `s` where there is none.
pub open spec fn position_from(s: Seq<char>, c: char, i: int) -> int
    decreases s.len() - i,
{
    if i >= s.len() {
        s.len() as int
    } else if s[i] == c {
        i
    } else {
        position_from(s, c, i + 1)
    }
}

/// The first position of `c` in `s`; the length of `s` where there is none.
pub open spec fn position(s: Seq<char>, c: char) -> int {
    position_from(s, c, 0)
}

/// `position_from` lies between its start and the end of the text, `c` stands
/// there unless it is the end, and nowhere before.
pub proof fn lemma_position_from(s: Seq<char>, c: char, i: int)
    requires
        0 <= i <= s.len(),
    ensures
        i <= position_from(s, c, i) <= s.len(),
        position_from(s, c, i) < s.len() ==> s[position_from(s, c, i)] == c,
        forall|j: int| i <= j < position_from(s, c, i) ==> s[j] != c,
    decreases s.len() - i,
{
    if i < s.len() && s[i] != c {
        lemma_position_from(s, c, i + 1);
    }
}

/// The position found in `chars`, from `from` on.
pub fn seek(chars: &Vec<char>, c: char, from: usize) -> (r: usize)
    requires
        from <= chars@.len(),
    ensures
        r == position_from(chars@, c, from as int),
        from <= r <= chars@.len(),
{
    let mut i: usize = from;
    while i < chars.len() && chars[i] != c
        invariant
            from <= i <= chars@.len(),
            position_from(chars@, c, from as int) == position_from(chars@, c, i as int),
        decreases chars.len() - i,
    {
        i = i + 1;
    }
    i
}

/// Whether `c` occurs in `s`.
pub open spec fn has_char(s: Seq<char>, c: char) -> bool {
    position(s, c) < s.len()
}

pub fn contains_char(s: &str, c: char) -> (r: bool)
    ensures
        r == has_char(s@, c),
{
    let chars = chars_of(s);
    seek(&chars, c, 0) < chars.len()
}

/// The two sides of the first `c` in `s`.
pub open spec fn cut(s: Seq<char>, c: char) -> Option<(Seq<char>, Seq<char>)> {
    if has_char(s, c) {
        Some((s.subrange(0, position(s, c)), s.subrange(position(s, c) + 1, s.len() as int)))
    } else {
        None
    }
}

pub fn split_once(s: &str, c: char) -> (r: Option<(String, String)>)
    ensures
        r.deep_view() == cut(s@, c),
{
    let chars = chars_of(s);
    let at: usize = seek(&chars, c, 0);
    if at < chars.len() {
        Some((text_of(&chars, 0, at), text_of(&chars, at + 1, chars.len())))
    } else {
        None
    }
}

/// The last position of `c` among the first `n` characters of `s`; -1 where there is none.
pub open spec fn last_position(s: Seq<char>, c: char, n: int) -> int
    decreases n,
{
    if n <= 0 {
        -1
    } else if s[n - 1] == c {
        n - 1
    } else {
        last_position(s, c, n - 1)
    }
}

/// The two sides of the last `c` in `s`.
pub open spec fn cut_last(s: Seq<char>, c: char) -> Option<(Seq<char>, Seq<char>)> {
    let at = last_position(s, c, s.len() as int);
    if at >= 0 {
        Some((s.subrange(0, at), s.subrange(at + 1, s.len() as int)))
    } else {
        None
    }
}

pub fn rsplit_once(s: &str, c: char) -> (r: Option<(String, String)>)
    ensures
        r.deep_view() == cut_last(s@, c),
{
    let chars = chars_of(s);
    let mut n: usize = chars.len();
    while n > 0 && chars[n - 1] != c
        invariant
            n <= chars@.len(),
            last_position(chars@, c, chars@.len() as int) == last_position(chars@, c, n as int),
        decreases n,
    {
        n = n - 1;
    }
    if n > 0 {
        Some((text_of(&chars, 0, n - 1), text_of(&chars, n, chars.len())))
    } else {
        None
    }
}

/// The pieces of `s` between the occurrences of `c`: one more than there are.
pub open spec fn pieces(s: Seq<char>, c: char) -> Seq<Seq<char>>
    decreases s.len(),
{
    let at = position(s, c);
    if 0 <= at < s.len() {
        seq![s.subrange(0, at)] + pieces(s.subrange(at + 1, s.len() as int), c)
    } else {
        seq![s]
    }
}

/// A position found in the end of a text.
pub proof fn lemma_position_shift(s: Seq<char>, c: char, start: int, i: int)
    requires
        0 <= start <= i <= s.len(),
    ensures
        position_from(s.subrange(start, s.len() as int), c, i - start) == position_from(s, c, i) - start,
    decreases s.len() - i,
{
    if i < s.len() && s[i] != c {
        lemma_position_shift(s, c, start, i + 1);
    }
}

pub fn split(s: &str, c: char) -> (r: Vec<String>)
    ensures
        r.deep_view() == pieces(s@, c),
{
    let chars = chars_of(s);
    let mut out: Vec<String> = Vec::new();
    let mut start: usize = 0;
    let mut at: usize = seek(&chars, c, 0);
    assert(s@.subrange(0, s@.len() as int) == s@);
    while at < chars.len()
        invariant
            start <= at <= chars@.len(),
            chars@ == s@,
            at == position_from(s@, c, start as int),
            out.deep_view() + pieces(s@.subrange(start as int, s@.len() as int), c) == pieces(s@, c),
        decreases chars.len() - at,
    {
        let ghost rest = s@.subrange(start as int, s@.len() as int);
        let ghost next = s@.subrange(at + 1, s@.len() as int);
        proof {
            lemma_position_shift(s@, c, start as int, start as int);
            assert(rest.subrange(0, at - start) == s@.subrange(start as int, at as int));
            assert(rest.subrange(at - start + 1, rest.len() as int) == next);
        }
        let ghost before = out.deep_view();
        keep(&mut out, text_of(&chars, start, at));
        proof {
            assert(before + (seq![s@.subrange(start as int, at as int)] + pieces(next, c)) == out.deep_view() + pieces(next, c));
        }
        start = at + 1;
        at = seek(&chars, c, start);
    }
    proof {
        lemma_position_shift(s@, c, start as int, start as int);
    }
    let ghost before = out.deep_view();
    keep(&mut out, text_of(&chars, start, chars.len()));
    assert(out.deep_view() == before + seq![s@.subrange(start as int, s@.len() as int)]);
    out
}

/// The texts in `parts`, with `sep` between each and the next.
pub open spec fn joined(parts: Seq<Seq<char>>, sep: Seq<char>) -> Seq<char>
    decreases parts.len(),
{
    if parts.len() == 0 {
        Seq::empty()
    } else if parts.len() == 1 {
        parts[0]
    } else {
        joined(parts.drop_last(), sep) + sep + parts.last()
    }
}

pub fn join(parts: &Vec<String>, sep: &str) -> (r: String)
    ensures
        r@ == joined(parts.deep_view(), sep@),
{
    let mut out = String::new();
    let mut i: usize = 0;
    while i < parts.len()
        invariant
            i <= parts.len(),
            out@ == joined(parts.deep_view().take(i as int), sep@),
        decreases parts.len() - i,
    {
        let ghost next = parts.deep_view().take(i + 1);
        assert(next.drop_last() == parts.deep_view().take(i as int));
        if i > 0 {
            out.append(sep);
        }
        out.append(parts[i].as_str());
        if i == 0 {
            assert(out@ == parts.deep_view()[0]);
        }
        i = i + 1;
    }
    assert(parts.deep_view().take(parts.len() as int) == parts.deep_view());
    out
}

/// The first position of `c` is the one where it stands, and before which it does
/// not.
pub proof fn lemma_position_is(s: Seq<char>, c: char, i: int, at: int)
    requires
        0 <= i <= at <= s.len(),
        at < s.len() ==> s[at] == c,
        forall|j: int| i <= j < at ==> s[j] != c,
    ensures
        position_from(s, c, i) == at,
    decreases at - i,
{
    if i < at {
        lemma_position_is(s, c, i + 1, at);
    }
}

/// A text is cut at the first `c`.
pub proof fn lemma_cut(a: Seq<char>, c: char, b: Seq<char>)
    requires
        !has_char(a, c),
    ensures
        cut(a + seq![c] + b, c) == Some((a, b)),
{
    lemma_position_from(a, c, 0);
    let s = a + seq![c] + b;
    lemma_position_is(s, c, 0, a.len() as int);
    assert(s.subrange(0, a.len() as int) =~= a);
    assert(s.subrange(a.len() as int + 1, s.len() as int) =~= b);
}

/// A text without `c` behind a `c` is one more piece.
pub proof fn lemma_pieces_behind(s: Seq<char>, c: char, last: Seq<char>)
    requires
        !has_char(last, c),
    ensures
        pieces(s + seq![c] + last, c) == pieces(s, c).push(last),
    decreases s.len(),
{
    let whole = s + seq![c] + last;
    lemma_position_from(s, c, 0);
    lemma_position_from(last, c, 0);
    let at = position(s, c);
    lemma_position_is(whole, c, 0, at);
    if at < s.len() {
        let rest = s.subrange(at + 1, s.len() as int);
        lemma_pieces_behind(rest, c, last);
        assert(whole.subrange(at + 1, whole.len() as int) =~= rest + seq![c] + last);
        assert(whole.subrange(0, at) =~= s.subrange(0, at));
        assert(pieces(whole, c) =~= pieces(s, c).push(last));
    } else {
        assert(whole.subrange(0, at) =~= s);
        assert(whole.subrange(at + 1, whole.len() as int) =~= last);
        assert(pieces(last, c) =~= seq![last]);
        assert(pieces(s, c) =~= seq![s]);
        assert(pieces(whole, c) =~= pieces(s, c).push(last));
    }
}

/// Texts without `c` that are joined by `c` are the pieces of what they make.
pub proof fn lemma_pieces_joined(parts: Seq<Seq<char>>, c: char)
    requires
        parts.len() > 0,
        forall|i: int| 0 <= i < parts.len() ==> !has_char(#[trigger] parts[i], c),
    ensures
        pieces(joined(parts, seq![c]), c) == parts,
    decreases parts.len(),
{
    if parts.len() == 1 {
        lemma_position_from(parts[0], c, 0);
        assert(pieces(parts[0], c) =~= parts);
    } else {
        lemma_pieces_joined(parts.drop_last(), c);
        lemma_pieces_behind(joined(parts.drop_last(), seq![c]), c, parts.last());
        assert(parts.drop_last().push(parts.last()) =~= parts);
    }
}

/// Joined texts begin with the first of them.
pub proof fn lemma_joined_front(first: Seq<char>, rest: Seq<Seq<char>>, sep: Seq<char>)
    requires
        rest.len() > 0,
    ensures
        joined(seq![first] + rest, sep) == first + sep + joined(rest, sep),
    decreases rest.len(),
{
    let all = seq![first] + rest;
    assert(all.drop_last() =~= seq![first] + rest.drop_last());
    if rest.len() == 1 {
        assert(all.drop_last() =~= seq![first]);
        assert(joined(seq![first], sep) =~= first);
        assert(joined(all, sep) =~= first + sep + rest[0]);
    } else {
        lemma_joined_front(first, rest.drop_last(), sep);
        assert(joined(all, sep) =~= first + sep + joined(rest, sep));
    }
}

/// Whether `c` is white space, as Unicode has it.
pub open spec fn is_space(c: char) -> bool {
    ||| '\u{9}' <= c <= '\u{d}'
    ||| c == ' '
    ||| c == '\u{85}'
    ||| c == '\u{a0}'
    ||| c == '\u{1680}'
    ||| '\u{2000}' <= c <= '\u{200a}'
    ||| c == '\u{2028}'
    ||| c == '\u{2029}'
    ||| c == '\u{202f}'
    ||| c == '\u{205f}'
    ||| c == '\u{3000}'
}

pub fn space(c: char) -> (r: bool)
    ensures
        r == is_space(c),
{
    ('\u{9}' <= c && c <= '\u{d}') || c == ' ' || c == '\u{85}' || c == '\u{a0}' || c == '\u{1680}' || ('\u{2000}' <= c
        && c <= '\u{200a}') || c == '\u{2028}' || c == '\u{2029}' || c == '\u{202f}' || c == '\u{205f}' || c == '\u{3000}'
}

/// The number of white-space characters that `s` has at position `i` and directly after it.
pub open spec fn spaces_from(s: Seq<char>, i: int) -> int
    decreases s.len() - i,
{
    if 0 <= i < s.len() && is_space(s[i]) {
        1 + spaces_from(s, i + 1)
    } else {
        0
    }
}

/// The length of `s` up to its last character that is not white space.
pub open spec fn end_of_text(s: Seq<char>, n: int) -> int
    decreases n,
{
    if n > 0 && is_space(s[n - 1]) {
        end_of_text(s, n - 1)
    } else {
        n
    }
}

/// `s` without leading white space.
pub open spec fn trimmed_start(s: Seq<char>) -> Seq<char> {
    s.subrange(spaces_from(s, 0), s.len() as int)
}

/// `s` without trailing white space.
pub open spec fn trimmed_end(s: Seq<char>) -> Seq<char> {
    s.subrange(0, end_of_text(s, s.len() as int))
}

/// `s` without leading and trailing white space.
pub open spec fn trimmed(s: Seq<char>) -> Seq<char> {
    trimmed_end(trimmed_start(s))
}

/// The leading white space ends within the text.
pub proof fn lemma_spaces(s: Seq<char>, i: int)
    requires
        0 <= i <= s.len(),
    ensures
        0 <= spaces_from(s, i) <= s.len() - i,
    decreases s.len() - i,
{
    if i < s.len() && is_space(s[i]) {
        lemma_spaces(s, i + 1);
    }
}

/// The text without trailing white space is no longer than the text.
pub proof fn lemma_end(s: Seq<char>, n: int)
    requires
        0 <= n <= s.len(),
    ensures
        0 <= end_of_text(s, n) <= n,
    decreases n,
{
    if n > 0 && is_space(s[n - 1]) {
        lemma_end(s, n - 1);
    }
}

/// What follows the leading white space is not white space.
pub proof fn lemma_spaces_end(s: Seq<char>, i: int)
    requires
        0 <= i <= s.len(),
    ensures
        i + spaces_from(s, i) < s.len() ==> !is_space(s[i + spaces_from(s, i)]),
    decreases s.len() - i,
{
    if i < s.len() && is_space(s[i]) {
        lemma_spaces_end(s, i + 1);
    }
}

/// What precedes the trailing white space is not white space.
pub proof fn lemma_end_text(s: Seq<char>, n: int)
    requires
        0 <= n <= s.len(),
    ensures
        end_of_text(s, n) > 0 ==> !is_space(s[end_of_text(s, n) - 1]),
    decreases n,
{
    if n > 0 && is_space(s[n - 1]) {
        lemma_end_text(s, n - 1);
    }
}

/// A text without white space at its ends stays as it is.
pub proof fn lemma_trimmed_same(s: Seq<char>)
    requires
        s.len() > 0 ==> !is_space(s[0]) && !is_space(s.last()),
    ensures
        trimmed(s) == s,
        trimmed_start(s) == s,
{
    assert(trimmed_start(s) =~= s);
    assert(trimmed_end(s) =~= s);
}

/// What was trimmed once stays as it is.
pub proof fn lemma_trimmed_twice(s: Seq<char>)
    ensures
        trimmed(trimmed(s)) == trimmed(s),
{
    let t = trimmed_start(s);
    lemma_spaces(s, 0);
    lemma_spaces_end(s, 0);
    lemma_end(t, t.len() as int);
    lemma_end_text(t, t.len() as int);
    lemma_trimmed_same(trimmed(s));
}

proof fn lemma_spaces_shift(s: Seq<char>, i: int)
    requires
        0 <= i <= s.len(),
    ensures
        spaces_from(seq![' '] + s, i + 1) == spaces_from(s, i),
    decreases s.len() - i,
{
    if i < s.len() {
        assert((seq![' '] + s)[i + 1] == s[i]);
        lemma_spaces_shift(s, i + 1);
    }
}

/// A leading space is trimmed.
pub proof fn lemma_trimmed_behind_space(s: Seq<char>)
    ensures
        trimmed(seq![' '] + s) == trimmed(s),
{
    let t = seq![' '] + s;
    lemma_spaces_shift(s, 0);
    lemma_spaces(s, 0);
    assert(t[0] == ' ');
    assert(spaces_from(t, 0) == 1 + spaces_from(t, 1));
    assert(trimmed_start(t) =~= trimmed_start(s));
}

pub fn trim_start(s: &str) -> (r: String)
    ensures
        r@ == trimmed_start(s@),
{
    let chars = chars_of(s);
    let mut i: usize = 0;
    while i < chars.len() && space(chars[i])
        invariant
            i <= chars@.len(),
            chars@ == s@,
            spaces_from(s@, 0) == i + spaces_from(s@, i as int),
        decreases chars.len() - i,
    {
        i = i + 1;
    }
    text_of(&chars, i, chars.len())
}

pub fn trim_end(s: &str) -> (r: String)
    ensures
        r@ == trimmed_end(s@),
{
    let chars = chars_of(s);
    let mut n: usize = chars.len();
    while n > 0 && space(chars[n - 1])
        invariant
            n <= chars@.len(),
            chars@ == s@,
            end_of_text(s@, s@.len() as int) == end_of_text(s@, n as int),
        decreases n,
    {
        n = n - 1;
    }
    text_of(&chars, 0, n)
}

pub fn trim(s: &str) -> (r: String)
    ensures
        r@ == trimmed(s@),
{
    trim_end(trim_start(s).as_str())
}

/// Each `old` in `s` replaced by `new`.
pub open spec fn swapped(s: Seq<char>, old_char: char, new_char: char) -> Seq<char> {
    s.map_values(|c: char| if c == old_char { new_char } else { c })
}

pub fn replace_char(s: &str, old_char: char, new_char: char) -> (r: String)
    ensures
        r@ == swapped(s@, old_char, new_char),
{
    let chars = chars_of(s);
    let mut out = String::new();
    let mut i: usize = 0;
    while i < chars.len()
        invariant
            i <= chars@.len(),
            chars@ == s@,
            out@ == swapped(s@.take(i as int), old_char, new_char),
        decreases chars.len() - i,
    {
        out.push(if chars[i] == old_char { new_char } else { chars[i] });
        i = i + 1;
        assert(out@ == swapped(s@.take(i as int), old_char, new_char));
    }
    assert(s@.take(s@.len() as int) == s@);
    out
}

/// The number of `c` that `s` has at position `i` and directly after it.
pub open spec fn run_from(s: Seq<char>, c: char, i: int) -> int
    decreases s.len() - i,
{
    if 0 <= i < s.len() && s[i] == c {
        1 + run_from(s, c, i + 1)
    } else {
        0
    }
}

/// The length of `s[..n]` up to its last character that is not `c`.
pub open spec fn run_end(s: Seq<char>, c: char, n: int) -> int
    decreases n,
{
    if n > 0 && s[n - 1] == c {
        run_end(s, c, n - 1)
    } else {
        n
    }
}

/// `s` without the `c` at its end.
pub open spec fn without_trailing(s: Seq<char>, c: char) -> Seq<char> {
    s.subrange(0, run_end(s, c, s.len() as int))
}

/// `s` without the `c` at its start and at its end.
pub open spec fn without_surrounding(s: Seq<char>, c: char) -> Seq<char> {
    without_trailing(s.subrange(run_from(s, c, 0), s.len() as int), c)
}

pub fn trim_end_matches(s: &str, c: char) -> (r: String)
    ensures
        r@ == without_trailing(s@, c),
{
    let chars = chars_of(s);
    let mut n: usize = chars.len();
    while n > 0 && chars[n - 1] == c
        invariant
            n <= chars@.len(),
            chars@ == s@,
            run_end(s@, c, s@.len() as int) == run_end(s@, c, n as int),
        decreases n,
    {
        n = n - 1;
    }
    text_of(&chars, 0, n)
}

pub fn trim_matches(s: &str, c: char) -> (r: String)
    ensures
        r@ == without_surrounding(s@, c),
{
    let chars = chars_of(s);
    let mut i: usize = 0;
    while i < chars.len() && chars[i] == c
        invariant
            i <= chars@.len(),
            chars@ == s@,
            run_from(s@, c, 0) == i + run_from(s@, c, i as int),
        decreases chars.len() - i,
    {
        i = i + 1;
    }
    trim_end_matches(text_of(&chars, i, chars.len()).as_str(), c)
}

/// Whether `part` stands in `s` at or after position `i`.
pub open spec fn occurs_from(s: Seq<char>, part: Seq<char>, i: int) -> bool
    decreases s.len() + 1 - i,
{
    if i + part.len() > s.len() {
        false
    } else {
        s.subrange(i, i + part.len()) == part || occurs_from(s, part, i + 1)
    }
}

/// Whether `part` occurs in `s`.
pub open spec fn has_text(s: Seq<char>, part: Seq<char>) -> bool {
    occurs_from(s, part, 0)
}

pub fn contains(s: &str, part: &str) -> (r: bool)
    ensures
        r == has_text(s@, part@),
{
    let chars = chars_of(s);
    let sought = chars_of(part);
    let mut i: usize = 0;
    while i <= chars.len() && sought.len() <= chars.len() - i
        invariant
            i <= chars@.len() + 1,
            chars@ == s@,
            sought@ == part@,
            has_text(s@, part@) == occurs_from(s@, part@, i as int),
        decreases chars.len() + 1 - i,
    {
        if stands_at(&chars, &sought, i) {
            return true;
        }
        if i == chars.len() {
            assert(!occurs_from(s@, part@, i + 1));
            return false;
        }
        i = i + 1;
    }
    false
}

/// The words of `s[i..]`, of which `s[start..i]` is the beginning of one.
pub open spec fn words_from(s: Seq<char>, start: int, i: int) -> Seq<Seq<char>>
    decreases s.len() - i,
{
    if i >= s.len() {
        if start < i {
            seq![s.subrange(start, i)]
        } else {
            Seq::empty()
        }
    } else if is_space(s[i]) {
        if start < i {
            seq![s.subrange(start, i)] + words_from(s, i + 1, i + 1)
        } else {
            words_from(s, i + 1, i + 1)
        }
    } else {
        words_from(s, start, i + 1)
    }
}

/// The words of `s`: its longest parts without white space.
pub open spec fn words(s: Seq<char>) -> Seq<Seq<char>> {
    words_from(s, 0, 0)
}

pub fn split_whitespace(s: &str) -> (r: Vec<String>)
    ensures
        r.deep_view() == words(s@),
{
    let chars = chars_of(s);
    let mut out: Vec<String> = Vec::new();
    let mut start: usize = 0;
    let mut i: usize = 0;
    assert(out.deep_view() + words(s@) == words(s@));
    while i < chars.len()
        invariant
            start <= i <= chars@.len(),
            chars@ == s@,
            out.deep_view() + words_from(s@, start as int, i as int) == words(s@),
        decreases chars.len() - i,
    {
        if space(chars[i]) {
            let ghost done = out.deep_view();
            let ghost rest = words_from(s@, i + 1, i + 1);
            if start < i {
                keep(&mut out, text_of(&chars, start, i));
                assert(done + (seq![s@.subrange(start as int, i as int)] + rest) == out.deep_view() + rest);
            }
            start = i + 1;
        }
        i = i + 1;
    }
    if start < i {
        let ghost done = out.deep_view();
        keep(&mut out, text_of(&chars, start, i));
        assert(done + seq![s@.subrange(start as int, i as int)] == out.deep_view());
    } else {
        assert(out.deep_view() + Seq::<Seq<char>>::empty() == out.deep_view());
    }
    out
}

/// Each `old_char` in `s` replaced by the text `new_text`.
pub open spec fn replaced(s: Seq<char>, old_char: char, new_text: Seq<char>) -> Seq<char>
    decreases s.len(),
{
    if s.len() == 0 {
        Seq::empty()
    } else if s.last() == old_char {
        replaced(s.drop_last(), old_char, new_text) + new_text
    } else {
        replaced(s.drop_last(), old_char, new_text).push(s.last())
    }
}

pub fn replace(s: &str, old_char: char, new_text: &str) -> (r: String)
    ensures
        r@ == replaced(s@, old_char, new_text@),
{
    let chars = chars_of(s);
    let mut out = String::new();
    let mut i: usize = 0;
    while i < chars.len()
        invariant
            i <= chars@.len(),
            chars@ == s@,
            out@ == replaced(s@.take(i as int), old_char, new_text@),
        decreases chars.len() - i,
    {
        assert(s@.take(i + 1).drop_last() == s@.take(i as int));
        if chars[i] == old_char {
            out.append(new_text);
        } else {
            out.push(chars[i]);
        }
        i = i + 1;
    }
    assert(s@.take(s@.len() as int) == s@);
    out
}

/// The lines of `s`: its pieces that a line feed ends, each without a carriage return
/// before it, and the rest, where that is not empty.
pub open spec fn lines_in(s: Seq<char>) -> Seq<Seq<char>> {
    let parts = pieces(s, '\n');
    let done = ended_lines(parts.drop_last());
    if parts.last().len() == 0 {
        done
    } else {
        done.push(parts.last())
    }
}

/// Lines that line feeds end.
pub open spec fn ended_lines(parts: Seq<Seq<char>>) -> Seq<Seq<char>> {
    parts.map_values(|line: Seq<char>| without_return(line))
}

/// `line` without a carriage return at its end.
pub open spec fn without_return(line: Seq<char>) -> Seq<char> {
    if line.len() > 0 && line.last() == '\r' {
        line.drop_last()
    } else {
        line
    }
}

fn drop_return(line: &str) -> (r: String)
    ensures
        r@ == without_return(line@),
{
    let chars = chars_of(line);
    if chars.len() > 0 && chars[chars.len() - 1] == '\r' {
        let r = text_of(&chars, 0, chars.len() - 1);
        assert(r@ =~= line@.drop_last());
        r
    } else {
        line.to_owned()
    }
}

pub fn lines(s: &str) -> (r: Vec<String>)
    ensures
        r.deep_view() == lines_in(s@),
{
    let parts = split(s, '\n');
    let ghost all = parts.deep_view();
    let ghost kept = all.drop_last();
    proof {
        lemma_position_from(s@, '\n', 0);
        assert(all.len() > 0);
    }
    let n: usize = parts.len() - 1;
    let mut out: Vec<String> = Vec::new();
    let mut i: usize = 0;
    while i < n
        invariant
            i <= n < parts.len(),
            all == parts.deep_view(),
            kept == all.take(n as int),
            out.deep_view() == ended_lines(kept.take(i as int)),
        decreases n - i,
    {
        assert(kept[i as int] == parts@[i as int]@);
        keep(&mut out, drop_return(parts[i].as_str()));
        i = i + 1;
        assert(out.deep_view() =~= ended_lines(kept.take(i as int)));
    }
    assert(kept.take(i as int) =~= kept);
    assert(all.last() == parts@[n as int]@);
    if !parts[n].as_str().is_empty() {
        keep(&mut out, parts[n].clone());
    }
    out
}

/// `c`, in lower case where it is an ASCII letter.
pub open spec fn lower(c: char) -> char {
    if 'A' <= c <= 'Z' {
        (c as int + 32) as char
    } else {
        c
    }
}

fn lower_of(c: char) -> (r: char)
    ensures
        r == lower(c),
{
    if 'A' <= c && c <= 'Z' {
        (c as u8 + 32) as char
    } else {
        c
    }
}

/// Whether two texts are the same but for the case of ASCII letters.
pub open spec fn same_but_case(a: Seq<char>, b: Seq<char>) -> bool {
    a.len() == b.len() && forall|i: int| 0 <= i < a.len() ==> lower(#[trigger] a[i]) == lower(b[i])
}

pub fn same_ignoring_case(a: &str, b: &str) -> (r: bool)
    ensures
        r == same_but_case(a@, b@),
{
    let left = chars_of(a);
    let right = chars_of(b);
    if left.len() != right.len() {
        return false;
    }
    let mut i: usize = 0;
    while i < left.len()
        invariant
            i <= left.len() == right.len(),
            left@ == a@,
            right@ == b@,
            forall|j: int| 0 <= j < i ==> lower(#[trigger] a@[j]) == lower(b@[j]),
        decreases left.len() - i,
    {
        if lower_of(left[i]) != lower_of(right[i]) {
            return false;
        }
        i = i + 1;
    }
    true
}

/// `s` in quotation marks, with escapes, as it is shown to a programmer.
pub uninterp spec fn debug_text(s: Seq<char>) -> Seq<char>;

/// The `Debug` format of `str`: a function of the text alone.
#[verifier::external_body]
pub(crate) fn debug_of(s: &str) -> (r: String)
    ensures
        r@ == debug_text(s@),
{
    format!("{:?}", s)
}

/// Whether `items` holds a text with the characters of `s`.
pub fn holds_text(items: &Vec<String>, s: &str) -> (r: bool)
    ensures
        r == items.deep_view().contains(s@),
{
    let mut i: usize = 0;
    while i < items.len()
        invariant
            i <= items.len(),
            forall|j: int| 0 <= j < i ==> items.deep_view()[j] != s@,
        decreases items.len() - i,
    {
        if same(items[i].as_str(), s) {
            assert(items.deep_view()[i as int] == s@);
            return true;
        }
        i = i + 1;
    }
    false
}

/// Whether `a` comes before `b` in the lexical order of their characters,
/// compared from position `i` on.
pub open spec fn before_from(a: Seq<char>, b: Seq<char>, i: int) -> bool
    decreases a.len() - i,
{
    if i >= a.len() {
        i < b.len()
    } else if i >= b.len() {
        false
    } else if a[i] == b[i] {
        before_from(a, b, i + 1)
    } else {
        a[i] < b[i]
    }
}

/// Whether `a` comes before `b` in the lexical order of their characters.
pub open spec fn before(a: Seq<char>, b: Seq<char>) -> bool {
    before_from(a, b, 0)
}

pub fn precedes(a: &str, b: &str) -> (r: bool)
    ensures
        r == before(a@, b@),
{
    let x = chars_of(a);
    let y = chars_of(b);
    let mut i: usize = 0;
    while i < x.len() && i < y.len() && x[i] == y[i]
        invariant
            i <= x@.len(),
            i <= y@.len(),
            x@ == a@,
            y@ == b@,
            before(a@, b@) == before_from(a@, b@, i as int),
        decreases x.len() - i,
    {
        i = i + 1;
    }
    if i >= x.len() {
        i < y.len()
    } else if i >= y.len() {
        false
    } else {
        x[i] < y[i]
    }
}

/// The lexical order is irreflexive.
pub proof fn lemma_before_irreflexive(a: Seq<char>, i: int)
    requires
        0 <= i,
    ensures
        !before_from(a, a, i),
    decreases a.len() - i,
{
    if i < a.len() {
        lemma_before_irreflexive(a, i + 1);
    }
}

/// The lexical order is transitive.
pub proof fn lemma_before_transitive(a: Seq<char>, b: Seq<char>, c: Seq<char>, i: int)
    requires
        0 <= i,
        before_from(a, b, i),
        before_from(b, c, i),
    ensures
        before_from(a, c, i),
    decreases a.len() - i,
{
    if i < a.len() && i < b.len() && i < c.len() && a[i] == b[i] && b[i] == c[i] {
        lemma_before_transitive(a, b, c, i + 1);
    }
}

/// Of two different texts one comes before the other.
pub proof fn lemma_before_total(a: Seq<char>, b: Seq<char>, i: int)
    requires
        0 <= i,
        i <= a.len(),
        i <= b.len(),
        forall|j: int| 0 <= j < i ==> a[j] == b[j],
    ensures
        a == b || before_from(a, b, i) || before_from(b, a, i),
    decreases a.len() - i,
{
    if i < a.len() && i < b.len() {
        if a[i] == b[i] {
            lemma_before_total(a, b, i + 1);
        }
    } else if i == a.len() && i == b.len() {
        assert(a =~= b);
    }
}

} // verus!
