//! Wording: what cutting, joining, trimming and replacing make of a text.

use vstd::prelude::*;

use crate::digest::{decimal, digits_value, hex, hex_bytes, hex_digit, hex_padded};
use crate::path::{absolute, components, file_name_of, joined_path, lies_in, parent_of, steps, tail_end};
use crate::text::{
    before, before_from, cut, cut_last, end_of_text, has_text, is_space, joined, last_position,
    lemma_before_irreflexive, lemma_before_transitive, lemma_end, lemma_end_text, lemma_joined_front,
    lemma_position_from, lemma_position_is, lemma_spaces, lemma_spaces_end, lines_in, occurs_from, pieces,
    position, replaced, run_end, run_from, spaces_from, trimmed, trimmed_start, without_return,
    without_surrounding, without_trailing, words, words_from,
};

verus! {

/// A text is cut where `c` first stands in it: what is before holds no `c`, and both sides
/// make up the text. It is not cut where `c` does not stand in it.
pub proof fn law_cut(s: Seq<char>, c: char)
    ensures
        cut(s, c) is Some <==> s.contains(c),
        cut(s, c) matches Some((a, b)) ==> s == a.push(c) + b && !a.contains(c),
{
    lemma_position_from(s, c, 0);
    let at = position(s, c);
    if at < s.len() {
        assert(s[at] == c);
        let a = s.subrange(0, at);
        let b = s.subrange(at + 1, s.len() as int);
        assert(s =~= a.push(c) + b);
    }
}

proof fn lemma_last_position(s: Seq<char>, c: char, n: int)
    requires
        0 <= n <= s.len(),
    ensures
        -1 <= last_position(s, c, n) < n,
        last_position(s, c, n) >= 0 ==> s[last_position(s, c, n)] == c,
        forall|j: int| last_position(s, c, n) < j < n ==> #[trigger] s[j] != c,
    decreases n,
{
    if n > 0 && s[n - 1] != c {
        lemma_last_position(s, c, n - 1);
    }
}

/// A text is cut from behind where `c` last stands in it: what is after holds no `c`, and
/// both sides make up the text.
pub proof fn law_cut_last(s: Seq<char>, c: char)
    ensures
        cut_last(s, c) is Some <==> s.contains(c),
        cut_last(s, c) matches Some((a, b)) ==> s == a.push(c) + b && !b.contains(c),
{
    let at = last_position(s, c, s.len() as int);
    lemma_last_position(s, c, s.len() as int);
    if at >= 0 {
        let a = s.subrange(0, at);
        let b = s.subrange(at + 1, s.len() as int);
        assert(s =~= a.push(c) + b);
        if b.contains(c) {
            let k = choose|k: int| 0 <= k < b.len() && b[k] == c;
            assert(s[at + 1 + k] == c);
        }
    }
}

/// The pieces of a text hold no `c`, and make up the text again where they are joined by it.
pub proof fn law_pieces(s: Seq<char>, c: char)
    ensures
        joined(pieces(s, c), seq![c]) == s,
        pieces(s, c).len() > 0,
        forall|k: int| 0 <= k < pieces(s, c).len() ==> !(#[trigger] pieces(s, c)[k]).contains(c),
    decreases s.len(),
{
    lemma_position_from(s, c, 0);
    let at = position(s, c);
    if at < s.len() {
        let first = s.subrange(0, at);
        let rest = s.subrange(at + 1, s.len() as int);
        law_pieces(rest, c);
        lemma_joined_front(first, pieces(rest, c), seq![c]);
        assert(s =~= first + seq![c] + rest);
        assert forall|k: int| 0 <= k < pieces(s, c).len() implies !(#[trigger] pieces(s, c)[k]).contains(c) by {
            if k > 0 {
                assert(pieces(s, c)[k] == pieces(rest, c)[k - 1]);
            }
        }
    } else {
        assert(pieces(s, c) =~= seq![s]);
    }
}

/// Whether a text is nothing but white space.
pub open spec fn all_space(s: Seq<char>) -> bool {
    forall|k: int| 0 <= k < s.len() ==> is_space(#[trigger] s[k])
}

proof fn lemma_leading(s: Seq<char>, i: int)
    requires
        0 <= i <= s.len(),
    ensures
        forall|k: int| i <= k < i + spaces_from(s, i) ==> is_space(#[trigger] s[k]),
    decreases s.len() - i,
{
    if i < s.len() && is_space(s[i]) {
        lemma_leading(s, i + 1);
    }
}

proof fn lemma_trailing(s: Seq<char>, n: int)
    requires
        0 <= n <= s.len(),
    ensures
        forall|k: int| end_of_text(s, n) <= k < n ==> is_space(#[trigger] s[k]),
    decreases n,
{
    if n > 0 && is_space(s[n - 1]) {
        lemma_trailing(s, n - 1);
    }
}

/// Trimming takes the white space off both ends of a text, all of it and nothing else; the
/// result is what it took off.
pub proof fn law_trimmed(s: Seq<char>) -> (off: (Seq<char>, Seq<char>))
    ensures
        s == off.0 + trimmed(s) + off.1,
        all_space(off.0),
        all_space(off.1),
        trimmed(s).len() > 0 ==> !is_space(trimmed(s)[0]) && !is_space(trimmed(s).last()),
{
    let n = spaces_from(s, 0);
    let t = trimmed_start(s);
    lemma_spaces(s, 0);
    lemma_spaces_end(s, 0);
    lemma_leading(s, 0);
    let m = end_of_text(t, t.len() as int);
    lemma_end(t, t.len() as int);
    lemma_end_text(t, t.len() as int);
    lemma_trailing(t, t.len() as int);
    let off = (s.take(n), t.subrange(m, t.len() as int));
    assert(s =~= off.0 + trimmed(s) + off.1);
    if trimmed(s).len() > 0 {
        assert(trimmed(s)[0] == t[0]);
        assert(trimmed(s).last() == t[m - 1]);
    }
    off
}

/// Whether a text is nothing but `c`.
pub open spec fn only(s: Seq<char>, c: char) -> bool {
    forall|k: int| 0 <= k < s.len() ==> #[trigger] s[k] == c
}

proof fn lemma_run_end(s: Seq<char>, c: char, n: int)
    requires
        0 <= n <= s.len(),
    ensures
        0 <= run_end(s, c, n) <= n,
        forall|k: int| run_end(s, c, n) <= k < n ==> #[trigger] s[k] == c,
        run_end(s, c, n) > 0 ==> s[run_end(s, c, n) - 1] != c,
    decreases n,
{
    if n > 0 && s[n - 1] == c {
        lemma_run_end(s, c, n - 1);
    }
}

proof fn lemma_run_from(s: Seq<char>, c: char, i: int)
    requires
        0 <= i <= s.len(),
    ensures
        0 <= run_from(s, c, i) <= s.len() - i,
        forall|k: int| i <= k < i + run_from(s, c, i) ==> #[trigger] s[k] == c,
        i + run_from(s, c, i) < s.len() ==> s[i + run_from(s, c, i)] != c,
    decreases s.len() - i,
{
    if i < s.len() && s[i] == c {
        lemma_run_from(s, c, i + 1);
    }
}

/// What is left without the `c` at the end does not end with `c`, and only `c` is gone.
pub proof fn law_without_trailing(s: Seq<char>, c: char) -> (off: Seq<char>)
    ensures
        s == without_trailing(s, c) + off,
        only(off, c),
        without_trailing(s, c).len() > 0 ==> without_trailing(s, c).last() != c,
{
    lemma_run_end(s, c, s.len() as int);
    let off = s.subrange(run_end(s, c, s.len() as int), s.len() as int);
    assert(s =~= without_trailing(s, c) + off);
    off
}

/// What is left without the `c` around it neither begins nor ends with `c`, and only `c` is
/// gone.
pub proof fn law_without_surrounding(s: Seq<char>, c: char) -> (off: (Seq<char>, Seq<char>))
    ensures
        s == off.0 + without_surrounding(s, c) + off.1,
        only(off.0, c),
        only(off.1, c),
        without_surrounding(s, c).len() > 0 ==> without_surrounding(s, c)[0] != c && without_surrounding(s, c).last() != c,
{
    lemma_run_from(s, c, 0);
    let n = run_from(s, c, 0);
    let t = s.subrange(n, s.len() as int);
    let behind = law_without_trailing(t, c);
    let off = (s.take(n), behind);
    assert(s =~= off.0 + t);
    assert(off.0 + (without_surrounding(s, c) + behind) =~= off.0 + without_surrounding(s, c) + off.1);
    if without_surrounding(s, c).len() > 0 {
        assert(without_surrounding(s, c)[0] == t[0]);
    }
    off
}

proof fn lemma_occurs(s: Seq<char>, part: Seq<char>, i: int, a: Seq<char>, b: Seq<char>)
    requires
        s == a + part + b,
        0 <= i <= a.len(),
    ensures
        occurs_from(s, part, i),
    decreases a.len() - i,
{
    if i == a.len() {
        assert(s.subrange(i, i + part.len()) =~= part);
    } else {
        lemma_occurs(s, part, i + 1, a, b);
    }
}

proof fn lemma_occurring(s: Seq<char>, part: Seq<char>, i: int) -> (around: (Seq<char>, Seq<char>))
    requires
        0 <= i,
        occurs_from(s, part, i),
    ensures
        s == around.0 + part + around.1,
    decreases s.len() + 1 - i,
{
    if s.subrange(i, i + part.len()) == part {
        let around = (s.take(i), s.skip(i + part.len()));
        assert(s =~= around.0 + part + around.1);
        around
    } else {
        lemma_occurring(s, part, i + 1)
    }
}

/// A text holds another exactly where it is made up of it and of what stands around it.
pub proof fn law_has_text(s: Seq<char>, part: Seq<char>)
    ensures
        has_text(s, part) <==> exists|a: Seq<char>, b: Seq<char>| s == #[trigger] (a + part + b),
{
    if has_text(s, part) {
        let around = lemma_occurring(s, part, 0);
        assert(s == around.0 + part + around.1);
    }
    if exists|a: Seq<char>, b: Seq<char>| s == #[trigger] (a + part + b) {
        let (a, b) = choose|a: Seq<char>, b: Seq<char>| s == #[trigger] (a + part + b);
        lemma_occurs(s, part, 0, a, b);
    }
}

proof fn lemma_words_apart(a: Seq<char>, c: char, b: Seq<char>, start: int, i: int)
    requires
        is_space(c),
        0 <= start <= i <= a.len(),
    ensures
        ({
            let next = a.len() as int + 1;
            words_from(a.push(c) + b, start, i) == words_from(a, start, i) + words_from(a.push(c) + b, next, next)
        }),
    decreases a.len() - i,
{
    let s = a.push(c) + b;
    assert(s.subrange(start, i) =~= a.subrange(start, i));
    let rest = words_from(s, a.len() as int + 1, a.len() as int + 1);
    if i == a.len() {
        assert(s[i] == c);
        assert(words_from(s, start, i) =~= words_from(a, start, i) + rest);
    } else {
        assert(s[i] == a[i]);
        if is_space(a[i]) {
            lemma_words_apart(a, c, b, i + 1, i + 1);
            assert(words_from(s, start, i) =~= words_from(a, start, i) + rest);
        } else {
            lemma_words_apart(a, c, b, start, i + 1);
        }
    }
}

proof fn lemma_words_behind(a: Seq<char>, b: Seq<char>, start: int, i: int)
    requires
        0 <= start <= i <= b.len(),
    ensures
        words_from(a + b, a.len() + start, a.len() + i) == words_from(b, start, i),
    decreases b.len() - i,
{
    let s = a + b;
    assert(s.subrange(a.len() + start, a.len() + i) =~= b.subrange(start, i));
    if i < b.len() {
        assert(s[a.len() + i] == b[i]);
        if is_space(b[i]) {
            lemma_words_behind(a, b, i + 1, i + 1);
        } else {
            lemma_words_behind(a, b, start, i + 1);
        }
    }
}

/// White space parts words: the words of a text are those before it and those behind it.
pub proof fn law_words_apart(a: Seq<char>, c: char, b: Seq<char>)
    requires
        is_space(c),
    ensures
        words(a.push(c) + b) == words(a) + words(b),
{
    lemma_words_apart(a, c, b, 0, 0);
    lemma_words_behind(a.push(c), b, 0, 0);
}

proof fn lemma_one_word(s: Seq<char>, i: int)
    requires
        0 <= i <= s.len(),
        0 < s.len(),
        forall|k: int| 0 <= k < s.len() ==> !is_space(#[trigger] s[k]),
    ensures
        words_from(s, 0, i) == seq![s],
    decreases s.len() - i,
{
    if i < s.len() {
        lemma_one_word(s, i + 1);
    } else {
        assert(s.subrange(0, i) =~= s);
    }
}

/// A text without white space is one word, and the empty text has none.
pub proof fn law_one_word(s: Seq<char>)
    requires
        forall|k: int| 0 <= k < s.len() ==> !is_space(#[trigger] s[k]),
    ensures
        words(s) == if s.len() == 0 {
            Seq::<Seq<char>>::empty()
        } else {
            seq![s]
        },
{
    if s.len() > 0 {
        lemma_one_word(s, 0);
    }
}

/// What is replaced in a text is replaced in its parts, and a character is replaced exactly
/// where it is the one sought.
pub proof fn law_replaced(a: Seq<char>, b: Seq<char>, c: char, sought: char, by: Seq<char>)
    ensures
        replaced(a + b, sought, by) == replaced(a, sought, by) + replaced(b, sought, by),
        replaced(seq![c], sought, by) == if c == sought {
            by
        } else {
            seq![c]
        },
        replaced(Seq::empty(), sought, by) == Seq::<char>::empty(),
    decreases b.len(),
{
    assert(seq![c].drop_last() =~= Seq::empty());
    assert(replaced(Seq::empty(), sought, by) =~= Seq::<char>::empty());
    assert(replaced(seq![c], sought, by) =~= if c == sought {
        by
    } else {
        seq![c]
    });
    if b.len() == 0 {
        assert(a + b =~= a);
        assert(replaced(a + b, sought, by) =~= replaced(a, sought, by) + replaced(b, sought, by));
    } else {
        law_replaced(a, b.drop_last(), c, sought, by);
        assert((a + b).drop_last() =~= a + b.drop_last());
        assert(replaced(a + b, sought, by) =~= replaced(a, sought, by) + replaced(b, sought, by));
    }
}

/// A line feed ends a line, without the carriage return before it; what follows are the
/// further lines.
pub proof fn law_line_ended(line: Seq<char>, rest: Seq<char>)
    requires
        !line.contains('\n'),
    ensures
        lines_in(line.push('\n') + rest) == seq![without_return(line)] + lines_in(rest),
{
    let s = line.push('\n') + rest;
    law_pieces(rest, '\n');
    lemma_position_is(s, '\n', 0, line.len() as int);
    assert(s.subrange(0, line.len() as int) =~= line);
    assert(s.subrange(line.len() as int + 1, s.len() as int) =~= rest);
    let further = pieces(rest, '\n');
    assert(pieces(s, '\n') == seq![line] + further);
    assert((seq![line] + further).last() == further.last());
    assert((seq![line] + further).drop_last() =~= seq![line] + further.drop_last());
    assert(lines_in(s) =~= seq![without_return(line)] + lines_in(rest));
}

/// A text without a line feed is one line, and the empty text has none.
pub proof fn law_last_line(line: Seq<char>)
    requires
        !line.contains('\n'),
    ensures
        lines_in(line) == if line.len() == 0 {
            Seq::<Seq<char>>::empty()
        } else {
            seq![line]
        },
{
    lemma_position_is(line, '\n', 0, line.len() as int);
    assert(pieces(line, '\n') =~= seq![line]);
    assert(pieces(line, '\n').drop_last() =~= Seq::empty());
    assert(lines_in(line) =~= if line.len() == 0 {
        Seq::<Seq<char>>::empty()
    } else {
        seq![line]
    });
}

proof fn lemma_before_at(a: Seq<char>, b: Seq<char>, i: int, at: int)
    requires
        0 <= i <= at <= a.len(),
        at < b.len(),
        at < a.len() ==> a[at] < b[at],
        forall|k: int| 0 <= k < at ==> a[k] == b[k],
    ensures
        before_from(a, b, i),
    decreases at - i,
{
    if i < at {
        lemma_before_at(a, b, i + 1, at);
    }
}

/// A text comes before another where it is the shorter beginning of it, or has the smaller
/// character at the first place where they differ.
pub proof fn law_before(a: Seq<char>, b: Seq<char>, at: int)
    requires
        0 <= at <= a.len(),
        at < b.len(),
        at < a.len() ==> a[at] < b[at],
        forall|k: int| 0 <= k < at ==> a[k] == b[k],
    ensures
        before(a, b),
        !before(b, a),
{
    lemma_before_at(a, b, 0, at);
    if before(b, a) {
        lemma_before_transitive(a, b, a, 0);
        lemma_before_irreflexive(a, 0);
    }
}

/// The number that a hexadecimal digit is.
pub open spec fn hex_value(c: char) -> int {
    if '0' <= c <= '9' {
        c as int - '0' as int
    } else {
        c as int - 'a' as int + 10
    }
}

/// The number that a text of hexadecimal digits is.
pub open spec fn hex_number(s: Seq<char>) -> int
    decreases s.len(),
{
    if s.len() == 0 {
        0
    } else {
        hex_number(s.drop_last()) * 16 + hex_value(s.last())
    }
}

/// A number in hexadecimal is read as the number again, and has no leading zero.
pub proof fn law_hex(n: int)
    requires
        0 <= n,
    ensures
        hex_number(hex(n)) == n,
        hex(n).len() > 0,
        hex(n)[0] == '0' ==> n == 0,
    decreases n,
{
    reveal_with_fuel(hex_number, 2);
    if n < 16 {
        assert(hex(n).drop_last() =~= Seq::empty());
    } else {
        law_hex(n / 16);
        assert(hex(n).drop_last() =~= hex(n / 16));
        assert(hex(n)[0] == hex(n / 16)[0]);
    }
}

/// A number that is padded in hexadecimal has as many digits as are asked for, and is read as
/// the number again where it has no more.
pub proof fn law_hex_padded(n: int, width: nat)
    requires
        0 <= n,
    ensures
        hex_padded(n, width).len() == width,
        n < vstd::arithmetic::power::pow(16, width) ==> hex_number(hex_padded(n, width)) == n,
    decreases width,
{
    vstd::arithmetic::power::lemma_pow0(16);
    if width > 0 {
        let less = (width - 1) as nat;
        law_hex_padded(n / 16, less);
        assert(hex_padded(n, width).drop_last() =~= hex_padded(n / 16, less));
        assert(vstd::arithmetic::power::pow(16, width) == 16 * vstd::arithmetic::power::pow(16, less)) by {
            reveal(vstd::arithmetic::power::pow);
        }
    }
}

/// Bytes in hexadecimal take two digits each, in their order.
pub proof fn law_hex_bytes(bytes: Seq<u8>, k: int)
    requires
        0 <= k < bytes.len(),
    ensures
        hex_bytes(bytes).len() == 2 * bytes.len(),
        hex_value(hex_bytes(bytes)[2 * k]) == bytes[k] / 16,
        hex_value(hex_bytes(bytes)[2 * k + 1]) == bytes[k] % 16,
    decreases bytes.len(),
{
    reveal_with_fuel(hex_padded, 3);
    let last = bytes.last() as int;
    assert(hex_padded(last, 2) =~= seq![hex_digit(last / 16 % 16), hex_digit(last % 16)]);
    if bytes.len() == 1 {
        assert(bytes.drop_last() =~= Seq::empty());
        assert(hex_bytes(bytes) =~= hex_padded(last, 2));
    } else if k < bytes.len() - 1 {
        law_hex_bytes(bytes.drop_last(), k);
    } else {
        law_hex_bytes(bytes.drop_last(), 0);
    }
}

/// A number in decimal is read as the number again.
pub proof fn law_decimal(n: int)
    requires
        0 <= n,
    ensures
        digits_value(decimal(n)) == n,
        decimal(n).len() > 0,
        decimal(n)[0] == '0' ==> n == 0,
    decreases n,
{
    reveal_with_fuel(digits_value, 2);
    if n < 10 {
        assert(decimal(n).drop_last() =~= Seq::empty());
    } else {
        law_decimal(n / 10);
        assert(decimal(n).drop_last() =~= decimal(n / 10));
        assert(decimal(n)[0] == decimal(n / 10)[0]);
    }
}

proof fn lemma_pieces_apart(a: Seq<char>, c: char, b: Seq<char>)
    ensures
        pieces(a.push(c) + b, c) == pieces(a, c) + pieces(b, c),
    decreases a.len(),
{
    let s = a.push(c) + b;
    lemma_position_from(a, c, 0);
    let at = position(a, c);
    if at < a.len() {
        let rest = a.subrange(at + 1, a.len() as int);
        lemma_position_is(s, c, 0, at);
        lemma_pieces_apart(rest, c, b);
        assert(s.subrange(0, at) =~= a.subrange(0, at));
        assert(s.subrange(at + 1, s.len() as int) =~= rest.push(c) + b);
        assert(pieces(s, c) =~= pieces(a, c) + pieces(b, c));
    } else {
        lemma_position_is(s, c, 0, a.len() as int);
        assert(s.subrange(0, a.len() as int) =~= a);
        assert(s.subrange(a.len() as int + 1, s.len() as int) =~= b);
        assert(pieces(s, c) =~= pieces(a, c) + pieces(b, c));
    }
}

proof fn lemma_steps_apart(a: Seq<Seq<char>>, b: Seq<Seq<char>>)
    ensures
        steps(a + b) == steps(a) + steps(b),
    decreases b.len(),
{
    if b.len() == 0 {
        assert(a + b =~= a);
        assert(steps(a + b) =~= steps(a) + steps(b));
    } else {
        lemma_steps_apart(a, b.drop_last());
        assert((a + b).drop_last() =~= a + b.drop_last());
        assert(steps(a + b) =~= steps(a) + steps(b));
    }
}

/// A path below a directory goes the directory's steps and then its own, and lies in the
/// directory; an absolute path goes only its own.
pub proof fn law_joined_path(base: Seq<char>, path: Seq<char>)
    ensures
        absolute(path) ==> joined_path(base, path) == path,
        base.len() > 0 && !absolute(path) ==> {
            &&& components(joined_path(base, path)) == components(base) + steps(pieces(path, '/'))
            &&& lies_in(joined_path(base, path), base)
        },
{
    if base.len() > 0 && !absolute(path) {
        reveal_strlit("/");
        reveal_strlit("");
        reveal_strlit(".");
        reveal_strlit("..");
        let whole = joined_path(base, path);
        if base.last() == '/' {
            let a = base.drop_last();
            assert(base =~= a.push('/') + Seq::empty());
            assert(whole =~= a.push('/') + path);
            lemma_pieces_apart(a, '/', path);
            lemma_pieces_apart(a, '/', Seq::empty());
            assert(pieces(Seq::empty(), '/') =~= seq![Seq::<char>::empty()]);
            lemma_steps_apart(pieces(a, '/'), pieces(path, '/'));
            lemma_steps_apart(pieces(a, '/'), pieces(Seq::empty(), '/'));
            assert(Seq::<char>::empty() =~= ""@);
            let none = seq![Seq::<char>::empty()];
            assert(none.last() == ""@);
            assert(none.drop_last() =~= Seq::empty());
            assert(steps(none) == steps(none.drop_last()));
            assert(steps(none.drop_last()) =~= Seq::empty());
            law_pieces(a, '/');
            assert(steps(pieces(base, '/')) =~= steps(pieces(a, '/')));
        } else {
            assert(whole =~= base.push('/') + path);
            lemma_pieces_apart(base, '/', path);
            lemma_steps_apart(pieces(base, '/'), pieces(path, '/'));
            law_pieces(base, '/');
        }
        assert(whole[0] == base[0]);
        assert(pieces(whole, '/')[0] == pieces(base, '/')[0]);
        assert(components(whole) =~= components(base) + steps(pieces(path, '/')));
        assert(components(whole).take(components(base).len() as int) =~= components(base));
    }
}

/// A name that stands last in a path is the file name of the path, and the directory before
/// it is where the file is.
pub proof fn law_file_in(dir: Seq<char>, name: Seq<char>)
    requires
        !name.contains('/'),
        name != ""@,
        name != "."@,
        name != ".."@,
        dir.len() > 0,
        dir.last() != '/',
        !(dir.len() > 1 && dir.last() == '.' && dir[dir.len() - 2] == '/'),
    ensures
        file_name_of(dir.push('/') + name) == Some(name),
        parent_of(dir.push('/') + name) == Some(dir),
{
    reveal_strlit("");
    reveal_strlit(".");
    let path = dir.push('/') + name;
    let n = path.len() as int;
    assert(name.len() > 0) by {
        if name.len() == 0 {
            assert(name =~= ""@);
        }
    }
    assert(path[n - 1] == name.last());
    assert(name.contains(name.last()));
    if name.last() == '.' && path[n - 2] == '/' {
        if name.len() > 1 {
            assert(path[n - 2] == name[name.len() - 2]);
            assert(name.contains('/'));
        } else {
            assert(name =~= "."@);
        }
    }
    assert(tail_end(path, n) == n);
    lemma_last_position(path, '/', n);
    let at = last_position(path, '/', n);
    assert(path[dir.len() as int] == '/');
    if at > dir.len() {
        assert(path[at] == name[at - dir.len() - 1]);
        assert(name.contains('/'));
    }
    assert(at == dir.len());
    assert(path.subrange(at + 1, n) =~= name);
    assert(path[at - 1] == dir.last());
    if at > 1 {
        assert(path[at - 2] == dir[at - 2]);
    }
    assert(tail_end(path, at + 1) == tail_end(path, at));
    assert(tail_end(path, at) == at);
    assert(path.subrange(0, at) =~= dir);
}

} // verus!
