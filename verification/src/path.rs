//! Paths, as texts with `/` between their parts.

use vstd::prelude::*;

use crate::text::{
    cat2, cat3, chars_of, keep, last_position, lemma_pieces_behind, lemma_position_from, lemma_position_shift, pieces,
    position, position_from, same, seek, split, text_of,
};

verus! {

pub enum Part {
    Root,
    Current,
    Parent,
    Name(String),
}

/// What a `Part` is.
#[verifier::ext_equal]
pub enum Step {
    Root,
    Current,
    Parent,
    Name(Seq<char>),
}

impl DeepView for Part {
    type V = Step;

    open spec fn deep_view(&self) -> Step {
        match self {
            Part::Root => Step::Root,
            Part::Current => Step::Current,
            Part::Parent => Step::Parent,
            Part::Name(name) => Step::Name(name@),
        }
    }
}

/// The steps that the pieces of a path are: empty ones and `.` are none.
pub open spec fn steps(parts: Seq<Seq<char>>) -> Seq<Step>
    decreases parts.len(),
{
    if parts.len() == 0 {
        Seq::empty()
    } else {
        let before = steps(parts.drop_last());
        if parts.last() == ""@ || parts.last() == "."@ {
            before
        } else if parts.last() == ".."@ {
            before.push(Step::Parent)
        } else {
            before.push(Step::Name(parts.last()))
        }
    }
}

/// The components of a path: the root where it is absolute, the current
/// directory where it begins with `.`, then its steps.
pub open spec fn components(path: Seq<char>) -> Seq<Step> {
    let parts = pieces(path, '/');
    let start = if absolute(path) {
        seq![Step::Root]
    } else if parts.len() > 0 && parts[0] == "."@ {
        seq![Step::Current]
    } else {
        Seq::empty()
    };
    start + steps(parts)
}

pub open spec fn absolute(path: Seq<char>) -> bool {
    path.len() > 0 && path[0] == '/'
}

pub fn is_absolute(path: &str) -> (r: bool)
    ensures
        r == absolute(path@),
{
    let chars = chars_of(path);
    chars.len() > 0 && chars[0] == '/'
}

pub fn parts_of(path: &str) -> (r: Vec<Part>)
    ensures
        r.deep_view() == components(path@),
{
    let pieces_of_path = split(path, '/');
    let ghost parts = pieces_of_path.deep_view();
    let mut out: Vec<Part> = Vec::new();
    assert(out.deep_view() == Seq::<Step>::empty());
    if is_absolute(path) {
        keep(&mut out, Part::Root);
    } else if pieces_of_path.len() > 0 && same(pieces_of_path[0].as_str(), ".") {
        keep(&mut out, Part::Current);
    }
    let ghost start = out.deep_view();
    assert(start == (if absolute(path@) {
        seq![Step::Root]
    } else if parts.len() > 0 && parts[0] == "."@ {
        seq![Step::Current]
    } else {
        Seq::empty()
    }));
    let mut i: usize = 0;
    assert(start + steps(parts.take(0)) == start);
    while i < pieces_of_path.len()
        invariant
            i <= pieces_of_path.len(),
            parts == pieces_of_path.deep_view(),
            out.deep_view() == start + steps(parts.take(i as int)),
        decreases pieces_of_path.len() - i,
    {
        assert(parts.take(i + 1).drop_last() == parts.take(i as int));
        let piece = pieces_of_path[i].as_str();
        if same(piece, "") || same(piece, ".") {
        } else if same(piece, "..") {
            keep(&mut out, Part::Parent);
        } else {
            keep(&mut out, Part::Name(pieces_of_path[i].clone()));
        }
        i = i + 1;
        assert(out.deep_view() == start + steps(parts.take(i as int)));
    }
    assert(parts.take(parts.len() as int) == parts);
    out
}

/// `path` below `base`: `path` itself where it is absolute.
pub open spec fn joined_path(base: Seq<char>, path: Seq<char>) -> Seq<char> {
    if absolute(path) || base.len() == 0 {
        path
    } else if base.last() == '/' {
        base + path
    } else {
        base + "/"@ + path
    }
}

pub fn join_path(base: &str, path: &str) -> (r: String)
    ensures
        r@ == joined_path(base@, path@),
{
    let chars = chars_of(base);
    if is_absolute(path) || chars.len() == 0 {
        path.to_owned()
    } else if chars[chars.len() - 1] == '/' {
        cat2(base, path)
    } else {
        cat3(base, "/", path)
    }
}

/// The length of `path[..n]` without trailing `/` and `/.`; a `/` at the
/// start stays.
pub open spec fn tail_end(path: Seq<char>, n: int) -> int
    decreases n,
{
    if n > 1 && path[n - 1] == '/' {
        tail_end(path, n - 1)
    } else if n > 1 && path[n - 1] == '.' && path[n - 2] == '/' {
        tail_end(path, n - 1)
    } else {
        n
    }
}

/// The directory that holds the last component of `path`.
pub open spec fn parent_of(path: Seq<char>) -> Option<Seq<char>> {
    let n = tail_end(path, path.len() as int);
    if n == 0 || (n == 1 && path[0] == '/') {
        None
    } else {
        Some(path.subrange(0, tail_end(path, last_position(path, '/', n) + 1)))
    }
}

proof fn lemma_tail_end(path: Seq<char>, n: int)
    requires
        0 <= n <= path.len(),
    ensures
        0 <= tail_end(path, n) <= n,
    decreases n,
{
    if n > 1 && (path[n - 1] == '/' || (path[n - 1] == '.' && path[n - 2] == '/')) {
        lemma_tail_end(path, n - 1);
    }
}

fn end_of(chars: &Vec<char>, from: usize) -> (r: usize)
    requires
        from <= chars@.len(),
    ensures
        r == tail_end(chars@, from as int),
        r <= from,
{
    let mut n: usize = from;
    while n > 1 && (chars[n - 1] == '/' || (chars[n - 1] == '.' && chars[n - 2] == '/'))
        invariant
            n <= from <= chars@.len(),
            tail_end(chars@, from as int) == tail_end(chars@, n as int),
        decreases n,
    {
        n = n - 1;
    }
    n
}

/// One more than the last position of `/` among the first `n` characters; 0
/// where there is none.
fn after_slash(chars: &Vec<char>, from: usize) -> (r: usize)
    requires
        from <= chars@.len(),
    ensures
        r == last_position(chars@, '/', from as int) + 1,
        r <= from,
{
    let mut n: usize = from;
    while n > 0 && chars[n - 1] != '/'
        invariant
            n <= from <= chars@.len(),
            last_position(chars@, '/', from as int) == last_position(chars@, '/', n as int),
        decreases n,
    {
        n = n - 1;
    }
    n
}

pub fn parent(path: &str) -> (r: Option<String>)
    ensures
        r.deep_view() == parent_of(path@),
{
    let chars = chars_of(path);
    let n: usize = end_of(&chars, chars.len());
    if n == 0 || (n == 1 && chars[0] == '/') {
        None
    } else {
        let at: usize = after_slash(&chars, n);
        let to: usize = end_of(&chars, at);
        Some(text_of(&chars, 0, to))
    }
}

proof fn lemma_no_slash_at_end(path: Seq<char>, n: int)
    requires
        0 <= n <= path.len(),
    ensures
        tail_end(path, n) > 1 ==> path[tail_end(path, n) - 1] != '/',
    decreases n,
{
    if n > 1 && (path[n - 1] == '/' || (path[n - 1] == '.' && path[n - 2] == '/')) {
        lemma_no_slash_at_end(path, n - 1);
    }
}

proof fn lemma_last_position(path: Seq<char>, c: char, n: int)
    requires
        0 <= n <= path.len(),
    ensures
        -1 <= last_position(path, c, n) < n,
        last_position(path, c, n) >= 0 ==> path[last_position(path, c, n)] == c,
    decreases n,
{
    if n > 0 && path[n - 1] != c {
        lemma_last_position(path, c, n - 1);
    }
}

/// The directory of a path is a shorter path.
pub proof fn lemma_parent_shorter(path: Seq<char>)
    ensures
        parent_of(path) matches Some(dir) ==> dir.len() < path.len(),
{
    let n = tail_end(path, path.len() as int);
    lemma_tail_end(path, path.len() as int);
    lemma_no_slash_at_end(path, path.len() as int);
    lemma_last_position(path, '/', n);
    if parent_of(path) is Some {
        lemma_tail_end(path, last_position(path, '/', n) + 1);
    }
}

/// The last component of `path`, where it is a name.
pub open spec fn file_name_of(path: Seq<char>) -> Option<Seq<char>> {
    let n = tail_end(path, path.len() as int);
    let name = path.subrange(last_position(path, '/', n) + 1, n);
    if name == ""@ || name == "."@ || name == ".."@ {
        None
    } else {
        Some(name)
    }
}

pub fn file_name(path: &str) -> (r: Option<String>)
    ensures
        r.deep_view() == file_name_of(path@),
{
    let chars = chars_of(path);
    let n: usize = end_of(&chars, chars.len());
    let name = text_of(&chars, after_slash(&chars, n), n);
    if same(name.as_str(), "") || same(name.as_str(), ".") || same(name.as_str(), "..") {
        None
    } else {
        Some(name)
    }
}

/// Whether `path` is `dir` or lies below it.
pub open spec fn lies_in(path: Seq<char>, dir: Seq<char>) -> bool {
    components(dir).len() <= components(path).len() && components(path).take(components(dir).len() as int)
        == components(dir)
}

pub fn same_part(a: &Part, b: &Part) -> (r: bool)
    ensures
        r == (a.deep_view() == b.deep_view()),
{
    match (a, b) {
        (Part::Root, Part::Root) => true,
        (Part::Current, Part::Current) => true,
        (Part::Parent, Part::Parent) => true,
        (Part::Name(x), Part::Name(y)) => same(x.as_str(), y.as_str()),
        _ => false,
    }
}

pub fn starts_with(path: &str, dir: &str) -> (r: bool)
    ensures
        r == lies_in(path@, dir@),
{
    let whole = parts_of(path);
    let head = parts_of(dir);
    if head.len() > whole.len() {
        return false;
    }
    let mut i: usize = 0;
    while i < head.len()
        invariant
            i <= head.len() <= whole.len(),
            whole.deep_view() == components(path@),
            head.deep_view() == components(dir@),
            forall|j: int| 0 <= j < i ==> whole.deep_view()[j] == head.deep_view()[j],
        decreases head.len() - i,
    {
        if !same_part(&whole[i], &head[i]) {
            assert(components(path@).take(components(dir@).len() as int)[i as int] != components(dir@)[i as int]);
            return false;
        }
        i = i + 1;
    }
    assert(components(path@).take(components(dir@).len() as int) == components(dir@));
    true
}

/// Whether a part of a path is no step: the empty one, and `.`.
pub open spec fn idle(part: Seq<char>) -> bool {
    part == ""@ || part == "."@
}

/// Where the first step of `path` at or after `at` begins; the length of `path` where
/// there is none.
pub open spec fn step_from(path: Seq<char>, at: int) -> int
    decreases path.len() - at,
{
    let end = position_from(path, '/', at);
    if at >= path.len() {
        path.len() as int
    } else if !idle(path.subrange(at, end)) {
        at
    } else if at <= end < path.len() {
        step_from(path, end + 1)
    } else {
        path.len() as int
    }
}

/// Where the first `n` steps of `path` at or after `at` end.
pub open spec fn steps_end(path: Seq<char>, at: int, n: nat) -> int
    decreases n,
{
    if n == 0 {
        at
    } else {
        steps_end(path, position_from(path, '/', step_from(path, at)), (n - 1) as nat)
    }
}

/// Whether a path begins with the root or with the current directory.
pub open spec fn anchored(path: Seq<char>) -> bool {
    absolute(path) || pieces(path, '/')[0] == "."@
}

/// What is left of `path` without its first `n` components, from its next step to its
/// last.
pub open spec fn path_without(path: Seq<char>, n: nat) -> Seq<char> {
    let from = if n == 0 {
        0
    } else if anchored(path) {
        step_from(path, steps_end(path, 1, (n - 1) as nat))
    } else {
        step_from(path, steps_end(path, 0, n))
    };
    let rest = path.subrange(from, path.len() as int);
    rest.subrange(0, tail_end(rest, rest.len() as int))
}

/// The path of `path` below `base`, where it is `base` or lies below it.
pub open spec fn relative(path: Seq<char>, base: Seq<char>) -> Option<Seq<char>> {
    if lies_in(path, base) {
        Some(path_without(path, components(base).len()))
    } else {
        None
    }
}

fn next_step(chars: &Vec<char>, from: usize) -> (r: usize)
    requires
        from <= chars@.len(),
    ensures
        r == step_from(chars@, from as int),
        from <= r <= chars@.len(),
{
    let mut at: usize = from;
    while at < chars.len()
        invariant
            from <= at <= chars@.len(),
            step_from(chars@, from as int) == step_from(chars@, at as int),
        decreases chars.len() - at,
    {
        let end: usize = seek(chars, '/', at);
        let part = text_of(chars, at, end);
        if !same(part.as_str(), "") && !same(part.as_str(), ".") {
            return at;
        }
        if end == chars.len() {
            return end;
        }
        at = end + 1;
    }
    at
}

pub fn strip_path(path: &str, base: &str) -> (r: Option<String>)
    ensures
        r.deep_view() == relative(path@, base@),
{
    if !starts_with(path, base) {
        return None;
    }
    let n: usize = parts_of(base).len();
    let chars = chars_of(path);
    let first = split(path, '/');
    assert(first.deep_view()[0] == first@[0]@);
    let mut at: usize = 0;
    let mut left: usize = n;
    proof {
        lemma_anchored(path@);
    }
    if n > 0 {
        if is_absolute(path) || same(first[0].as_str(), ".") {
            at = 1;
            left = n - 1;
        }
        let ghost start = at as int;
        let ghost all = left as nat;
        while left > 0
            invariant
                at <= chars@.len(),
                chars@ == path@,
                steps_end(path@, start, all) == steps_end(path@, at as int, left as nat),
            decreases left,
        {
            let step: usize = next_step(&chars, at);
            at = seek(&chars, '/', step);
            left = left - 1;
        }
        at = next_step(&chars, at);
    }
    let rest = text_of(&chars, at, chars.len());
    let tail = chars_of(rest.as_str());
    let end: usize = end_of(&tail, tail.len());
    Some(text_of(&tail, 0, end))
}

proof fn lemma_anchored(path: Seq<char>)
    ensures
        pieces(path, '/').len() > 0,
        anchored(path) ==> path.len() > 0,
{
    reveal_strlit(".");
    lemma_position_from(path, '/', 0);
    if path.len() == 0 {
        assert(pieces(path, '/')[0] =~= path);
    }
}

/// The step that a part of a path is, where it is one.
spec fn step_of(part: Seq<char>) -> Seq<Step> {
    if idle(part) {
        Seq::empty()
    } else if part == ".."@ {
        seq![Step::Parent]
    } else {
        seq![Step::Name(part)]
    }
}

/// The steps of `path` from `at` on.
spec fn steps_from(path: Seq<char>, at: int) -> Seq<Step> {
    steps(pieces(path.subrange(at, path.len() as int), '/'))
}

proof fn lemma_first_step(part: Seq<char>, rest: Seq<Seq<char>>)
    ensures
        steps(seq![part] + rest) == step_of(part) + steps(rest),
    decreases rest.len(),
{
    let all = seq![part] + rest;
    if rest.len() == 0 {
        assert(all.drop_last() =~= Seq::empty());
        assert(steps(all.drop_last()) =~= Seq::empty());
        assert(steps(all) =~= step_of(part) + steps(rest));
    } else {
        assert(all.drop_last() =~= seq![part] + rest.drop_last());
        lemma_first_step(part, rest.drop_last());
        assert(steps(all) =~= step_of(part) + steps(rest));
    }
}

/// The steps from a position on are the one there and those behind it.
proof fn lemma_steps_from(path: Seq<char>, at: int)
    requires
        0 <= at <= path.len(),
    ensures
        ({
            let end = position_from(path, '/', at);
            &&& at <= end <= path.len()
            &&& steps_from(path, at) == step_of(path.subrange(at, end)) + if end < path.len() {
                steps_from(path, end + 1)
            } else {
                Seq::empty()
            }
        }),
{
    let tail = path.subrange(at, path.len() as int);
    let end = position_from(path, '/', at);
    lemma_position_from(path, '/', at);
    lemma_position_shift(path, '/', at, at);
    assert(position(tail, '/') == end - at);
    if end < path.len() {
        assert(tail.subrange(0, end - at) =~= path.subrange(at, end));
        assert(tail.subrange(end - at + 1, tail.len() as int) =~= path.subrange(end + 1, path.len() as int));
        lemma_first_step(path.subrange(at, end), pieces(path.subrange(end + 1, path.len() as int), '/'));
    } else {
        assert(tail =~= path.subrange(at, end));
        assert(pieces(tail, '/') =~= seq![tail] + Seq::<Seq<char>>::empty());
        lemma_first_step(tail, Seq::empty());
    }
}

/// Going to the next step passes none.
proof fn lemma_step_from(path: Seq<char>, at: int)
    requires
        0 <= at <= path.len(),
    ensures
        at <= step_from(path, at) <= path.len(),
        steps_from(path, step_from(path, at)) == steps_from(path, at),
        step_from(path, at) < path.len() ==> !idle(
            path.subrange(step_from(path, at), position_from(path, '/', step_from(path, at))),
        ),
    decreases path.len() - at,
{
    let end = position_from(path, '/', at);
    lemma_steps_from(path, at);
    if at < path.len() && idle(path.subrange(at, end)) {
        if end < path.len() {
            lemma_step_from(path, end + 1);
            assert(steps_from(path, at) =~= steps_from(path, end + 1));
        } else {
            lemma_steps_from(path, path.len() as int);
            lemma_nothing_left(path);
            assert(steps_from(path, at) =~= Seq::<Step>::empty());
        }
    }
}

proof fn lemma_nothing_left(path: Seq<char>)
    ensures
        steps_from(path, path.len() as int) == Seq::<Step>::empty(),
{
    reveal_strlit("");
    lemma_steps_from(path, path.len() as int);
    assert(path.subrange(path.len() as int, path.len() as int) =~= ""@);
    assert(steps_from(path, path.len() as int) =~= Seq::<Step>::empty());
}

/// The steps behind the first `n`.
proof fn lemma_steps_end(path: Seq<char>, at: int, n: nat)
    requires
        0 <= at <= path.len(),
        n <= steps_from(path, at).len(),
    ensures
        0 <= steps_end(path, at, n) <= path.len(),
        steps_from(path, steps_end(path, at, n)) == steps_from(path, at).skip(n as int),
    decreases n,
{
    if n == 0 {
        assert(steps_from(path, at).skip(0) =~= steps_from(path, at));
    } else {
        let start = step_from(path, at);
        let end = position_from(path, '/', start);
        lemma_step_from(path, at);
        lemma_nothing_left(path);
        lemma_steps_from(path, start);
        assert(start < path.len());
        assert(step_of(path.subrange(start, end)).len() == 1);
        if end < path.len() {
            lemma_steps_from(path, end);
            lemma_position_from(path, '/', start);
            reveal_strlit("");
            assert(position_from(path, '/', end) == end);
            assert(path.subrange(end, end) =~= ""@);
            assert(steps_from(path, end) =~= steps_from(path, end + 1));
        } else {
            assert(steps_from(path, end) =~= Seq::<Step>::empty());
        }
        assert(steps_from(path, end) =~= steps_from(path, at).skip(1));
        lemma_steps_end(path, end, (n - 1) as nat);
        assert(steps_from(path, at).skip(1).skip(n - 1) =~= steps_from(path, at).skip(n as int));
    }
}

/// What a path ends in behind its last step is none.
proof fn lemma_tail_steps(path: Seq<char>, n: int)
    requires
        0 <= n <= path.len(),
    ensures
        0 <= tail_end(path, n) <= n,
        steps(pieces(path.subrange(0, tail_end(path, n)), '/')) == steps(pieces(path.subrange(0, n), '/')),
    decreases n,
{
    if n > 1 && (path[n - 1] == '/' || (path[n - 1] == '.' && path[n - 2] == '/')) {
        lemma_tail_steps(path, n - 1);
        reveal_strlit("");
        reveal_strlit(".");
        lemma_position_from(""@, '/', 0);
        lemma_position_from("."@, '/', 0);
        let whole = path.subrange(0, n);
        let less = path.subrange(0, n - 1);
        if path[n - 1] == '/' {
            assert(whole =~= less + seq!['/'] + ""@);
            lemma_pieces_behind(less, '/', ""@);
            assert(pieces(less, '/').push(""@).drop_last() =~= pieces(less, '/'));
        } else {
            let start = path.subrange(0, n - 2);
            assert(whole =~= start + seq!['/'] + "."@);
            assert(less =~= start + seq!['/'] + ""@);
            lemma_pieces_behind(start, '/', "."@);
            lemma_pieces_behind(start, '/', ""@);
            assert(pieces(start, '/').push(""@).drop_last() =~= pieces(start, '/'));
            assert(pieces(start, '/').push("."@).drop_last() =~= pieces(start, '/'));
        }
    }
}

/// The components of a path are those of a path that it lies below, and then the steps
/// of what is left of it.
pub proof fn law_relative(path: Seq<char>, base: Seq<char>)
    requires
        lies_in(path, base),
    ensures
        components(base).len() > 0 ==> components(path) == components(base) + steps(
            pieces(relative(path, base)->0, '/'),
        ),
{
    let n = components(base).len();
    let all = steps_from(path, 0);
    let whole = path.subrange(0, path.len() as int);
    assert(whole =~= path);
    lemma_anchored(path);
    if n > 0 {
        let (at, left) = if anchored(path) {
            (1, (n - 1) as nat)
        } else {
            (0, n)
        };
        lemma_anchored_steps(path);
        assert(components(path).len() == n - left + all.len());
        lemma_steps_end(path, at, left);
        let end = steps_end(path, at, left);
        let from = step_from(path, end);
        lemma_step_from(path, end);
        let rest = path.subrange(from, path.len() as int);
        lemma_tail_steps(rest, rest.len() as int);
        assert(rest.subrange(0, rest.len() as int) =~= rest);
        assert(components(path) =~= components(path).take(n as int) + all.skip(left as int));
    }
}

/// Behind the root or the current directory a path has the same steps.
proof fn lemma_anchored_steps(path: Seq<char>)
    ensures
        anchored(path) ==> path.len() > 0 && steps_from(path, 1) == steps_from(path, 0),
        components(path).len() == steps_from(path, 0).len() + if anchored(path) {
            1int
        } else {
            0
        },
        components(path) == (if absolute(path) {
            seq![Step::Root]
        } else if anchored(path) {
            seq![Step::Current]
        } else {
            Seq::empty()
        }) + steps_from(path, 0),
{
    lemma_anchored(path);
    assert(path.subrange(0, path.len() as int) =~= path);
    if anchored(path) {
        reveal_strlit("");
        reveal_strlit(".");
        let end = position_from(path, '/', 0);
        lemma_position_from(path, '/', 0);
        lemma_steps_from(path, 0);
        if absolute(path) {
            assert(end == 0);
            assert(path.subrange(0, 0) =~= ""@);
            assert(steps_from(path, 0) =~= steps_from(path, 1));
        } else {
            assert(pieces(path, '/')[0] =~= path.subrange(0, end));
            assert(end == 1);
            if end < path.len() {
                lemma_steps_from(path, 1);
                assert(position_from(path, '/', 1) == 1);
                assert(path.subrange(1, 1) =~= ""@);
                assert(steps_from(path, 0) =~= steps_from(path, 2));
                assert(steps_from(path, 1) =~= steps_from(path, 2));
            } else {
                lemma_nothing_left(path);
                assert(steps_from(path, 0) =~= Seq::<Step>::empty());
            }
        }
    }
}

/// Whether a component of `path` is `..`.
pub open spec fn climbs(path: Seq<char>) -> bool {
    components(path).contains(Step::Parent)
}

pub fn has_parent_step(path: &str) -> (r: bool)
    ensures
        r == climbs(path@),
{
    let parts = parts_of(path);
    let mut i: usize = 0;
    while i < parts.len()
        invariant
            i <= parts.len(),
            parts.deep_view() == components(path@),
            forall|j: int| 0 <= j < i ==> parts.deep_view()[j] != Step::Parent,
        decreases parts.len() - i,
    {
        if same_part(&parts[i], &Part::Parent) {
            assert(parts.deep_view()[i as int] == Step::Parent);
            return true;
        }
        i = i + 1;
    }
    false
}

} // verus!
