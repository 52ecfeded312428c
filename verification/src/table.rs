//! Tables: values under names, kept in the lexical order of the names.

use vstd::prelude::*;

use crate::text::{before, precedes, same, Duplicate};
use crate::text::{lemma_before_irreflexive, lemma_before_total, lemma_before_transitive};

verus! {

/// `list`, which is in order, with `x` at its place; unchanged where it holds `x`.
pub open spec fn placed(list: Seq<Seq<char>>, x: Seq<char>) -> Seq<Seq<char>>
    decreases list.len(),
{
    if list.len() == 0 {
        seq![x]
    } else if list[0] == x {
        list
    } else if before(x, list[0]) {
        seq![x] + list
    } else {
        seq![list[0]] + placed(list.skip(1), x)
    }
}

/// The texts of `items` in lexical order, each once.
pub open spec fn ordered(items: Seq<Seq<char>>) -> Seq<Seq<char>>
    decreases items.len(),
{
    if items.len() == 0 {
        Seq::empty()
    } else {
        placed(ordered(items.drop_last()), items.last())
    }
}

/// Whether each text in `list` comes before the next.
pub open spec fn ascending(list: Seq<Seq<char>>) -> bool {
    forall|i: int, j: int| 0 <= i < j < list.len() ==> before(#[trigger] list[i], #[trigger] list[j])
}

/// Placing a text keeps the order, and adds that text alone.
pub proof fn lemma_placed(list: Seq<Seq<char>>, x: Seq<char>)
    requires
        ascending(list),
    ensures
        ascending(placed(list, x)),
        forall|y: Seq<char>| #[trigger] placed(list, x).contains(y) <==> list.contains(y) || y == x,
    decreases list.len(),
{
    let out = placed(list, x);
    if list.len() == 0 {
        assert(out[0] == x);
    } else if list[0] == x {
        assert(list.contains(x));
    } else if before(x, list[0]) {
        assert forall|i: int, j: int| 0 <= i < j < out.len() implies before(#[trigger] out[i], #[trigger] out[j]) by {
            assert(out[j] == list[j - 1]);
            if i == 0 {
                if j > 1 {
                    lemma_before_transitive(x, list[0], list[j - 1], 0);
                }
            } else {
                assert(out[i] == list[i - 1]);
            }
        }
        assert forall|y: Seq<char>| #[trigger] out.contains(y) <==> list.contains(y) || y == x by {
            assert(out[0] == x);
            if list.contains(y) {
                let k = choose|k: int| 0 <= k < list.len() && list[k] == y;
                assert(out[k + 1] == y);
            }
            if out.contains(y) {
                let k = choose|k: int| 0 <= k < out.len() && out[k] == y;
                if k > 0 {
                    assert(list[k - 1] == y);
                }
            }
        }
    } else {
        let tail = list.skip(1);
        lemma_before_total(x, list[0], 0);
        assert forall|i: int, j: int| 0 <= i < j < tail.len() implies before(#[trigger] tail[i], #[trigger] tail[j]) by {
            assert(tail[i] == list[i + 1] && tail[j] == list[j + 1]);
        }
        lemma_placed(tail, x);
        let rest = placed(tail, x);
        assert forall|i: int, j: int| 0 <= i < j < out.len() implies before(#[trigger] out[i], #[trigger] out[j]) by {
            assert(out[j] == rest[j - 1]);
            if i == 0 {
                assert(rest.contains(rest[j - 1]));
                if rest[j - 1] != x {
                    assert(tail.contains(rest[j - 1]));
                    let k = choose|k: int| 0 <= k < tail.len() && tail[k] == rest[j - 1];
                    assert(tail[k] == list[k + 1]);
                }
            } else {
                assert(out[i] == rest[i - 1]);
            }
        }
        assert forall|y: Seq<char>| #[trigger] out.contains(y) <==> list.contains(y) || y == x by {
            assert(out[0] == list[0]);
            if list.contains(y) {
                let k = choose|k: int| 0 <= k < list.len() && list[k] == y;
                if k > 0 {
                    assert(tail[k - 1] == y);
                    assert(rest.contains(y));
                    let m = choose|m: int| 0 <= m < rest.len() && rest[m] == y;
                    assert(out[m + 1] == y);
                }
            }
            if y == x {
                assert(rest.contains(y));
                let m = choose|m: int| 0 <= m < rest.len() && rest[m] == y;
                assert(out[m + 1] == y);
            }
            if out.contains(y) {
                let k = choose|k: int| 0 <= k < out.len() && out[k] == y;
                if k > 0 {
                    assert(rest[k - 1] == y);
                    assert(rest.contains(y));
                    if tail.contains(y) {
                        let m = choose|m: int| 0 <= m < tail.len() && tail[m] == y;
                        assert(list[m + 1] == y);
                    }
                }
            }
        }
    }
}

/// Putting texts in order keeps every text, adds none, and leaves none twice.
pub proof fn law_ordered(items: Seq<Seq<char>>)
    ensures
        ascending(ordered(items)),
        forall|y: Seq<char>| #[trigger] ordered(items).contains(y) <==> items.contains(y),
    decreases items.len(),
{
    if items.len() > 0 {
        let start = items.drop_last();
        law_ordered(start);
        lemma_placed(ordered(start), items.last());
        assert forall|y: Seq<char>| #[trigger] ordered(items).contains(y) <==> items.contains(y) by {
            if start.contains(y) {
                let k = choose|k: int| 0 <= k < start.len() && start[k] == y;
                assert(items[k] == y);
            }
            if items.contains(y) {
                let k = choose|k: int| 0 <= k < items.len() && items[k] == y;
                if k < start.len() {
                    assert(start[k] == y);
                }
            }
            assert(items.last() == items[items.len() - 1]);
        }
    }
}

/// Puts `x` at its place in `list`.
pub fn place(list: &mut Vec<String>, x: String)
    ensures
        final(list).deep_view() == placed(old(list).deep_view(), x@),
{
    let ghost all = list.deep_view();
    let mut i: usize = 0;
    assert(all.skip(0) == all);
    while i < list.len() && precedes(list[i].as_str(), x.as_str())
        invariant
            i <= list.len(),
            list.deep_view() == all,
            placed(all, x@) == all.take(i as int) + placed(all.skip(i as int), x@),
        decreases list.len() - i,
    {
        proof {
            lemma_before_irreflexive(x@, 0);
            if before(x@, all[i as int]) {
                lemma_before_transitive(x@, all[i as int], x@, 0);
            }
            assert(all.skip(i as int).skip(1) == all.skip(i + 1));
            assert(all.take(i as int) + (seq![all[i as int]] + placed(all.skip(i + 1), x@)) == all.take(i + 1) + placed(
                all.skip(i + 1),
                x@,
            ));
        }
        i = i + 1;
    }
    if i < list.len() && same(list[i].as_str(), x.as_str()) {
        assert(all.take(i as int) + all.skip(i as int) == all);
    } else {
        proof {
            if i < all.len() {
                lemma_before_total(x@, all[i as int], 0);
            }
        }
        list.insert(i, x);
        assert(list.deep_view() == all.take(i as int) + (seq![x@] + all.skip(i as int)));
        assert(i == all.len() ==> seq![x@] + all.skip(i as int) == seq![x@]);
    }
}

/// The texts of `items` in order, each once.
pub fn in_order(items: &Vec<String>) -> (r: Vec<String>)
    ensures
        r.deep_view() == ordered(items.deep_view()),
{
    let mut out: Vec<String> = Vec::new();
    let mut i: usize = 0;
    assert(items.deep_view().take(0) == Seq::<Seq<char>>::empty());
    while i < items.len()
        invariant
            i <= items.len(),
            out.deep_view() == ordered(items.deep_view().take(i as int)),
        decreases items.len() - i,
    {
        place(&mut out, items[i].clone());
        assert(items.deep_view().take(i + 1).drop_last() == items.deep_view().take(i as int));
        i = i + 1;
    }
    assert(items.deep_view().take(items.len() as int) == items.deep_view());
    out
}

/// What stands under `key` in `rows`.
pub open spec fn found<V>(rows: Seq<(Seq<char>, V)>, key: Seq<char>) -> Option<V>
    decreases rows.len(),
{
    if rows.len() == 0 {
        None
    } else if rows[0].0 == key {
        Some(rows[0].1)
    } else {
        found(rows.skip(1), key)
    }
}

/// `rows`, which are in the order of their names, with `value` under `key`.
pub open spec fn with_row<V>(rows: Seq<(Seq<char>, V)>, key: Seq<char>, value: V) -> Seq<(Seq<char>, V)>
    decreases rows.len(),
{
    if rows.len() == 0 {
        seq![(key, value)]
    } else if rows[0].0 == key {
        seq![(key, value)] + rows.skip(1)
    } else if before(key, rows[0].0) {
        seq![(key, value)] + rows
    } else {
        seq![rows[0]] + with_row(rows.skip(1), key, value)
    }
}

/// After `value` was put under `key`, it is found there, and what stands under
/// every other name is what stood there.
pub proof fn law_with_row<V>(rows: Seq<(Seq<char>, V)>, key: Seq<char>, value: V, other: Seq<char>)
    ensures
        found(with_row(rows, key, value), key) == Some(value),
        other != key ==> found(with_row(rows, key, value), other) == found(rows, other),
    decreases rows.len(),
{
    let out = with_row(rows, key, value);
    if rows.len() == 0 {
        assert(out.skip(1) == rows);
        assert(found(out.skip(1), other) == found(rows, other));
    } else if rows[0].0 == key {
        assert(out.skip(1) == rows.skip(1));
    } else if before(key, rows[0].0) {
        assert(out.skip(1) == rows);
    } else {
        law_with_row(rows.skip(1), key, value, other);
        assert(out.skip(1) == with_row(rows.skip(1), key, value));
    }
}

/// The names in `rows`.
pub open spec fn names<V>(rows: Seq<(Seq<char>, V)>) -> Seq<Seq<char>> {
    rows.map_values(|row: (Seq<char>, V)| row.0)
}

/// Putting a value under a name puts the name at its place among the names.
pub proof fn law_with_row_names<V>(rows: Seq<(Seq<char>, V)>, key: Seq<char>, value: V)
    ensures
        names(with_row(rows, key, value)) == placed(names(rows), key),
    decreases rows.len(),
{
    let out = with_row(rows, key, value);
    if rows.len() == 0 {
        assert(names(out) == seq![key]);
    } else {
        assert(names(rows)[0] == rows[0].0);
        assert(names(rows).skip(1) == names(rows.skip(1)));
        if rows[0].0 == key {
            assert(names(out) == names(rows));
        } else if before(key, rows[0].0) {
            assert(names(out) == seq![key] + names(rows));
        } else {
            law_with_row_names(rows.skip(1), key, value);
            assert(names(out) == seq![rows[0].0] + names(with_row(rows.skip(1), key, value)));
        }
    }
}

/// Values under names, in the order of the names.
pub struct Table<V> {
    pub rows: Vec<(String, V)>,
}

impl<V: DeepView> DeepView for Table<V> {
    type V = Seq<(Seq<char>, V::V)>;

    open spec fn deep_view(&self) -> Seq<(Seq<char>, V::V)> {
        self.rows.deep_view()
    }
}

impl<V: Duplicate> Duplicate for Table<V> {
    fn duplicate(&self) -> (r: Self) {
        Table { rows: self.rows.duplicate() }
    }
}

impl<V: DeepView> Table<V> {
    /// Whether the names are in order, each once.
    pub open spec fn well_formed(&self) -> bool {
        ascending(names(self.deep_view()))
    }

    pub fn new() -> (r: Self)
        ensures
            r.well_formed(),
            r.deep_view() == Seq::<(Seq<char>, V::V)>::empty(),
    {
        let r = Table { rows: Vec::new() };
        assert(r.deep_view() == Seq::<(Seq<char>, V::V)>::empty());
        r
    }

    /// The position of `key`; the number of rows where it has none.
    fn row_of(&self, key: &str) -> (r: usize)
        ensures
            r <= self.rows.len(),
            forall|j: int| 0 <= j < r ==> self.deep_view()[j].0 != key@,
            r < self.rows.len() ==> self.deep_view()[r as int].0 == key@,
            found(self.deep_view(), key@) == (if r < self.rows.len() {
                Some(self.deep_view()[r as int].1)
            } else {
                None
            }),
    {
        let mut i: usize = 0;
        assert(self.deep_view().skip(0) == self.deep_view());
        while i < self.rows.len() && !same(self.rows[i].0.as_str(), key)
            invariant
                i <= self.rows.len(),
                forall|j: int| 0 <= j < i ==> self.deep_view()[j].0 != key@,
                found(self.deep_view(), key@) == found(self.deep_view().skip(i as int), key@),
            decreases self.rows.len() - i,
        {
            assert(self.deep_view().skip(i as int).skip(1) == self.deep_view().skip(i + 1));
            i = i + 1;
        }
        i
    }

    pub fn get(&self, key: &str) -> (r: Option<&V>)
        ensures
            r.deep_view() == found(self.deep_view(), key@),
    {
        let i: usize = self.row_of(key);
        if i < self.rows.len() {
            Some(&self.rows[i].1)
        } else {
            None
        }
    }

    pub fn has(&self, key: &str) -> (r: bool)
        ensures
            r == found(self.deep_view(), key@).is_some(),
    {
        self.row_of(key) < self.rows.len()
    }

    pub fn insert(&mut self, key: String, value: V)
        ensures
            final(self).deep_view() == with_row(old(self).deep_view(), key@, value.deep_view()),
            old(self).well_formed() ==> final(self).well_formed(),
    {
        let ghost all = self.deep_view();
        proof {
            if self.well_formed() {
                law_with_row_names(all, key@, value.deep_view());
                lemma_placed(names(all), key@);
            }
        }
        let ghost x = value.deep_view();
        let mut i: usize = 0;
        assert(all.skip(0) == all);
        while i < self.rows.len() && precedes(self.rows[i].0.as_str(), key.as_str())
            invariant
                i <= self.rows.len(),
                self.deep_view() == all,
                x == value.deep_view(),
                with_row(all, key@, x) == all.take(i as int) + with_row(all.skip(i as int), key@, x),
            decreases self.rows.len() - i,
        {
            proof {
                lemma_before_irreflexive(key@, 0);
                if before(key@, all[i as int].0) {
                    lemma_before_transitive(key@, all[i as int].0, key@, 0);
                }
                assert(all.skip(i as int).skip(1) == all.skip(i + 1));
                assert(all.take(i as int) + (seq![all[i as int]] + with_row(all.skip(i + 1), key@, x)) == all.take(i + 1)
                    + with_row(all.skip(i + 1), key@, x));
            }
            i = i + 1;
        }
        if i < self.rows.len() && same(self.rows[i].0.as_str(), key.as_str()) {
            assert(all.skip(i as int).skip(1) == all.skip(i + 1));
            self.rows.set(i, (key, value));
            assert(self.deep_view() == all.take(i as int) + (seq![(key@, x)] + all.skip(i + 1)));
        } else {
            proof {
                if i < all.len() {
                    lemma_before_total(key@, all[i as int].0, 0);
                }
            }
            self.rows.insert(i, (key, value));
            assert(self.deep_view() == all.take(i as int) + (seq![(key@, x)] + all.skip(i as int)));
            assert(i == all.len() ==> seq![(key@, x)] + all.skip(i as int) == seq![(key@, x)]);
        }
    }
}

/// Two ascending lists with the same members are the same list.
pub proof fn lemma_ascending_unique(a: Seq<Seq<char>>, b: Seq<Seq<char>>)
    requires
        ascending(a),
        ascending(b),
        forall|y: Seq<char>| a.contains(y) <==> b.contains(y),
    ensures
        a == b,
    decreases a.len(),
{
    if a.len() == 0 {
        if b.len() > 0 {
            assert(b.contains(b[0]));
        }
        assert(a =~= b);
    } else {
        assert(a.contains(a[0]));
        let k = choose|k: int| 0 <= k < b.len() && b[k] == a[0];
        assert(b.contains(b[0]));
        let m = choose|m: int| 0 <= m < a.len() && a[m] == b[0];
        if k > 0 && m > 0 {
            lemma_before_transitive(a[0], b[0], a[0], 0);
            lemma_before_irreflexive(a[0], 0);
        }
        assert(a[0] == b[0]);
        let x = a.skip(1);
        let y = b.skip(1);
        assert forall|i: int, j: int| 0 <= i < j < x.len() implies before(#[trigger] x[i], #[trigger] x[j]) by {
            assert(x[i] == a[i + 1] && x[j] == a[j + 1]);
        }
        assert forall|i: int, j: int| 0 <= i < j < y.len() implies before(#[trigger] y[i], #[trigger] y[j]) by {
            assert(y[i] == b[i + 1] && y[j] == b[j + 1]);
        }
        assert forall|t: Seq<char>| x.contains(t) <==> y.contains(t) by {
            if x.contains(t) {
                let i = choose|i: int| 0 <= i < x.len() && x[i] == t;
                assert(a[i + 1] == t);
                assert(a.contains(t));
                let j = choose|j: int| 0 <= j < b.len() && b[j] == t;
                lemma_before_irreflexive(t, 0);
                assert(y[j - 1] == t);
            }
            if y.contains(t) {
                let i = choose|i: int| 0 <= i < y.len() && y[i] == t;
                assert(b[i + 1] == t);
                assert(b.contains(t));
                let j = choose|j: int| 0 <= j < a.len() && a[j] == t;
                lemma_before_irreflexive(t, 0);
                assert(x[j - 1] == t);
            }
        }
        lemma_ascending_unique(x, y);
        assert(a =~= seq![a[0]] + x);
        assert(b =~= seq![b[0]] + y);
    }
}

/// Something is found under the names that there are.
pub proof fn lemma_found_name<V>(rows: Seq<(Seq<char>, V)>, key: Seq<char>)
    ensures
        found(rows, key) is Some <==> names(rows).contains(key),
    decreases rows.len(),
{
    if rows.len() > 0 {
        lemma_found_name(rows.skip(1), key);
        if rows[0].0 == key {
            assert(names(rows)[0] == key);
        } else {
            if names(rows.skip(1)).contains(key) {
                let k = choose|k: int| 0 <= k < names(rows.skip(1)).len() && names(rows.skip(1))[k] == key;
                assert(names(rows)[k + 1] == key);
            }
            if names(rows).contains(key) {
                let k = choose|k: int| 0 <= k < names(rows).len() && names(rows)[k] == key;
                assert(names(rows.skip(1))[k - 1] == key);
            }
        }
    }
}

/// In rows in the order of their names each value is found under its name.
pub proof fn lemma_found_at<V>(rows: Seq<(Seq<char>, V)>, i: int)
    requires
        ascending(names(rows)),
        0 <= i < rows.len(),
    ensures
        found(rows, rows[i].0) == Some(rows[i].1),
    decreases rows.len(),
{
    if i > 0 {
        let tail = rows.skip(1);
        assert(names(rows)[0] == rows[0].0 && names(rows)[i] == rows[i].0);
        lemma_before_irreflexive(rows[i].0, 0);
        assert forall|x: int, y: int| 0 <= x < y < names(tail).len() implies before(
            #[trigger] names(tail)[x],
            #[trigger] names(tail)[y],
        ) by {
            assert(names(tail)[x] == names(rows)[x + 1] && names(tail)[y] == names(rows)[y + 1]);
        }
        lemma_found_at(tail, i - 1);
    }
}

/// Two lists of rows in the order of their names with the same values under every
/// name are the same.
pub proof fn lemma_rows_unique<V>(a: Seq<(Seq<char>, V)>, b: Seq<(Seq<char>, V)>)
    requires
        ascending(names(a)),
        ascending(names(b)),
        forall|key: Seq<char>| #[trigger] found(a, key) == found(b, key),
    ensures
        a == b,
{
    assert forall|y: Seq<char>| names(a).contains(y) <==> names(b).contains(y) by {
        lemma_found_name(a, y);
        lemma_found_name(b, y);
        assert(found(a, y) == found(b, y));
    }
    lemma_ascending_unique(names(a), names(b));
    assert(names(a).len() == a.len() && names(b).len() == b.len());
    assert forall|i: int| 0 <= i < a.len() implies a[i] == b[i] by {
        assert(names(a)[i] == a[i].0 && names(b)[i] == b[i].0);
        lemma_found_at(a, i);
        lemma_found_at(b, i);
        assert(found(a, a[i].0) == found(b, a[i].0));
    }
    assert(a =~= b);
}

/// What stands under the number `key` in `rows`.
pub open spec fn found_number<V>(rows: Seq<(u32, V)>, key: u32) -> Option<V>
    decreases rows.len(),
{
    if rows.len() == 0 {
        None
    } else if rows[0].0 == key {
        Some(rows[0].1)
    } else {
        found_number(rows.skip(1), key)
    }
}

/// `rows`, which are in the order of their numbers, with `value` under `key`.
pub open spec fn with_number<V>(rows: Seq<(u32, V)>, key: u32, value: V) -> Seq<(u32, V)>
    decreases rows.len(),
{
    if rows.len() == 0 {
        seq![(key, value)]
    } else if rows[0].0 == key {
        seq![(key, value)] + rows.skip(1)
    } else if key < rows[0].0 {
        seq![(key, value)] + rows
    } else {
        seq![rows[0]] + with_number(rows.skip(1), key, value)
    }
}

/// After `value` was put under `key`, it is found there, and what stands under
/// every other number is what stood there.
pub proof fn law_with_number<V>(rows: Seq<(u32, V)>, key: u32, value: V, other: u32)
    ensures
        found_number(with_number(rows, key, value), key) == Some(value),
        other != key ==> found_number(with_number(rows, key, value), other) == found_number(rows, other),
    decreases rows.len(),
{
    let out = with_number(rows, key, value);
    if rows.len() == 0 {
        assert(out.skip(1) == rows);
        assert(found_number(out.skip(1), other) == found_number(rows, other));
    } else if rows[0].0 == key {
        assert(out.skip(1) == rows.skip(1));
    } else if key < rows[0].0 {
        assert(out.skip(1) == rows);
    } else {
        law_with_number(rows.skip(1), key, value, other);
        assert(out.skip(1) == with_number(rows.skip(1), key, value));
    }
}

/// Whether rows are in the order of their numbers, with each number once.
pub open spec fn numbers_ascend<V>(rows: Seq<(u32, V)>) -> bool {
    forall|i: int, j: int| 0 <= i < j < rows.len() ==> (#[trigger] rows[i]).0 < (#[trigger] rows[j]).0
}

/// Putting a value under a number keeps the order of the numbers, and adds that
/// number alone.
pub proof fn lemma_with_number_ascends<V>(rows: Seq<(u32, V)>, key: u32, value: V)
    requires
        numbers_ascend(rows),
    ensures
        numbers_ascend(with_number(rows, key, value)),
        forall|i: int|
            0 <= i < with_number(rows, key, value).len() ==> (#[trigger] with_number(rows, key, value)[i]).0 == key
                || exists|j: int| 0 <= j < rows.len() && (#[trigger] rows[j]).0 == with_number(rows, key, value)[i].0,
    decreases rows.len(),
{
    let out = with_number(rows, key, value);
    if rows.len() > 0 {
        let tail = rows.skip(1);
        assert forall|i: int, j: int| 0 <= i < j < tail.len() implies (#[trigger] tail[i]).0 < (#[trigger] tail[j]).0 by {
            assert(tail[i] == rows[i + 1] && tail[j] == rows[j + 1]);
        }
        lemma_with_number_ascends(tail, key, value);
        let rest = with_number(tail, key, value);
        if rows[0].0 == key {
            assert forall|i: int| 0 <= i < out.len() implies (#[trigger] out[i]).0 == rows[i].0 by {
                if i > 0 {
                    assert(out[i] == tail[i - 1]);
                }
            }
        } else if key < rows[0].0 {
            assert forall|i: int| 0 < i < out.len() implies (#[trigger] out[i]) == rows[i - 1] by {}
            assert forall|i: int, j: int| 0 <= i < j < out.len() implies (#[trigger] out[i]).0 < (#[trigger] out[j]).0 by {
                assert(out[j] == rows[j - 1]);
                if i > 0 {
                    assert(out[i] == rows[i - 1]);
                } else if j > 1 {
                    assert(rows[0].0 < rows[j - 1].0);
                }
            }
        } else {
            assert forall|i: int| 0 < i < out.len() implies (#[trigger] out[i]) == rest[i - 1] by {}
            assert forall|i: int| 0 < i < out.len() implies (#[trigger] out[i]).0 == key || exists|j: int|
                0 <= j < rows.len() && (#[trigger] rows[j]).0 == out[i].0 by {
                assert(out[i] == rest[i - 1]);
                if rest[i - 1].0 != key {
                    let j = choose|j: int| 0 <= j < tail.len() && (#[trigger] tail[j]).0 == rest[i - 1].0;
                    assert(rows[j + 1].0 == out[i].0);
                }
            }
            assert forall|i: int, j: int| 0 <= i < j < out.len() implies (#[trigger] out[i]).0 < (#[trigger] out[j]).0 by {
                assert(out[j] == rest[j - 1]);
                if i > 0 {
                    assert(out[i] == rest[i - 1]);
                } else if rest[j - 1].0 != key {
                    let m = choose|m: int| 0 <= m < tail.len() && (#[trigger] tail[m]).0 == rest[j - 1].0;
                    assert(tail[m] == rows[m + 1]);
                }
            }
        }
    }
}

/// Values under numbers, in the order of the numbers.
#[derive(Debug)]
pub struct Numbered<V> {
    pub rows: Vec<(u32, V)>,
}

impl<V: DeepView> DeepView for Numbered<V> {
    type V = Seq<(u32, V::V)>;

    open spec fn deep_view(&self) -> Seq<(u32, V::V)> {
        self.rows.deep_view()
    }
}

impl<V: Duplicate> Duplicate for Numbered<V> {
    fn duplicate(&self) -> (r: Self) {
        Numbered { rows: self.rows.duplicate() }
    }
}

impl<V: DeepView> Numbered<V> {
    /// Whether the numbers are in order, each once.
    pub open spec fn well_formed(&self) -> bool {
        numbers_ascend(self.deep_view())
    }

    pub fn new() -> (r: Self)
        ensures
            r.well_formed(),
            r.deep_view() == Seq::<(u32, V::V)>::empty(),
    {
        let r = Numbered { rows: Vec::new() };
        assert(r.deep_view() == Seq::<(u32, V::V)>::empty());
        r
    }

    pub fn get(&self, key: u32) -> (r: Option<&V>)
        ensures
            r.deep_view() == found_number(self.deep_view(), key),
    {
        let mut i: usize = 0;
        assert(self.deep_view().skip(0) == self.deep_view());
        while i < self.rows.len() && self.rows[i].0 != key
            invariant
                i <= self.rows.len(),
                found_number(self.deep_view(), key) == found_number(self.deep_view().skip(i as int), key),
            decreases self.rows.len() - i,
        {
            assert(self.deep_view().skip(i as int).skip(1) == self.deep_view().skip(i + 1));
            i = i + 1;
        }
        if i < self.rows.len() {
            Some(&self.rows[i].1)
        } else {
            None
        }
    }

    pub fn insert(&mut self, key: u32, value: V)
        ensures
            final(self).deep_view() == with_number(old(self).deep_view(), key, value.deep_view()),
            old(self).well_formed() ==> final(self).well_formed(),
    {
        let ghost all = self.deep_view();
        proof {
            if self.well_formed() {
                lemma_with_number_ascends(all, key, value.deep_view());
            }
        }
        let ghost x = value.deep_view();
        let mut i: usize = 0;
        assert(all.skip(0) == all);
        while i < self.rows.len() && self.rows[i].0 < key
            invariant
                i <= self.rows.len(),
                self.deep_view() == all,
                x == value.deep_view(),
                with_number(all, key, x) == all.take(i as int) + with_number(all.skip(i as int), key, x),
            decreases self.rows.len() - i,
        {
            proof {
                assert(all.skip(i as int).skip(1) == all.skip(i + 1));
                assert(all.take(i as int) + (seq![all[i as int]] + with_number(all.skip(i + 1), key, x)) == all.take(i + 1)
                    + with_number(all.skip(i + 1), key, x));
            }
            i = i + 1;
        }
        if i < self.rows.len() && self.rows[i].0 == key {
            assert(all.skip(i as int).skip(1) == all.skip(i + 1));
            self.rows.set(i, (key, value));
            assert(self.deep_view() == all.take(i as int) + (seq![(key, x)] + all.skip(i + 1)));
        } else {
            self.rows.insert(i, (key, value));
            assert(self.deep_view() == all.take(i as int) + (seq![(key, x)] + all.skip(i as int)));
            assert(i == all.len() ==> seq![(key, x)] + all.skip(i as int) == seq![(key, x)]);
        }
    }
}

} // verus!
