//! The features of a package: which are enabled once some are requested.

use vstd::prelude::*;

use crate::table::{ascending, found, lemma_ascending_unique, lemma_placed, names, place, placed, Table};
use crate::text::{begins, begins_with, contains_char, has_char, holds_text, keep};

verus! {

/// The members of each feature.
pub type Features = Seq<(Seq<char>, Seq<Seq<char>>)>;

/// Whether enabling `feature` enables the feature `other` as its member.
pub open spec fn follows(features: Features, feature: Seq<char>, other: Seq<char>) -> bool {
    &&& found(features, feature) matches Some(members) && members.contains(other)
    &&& !begins(other, "dep:"@)
    &&& !has_char(other, '/')
    &&& found(features, other) is Some
}

/// Whether `path` begins with a requested feature and leads from each of its
/// features to the next as a member.
pub open spec fn chain(features: Features, requested: Seq<Seq<char>>, path: Seq<Seq<char>>) -> bool {
    &&& path.len() > 0
    &&& requested.contains(path[0])
    &&& path[0].len() > 0
    &&& forall|i: int| 0 <= i < path.len() - 1 ==> follows(features, #[trigger] path[i], path[i + 1])
}

/// Whether requesting `requested` enables `feature`.
pub open spec fn reaches(features: Features, requested: Seq<Seq<char>>, feature: Seq<char>) -> bool {
    exists|path: Seq<Seq<char>>| #[trigger] chain(features, requested, path) && path.last() == feature
}

/// Whether `list` has, in order, the features that requesting `requested` enables.
pub open spec fn lists_enabled(features: Features, requested: Seq<Seq<char>>, list: Seq<Seq<char>>) -> bool {
    &&& ascending(list)
    &&& forall|f: Seq<char>| #[trigger] list.contains(f) <==> reaches(features, requested, f)
}

/// The features that requesting `requested` enables, in order.
pub open spec fn enabled_features(features: Features, requested: Seq<Seq<char>>) -> Seq<Seq<char>> {
    choose|list: Seq<Seq<char>>| lists_enabled(features, requested, list)
}

proof fn lemma_enabled_unique(features: Features, requested: Seq<Seq<char>>, list: Seq<Seq<char>>)
    requires
        lists_enabled(features, requested, list),
    ensures
        enabled_features(features, requested) == list,
{
    let other = enabled_features(features, requested);
    assert(lists_enabled(features, requested, other));
    assert forall|f: Seq<char>| other.contains(f) <==> list.contains(f) by {
        assert(other.contains(f) <==> reaches(features, requested, f));
        assert(list.contains(f) <==> reaches(features, requested, f));
    }
    lemma_ascending_unique(other, list);
}

/// Every requested feature that has a name is enabled.
pub proof fn law_requested_enabled(features: Features, requested: Seq<Seq<char>>, f: Seq<char>)
    requires
        requested.contains(f),
        f.len() > 0,
    ensures
        reaches(features, requested, f),
{
    assert(chain(features, requested, seq![f]));
    assert(seq![f].last() == f);
}

/// The member features of an enabled feature are enabled.
pub proof fn law_members_enabled(features: Features, requested: Seq<Seq<char>>, f: Seq<char>, m: Seq<char>)
    requires
        reaches(features, requested, f),
        follows(features, f, m),
    ensures
        reaches(features, requested, m),
{
    let path = choose|path: Seq<Seq<char>>| #[trigger] chain(features, requested, path) && path.last() == f;
    let longer = path.push(m);
    assert forall|i: int| 0 <= i < longer.len() - 1 implies follows(features, #[trigger] longer[i], longer[i + 1]) by {
        if i < path.len() - 1 {
            assert(follows(features, path[i], path[i + 1]));
        }
    }
    assert(chain(features, requested, longer));
    assert(longer.last() == m);
}

/// What a chain leads to lies in every list that holds what is requested and
/// the members of what it holds.
proof fn lemma_closed(features: Features, requested: Seq<Seq<char>>, list: Seq<Seq<char>>, path: Seq<Seq<char>>, i: int)
    requires
        chain(features, requested, path),
        0 <= i < path.len(),
        forall|f: Seq<char>| #[trigger] requested.contains(f) && f.len() > 0 ==> list.contains(f),
        forall|f: Seq<char>, m: Seq<char>|
            list.contains(f) && #[trigger] follows(features, f, m) ==> list.contains(m),
    ensures
        list.contains(path[i]),
    decreases i,
{
    if i == 0 {
        assert(requested.contains(path[0]));
    } else {
        lemma_closed(features, requested, list, path, i - 1);
        assert(follows(features, path[i - 1], path[i - 1 + 1]));
    }
}

proof fn lemma_found_named<V>(rows: Seq<(Seq<char>, V)>, key: Seq<char>)
    requires
        found(rows, key) is Some,
    ensures
        names(rows).contains(key),
    decreases rows.len(),
{
    if rows[0].0 == key {
        assert(names(rows)[0] == key);
    } else {
        lemma_found_named(rows.skip(1), key);
        let k = choose|k: int| 0 <= k < names(rows.skip(1)).len() && names(rows.skip(1))[k] == key;
        assert(names(rows)[k + 1] == key);
    }
}

/// The features that requesting `requested` enables, in order.
#[verifier::rlimit(40)]
pub fn expand_features(features: &Table<Vec<String>>, requested: &Vec<String>) -> (r: Vec<String>)
    ensures
        r.deep_view() == enabled_features(features.deep_view(), requested.deep_view()),
        lists_enabled(features.deep_view(), requested.deep_view(), r.deep_view()),
{
    let ghost table = features.deep_view();
    let ghost asked = requested.deep_view();
    let ghost universe = asked.to_set().union(names(table).to_set());
    let mut enabled: Vec<String> = Vec::new();
    let mut stack: Vec<String> = Vec::new();
    let mut i: usize = 0;
    while i < requested.len()
        invariant
            i <= requested.len(),
            asked == requested.deep_view(),
            universe == asked.to_set().union(names(table).to_set()),
            forall|f: Seq<char>| #[trigger] stack.deep_view().contains(f) ==> asked.contains(f) && f.len() > 0,
            forall|j: int| 0 <= j < i && (#[trigger] asked[j]).len() > 0 ==> stack.deep_view().contains(asked[j]),
        decreases requested.len() - i,
    {
        if !requested[i].as_str().is_empty() {
            let ghost start = stack.deep_view();
            keep(&mut stack, requested[i].clone());
            proof {
                assert(asked.contains(asked[i as int]));
                lemma_push_contains(start, asked[i as int]);
            }
        }
        i = i + 1;
    }
    proof {
        assert(enabled.deep_view() =~= Seq::<Seq<char>>::empty());
        assert forall|f: Seq<char>| #[trigger] asked.contains(f) && f.len() > 0 implies stack.deep_view().contains(f) by {
            let k = choose|k: int| 0 <= k < asked.len() && asked[k] == f;
            assert(asked[k].len() > 0);
        }
        assert forall|f: Seq<char>| #[trigger] stack.deep_view().contains(f) implies reaches(table, asked, f)
            && universe.contains(f) by {
            law_requested_enabled(table, asked, f);
        }
    }
    while stack.len() > 0
        invariant
            table == features.deep_view(),
            universe == asked.to_set().union(names(table).to_set()),
            ascending(enabled.deep_view()),
            forall|f: Seq<char>| #[trigger]
                enabled.deep_view().contains(f) ==> reaches(table, asked, f) && universe.contains(f),
            forall|f: Seq<char>| #[trigger]
                stack.deep_view().contains(f) ==> reaches(table, asked, f) && universe.contains(f),
            forall|f: Seq<char>| #[trigger]
                asked.contains(f) && f.len() > 0 ==> enabled.deep_view().contains(f) || stack.deep_view().contains(f),
            forall|f: Seq<char>, m: Seq<char>|
                enabled.deep_view().contains(f) && #[trigger] follows(table, f, m) ==> enabled.deep_view().contains(m)
                    || stack.deep_view().contains(m),
        decreases universe.difference(enabled.deep_view().to_set()).len(), stack.len(),
    {
        let ghost stack0 = stack.deep_view();
        let ghost enabled0 = enabled.deep_view();
        let feature = stack.pop().unwrap();
        proof {
            assert(stack.deep_view() =~= stack0.drop_last());
            assert(stack0.last() == feature@);
            lemma_pop_contains(stack0);
            assert(stack0.contains(feature@));
        }
        if !holds_text(&enabled, feature.as_str()) {
            place(&mut enabled, feature.clone());
            proof {
                lemma_placed(enabled0, feature@);
                lemma_fewer_left(universe, enabled0, enabled.deep_view(), feature@);
            }
            let ghost left = universe.difference(enabled.deep_view().to_set()).len();
            if let Some(members) = features.get(feature.as_str()) {
                let ghost list = members.deep_view();
                let mut j: usize = 0;
                while j < members.len()
                    invariant
                        j <= members.len(),
                        table == features.deep_view(),
                        list == members.deep_view(),
                        found(table, feature@) == Some(list),
                        universe == asked.to_set().union(names(table).to_set()),
                        reaches(table, asked, feature@),
                        enabled.deep_view() == placed(enabled0, feature@),
                        forall|f: Seq<char>| #[trigger]
                            stack.deep_view().contains(f) ==> reaches(table, asked, f) && universe.contains(f),
                        forall|f: Seq<char>| #[trigger] stack0.drop_last().contains(f) ==> stack.deep_view().contains(f),
                        forall|k: int|
                            0 <= k < j && follows(table, feature@, #[trigger] list[k]) ==> stack.deep_view().contains(
                                list[k],
                            ),
                    decreases members.len() - j,
                {
                    let member = members[j].as_str();
                    assert(list[j as int] == member@);
                    assert(list.contains(list[j as int]));
                    if !begins_with(member, "dep:") && !contains_char(member, '/') && features.has(member) {
                        let ghost start = stack.deep_view();
                        proof {
                            law_members_enabled(table, asked, feature@, member@);
                            lemma_found_named(table, member@);
                            lemma_push_contains(start, member@);
                        }
                        keep(&mut stack, members[j].clone());
                    }
                    j = j + 1;
                }
                proof {
                    assert forall|m: Seq<char>| #[trigger] follows(table, feature@, m) implies stack.deep_view().contains(m) by {
                        let k = choose|k: int| 0 <= k < list.len() && list[k] == m;
                        assert(follows(table, feature@, list[k]));
                    }
                }
            }
        }
    }
    proof {
        let list = enabled.deep_view();
        assert forall|f: Seq<char>| #[trigger] list.contains(f) <==> reaches(table, asked, f) by {
            if reaches(table, asked, f) {
                let path = choose|path: Seq<Seq<char>>| #[trigger] chain(table, asked, path) && path.last() == f;
                assert forall|g: Seq<char>| #[trigger] asked.contains(g) && g.len() > 0 implies list.contains(g) by {
                    assert(!stack.deep_view().contains(g));
                }
                assert forall|g: Seq<char>, m: Seq<char>| list.contains(g) && #[trigger] follows(table, g, m) implies list.contains(
                    m,
                ) by {
                    assert(!stack.deep_view().contains(m));
                }
                lemma_closed(table, asked, list, path, path.len() - 1);
            }
        }
        lemma_enabled_unique(table, asked, list);
    }
    enabled
}

proof fn lemma_push_contains(list: Seq<Seq<char>>, x: Seq<char>)
    ensures
        forall|f: Seq<char>| #[trigger] list.push(x).contains(f) <==> list.contains(f) || f == x,
{
    assert forall|f: Seq<char>| #[trigger] list.push(x).contains(f) <==> list.contains(f) || f == x by {
        assert(list.push(x)[list.len() as int] == x);
        if list.contains(f) {
            let k = choose|k: int| 0 <= k < list.len() && list[k] == f;
            assert(list.push(x)[k] == f);
        }
        if list.push(x).contains(f) {
            let k = choose|k: int| 0 <= k < list.push(x).len() && list.push(x)[k] == f;
            if k < list.len() {
                assert(list[k] == f);
            }
        }
    }
}

proof fn lemma_pop_contains(list: Seq<Seq<char>>)
    requires
        list.len() > 0,
    ensures
        forall|f: Seq<char>| #[trigger] list.contains(f) <==> list.drop_last().contains(f) || f == list.last(),
        forall|f: Seq<char>| #[trigger] list.drop_last().contains(f) ==> list.contains(f),
{
    assert(list.drop_last().push(list.last()) =~= list);
    lemma_push_contains(list.drop_last(), list.last());
}

proof fn lemma_fewer_left(universe: Set<Seq<char>>, before: Seq<Seq<char>>, after: Seq<Seq<char>>, x: Seq<char>)
    requires
        universe.finite(),
        universe.contains(x),
        !before.contains(x),
        forall|f: Seq<char>| #[trigger] after.contains(f) <==> before.contains(f) || f == x,
    ensures
        universe.difference(after.to_set()).len() < universe.difference(before.to_set()).len(),
{
    let left = universe.difference(before.to_set());
    assert(universe.difference(after.to_set()) =~= left.remove(x));
    assert(left.contains(x));
}

} // verus!
