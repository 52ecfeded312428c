//! Inputs: what the hashes of builds tell apart, and what builds are handed.

use vstd::prelude::*;

use crate::context::{config_bytes, context_hash, fingerprint_bytes, sorted_pairs};
use crate::cargo::plan::{feature_bytes, plan_identity, requirement_bytes, requirements_bytes};
use crate::digest::{bytes_of_u32, bytes_of_u64, hex, short_digest, utf8};
use crate::executor::{built_task, input_bytes, input_outputs};
use crate::graph::Graph;
use crate::model::Requirement;
use crate::setup::law_pairs_sorted;
use crate::table::{found, law_with_row};

verus! {

/// The eight bytes of a number tell it from every other.
pub proof fn law_bytes_of_u64(a: u64, b: u64)
    ensures
        bytes_of_u64(a).len() == 8,
        bytes_of_u64(a) == bytes_of_u64(b) ==> a == b,
{
    if bytes_of_u64(a) == bytes_of_u64(b) {
        let x = bytes_of_u64(a);
        let y = bytes_of_u64(b);
        assert(x[0] == y[0] && x[1] == y[1] && x[2] == y[2] && x[3] == y[3] && x[4] == y[4] && x[5] == y[5] && x[6]
            == y[6] && x[7] == y[7]);
        lemma_u64_parts(a);
        lemma_u64_parts(b);
    }
}

proof fn lemma_u64_parts(n: u64)
    ensures
        n == bytes_of_u64(n)[0] * 0x100000000000000 + bytes_of_u64(n)[1] * 0x1000000000000 + bytes_of_u64(n)[2]
            * 0x10000000000 + bytes_of_u64(n)[3] * 0x100000000 + bytes_of_u64(n)[4] * 0x1000000 + bytes_of_u64(n)[5]
            * 0x10000 + bytes_of_u64(n)[6] * 0x100 + bytes_of_u64(n)[7],
{
    let b1 = n / 0x100;
    let b2 = n / 0x10000;
    let b3 = n / 0x1000000;
    let b4 = n / 0x100000000;
    let b5 = n / 0x10000000000;
    let b6 = n / 0x1000000000000;
    let b7 = n / 0x100000000000000;
    assert(b2 == b1 / 0x100);
    assert(b3 == b2 / 0x100);
    assert(b4 == b3 / 0x100);
    assert(b5 == b4 / 0x100);
    assert(b6 == b5 / 0x100);
    assert(b7 == b6 / 0x100);
    lemma_last_byte(n);
    lemma_last_byte(b1);
    lemma_last_byte(b2);
    lemma_last_byte(b3);
    lemma_last_byte(b4);
    lemma_last_byte(b5);
    lemma_last_byte(b6);
    assert(b7 < 0x100);
}

proof fn lemma_last_byte(n: u64)
    ensures
        n == 0x100 * (n / 0x100) + (n % 0x100) as u8,
{
}

/// Whether all of `deps` were built, with configurations.
pub open spec fn all_configured(g: Graph, deps: Seq<Seq<char>>) -> bool {
    forall|k: int| 0 <= k < deps.len() ==> configured(g, #[trigger] deps[k])
}

/// Whether a target was built, with a configuration.
pub open spec fn configured(g: Graph, target: Seq<char>) -> bool {
    built_task(g, target) matches Some((task, _)) && task.config is Some
}

/// The hash of the configuration of a target that was built.
pub open spec fn config_hash(g: Graph, target: Seq<char>) -> u64 {
    match built_task(g, target) {
        Some((task, _)) => task.config->0.hash,
        None => 0,
    }
}

/// What is digested for the dependencies of a target holds the hash of each of them that
/// has a configuration, in their order, and nothing else; there is nothing to digest just
/// where one of them was not built.
pub proof fn law_input_bytes(g: Graph, deps: Seq<Seq<char>>, n: int)
    requires
        0 <= n <= deps.len(),
    ensures
        input_bytes(g, deps, n) is None <==> exists|k: int| 0 <= k < n && built_task(g, #[trigger] deps[k]) is None,
        input_bytes(g, deps, n) matches Some(bytes) ==> {
            &&& bytes.len() <= 8 * n
            &&& bytes.len() == 8 * n <==> forall|k: int|
                0 <= k < n ==> configured(g, #[trigger] deps[k])
            &&& bytes.len() == 8 * n ==> forall|k: int|
                0 <= k < n ==> bytes.subrange(8 * k, 8 * k + 8) == bytes_of_u64(config_hash(g, #[trigger] deps[k]))
        },
    decreases n,
{
    if n > 0 {
        law_input_bytes(g, deps, n - 1);
        assert(deps[n - 1] == deps[n - 1]);
        if built_task(g, deps[n - 1]) is None {
            assert(input_bytes(g, deps, n) is None);
        }
        if input_bytes(g, deps, n - 1) is None {
            let k = choose|k: int| 0 <= k < n - 1 && built_task(g, #[trigger] deps[k]) is None;
            assert(built_task(g, deps[k]) is None);
        }
        if let Some(bytes) = input_bytes(g, deps, n) {
            let before = input_bytes(g, deps, n - 1)->0;
            let (task, _) = built_task(g, deps[n - 1])->0;
            assert(forall|k: int| 0 <= k < n ==> built_task(g, #[trigger] deps[k]) is Some);
            if task.config is Some {
                law_bytes_of_u64(task.config->0.hash, task.config->0.hash);
                assert(bytes.len() == before.len() + 8);
            }
            if bytes.len() == 8 * n {
                assert forall|k: int| 0 <= k < n implies bytes.subrange(8 * k, 8 * k + 8) == bytes_of_u64(
                    config_hash(g, #[trigger] deps[k]),
                ) by {
                    if k < n - 1 {
                        assert(bytes.subrange(8 * k, 8 * k + 8) =~= before.subrange(8 * k, 8 * k + 8));
                    } else {
                        assert(bytes.subrange(8 * k, 8 * k + 8) =~= bytes_of_u64(config_hash(g, deps[k])));
                    }
                }
            }
        }
    }
}

/// Two states of a build in which all dependencies of a target were built with
/// configurations give the same to digest just where every dependency has the same hash
/// in both: a change of any of them is seen.
pub proof fn law_inputs_tell_changes(g: Graph, h: Graph, deps: Seq<Seq<char>>)
    requires
        all_configured(g, deps),
        all_configured(h, deps),
    ensures
        input_bytes(g, deps, deps.len() as int) is Some,
        input_bytes(h, deps, deps.len() as int) is Some,
        input_bytes(g, deps, deps.len() as int)->0.len() == 8 * deps.len(),
        input_bytes(g, deps, deps.len() as int) == input_bytes(h, deps, deps.len() as int) <==> forall|k: int|
            0 <= k < deps.len() ==> config_hash(g, #[trigger] deps[k]) == config_hash(h, deps[k]),
{
    let n = deps.len() as int;
    law_input_bytes(g, deps, n);
    law_input_bytes(h, deps, n);
    assert forall|k: int| 0 <= k < n implies built_task(g, #[trigger] deps[k]) is Some && built_task(h, deps[k]) is Some by {}
    let x = input_bytes(g, deps, n)->0;
    let y = input_bytes(h, deps, n)->0;
    if x == y {
        assert forall|k: int| 0 <= k < n implies config_hash(g, #[trigger] deps[k]) == config_hash(h, deps[k]) by {
            law_bytes_of_u64(config_hash(g, deps[k]), config_hash(h, deps[k]));
        }
    }
    if forall|k: int| 0 <= k < n ==> config_hash(g, #[trigger] deps[k]) == config_hash(h, deps[k]) {
        assert forall|i: int| 0 <= i < x.len() implies x[i] == y[i] by {
            let k = i / 8;
            assert(config_hash(g, deps[k]) == config_hash(h, deps[k]));
            assert(x.subrange(8 * k, 8 * k + 8)[i - 8 * k] == x[i]);
            assert(y.subrange(8 * k, 8 * k + 8)[i - 8 * k] == y[i]);
        }
        assert(x =~= y);
    }
}

/// A target is handed the output of each of its dependencies that was built, under the
/// target of that task, and nothing else.
pub proof fn law_inputs_handed(g: Graph, deps: Seq<Seq<char>>, n: int, target: Seq<char>)
    requires
        0 <= n <= deps.len(),
    ensures
        match found(input_outputs(g, deps, n), target) {
            Some(output) => exists|k: int|
                0 <= k < n && (built_task(g, #[trigger] deps[k]) matches Some((task, built)) && task.target == target
                    && built == output),
            None => forall|k: int|
                0 <= k < n ==> !(built_task(g, #[trigger] deps[k]) matches Some((task, _)) && task.target == target),
        },
    decreases n,
{
    if n > 0 {
        law_inputs_handed(g, deps, n - 1, target);
        let before = input_outputs(g, deps, n - 1);
        if let Some((task, output)) = built_task(g, deps[n - 1]) {
            law_with_row(before, task.target, output, target);
        }
        if let Some(output) = found(before, target) {
            let k = choose|k: int|
                0 <= k < n - 1 && (built_task(g, #[trigger] deps[k]) matches Some((task, built)) && task.target == target
                    && built == output);
            assert(built_task(g, deps[k]) is Some);
        }
    }
}

/// Every fact of a context stands among what is digested for it, between those before it
/// and those behind it.
pub proof fn law_config_bytes(before: Seq<(u32, Seq<char>)>, fact: (u32, Seq<char>), after: Seq<(u32, Seq<char>)>)
    ensures
        config_bytes(before + seq![fact] + after) == config_bytes(before) + bytes_of_u32(fact.0) + utf8(fact.1)
            + config_bytes(after),
    decreases after.len(),
{
    let all = before + seq![fact] + after;
    if after.len() == 0 {
        assert(all.drop_last() =~= before);
        assert(config_bytes(after) =~= Seq::empty());
        assert(config_bytes(all) =~= config_bytes(before) + bytes_of_u32(fact.0) + utf8(fact.1) + config_bytes(after));
    } else {
        let less = after.drop_last();
        assert(all.drop_last() =~= before + seq![fact] + less);
        law_config_bytes(before, fact, less);
        assert(config_bytes(all) =~= config_bytes(before) + bytes_of_u32(fact.0) + utf8(fact.1) + config_bytes(after));
    }
}

/// Every fingerprint of a tool stands among what is digested for a context, between those
/// before it and those behind it, under the name of the tool.
pub proof fn law_fingerprint_bytes(
    before: Seq<(Seq<char>, Seq<char>)>,
    pair: (Seq<char>, Seq<char>),
    after: Seq<(Seq<char>, Seq<char>)>,
)
    ensures
        fingerprint_bytes(before + seq![pair] + after) == fingerprint_bytes(before) + utf8(pair.0) + seq![0u8] + utf8(
            pair.1,
        ) + seq![0u8] + fingerprint_bytes(after),
    decreases after.len(),
{
    let all = before + seq![pair] + after;
    let own = utf8(pair.0) + seq![0u8] + utf8(pair.1) + seq![0u8];
    if after.len() == 0 {
        assert(all.drop_last() =~= before);
        assert(fingerprint_bytes(after) =~= Seq::empty());
    } else {
        let less = after.drop_last();
        assert(all.drop_last() =~= before + seq![pair] + less);
        law_fingerprint_bytes(before, pair, less);
    }
    assert(fingerprint_bytes(all) =~= fingerprint_bytes(before) + own + fingerprint_bytes(after));
    assert(fingerprint_bytes(before) + own + fingerprint_bytes(after) =~= fingerprint_bytes(before) + utf8(pair.0)
        + seq![0u8] + utf8(pair.1) + seq![0u8] + fingerprint_bytes(after));
}

/// The bytes of the features of a requirement are those of each of them, in order, with a
/// zero behind each.
pub proof fn law_feature_bytes(a: Seq<Seq<char>>, b: Seq<Seq<char>>, f: Seq<char>)
    ensures
        feature_bytes(seq![f]) == utf8(f) + seq![0u8],
        feature_bytes(a + b) == feature_bytes(a) + feature_bytes(b),
    decreases b.len(),
{
    assert(seq![f].drop_last() =~= Seq::<Seq<char>>::empty());
    reveal_with_fuel(feature_bytes, 2);
    assert(feature_bytes(seq![f]) =~= utf8(f) + seq![0u8]);
    if b.len() == 0 {
        assert(a + b =~= a);
        assert(feature_bytes(a) + feature_bytes(b) =~= feature_bytes(a));
    } else {
        law_feature_bytes(a, b.drop_last(), f);
        assert((a + b).drop_last() =~= a + b.drop_last());
        assert(feature_bytes(a + b) =~= feature_bytes(a) + feature_bytes(b));
    }
}

/// A requirement puts all that it says into the identity of a plan: its ecosystem, package
/// and version, whether it asks for the default features, its features, and its target.
pub proof fn law_requirement_bytes(r: Requirement)
    ensures
        requirement_bytes(r) == utf8(r.ecosystem) + seq![0u8] + utf8(r.package) + seq![0u8] + utf8(r.version) + seq![0u8]
            + (if r.default_features {
            seq![1u8]
        } else {
            seq![0u8]
        }) + feature_bytes(r.features) + (match r.target {
            Some(target) => utf8(target),
            None => Seq::empty(),
        }) + seq![0xffu8],
{
}

/// The bytes of requirements are those of each of them, in order.
pub proof fn law_requirements_bytes(a: Seq<Requirement>, b: Seq<Requirement>)
    ensures
        requirements_bytes(a + b, a.len() as int + b.len() as int) == requirements_bytes(a, a.len() as int) + requirements_bytes(
            b,
            b.len() as int,
        ),
        b.len() == 1 ==> requirements_bytes(b, 1) == requirement_bytes(b[0]),
{
    lemma_requirements(a, b, b.len() as int);
    if b.len() == 1 {
        reveal_with_fuel(requirements_bytes, 2);
        assert(requirements_bytes(b, 1) =~= requirement_bytes(b[0]));
    }
}

proof fn lemma_requirements(a: Seq<Requirement>, b: Seq<Requirement>, n: int)
    requires
        0 <= n <= b.len(),
    ensures
        requirements_bytes(a + b, a.len() + n) == requirements_bytes(a, a.len() as int) + requirements_bytes(b, n),
    decreases n,
{
    if n == 0 {
        lemma_requirements_front(a, b, a.len() as int);
        assert(requirements_bytes(a + b, a.len() as int) =~= requirements_bytes(a, a.len() as int) + requirements_bytes(b, 0));
    } else {
        lemma_requirements(a, b, n - 1);
        assert((a + b)[a.len() + n - 1] == b[n - 1]);
        assert(requirements_bytes(a + b, a.len() + n) =~= requirements_bytes(a, a.len() as int) + requirements_bytes(b, n));
    }
}

proof fn lemma_requirements_front(a: Seq<Requirement>, b: Seq<Requirement>, n: int)
    requires
        0 <= n <= a.len(),
    ensures
        requirements_bytes(a + b, n) == requirements_bytes(a, n),
    decreases n,
{
    if n > 0 {
        lemma_requirements_front(a, b, n - 1);
        assert((a + b)[n - 1] == a[n - 1]);
    }
}

/// A plan goes by the digest of its context's hash and of its requirements.
pub proof fn law_plan_identity(context_hash: u64, requirements: Seq<Requirement>)
    ensures
        plan_identity(context_hash, requirements) == hex(
            short_digest(bytes_of_u64(context_hash) + requirements_bytes(requirements, requirements.len() as int)),
        ),
{
}

proof fn lemma_config_told(config: Seq<(u32, Seq<char>)>, k: int) -> (around: (Seq<u8>, Seq<u8>))
    requires
        0 <= k < config.len(),
    ensures
        config_bytes(config) == around.0 + (bytes_of_u32(config[k].0) + utf8(config[k].1)) + around.1,
    decreases config.len(),
{
    let front = config_bytes(config.drop_last());
    let last = bytes_of_u32(config.last().0) + utf8(config.last().1);
    if k == config.len() - 1 {
        let around = (front, Seq::<u8>::empty());
        assert(config_bytes(config) =~= around.0 + last + around.1);
        around
    } else {
        let inner = lemma_config_told(config.drop_last(), k);
        let around = (inner.0, inner.1 + last);
        assert(config_bytes(config) =~= around.0 + (bytes_of_u32(config[k].0) + utf8(config[k].1)) + around.1);
        around
    }
}

proof fn lemma_fingerprint_told(pairs: Seq<(Seq<char>, Seq<char>)>, k: int) -> (around: (Seq<u8>, Seq<u8>))
    requires
        0 <= k < pairs.len(),
    ensures
        fingerprint_bytes(pairs) == around.0 + (utf8(pairs[k].0).push(0) + utf8(pairs[k].1).push(0)) + around.1,
    decreases pairs.len(),
{
    let front = fingerprint_bytes(pairs.drop_last());
    let last = utf8(pairs.last().0).push(0) + utf8(pairs.last().1).push(0);
    if k == pairs.len() - 1 {
        let around = (front, Seq::<u8>::empty());
        assert(fingerprint_bytes(pairs) =~= around.0 + last + around.1);
        around
    } else {
        let inner = lemma_fingerprint_told(pairs.drop_last(), k);
        let around = (inner.0, inner.1 + last);
        assert(fingerprint_bytes(pairs) =~= around.0 + (utf8(pairs[k].0).push(0) + utf8(pairs[k].1).push(0)) + around.1);
        around
    }
}

/// The hash of a context is the digest of bytes in which every fact of its configuration
/// stands, its key and its value; the result is what stands around them.
pub proof fn law_config_is_hashed(
    config: Seq<(u32, Seq<char>)>,
    fingerprints: Seq<(Seq<char>, Seq<char>)>,
    k: int,
) -> (around: (Seq<u8>, Seq<u8>))
    requires
        0 <= k < config.len(),
    ensures
        context_hash(config, fingerprints) == short_digest(
            around.0 + (bytes_of_u32(config[k].0) + utf8(config[k].1)) + around.1,
        ),
{
    let inner = lemma_config_told(config, k);
    let more = fingerprint_bytes(sorted_pairs(fingerprints));
    let around = (inner.0, inner.1 + more);
    assert(config_bytes(config) + more =~= around.0 + (bytes_of_u32(config[k].0) + utf8(config[k].1)) + around.1);
    around
}

/// The hash of a context is the digest of bytes in which the fingerprint of every tool
/// stands, under the tool's name and each with its end marked; the result is what stands
/// around them.
pub proof fn law_fingerprint_is_hashed(
    config: Seq<(u32, Seq<char>)>,
    fingerprints: Seq<(Seq<char>, Seq<char>)>,
    k: int,
) -> (around: (Seq<u8>, Seq<u8>))
    requires
        0 <= k < fingerprints.len(),
    ensures
        context_hash(config, fingerprints) == short_digest(
            around.0 + (utf8(fingerprints[k].0).push(0) + utf8(fingerprints[k].1).push(0)) + around.1,
        ),
{
    let pairs = sorted_pairs(fingerprints);
    law_pairs_sorted(fingerprints, fingerprints[k]);
    assert(fingerprints.contains(fingerprints[k]));
    let j = choose|j: int| 0 <= j < pairs.len() && pairs[j] == fingerprints[k];
    let inner = lemma_fingerprint_told(pairs, j);
    let around = (config_bytes(config) + inner.0, inner.1);
    assert(config_bytes(config) + fingerprint_bytes(pairs) =~= around.0 + (utf8(fingerprints[k].0).push(0) + utf8(
        fingerprints[k].1,
    ).push(0)) + around.1);
    around
}

} // verus!
