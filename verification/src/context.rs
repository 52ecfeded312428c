//! The context of a build: what is known of the target machine, the locked
//! versions, the declared tools, and where results are kept.

use vstd::prelude::*;

use crate::digest::{append_text, append_u32, bytes_of_u32, hex, hex_of, short_digest, short_digest_of, utf8};
use crate::error::{error, fault, outcome, Error, ErrorKind, Fault};
use crate::model::PluginContext;
use crate::path::{join_path, joined_path};
use crate::table::{
    ascending, found, found_number, law_with_row, law_with_row_names, lemma_placed, lemma_rows_unique, names, with_number,
    with_row, Numbered, Table,
};
use crate::task::Task;
use crate::text::{before, cat2, cat3, keep, precedes, replace_char, swapped, Duplicate};

verus! {

/// The facts about the target machine.
#[derive(Clone, Copy, Debug, PartialEq, Eq, Structural)]
pub enum BuildConfigKey {
    TargetFamily,
    TargetEnv,
    TargetOS,
    TargetArch,
    TargetVendor,
    TargetEndian,
    MacosDeveloperDir,
    MacosSdkPath,
}

impl BuildConfigKey {
    /// The number under which the fact is kept.
    pub open spec fn code(self) -> u32 {
        match self {
            BuildConfigKey::TargetFamily => crate::build_config_key::TARGET_FAMILY,
            BuildConfigKey::TargetEnv => crate::build_config_key::TARGET_ENV,
            BuildConfigKey::TargetOS => crate::build_config_key::TARGET_OS,
            BuildConfigKey::TargetArch => crate::build_config_key::TARGET_ARCH,
            BuildConfigKey::TargetVendor => crate::build_config_key::TARGET_VENDOR,
            BuildConfigKey::TargetEndian => crate::build_config_key::TARGET_ENDIAN,
            BuildConfigKey::MacosDeveloperDir => crate::build_config_key::MACOS_DEVELOPER_DIR,
            BuildConfigKey::MacosSdkPath => crate::build_config_key::MACOS_SDK_PATH,
        }
    }

    pub fn number(self) -> (r: u32)
        ensures
            r == self.code(),
    {
        match self {
            BuildConfigKey::TargetFamily => crate::build_config_key::TARGET_FAMILY,
            BuildConfigKey::TargetEnv => crate::build_config_key::TARGET_ENV,
            BuildConfigKey::TargetOS => crate::build_config_key::TARGET_OS,
            BuildConfigKey::TargetArch => crate::build_config_key::TARGET_ARCH,
            BuildConfigKey::TargetVendor => crate::build_config_key::TARGET_VENDOR,
            BuildConfigKey::TargetEndian => crate::build_config_key::TARGET_ENDIAN,
            BuildConfigKey::MacosDeveloperDir => crate::build_config_key::MACOS_DEVELOPER_DIR,
            BuildConfigKey::MacosSdkPath => crate::build_config_key::MACOS_SDK_PATH,
        }
    }
}

/// Different facts are kept under different numbers.
pub proof fn law_keys_distinct(a: BuildConfigKey, b: BuildConfigKey)
    ensures
        a.code() == b.code() ==> a == b,
{
}

/// A program that actions may run.
pub struct Tool {
    pub path: String,
    pub fingerprint: String,
}

/// What a `Tool` says: its path and its fingerprint.
impl DeepView for Tool {
    type V = (Seq<char>, Seq<char>);

    open spec fn deep_view(&self) -> (Seq<char>, Seq<char>) {
        (self.path@, self.fingerprint@)
    }
}

impl Duplicate for Tool {
    fn duplicate(&self) -> (r: Self) {
        Tool { path: self.path.clone(), fingerprint: self.fingerprint.clone() }
    }
}

/// The messages logged for each target.
pub type Logs = Table<Vec<String>>;

pub struct Context {
    pub lockfile: Table<String>,
    pub locked_dependencies: Table<Table<String>>,
    pub cache_dir: String,
    pub target: Option<String>,
    pub target_hash: Option<u64>,
    pub config: Numbered<String>,
    pub tools: Table<Tool>,
    pub tool_fingerprints: Vec<(String, String)>,
    pub hash: u64,
}

/// What a `Context` says.
#[verifier::ext_equal]
pub struct ContextModel {
    pub lockfile: Seq<(Seq<char>, Seq<char>)>,
    pub locked_dependencies: Seq<(Seq<char>, Seq<(Seq<char>, Seq<char>)>)>,
    pub cache_dir: Seq<char>,
    pub target: Option<Seq<char>>,
    pub target_hash: Option<u64>,
    pub config: Seq<(u32, Seq<char>)>,
    pub tools: Seq<(Seq<char>, (Seq<char>, Seq<char>))>,
    pub tool_fingerprints: Seq<(Seq<char>, Seq<char>)>,
    pub hash: u64,
}

impl DeepView for Context {
    type V = ContextModel;

    open spec fn deep_view(&self) -> ContextModel {
        ContextModel {
            lockfile: self.lockfile.deep_view(),
            locked_dependencies: self.locked_dependencies.deep_view(),
            cache_dir: self.cache_dir@,
            target: self.target.deep_view(),
            target_hash: self.target_hash,
            config: self.config.deep_view(),
            tools: self.tools.deep_view(),
            tool_fingerprints: self.tool_fingerprints.deep_view(),
            hash: self.hash,
        }
    }
}

impl Duplicate for Context {
    fn duplicate(&self) -> (r: Self) {
        Context {
            lockfile: self.lockfile.duplicate(),
            locked_dependencies: self.locked_dependencies.duplicate(),
            cache_dir: self.cache_dir.clone(),
            target: self.target.duplicate(),
            target_hash: self.target_hash,
            config: self.config.duplicate(),
            tools: self.tools.duplicate(),
            tool_fingerprints: self.tool_fingerprints.duplicate(),
            hash: self.hash,
        }
    }
}

/// What a list of facts says.
pub open spec fn facts_in(pairs: Seq<(BuildConfigKey, String)>) -> Seq<(BuildConfigKey, Seq<char>)> {
    pairs.map_values(|pair: (BuildConfigKey, String)| (pair.0, pair.1@))
}

pub fn copy_facts(pairs: &Vec<(BuildConfigKey, String)>) -> (r: Vec<(BuildConfigKey, String)>)
    ensures
        facts_in(r@) == facts_in(pairs@),
{
    let mut out: Vec<(BuildConfigKey, String)> = Vec::new();
    let mut i: usize = 0;
    while i < pairs.len()
        invariant
            i <= pairs.len(),
            out@.len() == i,
            forall|j: int| 0 <= j < i ==> (#[trigger] out@[j]).0 == pairs@[j].0 && out@[j].1@ == pairs@[j].1@,
        decreases pairs.len() - i,
    {
        out.push((pairs[i].0, pairs[i].1.clone()));
        i = i + 1;
    }
    assert(facts_in(out@) =~= facts_in(pairs@));
    out
}

/// The facts in `pairs`, a later one in the place of an earlier one of the
/// same key.
pub open spec fn collected_config(pairs: Seq<(BuildConfigKey, Seq<char>)>) -> Seq<(u32, Seq<char>)>
    decreases pairs.len(),
{
    if pairs.len() == 0 {
        Seq::empty()
    } else {
        with_number(collected_config(pairs.drop_last()), pairs.last().0.code(), pairs.last().1)
    }
}

pub fn collect_config(config: &Vec<(BuildConfigKey, String)>) -> (r: Numbered<String>)
    ensures
        r.deep_view() == collected_config(facts_in(config@)),
{
    let ghost facts = facts_in(config@);
    let mut rows: Numbered<String> = Numbered::new();
    let mut i: usize = 0;
    while i < config.len()
        invariant
            i <= config.len(),
            facts == facts_in(config@),
            rows.deep_view() == collected_config(facts.take(i as int)),
        decreases config.len() - i,
    {
        assert(facts.take(i + 1).drop_last() == facts.take(i as int));
        rows.insert(config[i].0.number(), config[i].1.clone());
        i = i + 1;
    }
    assert(facts.take(facts.len() as int) == facts);
    rows
}

/// The order in which different facts are given makes no difference.
pub proof fn law_config_order<V>(rows: Seq<(u32, V)>, a: u32, x: V, b: u32, y: V)
    requires
        a != b,
    ensures
        with_number(with_number(rows, a, x), b, y) == with_number(with_number(rows, b, y), a, x),
    decreases rows.len(),
{
    let left = with_number(rows, a, x);
    let right = with_number(rows, b, y);
    if rows.len() == 0 {
        assert(left.skip(1) =~= Seq::empty());
        assert(right.skip(1) =~= Seq::empty());
        assert(with_number(left.skip(1), b, y) =~= seq![(b, y)]);
        assert(with_number(right.skip(1), a, x) =~= seq![(a, x)]);
        assert(with_number(left, b, y) =~= with_number(right, a, x));
    } else {
        let tail = rows.skip(1);
        law_config_order(tail, a, x, b, y);
        assert(left.skip(1) =~= (if rows[0].0 == a {
            tail
        } else if a < rows[0].0 {
            rows
        } else {
            with_number(tail, a, x)
        }));
        assert(right.skip(1) =~= (if rows[0].0 == b {
            tail
        } else if b < rows[0].0 {
            rows
        } else {
            with_number(tail, b, y)
        }));
        assert(with_number(left, b, y) =~= with_number(right, a, x));
    }
}

/// `list`, which is in the order of its names, with `x` behind the pairs whose
/// name does not come after its own.
pub open spec fn placed_pair(list: Seq<(Seq<char>, Seq<char>)>, x: (Seq<char>, Seq<char>)) -> Seq<
    (Seq<char>, Seq<char>),
>
    decreases list.len(),
{
    if list.len() == 0 {
        seq![x]
    } else if before(x.0, list[0].0) {
        seq![x] + list
    } else {
        seq![list[0]] + placed_pair(list.skip(1), x)
    }
}

/// `pairs` in the order of their names; pairs of one name stay in their order.
pub open spec fn sorted_pairs(pairs: Seq<(Seq<char>, Seq<char>)>) -> Seq<(Seq<char>, Seq<char>)>
    decreases pairs.len(),
{
    if pairs.len() == 0 {
        Seq::empty()
    } else {
        placed_pair(sorted_pairs(pairs.drop_last()), pairs.last())
    }
}

fn place_pair(list: &mut Vec<(String, String)>, x: (String, String))
    ensures
        final(list).deep_view() == placed_pair(old(list).deep_view(), x.deep_view()),
{
    let ghost all = list.deep_view();
    let ghost y = x.deep_view();
    let mut i: usize = 0;
    assert(all.skip(0) == all);
    while i < list.len() && !precedes(x.0.as_str(), list[i].0.as_str())
        invariant
            i <= list.len(),
            list.deep_view() == all,
            y == x.deep_view(),
            placed_pair(all, y) == all.take(i as int) + placed_pair(all.skip(i as int), y),
        decreases list.len() - i,
    {
        proof {
            assert(all.skip(i as int).skip(1) == all.skip(i + 1));
            assert(all.take(i as int) + (seq![all[i as int]] + placed_pair(all.skip(i + 1), y)) == all.take(i + 1)
                + placed_pair(all.skip(i + 1), y));
        }
        i = i + 1;
    }
    list.insert(i, x);
    assert(list.deep_view() == all.take(i as int) + (seq![y] + all.skip(i as int)));
    assert(i == all.len() ==> seq![y] + all.skip(i as int) == seq![y]);
}

pub fn sort_pairs(pairs: &Vec<(String, String)>) -> (r: Vec<(String, String)>)
    ensures
        r.deep_view() == sorted_pairs(pairs.deep_view()),
{
    let mut out: Vec<(String, String)> = Vec::new();
    let mut i: usize = 0;
    assert(out.deep_view() =~= Seq::<(Seq<char>, Seq<char>)>::empty());
    while i < pairs.len()
        invariant
            i <= pairs.len(),
            out.deep_view() == sorted_pairs(pairs.deep_view().take(i as int)),
        decreases pairs.len() - i,
    {
        assert(pairs.deep_view().take(i + 1).drop_last() == pairs.deep_view().take(i as int));
        place_pair(&mut out, pairs[i].duplicate());
        i = i + 1;
    }
    assert(pairs.deep_view().take(pairs.len() as int) == pairs.deep_view());
    out
}

/// Whether no two of `pairs` have one name.
pub open spec fn distinct_names(pairs: Seq<(Seq<char>, Seq<char>)>) -> bool {
    forall|i: int, j: int| 0 <= i < j < pairs.len() ==> (#[trigger] pairs[i]).0 != (#[trigger] pairs[j]).0
}

/// A pair of a new name is placed as a row is.
proof fn lemma_placed_pair(list: Seq<(Seq<char>, Seq<char>)>, x: (Seq<char>, Seq<char>))
    requires
        found(list, x.0) is None,
    ensures
        placed_pair(list, x) == with_row(list, x.0, x.1),
    decreases list.len(),
{
    if list.len() > 0 {
        lemma_placed_pair(list.skip(1), x);
    }
}

/// Sorted pairs are rows in order.
proof fn lemma_sorted_pairs(pairs: Seq<(Seq<char>, Seq<char>)>, name: Seq<char>)
    requires
        distinct_names(pairs),
    ensures
        ascending(names(sorted_pairs(pairs))),
        found(sorted_pairs(pairs), name) matches Some(text) ==> pairs.contains((name, text)),
        found(sorted_pairs(pairs), name) is None ==> forall|text: Seq<char>| !#[trigger] pairs.contains((name, text)),
    decreases pairs.len(),
{
    let sorted = sorted_pairs(pairs);
    if pairs.len() == 0 {
        assert(names(sorted) =~= Seq::empty());
    } else {
        let start = pairs.drop_last();
        let x = pairs.last();
        assert(distinct_names(start));
        lemma_sorted_pairs(start, x.0);
        if let Some(text) = found(sorted_pairs(start), x.0) {
            let k = choose|k: int| 0 <= k < start.len() && start[k] == (x.0, text);
            assert(pairs[k].0 == pairs[pairs.len() - 1].0);
        }
        lemma_placed_pair(sorted_pairs(start), x);
        law_with_row_names(sorted_pairs(start), x.0, x.1);
        lemma_placed(names(sorted_pairs(start)), x.0);
        law_with_row(sorted_pairs(start), x.0, x.1, name);
        lemma_sorted_pairs(start, name);
        if name == x.0 {
            assert(pairs[pairs.len() - 1] == (name, x.1));
        } else {
            if let Some(text) = found(sorted, name) {
                let k = choose|k: int| 0 <= k < start.len() && start[k] == (name, text);
                assert(pairs[k] == (name, text));
            } else {
                assert forall|text: Seq<char>| !#[trigger] pairs.contains((name, text)) by {
                    if pairs.contains((name, text)) {
                        let k = choose|k: int| 0 <= k < pairs.len() && pairs[k] == (name, text);
                        assert(start[k] == (name, text));
                        assert(start.contains((name, text)));
                    }
                }
            }
        }
    }
}

/// The hash of a context does not depend on the order in which the fingerprints of
/// its tools are given, where each tool has one.
pub proof fn law_fingerprint_order(
    config: Seq<(u32, Seq<char>)>,
    one: Seq<(Seq<char>, Seq<char>)>,
    other: Seq<(Seq<char>, Seq<char>)>,
)
    requires
        distinct_names(one),
        distinct_names(other),
        forall|x: (Seq<char>, Seq<char>)| #[trigger] one.contains(x) <==> other.contains(x),
    ensures
        context_hash(config, one) == context_hash(config, other),
{
    lemma_sorted_pairs(one, Seq::empty());
    lemma_sorted_pairs(other, Seq::empty());
    assert forall|name: Seq<char>| #[trigger] found(sorted_pairs(one), name) == found(sorted_pairs(other), name) by {
        lemma_sorted_pairs(one, name);
        lemma_sorted_pairs(other, name);
        if let Some(x) = found(sorted_pairs(one), name) {
            assert(one.contains((name, x)) && other.contains((name, x)));
        }
        if let Some(y) = found(sorted_pairs(other), name) {
            assert(one.contains((name, y)) && other.contains((name, y)));
        }
        if let (Some(x), Some(y)) = (found(sorted_pairs(one), name), found(sorted_pairs(other), name)) {
            let i = choose|i: int| 0 <= i < one.len() && one[i] == (name, x);
            let j = choose|j: int| 0 <= j < one.len() && one[j] == (name, y);
            assert(i == j);
        }
    }
    lemma_rows_unique(sorted_pairs(one), sorted_pairs(other));
}

/// The bytes that the facts put into the digest of a context.
pub open spec fn config_bytes(config: Seq<(u32, Seq<char>)>) -> Seq<u8>
    decreases config.len(),
{
    if config.len() == 0 {
        Seq::empty()
    } else {
        config_bytes(config.drop_last()) + bytes_of_u32(config.last().0) + utf8(config.last().1)
    }
}

/// The bytes that the fingerprints put into the digest of a context.
pub open spec fn fingerprint_bytes(pairs: Seq<(Seq<char>, Seq<char>)>) -> Seq<u8>
    decreases pairs.len(),
{
    if pairs.len() == 0 {
        Seq::empty()
    } else {
        fingerprint_bytes(pairs.drop_last()) + utf8(pairs.last().0) + seq![0u8] + utf8(pairs.last().1) + seq![0u8]
    }
}

/// The hash of a context with the given facts and fingerprints.
pub open spec fn context_hash(config: Seq<(u32, Seq<char>)>, fingerprints: Seq<(Seq<char>, Seq<char>)>) -> int {
    short_digest(config_bytes(config) + fingerprint_bytes(sorted_pairs(fingerprints)))
}

/// `target` with the characters that separate its parts replaced.
pub open spec fn target_dir(target: Seq<char>) -> Seq<char> {
    swapped(swapped(swapped(target, ':', '_'), '/', '_'), '@', '_')
}

fn to_dir(name: &str) -> (r: String)
    ensures
        r@ == target_dir(name@),
{
    replace_char(replace_char(replace_char(name, ':', '_').as_str(), '/', '_').as_str(), '@', '_')
}

/// A version as part of a directory's name: a long one by its digest.
pub open spec fn version_name(version: Seq<char>) -> Seq<char> {
    if utf8(version).len() <= 64 {
        version
    } else {
        hex(short_digest(utf8(version)))
    }
}

fn version_dir(version: &str) -> (r: String)
    ensures
        r@ == version_name(version@),
{
    let mut bytes: Vec<u8> = Vec::new();
    append_text(&mut bytes, version);
    assert(bytes@ =~= utf8(version@));
    if bytes.len() <= 64 {
        return version.to_owned();
    }
    hex_of(short_digest_of(&bytes))
}

/// The directory, relative to the cache, in which a target is resolved.
pub open spec fn resolve_name(target: Seq<char>, version: Seq<char>) -> Seq<char> {
    target_dir(target) + "-"@ + version_name(version)
}

/// The directory, relative to the cache, in which a target is built.
pub open spec fn build_name(target: Seq<char>, hash: u64) -> Seq<char> {
    target_dir(target) + "-"@ + hex(hash as int)
}

/// The locked version of `target`; empty where it has none.
pub open spec fn version_or_empty(lockfile: Seq<(Seq<char>, Seq<char>)>, target: Seq<char>) -> Seq<char> {
    found(lockfile, target).unwrap_or(Seq::empty())
}

/// Where a target keeps its files.
pub open spec fn work_dir(
    cache_dir: Seq<char>,
    lockfile: Seq<(Seq<char>, Seq<char>)>,
    target: Option<Seq<char>>,
    target_hash: Option<u64>,
) -> Seq<char> {
    match (target, target_hash) {
        (Some(t), None) => joined_path(
            joined_path(cache_dir, "resolve"@),
            resolve_name(t, version_or_empty(lockfile, t)),
        ),
        (Some(t), Some(h)) => joined_path(joined_path(cache_dir, "build"@), build_name(t, h)),
        _ => cache_dir,
    }
}

/// Where a target keeps what need not stay.
pub open spec fn temporary_dir(
    cache_dir: Seq<char>,
    lockfile: Seq<(Seq<char>, Seq<char>)>,
    target: Option<Seq<char>>,
    target_hash: Option<u64>,
) -> Seq<char> {
    match (target, target_hash) {
        (Some(t), None) => joined_path(
            joined_path(joined_path(cache_dir, "resolve"@), "scratch"@),
            resolve_name(t, version_or_empty(lockfile, t)),
        ),
        (Some(t), Some(h)) => joined_path(
            joined_path(joined_path(cache_dir, "build"@), "scratch"@),
            build_name(t, h),
        ),
        _ => cache_dir,
    }
}

fn resolve_dir_name(lockfile: &Table<String>, target: &str) -> (r: String)
    ensures
        r@ == resolve_name(target@, version_or_empty(lockfile.deep_view(), target@)),
{
    let version = match lockfile.get(target) {
        Some(version) => version.clone(),
        None => String::new(),
    };
    assert(found(lockfile.deep_view(), target@) is None ==> version@ =~= Seq::empty());
    cat3(to_dir(target).as_str(), "-", version_dir(version.as_str()).as_str())
}

fn build_dir_name(target: &str, hash: u64) -> (r: String)
    ensures
        r@ == build_name(target@, hash),
{
    cat3(to_dir(target).as_str(), "-", hex_of(hash).as_str())
}

/// The locked version of `target`, or the error for a target that has none.
pub open spec fn locked_version(lockfile: Seq<(Seq<char>, Seq<char>)>, target: Seq<char>) -> Result<
    Seq<char>,
    Fault,
> {
    match found(lockfile, target) {
        Some(version) => Ok(version),
        None => Err(fault(ErrorKind::NotFound, target + " does not have a lockfile entry!"@)),
    }
}

/// The target that `package` is locked to for `target`.
pub open spec fn locked_dependency(
    locked: Seq<(Seq<char>, Seq<(Seq<char>, Seq<char>)>)>,
    target: Seq<char>,
    package: Seq<char>,
) -> Option<Seq<char>> {
    match found(locked, target) {
        Some(deps) => found(deps, package),
        None => None,
    }
}

pub(crate) fn version_in(lockfile: &Table<String>, target: &str) -> (r: Result<String, Error>)
    ensures
        outcome(r) == locked_version(lockfile.deep_view(), target@),
{
    match lockfile.get(target) {
        Some(version) => Ok(version.clone()),
        None => Err(error(ErrorKind::NotFound, cat2(target, " does not have a lockfile entry!"))),
    }
}

pub(crate) fn dependency_in(locked: &Table<Table<String>>, target: &str, package: &str) -> (r: Option<String>)
    ensures
        r.deep_view() == locked_dependency(locked.deep_view(), target@, package@),
{
    match locked.get(target) {
        Some(deps) => match deps.get(package) {
            Some(found) => Some(found.clone()),
            None => None,
        },
        None => None,
    }
}

impl PluginContext {
    pub fn get_locked_version(&self, target: &str) -> (r: Result<String, Error>)
        ensures
            outcome(r) == locked_version(self.lockfile.deep_view(), target@),
    {
        version_in(&self.lockfile, target)
    }

    pub fn get_locked_dependency(&self, target: &str, package: &str) -> (r: Option<String>)
        ensures
            r.deep_view() == locked_dependency(self.locked_dependencies.deep_view(), target@, package@),
    {
        dependency_in(&self.locked_dependencies, target, package)
    }

    pub fn working_directory(&self) -> (r: String)
        ensures
            r@ == work_dir(self.cache_dir@, self.lockfile.deep_view(), self.target.deep_view(), None),
    {
        match &self.target {
            Some(target) => join_path(
                join_path(self.cache_dir.as_str(), "resolve").as_str(),
                resolve_dir_name(&self.lockfile, target.as_str()).as_str(),
            ),
            None => self.cache_dir.clone(),
        }
    }
}

/// A context that knows the facts `config` and nothing else.
pub open spec fn fresh_context(cache_dir: Seq<char>, config: Seq<(u32, Seq<char>)>) -> ContextModel {
    ContextModel {
        lockfile: Seq::empty(),
        locked_dependencies: Seq::empty(),
        cache_dir,
        target: None,
        target_hash: None,
        config,
        tools: Seq::empty(),
        tool_fingerprints: Seq::empty(),
        hash: 0,
    }
}

/// `rows` with every row of `more`, a later one in the place of an earlier one
/// of the same name.
pub open spec fn with_rows<V>(rows: Seq<(Seq<char>, V)>, more: Seq<(Seq<char>, V)>) -> Seq<(Seq<char>, V)>
    decreases more.len(),
{
    if more.len() == 0 {
        rows
    } else {
        with_row(with_rows(rows, more.drop_last()), more.last().0, more.last().1)
    }
}

/// Of rows that are added, the last of each name is found; what none of them names is
/// found as it was before.
pub proof fn law_with_rows<V>(rows: Seq<(Seq<char>, V)>, more: Seq<(Seq<char>, V)>, key: Seq<char>)
    ensures
        (forall|i: int| 0 <= i < more.len() ==> (#[trigger] more[i]).0 != key) ==> found(with_rows(rows, more), key)
            == found(rows, key),
        forall|i: int|
            0 <= i < more.len() && (#[trigger] more[i]).0 == key && (forall|j: int|
                i < j < more.len() ==> (#[trigger] more[j]).0 != key) ==> found(with_rows(rows, more), key) == Some(
                more[i].1,
            ),
    decreases more.len(),
{
    if more.len() > 0 {
        let start = more.drop_last();
        law_with_rows(rows, start, key);
        law_with_row(with_rows(rows, start), more.last().0, more.last().1, key);
        if forall|i: int| 0 <= i < more.len() ==> (#[trigger] more[i]).0 != key {
            assert(more[more.len() - 1].0 != key);
            assert forall|i: int| 0 <= i < start.len() implies (#[trigger] start[i]).0 != key by {
                assert(more[i].0 != key);
            }
        }
        assert forall|i: int|
            0 <= i < more.len() && (#[trigger] more[i]).0 == key && (forall|j: int|
                i < j < more.len() ==> (#[trigger] more[j]).0 != key) implies found(with_rows(rows, more), key) == Some(
            more[i].1,
        ) by {
            if i < more.len() - 1 {
                assert(more[more.len() - 1].0 != key);
                assert(start[i].0 == key);
                assert forall|j: int| i < j < start.len() implies (#[trigger] start[j]).0 != key by {
                    assert(more[j].0 != key);
                }
            }
        }
    }
}

/// Puts copies of all of `more` into `table`.
pub fn extend<V: Duplicate>(table: &mut Table<V>, more: &Vec<(String, V)>)
    ensures
        final(table).deep_view() == with_rows(old(table).deep_view(), more.deep_view()),
{
    let mut i: usize = 0;
    while i < more.len()
        invariant
            i <= more.len(),
            table.deep_view() == with_rows(old(table).deep_view(), more.deep_view().take(i as int)),
        decreases more.len() - i,
    {
        assert(more.deep_view().take(i + 1).drop_last() == more.deep_view().take(i as int));
        assert(more.deep_view()[i as int] == (more@[i as int].0@, more@[i as int].1.deep_view()));
        table.insert(more[i].0.clone(), more[i].1.duplicate());
        i = i + 1;
    }
    assert(more.deep_view().take(more.len() as int) == more.deep_view());
}

impl Context {
    pub fn new(cache_dir: String, config: Vec<(BuildConfigKey, String)>) -> (r: Self)
        ensures
            r.deep_view() == fresh_context(cache_dir@, collected_config(facts_in(config@))),
    {
        let r = Context {
            lockfile: Table::new(),
            locked_dependencies: Table::new(),
            cache_dir,
            target: None,
            target_hash: None,
            config: collect_config(&config),
            tools: Table::new(),
            tool_fingerprints: Vec::new(),
            hash: 0,
        };
        assert(r.deep_view() =~= fresh_context(cache_dir@, collected_config(facts_in(config@))));
        r
    }

    pub fn with_tools(self, tools: Vec<(String, Tool)>) -> (r: Self)
        ensures
            r.deep_view() == (ContextModel {
                tools: with_rows(Seq::empty(), tools.deep_view()),
                ..self.deep_view()
            }),
    {
        let mut table: Table<Tool> = Table::new();
        extend(&mut table, &tools);
        let mut context = self;
        context.tools = table;
        context
    }

    pub fn with_tool_fingerprints(self, tool_fingerprints: Vec<(String, String)>) -> (r: Self)
        ensures
            r.deep_view() == (ContextModel { tool_fingerprints: tool_fingerprints.deep_view(), ..self.deep_view() }),
    {
        let mut context = self;
        context.tool_fingerprints = tool_fingerprints;
        context
    }

    pub fn get_config(&self, key: BuildConfigKey) -> (r: Option<&String>)
        ensures
            r.deep_view() == found_number(self.config.deep_view(), key.code()),
    {
        self.config.get(key.number())
    }

    pub fn calculate_hash(&mut self) -> (r: u64)
        ensures
            r == context_hash(old(self).config.deep_view(), old(self).tool_fingerprints.deep_view()),
            final(self).deep_view() == (ContextModel { hash: r, ..old(self).deep_view() }),
    {
        let mut bytes: Vec<u8> = Vec::new();
        let ghost config = self.config.deep_view();
        let mut i: usize = 0;
        assert(bytes@ =~= config_bytes(config.take(0)));
        while i < self.config.rows.len()
            invariant
                i <= self.config.rows.len(),
                config == self.config.deep_view(),
                bytes@ == config_bytes(config.take(i as int)),
            decreases self.config.rows.len() - i,
        {
            assert(config.take(i + 1).drop_last() == config.take(i as int));
            assert(config[i as int] == (self.config.rows@[i as int].0, self.config.rows@[i as int].1@));
            append_u32(&mut bytes, self.config.rows[i].0);
            append_text(&mut bytes, self.config.rows[i].1.as_str());
            i = i + 1;
        }
        assert(config.take(config.len() as int) == config);
        let sorted = sort_pairs(&self.tool_fingerprints);
        let ghost pairs = sorted.deep_view();
        let mut j: usize = 0;
        assert(bytes@ =~= config_bytes(config) + fingerprint_bytes(pairs.take(0)));
        while j < sorted.len()
            invariant
                j <= sorted.len(),
                pairs == sorted.deep_view(),
                bytes@ == config_bytes(config) + fingerprint_bytes(pairs.take(j as int)),
            decreases sorted.len() - j,
        {
            assert(pairs.take(j + 1).drop_last() == pairs.take(j as int));
            assert(pairs[j as int] == (sorted@[j as int].0@, sorted@[j as int].1@));
            append_text(&mut bytes, sorted[j].0.as_str());
            bytes.push(0);
            append_text(&mut bytes, sorted[j].1.as_str());
            bytes.push(0);
            j = j + 1;
            assert(bytes@ =~= config_bytes(config) + fingerprint_bytes(pairs.take(j as int)));
        }
        assert(pairs.take(pairs.len() as int) == pairs);
        self.hash = short_digest_of(&bytes);
        self.hash
    }

    pub fn with_target(&self, target: &str) -> (r: Self)
        ensures
            r.deep_view() == (ContextModel { target: Some(target@), ..self.deep_view() }),
    {
        let mut context = self.duplicate();
        context.target = Some(target.to_owned());
        context
    }

    pub fn with_task(&self, task: &Task) -> (r: Self)
        ensures
            r.deep_view() == (ContextModel {
                target: Some(task.deep_view().target),
                target_hash: match task.deep_view().config {
                    Some(config) => Some(config.hash),
                    None => None,
                },
                ..self.deep_view()
            }),
    {
        let mut context = self.duplicate();
        context.target = Some(task.target.clone());
        context.target_hash = match &task.config {
            Some(config) => Some(config.hash),
            None => None,
        };
        context
    }

    pub fn get_locked_version(&self, target: &str) -> (r: Result<String, Error>)
        ensures
            outcome(r) == locked_version(self.lockfile.deep_view(), target@),
    {
        version_in(&self.lockfile, target)
    }

    pub fn get_locked_dependency(&self, target: &str, package: &str) -> (r: Option<String>)
        ensures
            r.deep_view() == locked_dependency(self.locked_dependencies.deep_view(), target@, package@),
    {
        dependency_in(&self.locked_dependencies, target, package)
    }

    /// Adds a message to the log of the attached target; without one there is
    /// no log to add it to.
    pub fn log(&self, logs: &mut Logs, message: String)
        ensures
            final(logs).deep_view() == logged(old(logs).deep_view(), self.target.deep_view(), message@),
    {
        if let Some(target) = &self.target {
            let mut messages = match logs.get(target.as_str()) {
                Some(before) => before.duplicate(),
                None => Vec::new(),
            };
            let ghost start = messages.deep_view();
            assert(found(logs.deep_view(), target@) is None ==> start =~= Seq::empty());
            keep(&mut messages, message);
            logs.insert(target.clone(), messages);
        }
    }

    pub fn scratch_dir(&self) -> (r: String)
        requires
            self.target_hash is Some ==> self.target is Some,
        ensures
            r@ == temporary_dir(
                self.cache_dir@,
                self.lockfile.deep_view(),
                self.target.deep_view(),
                self.target_hash,
            ),
    {
        match (&self.target, self.target_hash) {
            (Some(target), None) => join_path(
                join_path(join_path(self.cache_dir.as_str(), "resolve").as_str(), "scratch").as_str(),
                resolve_dir_name(&self.lockfile, target.as_str()).as_str(),
            ),
            (Some(target), Some(hash)) => join_path(
                join_path(join_path(self.cache_dir.as_str(), "build").as_str(), "scratch").as_str(),
                build_dir_name(target.as_str(), hash).as_str(),
            ),
            _ => self.cache_dir.clone(),
        }
    }

    pub fn working_directory(&self) -> (r: String)
        requires
            self.target_hash is Some ==> self.target is Some,
        ensures
            r@ == work_dir(self.cache_dir@, self.lockfile.deep_view(), self.target.deep_view(), self.target_hash),
    {
        match (&self.target, self.target_hash) {
            (Some(target), None) => join_path(
                join_path(self.cache_dir.as_str(), "resolve").as_str(),
                resolve_dir_name(&self.lockfile, target.as_str()).as_str(),
            ),
            (Some(target), Some(hash)) => join_path(
                join_path(self.cache_dir.as_str(), "build").as_str(),
                build_dir_name(target.as_str(), hash).as_str(),
            ),
            _ => self.cache_dir.clone(),
        }
    }
}

/// `logs` with `message` behind the messages of `target`.
pub open spec fn logged(
    logs: Seq<(Seq<char>, Seq<Seq<char>>)>,
    target: Option<Seq<char>>,
    message: Seq<char>,
) -> Seq<(Seq<char>, Seq<Seq<char>>)> {
    match target {
        None => logs,
        Some(t) => with_row(logs, t, found(logs, t).unwrap_or(Seq::empty()).push(message)),
    }
}

} // verus!
