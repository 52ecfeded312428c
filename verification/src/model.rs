//! What is built: targets' configurations, requirements on packages, plans,
//! tasks and their results.

use vstd::prelude::*;

use crate::table::{found, found_number, Numbered, Table};
use crate::text::{cat3, keep_all, Duplicate};

verus! {

/// A package that a target needs from an ecosystem of packages.
#[derive(Debug)]
pub struct ExternalRequirement {
    pub ecosystem: String,
    pub package: String,
    pub version: String,
    pub features: Vec<String>,
    pub default_features: bool,
    pub target: Option<String>,
}

/// What an `ExternalRequirement` says.
#[verifier::ext_equal]
pub struct Requirement {
    pub ecosystem: Seq<char>,
    pub package: Seq<char>,
    pub version: Seq<char>,
    pub features: Seq<Seq<char>>,
    pub default_features: bool,
    pub target: Option<Seq<char>>,
}

impl DeepView for ExternalRequirement {
    type V = Requirement;

    open spec fn deep_view(&self) -> Requirement {
        Requirement {
            ecosystem: self.ecosystem@,
            package: self.package@,
            version: self.version@,
            features: self.features.deep_view(),
            default_features: self.default_features,
            target: self.target.deep_view(),
        }
    }
}

impl Duplicate for ExternalRequirement {
    fn duplicate(&self) -> (r: Self) {
        ExternalRequirement {
            ecosystem: self.ecosystem.clone(),
            package: self.package.clone(),
            version: self.version.clone(),
            features: self.features.duplicate(),
            default_features: self.default_features,
            target: self.target.duplicate(),
        }
    }
}

/// The target that stands for a requirement.
pub open spec fn requirement_target(r: Requirement) -> Seq<char> {
    match r.target {
        Some(target) => target,
        None => r.ecosystem + "://"@ + r.package,
    }
}

impl ExternalRequirement {
    pub fn target(&self) -> (r: String)
        ensures
            r@ == requirement_target(self.deep_view()),
    {
        match &self.target {
            Some(target) => target.clone(),
            None => cat3(self.ecosystem.as_str(), "://", self.package.as_str()),
        }
    }
}

/// The configuration of one target.
#[derive(Debug)]
pub struct Config {
    pub dependencies: Vec<String>,
    pub external_requirements: Vec<ExternalRequirement>,
    pub build_plugin: String,
    pub location: Option<String>,
    pub sources: Vec<String>,
    pub build_dependencies: Vec<String>,
    pub kind: String,
    pub extras: Numbered<Vec<String>>,
    pub hash: u64,
}

/// What a `Config` says.
#[verifier::ext_equal]
pub struct ConfigModel {
    pub dependencies: Seq<Seq<char>>,
    pub external_requirements: Seq<Requirement>,
    pub build_plugin: Seq<char>,
    pub location: Option<Seq<char>>,
    pub sources: Seq<Seq<char>>,
    pub build_dependencies: Seq<Seq<char>>,
    pub kind: Seq<char>,
    pub extras: Seq<(u32, Seq<Seq<char>>)>,
    pub hash: u64,
}

impl DeepView for Config {
    type V = ConfigModel;

    open spec fn deep_view(&self) -> ConfigModel {
        ConfigModel {
            dependencies: self.dependencies.deep_view(),
            external_requirements: self.external_requirements.deep_view(),
            build_plugin: self.build_plugin@,
            location: self.location.deep_view(),
            sources: self.sources.deep_view(),
            build_dependencies: self.build_dependencies.deep_view(),
            kind: self.kind@,
            extras: self.extras.deep_view(),
            hash: self.hash,
        }
    }
}

impl Duplicate for Config {
    fn duplicate(&self) -> (r: Self) {
        Config {
            dependencies: self.dependencies.duplicate(),
            external_requirements: self.external_requirements.duplicate(),
            build_plugin: self.build_plugin.clone(),
            location: self.location.duplicate(),
            sources: self.sources.duplicate(),
            build_dependencies: self.build_dependencies.duplicate(),
            kind: self.kind.clone(),
            extras: self.extras.duplicate(),
            hash: self.hash,
        }
    }
}

/// The configuration that says nothing.
pub open spec fn empty_config() -> ConfigModel {
    ConfigModel {
        dependencies: Seq::empty(),
        external_requirements: Seq::empty(),
        build_plugin: Seq::empty(),
        location: None,
        sources: Seq::empty(),
        build_dependencies: Seq::empty(),
        kind: Seq::empty(),
        extras: Seq::empty(),
        hash: 0,
    }
}

impl Config {
    pub fn empty() -> (r: Self)
        ensures
            r.deep_view() == empty_config(),
    {
        let r = Config {
            dependencies: Vec::new(),
            external_requirements: Vec::new(),
            build_plugin: String::new(),
            location: None,
            sources: Vec::new(),
            build_dependencies: Vec::new(),
            kind: String::new(),
            extras: Numbered::new(),
            hash: 0,
        };
        assert(r.deep_view() =~= empty_config());
        r
    }
}

/// The versions that a planner chose, and what each locked target depends on.
pub struct DependencyPlan {
    pub lockfile: Table<String>,
    pub locked_dependencies: Table<Table<String>>,
}

/// What a `DependencyPlan` says.
#[verifier::ext_equal]
pub struct Plan {
    pub lockfile: Seq<(Seq<char>, Seq<char>)>,
    pub locked_dependencies: Seq<(Seq<char>, Seq<(Seq<char>, Seq<char>)>)>,
}

impl DeepView for DependencyPlan {
    type V = Plan;

    open spec fn deep_view(&self) -> Plan {
        Plan { lockfile: self.lockfile.deep_view(), locked_dependencies: self.locked_dependencies.deep_view() }
    }
}

impl DependencyPlan {
    pub fn empty() -> (r: Self)
        ensures
            r.deep_view() == (Plan { lockfile: Seq::empty(), locked_dependencies: Seq::empty() }),
    {
        DependencyPlan { lockfile: Table::new(), locked_dependencies: Table::new() }
    }
}

/// What a plugin is told of the build that it works for.
pub struct PluginContext {
    pub cache_dir: String,
    pub context_hash: u64,
    pub target_config: Numbered<String>,
    pub lockfile: Table<String>,
    pub locked_dependencies: Table<Table<String>>,
    pub target: Option<String>,
}

impl PluginContext {
    pub fn get_config(&self, key: u32) -> (r: Option<&String>)
        ensures
            r.deep_view() == found_number(self.target_config.deep_view(), key),
    {
        self.target_config.get(key)
    }

    /// Whether the fact under `key` is known and is `value`.
    pub fn config_is(&self, key: u32, value: &str) -> (r: bool)
        ensures
            r == (found_number(self.target_config.deep_view(), key) == Some(value@)),
    {
        match self.get_config(key) {
            Some(found) => crate::text::same(found.as_str(), value),
            None => false,
        }
    }
}

/// What a build leaves behind.
#[derive(Debug)]
pub struct BuildOutput {
    pub outputs: Vec<String>,
    pub extras: Numbered<Vec<String>>,
}

/// What a `BuildOutput` says.
#[verifier::ext_equal]
pub struct Output {
    pub outputs: Seq<Seq<char>>,
    pub extras: Seq<(u32, Seq<Seq<char>>)>,
}

impl DeepView for BuildOutput {
    type V = Output;

    open spec fn deep_view(&self) -> Output {
        Output { outputs: self.outputs.deep_view(), extras: self.extras.deep_view() }
    }
}

impl Duplicate for BuildOutput {
    fn duplicate(&self) -> (r: Self) {
        BuildOutput { outputs: self.outputs.duplicate(), extras: self.extras.duplicate() }
    }
}

pub open spec fn no_output() -> Output {
    Output { outputs: Seq::empty(), extras: Seq::empty() }
}

impl BuildOutput {
    pub fn empty() -> (r: Self)
        ensures
            r.deep_view() == no_output(),
    {
        let r = BuildOutput { outputs: Vec::new(), extras: Numbered::new() };
        assert(r.deep_view() =~= no_output());
        r
    }
}

#[derive(Debug)]
pub enum BuildResult {
    Success(BuildOutput),
    Failure(String),
}

/// What a `BuildResult` says.
#[verifier::ext_equal]
pub enum Outcome {
    Success(Output),
    Failure(Seq<char>),
}

impl DeepView for BuildResult {
    type V = Outcome;

    open spec fn deep_view(&self) -> Outcome {
        match self {
            BuildResult::Success(output) => Outcome::Success(output.deep_view()),
            BuildResult::Failure(reason) => Outcome::Failure(reason@),
        }
    }
}

impl Duplicate for BuildResult {
    fn duplicate(&self) -> (r: Self) {
        match self {
            BuildResult::Success(output) => BuildResult::Success(output.duplicate()),
            BuildResult::Failure(reason) => BuildResult::Failure(reason.clone()),
        }
    }
}

/// `extras` with `values` added behind what stands under `key`.
pub open spec fn with_more(
    extras: Seq<(u32, Seq<Seq<char>>)>,
    key: u32,
    values: Seq<Seq<char>>,
) -> Seq<(u32, Seq<Seq<char>>)> {
    crate::table::with_number(
        extras,
        key,
        match found_number(extras, key) {
            Some(before) => before + values,
            None => values,
        },
    )
}

/// `extras` with all of `more` added.
pub open spec fn with_extras(
    extras: Seq<(u32, Seq<Seq<char>>)>,
    more: Seq<(u32, Seq<Seq<char>>)>,
) -> Seq<(u32, Seq<Seq<char>>)>
    decreases more.len(),
{
    if more.len() == 0 {
        extras
    } else {
        with_more(with_extras(extras, more.drop_last()), more.last().0, more.last().1)
    }
}

/// The outputs of `results` together; a failure where one of them is a failure.
pub open spec fn merged_results(results: Seq<Outcome>) -> Outcome
    decreases results.len(),
{
    if results.len() == 0 {
        Outcome::Success(no_output())
    } else {
        match (merged_results(results.drop_last()), results.last()) {
            (Outcome::Failure(reason), _) => Outcome::Failure(reason),
            (_, Outcome::Failure(reason)) => Outcome::Failure(reason),
            (Outcome::Success(a), Outcome::Success(b)) => Outcome::Success(
                Output { outputs: a.outputs + b.outputs, extras: with_extras(a.extras, b.extras) },
            ),
        }
    }
}

fn add_extras(extras: &mut Numbered<Vec<String>>, more: &Numbered<Vec<String>>)
    ensures
        final(extras).deep_view() == with_extras(old(extras).deep_view(), more.deep_view()),
{
    let mut i: usize = 0;
    while i < more.rows.len()
        invariant
            i <= more.rows.len(),
            extras.deep_view() == with_extras(old(extras).deep_view(), more.deep_view().take(i as int)),
        decreases more.rows.len() - i,
    {
        assert(more.deep_view().take(i + 1).drop_last() == more.deep_view().take(i as int));
        let key: u32 = more.rows[i].0;
        let mut values: Vec<String> = match extras.get(key) {
            Some(before) => before.duplicate(),
            None => Vec::new(),
        };
        let ghost start = values.deep_view();
        keep_all(&mut values, &more.rows[i].1);
        proof {
            assert(more.deep_view()[i as int] == (key, more.rows@[i as int].1.deep_view()));
            if found_number(extras.deep_view(), key) is None {
                assert(start =~= Seq::empty());
                assert(values.deep_view() =~= more.rows@[i as int].1.deep_view());
            }
        }
        extras.insert(key, values);
        i = i + 1;
    }
    assert(more.deep_view().take(more.rows.len() as int) == more.deep_view());
}

impl BuildResult {
    /// The result of a build that has nothing to do.
    pub fn noop() -> (r: Self)
        ensures
            r.deep_view() == Outcome::Success(no_output()),
    {
        BuildResult::Success(BuildOutput::empty())
    }

    pub fn merged(results: &Vec<BuildResult>) -> (r: Self)
        ensures
            r.deep_view() == merged_results(results.deep_view()),
    {
        let mut outputs: Vec<String> = Vec::new();
        let mut extras: Numbered<Vec<String>> = Numbered::new();
        let mut i: usize = 0;
        assert(outputs.deep_view() =~= Seq::<Seq<char>>::empty());
        while i < results.len()
            invariant
                i <= results.len(),
                merged_results(results.deep_view().take(i as int)) == Outcome::Success(
                    Output { outputs: outputs.deep_view(), extras: extras.deep_view() },
                ),
            decreases results.len() - i,
        {
            assert(results.deep_view().take(i + 1).drop_last() == results.deep_view().take(i as int));
            match &results[i] {
                BuildResult::Success(output) => {
                    keep_all(&mut outputs, &output.outputs);
                    add_extras(&mut extras, &output.extras);
                },
                BuildResult::Failure(reason) => {
                    proof {
                        lemma_failure_stays(results.deep_view(), i + 1);
                    }
                    return BuildResult::Failure(reason.clone());
                },
            }
            i = i + 1;
        }
        assert(results.deep_view().take(results.len() as int) == results.deep_view());
        BuildResult::Success(BuildOutput { outputs, extras })
    }
}

proof fn lemma_failure_stays(results: Seq<Outcome>, n: int)
    requires
        0 <= n <= results.len(),
        merged_results(results.take(n)) is Failure,
    ensures
        merged_results(results) == merged_results(results.take(n)),
    decreases results.len() - n,
{
    if n == results.len() {
        assert(results.take(n) == results);
    } else {
        assert(results.take(n + 1).drop_last() == results.take(n));
        lemma_failure_stays(results, n + 1);
    }
}

} // verus!
