//! The executor, its tasks, and the outputs that are kept.

use cbs::assembly::{load_plugin, located_result, unloaded_result, Builder};
use cbs::build_cache::{
    after_cache, build_output_cache_file, build_output_paths, build_output_temporary_file, cached_build, keeps_output,
    parse_cached_build_output, read_cached_build_output, write_cached_build_output, BuildMove,
};
use cbs::context::{BuildConfigKey, Context};
use cbs::documents::read_json_text;
use cbs::error::{error, Error, ErrorKind};
use cbs::executor::{worker_count, Collected, Executor, PlanReply, PluginSource, RunStep, WorkItem};
use cbs::graph::TaskGraph;
use cbs::host::{Host, Known, Question, Stop};
use cbs::model::{BuildOutput, BuildResult, Config, DependencyPlan, ExternalRequirement};
use cbs::plugin_abi::{loaded_builtin_plugin, AbiBuildPlugin, CbsPluginV1, CBS_PLUGIN_ABI_VERSION};
use cbs::reach::reachable;
use cbs::rust_plugin::compile::{build_rust_request, ready_to_build};
use cbs::rust_plugin::rule::rust_manifest;
use cbs::table::Table;
use cbs::task::TaskStatus;
use cbs::text::Duplicate;

fn owned(items: &[&str]) -> Vec<String> {
    items.iter().map(|item| item.to_string()).collect()
}

/// The targets that a configuration makes its target wait for.
fn dependencies(config: &Config) -> Vec<String> {
    let mut all = config.dependencies.clone();
    all.extend(config.build_dependencies.clone());
    all.push(config.build_plugin.clone());
    all
}

fn file_at(location: &str) -> Config {
    let mut config = Config::empty();
    config.build_plugin = "@filesystem".to_string();
    config.location = Some(location.to_string());
    config
}

fn rust_target(kind: &str, source: &str, deps: &[&str]) -> Config {
    let mut config = Config::empty();
    config.build_plugin = "@rust_plugin".to_string();
    config.sources = owned(&[source]);
    config.dependencies = owned(deps);
    config.build_dependencies = owned(&["@rust_compiler"]);
    config.kind = kind.to_string();
    config
}

type Fake = Executor<Table<Config>, (), &'static str>;

/// What the resolvers answer for a target: a configuration, if one has it.
fn answer(executor: &Fake, target: &str) -> Option<Result<Config, Error>> {
    executor.resolvers.iter().find(|resolver| resolver.has(target)).map(|resolver| {
        Ok(resolver.get(target).unwrap().duplicate())
    })
}

fn plugin() -> CbsPluginV1 {
    CbsPluginV1 { abi_version: CBS_PLUGIN_ABI_VERSION, functions: 0 }
}

/// Works on all tasks; `hash` is the hash of the configuration of a target.
fn work(executor: &mut Fake, hash: impl Fn(&str) -> u64) -> Option<String> {
    loop {
        match executor.next_parallel_task() {
            WorkItem::Done => return None,
            WorkItem::Deadlocked(reason) => return Some(reason),
            WorkItem::Wait => panic!("nothing else works on tasks"),
            WorkItem::Task(task) => match task.status() {
                TaskStatus::Resolving => {
                    let answer = answer(executor, &task.target);
                    let deps = match &answer {
                        Some(Ok(config)) => dependencies(config),
                        _ => Vec::new(),
                    };
                    executor.resolve(task.id, answer, deps);
                }
                TaskStatus::Building => {
                    let config = task.config.as_ref().unwrap();
                    let start = executor.start_build(&task, &dependencies(config)).unwrap();
                    let hash = hash(&task.target);
                    let (context, placed) = executor.place_build(&task, hash);
                    let result = match start.plugin {
                        PluginSource::Registered(i) => {
                            assert_eq!(executor.builders[i], "files");
                            let mut output = BuildOutput::empty();
                            output.outputs = vec![config.location.clone().unwrap()];
                            BuildResult::Success(output)
                        }
                        PluginSource::Load(path) => {
                            assert_eq!(path, "/Users/colinwm/Documents/code/cbs/data/rust.cdylib");
                            let loaded = loaded_builtin_plugin(plugin(), rust_manifest());
                            let builder = match load_plugin(&path, &Some(Ok(loaded))) {
                                Builder::Plugin(builder) => builder,
                                _ => panic!("no plugin"),
                            };
                            match builder.build(&context, &placed, &start.inputs.outputs) {
                                Err(result) => result,
                                Ok(request) => {
                                    assert!(ready_to_build(&request));
                                    match build_rust_request(&request, "linux") {
                                        Ok(build) => BuildResult::Success(build.output),
                                        Err(message) => BuildResult::Failure(message),
                                    }
                                }
                            }
                        }
                    };
                    executor.build(task.id, result, hash);
                }
                _ => unreachable!(),
            },
        }
    }
}

fn hello_world() -> Fake {
    let mut e: Fake = Executor::new();
    e.add_builder_plugin("@filesystem".to_string(), "files");
    let mut configs: Table<Config> = Table::new();
    configs.insert(
        "//:lhello".to_string(),
        rust_target("rust_library", "/Users/colinwm/Documents/code/cbs/data/lhello.rs", &[]),
    );
    configs.insert(
        "//:hello_world".to_string(),
        rust_target("rust_binary", "/Users/colinwm/Documents/code/cbs/data/hello_world.rs", &["//:lhello"]),
    );
    configs.insert(
        "@rust_plugin".to_string(),
        file_at("/Users/colinwm/Documents/code/cbs/data/rust.cdylib"),
    );
    configs.insert("@rust_compiler".to_string(), file_at("/Users/colinwm/.cargo/bin/rustc"));
    e.add_resolver_plugin(configs);
    e
}

#[test]
fn test_execution() {
    let mut e = hello_world();
    let id = e.add_task("//:hello_world".to_string(), None);
    assert!(matches!(e.run(&vec![id], &Vec::new()), RunStep::Work));
    let failure = work(&mut e, |target| if target == "//:hello_world" { 0x6ebb3cba5d8c8cf3 } else { 1 });
    assert_eq!(failure, None);
    match e.collect_results(&vec![id]) {
        Collected::Finished(BuildResult::Success(output)) => {
            assert_eq!(
                output.outputs,
                owned(&["/tmp/cache/build/___hello_world-6ebb3cba5d8c8cf3/hello_world"])
            );
            assert_eq!(output.extras.rows.len(), 0);
        }
        _ => panic!("not built"),
    }
}

#[test]
fn each_target_is_one_task() {
    let mut e = hello_world();
    let id = e.add_task("//:lhello".to_string(), None);
    assert_eq!(e.add_task("//:lhello".to_string(), None), id);
    assert_eq!(e.tasks.tasks.len(), 1);
    let builder = e.add_task("@filesystem".to_string(), None);
    assert_eq!(e.tasks.tasks[builder].status(), TaskStatus::Done);
}

#[test]
fn a_task_waits_for_its_dependencies() {
    let mut e = hello_world();
    let id = e.add_task("//:hello_world".to_string(), None);
    let resolved = answer(&e, "//:hello_world");
    let deps = dependencies(resolved.as_ref().unwrap().as_ref().unwrap());
    assert_eq!(e.resolve(id, resolved, deps), Vec::<String>::new());
    assert_eq!(e.tasks.tasks.len(), 4);
    assert_eq!(e.tasks.tasks[id].status(), TaskStatus::Blocked);
    for other in 1..4 {
        assert_eq!(e.tasks.tasks[id].dependencies_ready, other - 1);
        e.mark_build_success(other, BuildResult::noop(), 0);
    }
    assert_eq!(e.tasks.tasks[id].status(), TaskStatus::Building);
}

#[test]
fn a_failure_reaches_all_that_depend_on_it() {
    let mut e = hello_world();
    let id = e.add_task("//:hello_world".to_string(), None);
    let apart = e.add_task("//:apart".to_string(), None);
    let resolved = answer(&e, "//:hello_world");
    let deps = dependencies(resolved.as_ref().unwrap().as_ref().unwrap());
    e.resolve(id, resolved, deps);
    let library = *e.tasks.by_target.get("//:lhello").unwrap();
    let report = e.resolve(library, Some(Err(error(ErrorKind::NotFound, "gone\nfor good".to_string()))), Vec::new());
    assert_eq!(
        report,
        owned(&[
            "\n[cbs] error: resolve failed",
            "  target: //:lhello",
            "  reason:",
            "    target resolution failed:",
            "    gone",
            "    for good",
        ])
    );
    match &e.tasks.tasks[id].result {
        Some(BuildResult::Failure(reason)) => assert_eq!(reason, "failed to build dependency: //:lhello"),
        _ => panic!("not failed"),
    }
    assert!(e.tasks.tasks[apart].result.is_none());
    assert!(e.any_tasks_failed());
    assert!(!e.all_tasks_done());
    let report = e.resolve(apart, None, Vec::new());
    assert_eq!(report[3], "    no resolver available for target //:apart");
}

#[test]
fn what_was_said_of_a_target_is_told_when_it_fails() {
    let mut e = hello_world();
    let id = e.add_task("//:lhello".to_string(), None);
    let (context, _) = e.place_build(&e.tasks.tasks[id], 0);
    context.log(&mut e.logs, "command: x\ny".to_string());
    let report = e.build(id, BuildResult::Failure("no".to_string()), 0);
    assert_eq!(
        report,
        owned(&[
            "\n[cbs] error: resolve failed",
            "  target: //:lhello",
            "  reason:",
            "    no",
            "  logs:",
            "    command: x",
            "    y",
        ])
    );
}

#[test]
fn a_circle_of_targets_is_a_deadlock() {
    let mut e: Fake = Executor::new();
    let mut configs: Table<Config> = Table::new();
    e.add_builder_plugin("@filesystem".to_string(), "files");
    for (target, dep) in [("//:a", "//:b"), ("//:b", "//:a")] {
        let mut config = file_at("/x");
        config.dependencies = owned(&[dep]);
        configs.insert(target.to_string(), config);
    }
    e.add_resolver_plugin(configs);
    e.add_task("//:a".to_string(), None);
    let failure = work(&mut e, |_| 0);
    assert_eq!(failure, Some("build graph deadlocked; waiting on //:a, //:b".to_string()));
}

#[test]
fn a_task_is_handed_out_once() {
    let mut e = hello_world();
    e.add_task("//:lhello".to_string(), None);
    assert!(matches!(e.next_parallel_task(), WorkItem::Task(task) if task.target == "//:lhello"));
    assert!(matches!(e.next_parallel_task(), WorkItem::Wait));
    e.mark_build_success(0, BuildResult::noop(), 0);
    assert!(matches!(e.next_parallel_task(), WorkItem::Done));
}

fn requirement(ecosystem: &str, package: &str) -> ExternalRequirement {
    ExternalRequirement {
        ecosystem: ecosystem.to_string(),
        package: package.to_string(),
        version: "1".to_string(),
        features: Vec::new(),
        default_features: true,
        target: None,
    }
}

#[test]
fn dependencies_are_planned_for_each_ecosystem() {
    let mut e: Fake = Executor::with_config(vec![(BuildConfigKey::TargetOS, "linux".to_string())]);
    e.add_dependency_planner_plugin("cargo".to_string(), ());
    assert_eq!(e.planner_for("cargo"), Some(0));
    assert_eq!(e.planner_for("npm"), None);
    let id = e.add_task("//:x".to_string(), None);
    let outside = e.add_task("cargo://rand".to_string(), None);
    let first = e.next_planning_task(&vec![false, true]).unwrap();
    assert_eq!(first.id, id);
    let mut config = file_at("/x");
    config.external_requirements = vec![requirement("cargo", "rand"), requirement("npm", "left-pad"), requirement("cargo", "libc")];
    e.resolve(id, Some(Ok(config)), Vec::new());
    assert!(e.next_planning_task(&vec![false, true]).is_none());
    let required = e.external_requirements();
    assert_eq!(required.rows.len(), 2);
    assert_eq!(required.get("cargo").unwrap().len(), 2);
    assert_eq!(required.get("cargo").unwrap()[1].package, "libc");
    let asked = e.planning_requests();
    assert_eq!(asked.len(), 2);
    assert_eq!((asked[0].ecosystem.as_str(), asked[0].planner), ("cargo", Some(0)));
    assert_eq!(asked[0].requirements.len(), 2);
    assert_eq!((asked[1].ecosystem.as_str(), asked[1].planner), ("npm", None));
    assert_eq!(asked[1].requirements[0].package, "left-pad");
    let mut plan = DependencyPlan::empty();
    plan.lockfile.insert("cargo://rand".to_string(), "0.8.5".to_string());
    let good = PlanReply { ecosystem: "cargo".to_string(), plan: Some(Ok(plan)) };
    let missing = PlanReply { ecosystem: "npm".to_string(), plan: None };
    let failure = e.plan_external_dependencies(&vec![missing]).err().unwrap();
    assert_eq!(failure.kind, ErrorKind::NotFound);
    assert_eq!(failure.message, "no dependency planner registered for ecosystem npm");
    assert_eq!(e.context.lockfile.rows.len(), 0);
    assert!(e.plan_external_dependencies(&vec![good]).is_ok());
    assert_eq!(e.context.get_locked_version("cargo://rand").unwrap(), "0.8.5");
    assert_eq!(e.next_planning_task(&vec![false, true]).unwrap().id, outside);
}

#[test]
fn a_build_ends_where_planning_fails() {
    let mut e = hello_world();
    let id = e.add_task("//:lhello".to_string(), None);
    let broken = PlanReply {
        ecosystem: "cargo".to_string(),
        plan: Some(Err(error(ErrorKind::Other, "offline".to_string()))),
    };
    match e.run(&vec![id], &vec![broken]) {
        RunStep::Finished(BuildResult::Failure(reason)) => {
            assert_eq!(reason, "dependency planning failed:\noffline")
        }
        _ => panic!("not failed"),
    }
    assert!(matches!(e.collect_results(&vec![id]), Collected::Waiting(0)));
    e.mark_build_success(id, BuildResult::noop(), 0);
    assert!(matches!(e.run(&vec![id], &Vec::new()), RunStep::Finished(BuildResult::Success(_))));
}

#[test]
fn a_build_has_as_many_workers_as_asked_for() {
    assert_eq!(worker_count(Some("3"), 8), 3);
    assert_eq!(worker_count(Some("0"), 8), 8);
    assert_eq!(worker_count(Some("many"), 8), 8);
    assert_eq!(worker_count(None, 8), 8);
}

#[test]
fn the_first_failure_is_the_result() {
    let mut good = BuildOutput::empty();
    good.outputs = owned(&["a"]);
    let mut more = BuildOutput::empty();
    more.outputs = owned(&["b", "c"]);
    match BuildResult::merged(&vec![BuildResult::Success(good), BuildResult::Success(more)]) {
        BuildResult::Success(output) => assert_eq!(output.outputs, owned(&["a", "b", "c"])),
        BuildResult::Failure(_) => panic!("failed"),
    }
    match BuildResult::merged(&vec![BuildResult::noop(), BuildResult::Failure("why".to_string())]) {
        BuildResult::Failure(reason) => assert!(reason.contains("why")),
        BuildResult::Success(_) => panic!("not failed"),
    }
}

#[test]
fn the_hash_of_what_a_target_is_built_from_is_that_of_its_dependencies() {
    let mut e = hello_world();
    let id = e.add_task("//:a".to_string(), None);
    e.resolve(id, Some(Ok(file_at("/x"))), Vec::new());
    assert!(e.build_inputs(&owned(&["//:a"])).is_none());
    let mut output = BuildOutput::empty();
    output.outputs = owned(&["/x"]);
    e.mark_build_success(id, BuildResult::Success(output), 0x0102030405060708);
    let inputs = e.build_inputs(&owned(&["//:a"])).unwrap();
    assert_eq!(inputs.dep_hash, 0x66840dda154e8a11);
    assert_eq!(inputs.outputs.get("//:a").unwrap().outputs, owned(&["/x"]));
    assert_eq!(e.build_inputs(&Vec::new()).unwrap().dep_hash, 0xe3b0c44298fc1c14);
}

#[test]
fn a_plugin_that_is_not_there_builds_nothing() {
    match load_plugin("/x/rust.cdylib", &None) {
        Builder::Unloaded(message) => assert_eq!(message, "plugin path /x/rust.cdylib does not exist"),
        _ => panic!("loaded"),
    }
    let broken = Some(Err(error(ErrorKind::Other, "no symbol".to_string())));
    assert!(matches!(load_plugin("/x", &broken), Builder::Unloaded(message) if message == "no symbol"));
    let old = loaded_builtin_plugin(CbsPluginV1 { abi_version: 0, functions: 0 }, rust_manifest());
    assert!(matches!(load_plugin("/x", &Some(Ok(old))), Builder::Unloaded(_)));
    match unloaded_result("no symbol") {
        BuildResult::Failure(reason) => assert_eq!(reason, "failed to load build plugin: no symbol"),
        BuildResult::Success(_) => panic!("built"),
    }
    assert!(AbiBuildPlugin::new(plugin()).is_ok());
}

#[test]
fn what_depends_on_a_task_is_found_over_any_number_of_links() {
    let links: Vec<Vec<usize>> = vec![vec![1], vec![2, 2], vec![1], vec![0]];
    assert_eq!(reachable(&links, 0), vec![false, true, true, false]);
    assert_eq!(reachable(&links, 3), vec![true, true, true, false]);
    let mut graph = TaskGraph::new();
    let a = graph.add_task("a".to_string(), None);
    graph.add_task("b".to_string(), Some(a));
    graph.add_task("b".to_string(), Some(a));
    assert_eq!(graph.rdeps, vec![Vec::<usize>::new(), vec![0, 0]]);
    let mut loose = TaskGraph::new();
    assert_eq!(loose.add_task("a".to_string(), Some(7)), 0);
    assert_eq!(loose.rdeps, vec![vec![7]]);
    graph.mark_build_success(1, BuildResult::noop(), 0);
    assert_eq!(graph.tasks[0].dependencies_ready, 2);
    graph.mark_task_failure(1, 1, BuildResult::Failure("x".to_string()));
    assert!(matches!(graph.tasks[0].result, Some(BuildResult::Failure(_))));
}

fn kept() -> BuildOutput {
    let mut output = BuildOutput::empty();
    output.outputs = owned(&["/x/lib\"a\".rlib"]);
    output.extras.insert(0, owned(&["a:/x/b", "plain"]));
    output.extras.insert(10, Vec::new());
    output
}

#[test]
fn an_output_is_read_as_it_was_kept() {
    let text = write_cached_build_output(&kept());
    let output = read_cached_build_output(&text).unwrap();
    assert_eq!(output.outputs, kept().outputs);
    assert_eq!(output.extras.rows, kept().extras.rows);
    assert_eq!(build_output_paths(&output), owned(&["/x/lib\"a\".rlib", "/x/b"]));
}

#[test]
fn what_is_no_output_is_not_read() {
    assert!(read_cached_build_output("{").is_none());
    assert!(read_cached_build_output("{\"outputs\":[]}").is_some());
    for (text, expected) in [
        ("{}", "cache missing outputs"),
        ("{\"outputs\":[1]}", "cached output path must be a string"),
        ("{\"outputs\":[],\"extras\":{\"x\":[]}}", "cached extra key must be a u32: invalid digit found in string"),
        ("{\"outputs\":[],\"extras\":{\"1\":2}}", "cached extra values must be an array"),
        ("{\"outputs\":[],\"extras\":{\"1\":[2]}}", "cached extra value must be a string"),
    ] {
        let value = read_json_text(text).unwrap();
        assert_eq!(parse_cached_build_output(&value).err().unwrap().message, expected);
        assert!(read_cached_build_output(text).is_none());
    }
}

#[test]
fn a_kept_output_is_recorded_in_place_of_a_build() {
    match after_cache(Some(kept())) {
        BuildMove::Record(BuildResult::Success(output)) => {
            assert_eq!(output.outputs, kept().outputs);
            assert_eq!(output.extras.rows, kept().extras.rows);
        }
        _ => panic!("not recorded"),
    }
    assert!(matches!(after_cache(None), BuildMove::Build));
}

#[test]
fn only_a_success_is_kept() {
    assert!(keeps_output(&BuildResult::Success(kept())));
    assert!(keeps_output(&BuildResult::Success(BuildOutput::empty())));
    assert!(!keeps_output(&BuildResult::Failure("broken".to_string())));
}

#[test]
fn a_file_that_is_there_is_its_own_output() {
    let mut config = Config::empty();
    match located_result(&config) {
        BuildResult::Success(output) => assert!(output.outputs.is_empty() && output.extras.rows.is_empty()),
        BuildResult::Failure(reason) => panic!("{reason}"),
    }
    config.location = Some("/usr/bin/cc".to_string());
    match located_result(&config) {
        BuildResult::Success(output) => assert_eq!(output.outputs, owned(&["/usr/bin/cc"])),
        BuildResult::Failure(reason) => panic!("{reason}"),
    }
}

#[test]
fn a_kept_output_is_used_while_its_files_are_there() {
    let host = Host { os: "linux".to_string(), arch: "x86_64".to_string(), windows: false, little_endian: true };
    let mut known = Known::new(host);
    let text = Some(write_cached_build_output(&kept()));
    assert!(matches!(cached_build(&known, &None), Ok(None)));
    match cached_build(&known, &text) {
        Err(Stop::Ask(Question::Exists(path))) => assert_eq!(path, "/x/lib\"a\".rlib"),
        _ => panic!("not asked"),
    }
    known.presence.insert("/x/lib\"a\".rlib".to_string(), true);
    known.presence.insert("/x/b".to_string(), true);
    assert!(matches!(cached_build(&known, &text), Ok(Some(_))));
    known.presence.insert("/x/b".to_string(), false);
    assert!(matches!(cached_build(&known, &text), Ok(None)));
    let context = Context::new("/tmp/cache".to_string(), Vec::new());
    assert_eq!(build_output_cache_file(&context), "/tmp/cache/build-output.json");
    assert_eq!(build_output_temporary_file(&context), "/tmp/cache/build-output.json.tmp");
}
