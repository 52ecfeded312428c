//! Outcomes: what is made of a file that is read, and what is told of a build that ends.

use vstd::prelude::*;

use crate::build_cache::cache_file;
use crate::command::{announced, Wish};
use crate::config_file::{import_path, loaded_rows, named_path, Evaluated};
use crate::context::{work_dir, ContextModel};
use crate::error::{ErrorKind, Fault};
use crate::executor::{
    all_done, all_indented, all_succeeded, indented, law_done_is_collected, law_success_is_of_all, next_stage, planned,
    report, Reply, Stage,
};
use crate::graph::Graph;
use crate::load_balancer::{certificate_problem, pem_certificates, pem_private_key, tls_fault};
use crate::model::Outcome;
use crate::path::{absolute, climbs, file_name_of, joined_path, lies_in, parent_of};
use crate::plugin_abi::{after_response, Built, NextStep};
use crate::task::TaskModel;
use crate::text::{begins, has_char, has_text, joined, lemma_cut, lemma_position_from, lines_in};
use crate::value::Node;
use crate::wording::{law_file_in, law_has_text};

verus! {

/// The workspace may hold what lies in it and is reached without climbing.
pub open spec fn holds_path(root: Seq<char>, path: Seq<char>) -> bool {
    !climbs(path) && (absolute(path) ==> lies_in(path, root))
}

/// An import by label is the file of that path in the package's directory.
pub proof fn law_import_by_label(root: Seq<char>, package: Seq<char>, file: Seq<char>, context: Option<Seq<char>>)
    requires
        !package.contains(':'),
        !absolute(package) && !climbs(package),
        !absolute(file) && !climbs(file),
    ensures
        ({
            let path = joined_path(joined_path(root, package), file);
            let name = "//"@ + package + ":"@ + file;
            &&& holds_path(root, path) ==> import_path(root, name, context) == Ok::<_, Seq<char>>(path)
            &&& !holds_path(root, path) ==> import_path(root, name, context) is Err
        }),
{
    reveal_strlit("//");
    reveal_strlit(":");
    let name = "//"@ + package + ":"@ + file;
    let label = package + seq![':'] + file;
    lemma_position_from(package, ':', 0);
    assert(!has_char(package, ':'));
    lemma_cut(package, ':', file);
    assert(name.subrange(0, 2) =~= "//"@);
    assert(name.take(2) =~= "//"@);
    assert(begins(name, "//"@));
    assert(name.subrange(2, name.len() as int) =~= label);
}

/// An import by label names a package and a file, and both are relative.
pub proof fn law_import_label_refused(root: Seq<char>, package: Seq<char>, file: Seq<char>, context: Option<Seq<char>>)
    requires
        !package.contains(':'),
    ensures
        absolute(package) || climbs(package) || absolute(file) || climbs(file) ==> import_path(
            root,
            "//"@ + package + ":"@ + file,
            context,
        ) is Err,
        import_path(root, "//"@ + package, context) is Err,
{
    reveal_strlit("//");
    reveal_strlit(":");
    let name = "//"@ + package + ":"@ + file;
    lemma_position_from(package, ':', 0);
    assert(!has_char(package, ':'));
    lemma_cut(package, ':', file);
    assert(name.take(2) =~= "//"@);
    assert(name.subrange(0, 2) =~= "//"@);
    assert(name.subrange(2, name.len() as int) =~= package + seq![':'] + file);
    let bare = "//"@ + package;
    assert(bare.take(2) =~= "//"@);
    assert(bare.subrange(0, 2) =~= "//"@);
    assert(bare.subrange(2, bare.len() as int) =~= package);
}

/// An import by path is the file of that path beside the one that imports it, or in the root
/// of the workspace.
pub proof fn law_import_beside(root: Seq<char>, name: Seq<char>, dir: Seq<char>, importer: Seq<char>)
    requires
        !absolute(name) && !climbs(name),
        !importer.contains('/'),
        importer != ""@ && importer != "."@ && importer != ".."@,
        dir.len() > 0 && dir.last() != '/',
        !(dir.len() > 1 && dir.last() == '.' && dir[dir.len() - 2] == '/'),
    ensures
        named_path(root, name, Some(dir.push('/') + importer)) == Ok::<_, Seq<char>>(joined_path(dir, name)),
        named_path(root, name, None) == Ok::<_, Seq<char>>(joined_path(root, name)),
{
    reveal_strlit("//");
    law_file_in(dir, importer);
    assert(!begins(name, "//"@)) by {
        if begins(name, "//"@) {
            assert(name.subrange(0, 2)[0] == '/');
            assert(name[0] == '/');
        }
    }
}

/// An import by path neither is absolute nor climbs.
pub proof fn law_import_refused(root: Seq<char>, name: Seq<char>, context: Option<Seq<char>>)
    requires
        !begins(name, "//"@),
        absolute(name) || climbs(name),
    ensures
        import_path(root, name, context) is Err,
{
}

/// A file is what it evaluates to where that is a table, and an error in every other case.
pub proof fn law_file_loaded(file: Seq<char>, loaded: Evaluated)
    ensures
        match loaded {
            Evaluated::Value(Node::Table(rows)) => loaded_rows(file, loaded) == Ok::<_, Fault>(rows),
            Evaluated::Unreadable(e) => loaded_rows(file, loaded) == Err::<Seq<(Seq<char>, Node)>, Fault>(e),
            _ => loaded_rows(file, loaded) matches Err(e) && e.kind == ErrorKind::InvalidData,
        },
{
}

/// A certificate chain and a key can be served with exactly where the one file holds at least
/// one certificate, the other a key, and the two fit.
pub proof fn law_certificates(chain_path: Seq<char>, chain_file: Seq<u8>, key_path: Seq<char>, key_file: Seq<u8>)
    ensures
        tls_fault(chain_path, chain_file, key_path, key_file) is None <==> {
            &&& pem_certificates(chain_file) is Ok
            &&& pem_certificates(chain_file)->Ok_0.len() > 0
            &&& pem_private_key(key_file) is Ok
            &&& pem_private_key(key_file)->Ok_0 is Some
            &&& certificate_problem(pem_certificates(chain_file)->Ok_0, pem_private_key(key_file)->Ok_0->Some_0) is None
        },
        tls_fault(chain_path, chain_file, key_path, key_file) matches Some(e) ==> e.kind == ErrorKind::InvalidData,
{
}

/// A build goes on while it is planned and a task is not done. It fails where planning does,
/// and ends with what the tasks came to once all are done: with success exactly where each
/// of them succeeded.
pub proof fn law_next_stage(g: Graph, roots: Seq<usize>, planning: Result<ContextModel, Fault>)
    requires
        forall|k: int| 0 <= k < roots.len() ==> (#[trigger] roots[k]) < g.tasks.len(),
    ensures
        next_stage(g, roots, planning) is Work <==> planning is Ok && !all_done(g),
        planning is Err ==> (next_stage(g, roots, planning) matches Stage::Finished(r) && r is Failure),
        planning is Ok && all_done(g) ==> {
            &&& next_stage(g, roots, planning) is Finished
            &&& next_stage(g, roots, planning)->Finished_0 is Success <==> all_succeeded(g.tasks, 0)
        },
{
    law_success_is_of_all(g, roots);
    if all_done(g) {
        law_done_is_collected(g, roots);
    }
}

/// Planning changes nothing but what is locked and the hash, and nothing at all where a
/// target failed or no planner was asked.
pub proof fn law_planned(context: ContextModel, failed: bool, replies: Seq<Reply>)
    ensures
        failed || replies.len() == 0 ==> planned(context, failed, replies) == Ok::<_, Fault>(context),
        planned(context, failed, replies) matches Ok(after) ==> {
            &&& after.cache_dir == context.cache_dir && after.config == context.config
            &&& after.tools == context.tools && after.tool_fingerprints == context.tool_fingerprints
            &&& after.target == context.target && after.target_hash == context.target_hash
        },
{
}

proof fn lemma_all_indented(messages: Seq<Seq<char>>, n: int, k: int, line: Seq<char>)
    requires
        0 <= k < n <= messages.len(),
        lines_in(messages[k]).contains(line),
    ensures
        all_indented(messages, n).contains("    "@ + line),
    decreases n,
{
    let before = all_indented(messages, n - 1);
    let last = indented(messages[n - 1]);
    if k < n - 1 {
        lemma_all_indented(messages, n - 1, k, line);
        let j = choose|j: int| 0 <= j < before.len() && before[j] == "    "@ + line;
        assert((before + last)[j] == "    "@ + line);
    } else {
        let j = choose|j: int| 0 <= j < lines_in(messages[k]).len() && lines_in(messages[k])[j] == line;
        assert(last[j] == "    "@ + line);
        assert((before + last)[before.len() + j] == "    "@ + line);
    }
}

/// The report of a failure names the target, and tells every line of the reason and of every
/// log.
pub proof fn law_report(task: TaskModel, reason: Seq<char>, logs: Option<Seq<Seq<char>>>, line: Seq<char>)
    ensures
        report(task, Outcome::Failure(reason), logs).contains("  target: "@ + task.target),
        lines_in(reason).contains(line) ==> report(task, Outcome::Failure(reason), logs).contains("    "@ + line),
        logs matches Some(messages) && (exists|k: int|
            0 <= k < messages.len() && lines_in(#[trigger] messages[k]).contains(line)) ==> report(
            task,
            Outcome::Failure(reason),
            logs,
        ).contains("    "@ + line),
        report(task, Outcome::Failure(reason), logs)[0] == if task.config is None {
            "\n[cbs] error: "@ + "resolve"@ + " failed"@
        } else {
            "\n[cbs] error: "@ + "build"@ + " failed"@
        },
{
    let all = report(task, Outcome::Failure(reason), logs);
    assert(all[1] == "  target: "@ + task.target);
    if lines_in(reason).contains(line) {
        let j = choose|j: int| 0 <= j < lines_in(reason).len() && lines_in(reason)[j] == line;
        assert(indented(reason)[j] == "    "@ + line);
        assert(all[3 + j] == "    "@ + line);
    }
    if let Some(messages) = logs {
        if exists|k: int| 0 <= k < messages.len() && lines_in(#[trigger] messages[k]).contains(line) {
            let k = choose|k: int| 0 <= k < messages.len() && lines_in(#[trigger] messages[k]).contains(line);
            lemma_all_indented(messages, messages.len() as int, k, line);
            let told = all_indented(messages, messages.len() as int);
            let j = choose|j: int| 0 <= j < told.len() && told[j] == "    "@ + line;
            let start = 3 + indented(reason).len() as int + 1;
            assert(all[start + j] == "    "@ + line);
        }
    }
}

/// What a plugin answers is what the build of its target comes to; a configuration that it
/// answers with is built in its place as it is, with a hash that is not known yet.
pub proof fn law_plugin_answered(response: Result<Built, Fault>)
    ensures
        match response {
            Ok(Built::Success(output)) => after_response(response) == NextStep::Done(Outcome::Success(output)),
            Ok(Built::Failure(reason)) => after_response(response) == NextStep::Done(Outcome::Failure(reason)),
            Ok(Built::Delegate(config)) => after_response(response) matches NextStep::Delegate(other) && {
                &&& other.hash == 0 && other.kind == config.kind && other.build_plugin == config.build_plugin
                &&& other.sources == config.sources && other.dependencies == config.dependencies
                &&& other.build_dependencies == config.build_dependencies && other.extras == config.extras
            },
            Err(_) => after_response(response) matches NextStep::Done(r) && r is Failure,
        },
{
}

/// The result of a build is kept in the directory of its target, in a file of its own.
pub proof fn law_cache_file(context: ContextModel)
    requires
        ({
            let dir = work_dir(context.cache_dir, context.lockfile, context.target, context.target_hash);
            dir.len() > 0 && dir.last() != '/' && !(dir.len() > 1 && dir.last() == '.' && dir[dir.len() - 2] == '/')
        }),
    ensures
        parent_of(cache_file(context)) == Some(
            work_dir(context.cache_dir, context.lockfile, context.target, context.target_hash),
        ),
        file_name_of(cache_file(context)) == Some("build-output.json"@),
{
    let dir = work_dir(context.cache_dir, context.lockfile, context.target, context.target_hash);
    let name = "build-output.json"@;
    reveal_strlit("build-output.json");
    reveal_strlit("");
    reveal_strlit(".");
    reveal_strlit("..");
    reveal_strlit("/");
    assert(name.len() == 17 && ""@.len() == 0 && "."@.len() == 1 && ".."@.len() == 2);
    assert(!name.contains('/'));
    law_file_in(dir, name);
    assert(dir + "/"@ + name =~= dir.push('/') + name);
    assert(!absolute(name));
}

proof fn lemma_joined_holds(parts: Seq<Seq<char>>, sep: Seq<char>, k: int) -> (around: (Seq<char>, Seq<char>))
    requires
        0 <= k < parts.len(),
    ensures
        joined(parts, sep) == around.0 + parts[k] + around.1,
    decreases parts.len(),
{
    let none = Seq::<char>::empty();
    if parts.len() == 1 {
        assert(joined(parts, sep) =~= none + parts[k] + none);
        (none, none)
    } else if k == parts.len() - 1 {
        let around = (joined(parts.drop_last(), sep) + sep, none);
        assert(joined(parts, sep) =~= around.0 + parts[k] + around.1);
        around
    } else {
        let inner = lemma_joined_holds(parts.drop_last(), sep, k);
        let around = (inner.0, inner.1 + sep + parts.last());
        assert(joined(parts, sep) =~= around.0 + parts[k] + around.1);
        around
    }
}

/// Every target that is asked for is announced.
pub proof fn law_announced(targets: Seq<Seq<char>>, k: int)
    requires
        0 <= k < targets.len(),
    ensures
        has_text(announced(Wish::Build(targets)), targets[k]),
        has_text(announced(Wish::Test(targets)), targets[k]),
        has_text(announced(Wish::Install(targets[k])), targets[k]),
        forall|args: Seq<Seq<char>>| has_text(#[trigger] announced(Wish::Run(targets[k], args)), targets[k]),
        begins(announced(Wish::Build(targets)), "[cbs] build requested: "@),
        begins(announced(Wish::Test(targets)), "[cbs] test requested: "@),
        begins(announced(Wish::Install(targets[k])), "[cbs] install requested: "@),
{
    let around = lemma_joined_holds(targets, ", "@, k);
    let none = Seq::<char>::empty();
    let target = targets[k];
    lemma_announced("[cbs] build requested: "@, around.0, target, around.1);
    lemma_announced("[cbs] test requested: "@, around.0, target, around.1);
    lemma_announced("[cbs] install requested: "@, none, target, none);
    lemma_announced("[cbs] run requested: "@, none, target, none);
    assert(none + target + none =~= target);
}

proof fn lemma_announced(head: Seq<char>, a: Seq<char>, target: Seq<char>, b: Seq<char>)
    ensures
        has_text(head + (a + target + b), target),
        begins(head + (a + target + b), head),
{
    let all = head + (a + target + b);
    assert(all =~= (head + a) + target + b);
    law_has_text(all, target);
    assert(all.subrange(0, head.len() as int) =~= head);
}

} // verus!
