//! Setup: what the file of a workspace sets up, from its plugins to the machine that is
//! built for, and where its targets keep their files.

use vstd::prelude::*;

use crate::context::{
    collected_config, placed_pair, sorted_pairs, target_dir, temporary_dir, version_name, work_dir, BuildConfigKey,
};
use crate::digest::{hex, hex_bytes, sha256, short_digest, utf8};
use crate::equipment::law_tools_added;
use crate::error::Fault;
use crate::host::{Halt, Query, StartRequest, Started, World};
use crate::path::joined_path;
use crate::platform::{
    active_requirements, fingerprints_of, platform_fingerprints, requirement_fingerprint, required_tool,
    scoped_requirements, states_requirement, target_facts, usual_env, usual_vendor, xcode_fingerprint, Requirements,
};
use crate::rules::Rows;
use crate::table::{found, found_number, law_with_number, law_with_row, with_row};
use crate::tools::{tool_path, Declared, DeclaredTools};
use crate::value::{member, rows_in, text_in, Node};
use crate::workspace_config::{
    all_declared, all_plugins, brought_by, cache_of, compiler_of, configured_by, has_plugin, loaded_named,
    parameters_in, plugin_in, plugins_in, prints_of, tool_or_path, Brought, PluginRow,
};

verus! {

/// What a plugin is told is all that is stated for it, each under its name; anything but a
/// text is refused.
pub proof fn law_parameters(rows: Rows, i: int, done: Seq<(Seq<char>, Seq<char>)>, key: Seq<char>)
    requires
        0 <= i <= rows.len(),
    ensures
        parameters_in(rows, i, done) is Ok <==> forall|k: int| i <= k < rows.len() ==> (#[trigger] rows[k]).1 is Text,
        parameters_in(rows, i, done) matches Ok(end) ==> {
            ||| exists|k: int|
                i <= k < rows.len() && (#[trigger] rows[k]).0 == key && rows[k].1 == Node::Text(found(end, key)->0) && found(
                    end,
                    key,
                ) is Some && forall|j: int| k < j < rows.len() ==> (#[trigger] rows[j]).0 != key
            ||| found(end, key) == found(done, key) && forall|k: int| i <= k < rows.len() ==> (#[trigger] rows[k]).0 != key
        },
    decreases rows.len() - i,
{
    if i < rows.len() {
        if let Some(text) = text_in(Some(rows[i].1)) {
            let next = with_row(done, rows[i].0, text);
            law_with_row(done, rows[i].0, text, key);
            law_parameters(rows, i + 1, next, key);
            if let Ok(end) = parameters_in(rows, i, done) {
                if rows[i].0 == key && forall|k: int| i + 1 <= k < rows.len() ==> (#[trigger] rows[k]).0 != key {
                    assert(found(end, key) == Some(text));
                    assert(rows[i].1 == Node::Text(text));
                }
            }
        }
    }
}

/// Whether an entry of a workspace's plugins says what `plugin` is.
pub open spec fn says_plugin(root: Seq<char>, entry: Node, plugin: PluginRow) -> bool {
    &&& member(Some(entry), "name"@) == Some(Node::Text(plugin.name))
    &&& member(Some(entry), "path"@) matches Some(Node::Text(path)) && plugin.path == joined_path(root, path)
    &&& match member(Some(entry), "parameters"@) {
        None => plugin.parameters.len() == 0,
        Some(value) => value matches Node::Table(rows) && parameters_in(rows, 0, Seq::empty()) == Ok::<_, Fault>(
            plugin.parameters,
        ),
    }
}

/// The plugins of a workspace are its entries, in their order; the plugin for Rust comes
/// before them where they do not have one of their own.
pub proof fn law_plugins_stated(root: Seq<char>, entries: Seq<Node>, i: int, done: Seq<PluginRow>)
    requires
        0 <= i <= entries.len(),
    ensures
        plugins_in(root, entries, i, done) matches Ok(list) ==> {
            &&& list.len() == done.len() + entries.len() - i
            &&& list.take(done.len() as int) == done
            &&& forall|k: int| i <= k < entries.len() ==> says_plugin(root, #[trigger] entries[k], list[done.len() + k - i])
        },
        plugins_in(root, entries, i, done) is Ok <==> forall|k: int|
            i <= k < entries.len() ==> plugin_in(root, #[trigger] entries[k]) is Ok,
    decreases entries.len() - i,
{
    if i < entries.len() {
        if let Ok(plugin) = plugin_in(root, entries[i]) {
            let next = done.push(plugin);
            law_plugins_stated(root, entries, i + 1, next);
            assert(says_plugin(root, entries[i], plugin));
            if let Ok(list) = plugins_in(root, entries, i + 1, next) {
                assert(list.take(done.len() as int) =~= done) by {
                    assert forall|k: int| 0 <= k < done.len() implies list[k] == done[k] by {
                        assert(list.take(next.len() as int)[k] == next[k]);
                    }
                }
                assert(list.take(next.len() as int)[done.len() as int] == plugin);
            }
        }
    } else {
        assert(done.take(done.len() as int) =~= done);
    }
}

/// A workspace has the plugins that it states, and before them the one for Rust unless it
/// states one of that name.
pub proof fn law_workspace_plugins(root: Seq<char>, rows: Rows, entries: Seq<Node>)
    requires
        found(rows, "plugins"@) == Some(Node::Array(entries)),
        all_plugins(root, rows) is Ok,
    ensures
        ({
            let list = all_plugins(root, rows)->Ok_0;
            let extra: int = if list.len() == entries.len() {
                0
            } else {
                1
            };
            &&& list.len() == entries.len() + extra
            &&& forall|k: int| 0 <= k < entries.len() ==> says_plugin(root, #[trigger] entries[k], list[k + extra])
            &&& extra == 1 ==> list[0].name == "rust"@ && list[0].path == "/tmp/rust.cdylib"@ && list[0].parameters.len() == 0
            &&& extra == 1 <==> forall|k: int|
                0 <= k < entries.len() ==> member(Some(#[trigger] entries[k]), "name"@) != Some(Node::Text("rust"@))
        }),
{
    law_plugins_stated(root, entries, 0, Seq::empty());
    let declared = plugins_in(root, entries, 0, Seq::empty())->Ok_0;
    let list = all_plugins(root, rows)->Ok_0;
    assert forall|k: int| 0 <= k < entries.len() implies says_plugin(root, #[trigger] entries[k], declared[k]) by {}
    if has_plugin(declared, "rust"@) {
        let k = choose|k: int| 0 <= k < declared.len() && (#[trigger] declared[k]).name == "rust"@;
        assert(says_plugin(root, entries[k], declared[k]));
        assert(member(Some(entries[k]), "name"@) == Some(Node::Text("rust"@)));
    } else {
        assert forall|k: int| 0 <= k < entries.len() implies member(Some(#[trigger] entries[k]), "name"@) != Some(
            Node::Text("rust"@),
        ) by {
            assert(says_plugin(root, entries[k], declared[k]));
            assert(declared[k].name != "rust"@);
        }
        assert forall|k: int| 0 <= k < entries.len() implies says_plugin(root, #[trigger] entries[k], list[k + 1]) by {
            assert(list[k + 1] == declared[k]);
        }
    }
}

/// Whether the plugin that was started as the `k`th brings `tool`.
pub open spec fn brings(w: World, k: int, tool: Declared) -> bool {
    w.started[k] matches Ok(Started::Success(tools, _)) && exists|j: int|
        0 <= j < tools.len() && tool.name == (#[trigger] tools[j]).name && tool.kind == tools[j].kind && tool.path
            == tools[j].path && tool.fingerprint == tools[j].fingerprint && tool.sha256 is None
}

/// Whether the plugin that was started as the `k`th brings the fingerprint `print`.
pub open spec fn brings_print(w: World, k: int, print: (Seq<char>, Seq<char>)) -> bool {
    w.started[k] matches Ok(Started::Success(_, prints)) && prints.contains(print)
}

/// Plugins bring their tools and fingerprints once all of them were started: all that each
/// of them brings, and nothing else.
pub proof fn law_brought(
    w: World,
    root: Seq<char>,
    cache_dir: Seq<char>,
    facts: Seq<(u32, Seq<char>)>,
    plugins: Seq<PluginRow>,
    i: int,
    done: Brought,
    tool: Declared,
    print: (Seq<char>, Seq<char>),
)
    requires
        0 <= i <= plugins.len(),
        brought_by(w, root, cache_dir, facts, plugins, i, done) is Ok,
    ensures
        ({
            let end = brought_by(w, root, cache_dir, facts, plugins, i, done)->Ok_0;
            &&& end.tools.contains(tool) <==> done.tools.contains(tool) || exists|k: int|
                i <= k < plugins.len() && #[trigger] brings(w, k, tool)
            &&& end.fingerprints.contains(print) <==> done.fingerprints.contains(print) || exists|k: int|
                i <= k < plugins.len() && #[trigger] brings_print(w, k, print)
            &&& i < plugins.len() ==> w.started.len() >= plugins.len()
        }),
    decreases plugins.len() - i,
{
    if i < plugins.len() {
        let (tools, prints) = match w.started[i] {
            Ok(Started::Success(tools, prints)) => (tools, prints),
            _ => (Seq::empty(), Seq::empty()),
        };
        let next = Brought {
            tools: done.tools + all_declared(tools),
            fingerprints: done.fingerprints + prints,
        };
        law_brought(w, root, cache_dir, facts, plugins, i + 1, next, tool, print);
        lemma_in_either(done.tools, all_declared(tools), tool);
        lemma_in_either(done.fingerprints, prints, print);
        let list = all_declared(tools);
        if list.contains(tool) {
            let j = choose|j: int| 0 <= j < list.len() && list[j] == tool;
            assert(tool.name == tools[j].name);
            assert(brings(w, i, tool));
        }
        if brings(w, i, tool) {
            let j = choose|j: int|
                0 <= j < tools.len() && tool.name == (#[trigger] tools[j]).name && tool.kind == tools[j].kind && tool.path
                    == tools[j].path && tool.fingerprint == tools[j].fingerprint && tool.sha256 is None;
            assert(list[j] == tool);
        }
        assert(brings_print(w, i, print) <==> prints.contains(print));
    }
}

proof fn lemma_in_either<T>(a: Seq<T>, b: Seq<T>, x: T)
    ensures
        (a + b).contains(x) <==> a.contains(x) || b.contains(x),
{
    let both = a + b;
    if both.contains(x) {
        let i = choose|i: int| 0 <= i < both.len() && both[i] == x;
        assert(if i < a.len() { a[i] == x } else { b[i - a.len()] == x });
    }
    if a.contains(x) {
        let i = choose|i: int| 0 <= i < a.len() && a[i] == x;
        assert(both[i] == x);
    }
    if b.contains(x) {
        let i = choose|i: int| 0 <= i < b.len() && b[i] == x;
        assert(both[a.len() + i] == x);
    }
}

/// A plugin is started with what the workspace states for it, once the plugins before it
/// were started.
pub proof fn law_plugin_asked(
    w: World,
    root: Seq<char>,
    cache_dir: Seq<char>,
    facts: Seq<(u32, Seq<char>)>,
    plugins: Seq<PluginRow>,
    done: Brought,
)
    requires
        w.started.len() < plugins.len(),
        loaded_named(w, plugins[w.started.len() as int], "initialize"@) is Ok,
    ensures
        brought_by(w, root, cache_dir, facts, plugins, w.started.len() as int, done) == Err::<Brought, Halt>(
            Halt::Ask(
                Query::Start(
                    StartRequest {
                        name: plugins[w.started.len() as int].name,
                        workspace_root: root,
                        cache_dir,
                        target_config: facts,
                        parameters: plugins[w.started.len() as int].parameters,
                    },
                ),
            ),
        ),
{
}

/// A plugin's file has to hold the plugin of the name that is stated.
pub proof fn law_plugin_named(w: World, row: PluginRow, verb: Seq<char>)
    ensures
        loaded_named(w, row, verb) matches Ok(loaded) ==> w.plugin(row.path, row.name) == Ok::<_, Halt>(loaded)
            && loaded.manifest.name == row.name,
        w.plugin(row.path, row.name) matches Ok(loaded) ==> (loaded.manifest.name == row.name ==> loaded_named(w, row, verb)
            is Ok),
{
}

/// Sorting pairs keeps each of them, and adds none.
pub proof fn law_pairs_sorted(pairs: Seq<(Seq<char>, Seq<char>)>, x: (Seq<char>, Seq<char>))
    ensures
        sorted_pairs(pairs).contains(x) <==> pairs.contains(x),
        sorted_pairs(pairs).len() == pairs.len(),
    decreases pairs.len(),
{
    if pairs.len() > 0 {
        let front = pairs.drop_last();
        law_pairs_sorted(front, x);
        lemma_placed(sorted_pairs(front), pairs.last(), x);
        assert(pairs =~= front + seq![pairs.last()]);
        lemma_in_either(front, seq![pairs.last()], x);
        assert(seq![pairs.last()].contains(x) <==> x == pairs.last()) by {
            assert(seq![pairs.last()][0] == pairs.last());
        }
    }
}

proof fn lemma_placed(list: Seq<(Seq<char>, Seq<char>)>, y: (Seq<char>, Seq<char>), x: (Seq<char>, Seq<char>))
    ensures
        placed_pair(list, y).contains(x) <==> list.contains(x) || x == y,
        placed_pair(list, y).len() == list.len() + 1,
    decreases list.len(),
{
    assert(seq![y][0] == y);
    assert(seq![y].contains(x) <==> x == y);
    if list.len() > 0 {
        lemma_placed(list.skip(1), y, x);
        assert(list =~= seq![list[0]] + list.skip(1));
        assert(seq![list[0]][0] == list[0]);
        assert(seq![list[0]].contains(x) <==> x == list[0]);
        lemma_in_either(seq![list[0]], list.skip(1), x);
        lemma_in_either(seq![list[0]], placed_pair(list.skip(1), y), x);
        lemma_in_either(seq![y], list, x);
    }
}

/// What a workspace is configured with: its cache and compiler as it states them, its own
/// tools and those that its plugins bring; and a fingerprint of each tool, of each
/// requirement on the platform, and each that a plugin brings.
pub proof fn law_workspace_configured(w: World, root: Seq<char>, rows: Rows)
    requires
        configured_by(w, root, rows) is Ok,
    ensures
        ({
            let c = configured_by(w, root, rows)->Ok_0;
            let start = Brought { tools: Seq::empty(), fingerprints: Seq::empty() };
            &&& c.cache_dir == cache_of(root, rows)
            &&& target_facts(w, rows) == Ok::<_, Halt>(c.target_config)
            &&& all_plugins(root, rows) == Ok::<_, Fault>(c.plugins)
            &&& compiler_of(w, rows) matches Ok(name) && c.rustc == tool_or_path(root, c.tools, name)
            &&& crate::tools::workspace_declared(w, root, rows) matches Ok(own) && platform_fingerprints(w, root, rows)
                matches Ok(prints) && brought_by(w, root, c.cache_dir, collected_config(c.target_config), c.plugins, 0, start)
                matches Ok(brought) && {
                &&& forall|name: Seq<char>|
                    found(own, name) is Some ==> #[trigger] found(c.tools, name) == found(own, name)
                &&& forall|k: int|
                    0 <= k < brought.tools.len() ==> found(c.tools, (#[trigger] brought.tools[k]).name) == Some(
                        brought.tools[k],
                    )
                &&& forall|k: int|
                    0 <= k < c.tools.len() ==> c.tool_fingerprints.contains(
                        ((#[trigger] c.tools[k]).0, c.tools[k].1.fingerprint),
                    )
                &&& forall|k: int| 0 <= k < prints.len() ==> c.tool_fingerprints.contains(#[trigger] prints[k])
                &&& forall|k: int|
                    0 <= k < brought.fingerprints.len() ==> c.tool_fingerprints.contains(#[trigger] brought.fingerprints[k])
                &&& c.tool_fingerprints.len() == c.tools.len() + prints.len() + brought.fingerprints.len()
            }
        }),
{
    let c = configured_by(w, root, rows)->Ok_0;
    let start = Brought { tools: Seq::empty(), fingerprints: Seq::empty() };
    let own = crate::tools::workspace_declared(w, root, rows)->Ok_0;
    let prints = platform_fingerprints(w, root, rows)->Ok_0;
    let brought = brought_by(w, root, c.cache_dir, collected_config(c.target_config), c.plugins, 0, start)->Ok_0;
    law_tools_added(own, brought.tools, 0);
    assert forall|name: Seq<char>| found(own, name) is Some implies #[trigger] found(c.tools, name) == found(own, name) by {
        assert forall|k: int| 0 <= k < brought.tools.len() implies (#[trigger] brought.tools[k]).name != name by {
            assert(found(own, brought.tools[k].name) is None);
        }
    }
    let all = prints_of(c.tools) + (prints + brought.fingerprints);
    law_pairs_sorted(all, ("a"@, "b"@));
    assert forall|k: int| 0 <= k < c.tools.len() implies c.tool_fingerprints.contains(
        ((#[trigger] c.tools[k]).0, c.tools[k].1.fingerprint),
    ) by {
        assert(all[k] == (c.tools[k].0, c.tools[k].1.fingerprint));
        law_pairs_sorted(all, (c.tools[k].0, c.tools[k].1.fingerprint));
    }
    assert forall|k: int| 0 <= k < prints.len() implies c.tool_fingerprints.contains(#[trigger] prints[k]) by {
        assert(all[c.tools.len() + k] == prints[k]);
        law_pairs_sorted(all, prints[k]);
    }
    assert forall|k: int| 0 <= k < brought.fingerprints.len() implies c.tool_fingerprints.contains(
        #[trigger] brought.fingerprints[k],
    ) by {
        assert(all[c.tools.len() + prints.len() + k] == brought.fingerprints[k]);
        law_pairs_sorted(all, brought.fingerprints[k]);
    }
}

/// Where a workspace keeps what it builds, and what its compiler is called: as it states, or
/// as usual.
pub proof fn law_workspace_places(w: World, root: Seq<char>, rows: Rows, tools: DeclaredTools, value: Seq<char>)
    ensures
        member(found(rows, "workspace"@), "cache_dir"@) matches Some(Node::Text(dir)) ==> cache_of(root, rows) == joined_path(
            root,
            dir,
        ),
        member(found(rows, "workspace"@), "cache_dir"@) is None ==> cache_of(root, rows) == joined_path(
            joined_path(root, ".cbs"@),
            "cache"@,
        ),
        member(member(found(rows, "toolchain"@), "rust"@), "rustc"@) matches Some(Node::Text(name)) ==> compiler_of(w, rows)
            == Ok::<Seq<char>, Halt>(name),
        member(member(found(rows, "toolchain"@), "rust"@), "rustc"@) is None ==> (w.variable("RUSTC"@) matches Ok(variable)
            ==> compiler_of(w, rows) == Ok::<Seq<char>, Halt>(variable.unwrap_or("rustc"@))),
        found(tools, value) matches Some(tool) ==> tool_or_path(root, tools, value) == tool.path,
        found(tools, value) is None ==> tool_or_path(root, tools, value) == tool_path(root, value),
{
}

/// What is known of the machine that is built for is what the workspace states of it, or
/// else what the machine is that it is built on.
pub proof fn law_machine_facts(w: World, rows: Rows)
    ensures
        target_facts(w, rows) matches Ok(facts) ==> {
            let known = collected_config(facts);
            let os = stated_or(rows, "os"@, w.host.os);
            &&& found_number(known, BuildConfigKey::TargetOS.code()) == Some(os)
            &&& found_number(known, BuildConfigKey::TargetFamily.code()) == Some(
                stated_or(
                    rows,
                    "family"@,
                    if w.host.windows {
                        "windows"@
                    } else {
                        "unix"@
                    },
                ),
            )
            &&& found_number(known, BuildConfigKey::TargetArch.code()) == Some(stated_or(rows, "arch"@, w.host.arch))
            &&& found_number(known, BuildConfigKey::TargetVendor.code()) == Some(stated_or(rows, "vendor"@, usual_vendor(os)))
            &&& found_number(known, BuildConfigKey::TargetEnv.code()) == Some(stated_or(rows, "env"@, usual_env(os)))
            &&& found_number(known, BuildConfigKey::TargetEndian.code()) == Some(
                stated_or(
                    rows,
                    "endian"@,
                    if w.host.little_endian {
                        "little"@
                    } else {
                        "big"@
                    },
                ),
            )
            &&& os == "macos"@ ==> crate::tools::developer_dir(w) == Ok::<Seq<char>, Halt>(
                found_number(known, BuildConfigKey::MacosDeveloperDir.code())->0,
            ) && crate::tools::macos_sdk(w) == Ok::<Seq<char>, Halt>(
                found_number(known, BuildConfigKey::MacosSdkPath.code())->0,
            )
            &&& os != "macos"@ ==> found_number(known, BuildConfigKey::MacosSdkPath.code()) is None
        },
{
    if let Ok(facts) = target_facts(w, rows) {
        law_fact_collected(facts, 0);
        law_fact_collected(facts, 1);
        law_fact_collected(facts, 2);
        law_fact_collected(facts, 3);
        law_fact_collected(facts, 4);
        law_fact_collected(facts, 5);
        if facts.len() > 6 {
            law_fact_collected(facts, 6);
            law_fact_collected(facts, 7);
        } else {
            lemma_not_collected(facts, BuildConfigKey::MacosSdkPath);
        }
    }
}

/// What is stated under `key` of the machine that is built for, or `default`.
pub open spec fn stated_or(rows: Rows, key: Seq<char>, default: Seq<char>) -> Seq<char> {
    match member(found(rows, "target"@), key) {
        Some(Node::Text(value)) => value,
        _ => default,
    }
}

/// Of facts that are given, the last of each key is known.
pub proof fn law_fact_collected(pairs: Seq<(BuildConfigKey, Seq<char>)>, i: int)
    requires
        0 <= i < pairs.len(),
        forall|j: int| i < j < pairs.len() ==> (#[trigger] pairs[j]).0 != pairs[i].0,
    ensures
        found_number(collected_config(pairs), pairs[i].0.code()) == Some(pairs[i].1),
    decreases pairs.len(),
{
    let front = pairs.drop_last();
    law_with_number(collected_config(front), pairs.last().0.code(), pairs.last().1, pairs[i].0.code());
    if i < pairs.len() - 1 {
        law_fact_collected(front, i);
        assert(pairs[pairs.len() - 1].0 != pairs[i].0);
    }
}

proof fn lemma_not_collected(pairs: Seq<(BuildConfigKey, Seq<char>)>, key: BuildConfigKey)
    requires
        forall|j: int| 0 <= j < pairs.len() ==> (#[trigger] pairs[j]).0 != key,
    ensures
        found_number(collected_config(pairs), key.code()) is None,
    decreases pairs.len(),
{
    if pairs.len() > 0 {
        let front = pairs.drop_last();
        assert forall|j: int| 0 <= j < front.len() implies (#[trigger] front[j]).0 != key by {
            assert(pairs[j].0 != key);
        }
        lemma_not_collected(front, key);
        assert(pairs[pairs.len() - 1].0 != key);
        law_with_number(collected_config(front), pairs.last().0.code(), pairs.last().1, key.code());
    }
}

/// Machines of the known systems have the vendor and the environment of their triples.
pub proof fn law_usual_machines()
    ensures
        usual_vendor("macos"@) == "apple"@ && usual_env("macos"@) == ""@,
        usual_vendor("windows"@) == "pc"@ && usual_env("windows"@) == "msvc"@,
        usual_vendor("linux"@) == "unknown"@ && usual_env("linux"@) == "gnu"@,
        usual_vendor("ios"@) == "apple"@ && usual_vendor("tvos"@) == "apple"@ && usual_vendor("watchos"@) == "apple"@
            && usual_vendor("visionos"@) == "apple"@,
{
    reveal_strlit("macos");
    reveal_strlit("windows");
    reveal_strlit("linux");
    reveal_strlit("ios");
    reveal_strlit("tvos");
    reveal_strlit("watchos");
    reveal_strlit("visionos");
    assert("windows"@.len() == 7 && "macos"@.len() == 5 && "linux"@.len() == 5 && "ios"@.len() == 3 && "tvos"@.len() == 4
        && "watchos"@.len() == 7 && "visionos"@.len() == 8);
    assert("linux"@[0] == 'l' && "macos"@[0] == 'm');
    assert("windows"@[1] == 'i' && "watchos"@[1] == 'a');
}

/// Whether a row of a workspace's requirements states `r` for the system `os`.
pub open spec fn states(os: Seq<char>, row: (Seq<char>, Node), r: (Option<Seq<char>>, Seq<char>, Rows)) -> bool {
    row.1 matches Node::Table(table) && if row.0 == os {
        r.0 == Some(os) && exists|k: int| 0 <= k < table.len() && (#[trigger] table[k]).0 == r.1 && table[k].1 == Node::Table(r.2)
    } else {
        states_requirement(table) && r.0 is None && r.1 == row.0 && r.2 == table
    }
}

proof fn lemma_scoped(platform: Seq<char>, rows: Rows, i: int, done: Requirements, r: (Option<Seq<char>>, Seq<char>, Rows))
    requires
        0 <= i <= rows.len(),
    ensures
        scoped_requirements(platform, rows, i, done) matches Ok(end) ==> (end.contains(r) <==> done.contains(r) || (r.0 == Some(
            platform,
        ) && exists|k: int| i <= k < rows.len() && (#[trigger] rows[k]).0 == r.1 && rows[k].1 == Node::Table(r.2))),
    decreases rows.len() - i,
{
    if i < rows.len() {
        if let Some(table) = rows_in(Some(rows[i].1)) {
            let one = (Some(platform), rows[i].0, table);
            let next = done.push(one);
            lemma_scoped(platform, rows, i + 1, next, r);
            assert(next =~= done + seq![one]);
            lemma_in_either(done, seq![one], r);
            assert(seq![one][0] == one);
            assert(seq![one].contains(r) <==> r == one);
            if r == one {
                assert(rows[i].0 == r.1 && rows[i].1 == Node::Table(r.2));
            }
        }
    }
}

/// The requirements that concern a machine are those that are stated for its system, and
/// those that are stated for any.
pub proof fn law_requirements_active(
    os: Seq<char>,
    rows: Rows,
    i: int,
    done: Requirements,
    r: (Option<Seq<char>>, Seq<char>, Rows),
)
    requires
        0 <= i <= rows.len(),
    ensures
        active_requirements(os, rows, i, done) matches Ok(end) ==> (end.contains(r) <==> done.contains(r) || exists|k: int|
            i <= k < rows.len() && states(os, #[trigger] rows[k], r)),
    decreases rows.len() - i,
{
    if i < rows.len() {
        if let Some(table) = rows_in(Some(rows[i].1)) {
            if rows[i].0 == os {
                lemma_scoped(os, table, 0, done, r);
                if let Ok(next) = scoped_requirements(os, table, 0, done) {
                    law_requirements_active(os, rows, i + 1, next, r);
                    if states(os, rows[i], r) {
                        assert(next.contains(r));
                    }
                }
            } else if states_requirement(table) {
                let one = (None::<Seq<char>>, rows[i].0, table);
                let next = done.push(one);
                law_requirements_active(os, rows, i + 1, next, r);
                assert(next =~= done + seq![one]);
                lemma_in_either(done, seq![one], r);
                assert(seq![one][0] == one);
                assert(seq![one].contains(r) <==> r == one);
                assert(states(os, rows[i], r) <==> r == one);
            } else {
                law_requirements_active(os, rows, i + 1, done, r);
                assert(!states(os, rows[i], r));
            }
        }
    }
}

/// The fingerprints of requirements are those of each that concerns the machine.
pub proof fn law_requirement_fingerprints(
    w: World,
    root: Seq<char>,
    active: Requirements,
    i: int,
    done: Seq<(Seq<char>, Seq<char>)>,
    print: (Seq<char>, Seq<char>),
)
    requires
        0 <= i <= active.len(),
    ensures
        fingerprints_of(w, root, active, i, done) matches Ok(end) ==> {
            &&& end.contains(print) <==> done.contains(print) || exists|k: int|
                i <= k < active.len() && requirement_fingerprint(w, root, (#[trigger] active[k]).0, active[k].1, active[k].2)
                    == Ok::<_, Halt>(Some(print))
            &&& forall|k: int|
                i <= k < active.len() ==> requirement_fingerprint(w, root, (#[trigger] active[k]).0, active[k].1, active[k].2)
                    is Ok
        },
    decreases active.len() - i,
{
    if i < active.len() {
        match requirement_fingerprint(w, root, active[i].0, active[i].1, active[i].2) {
            Ok(None) => law_requirement_fingerprints(w, root, active, i + 1, done, print),
            Ok(Some(row)) => {
                let next = done.push(row);
                law_requirement_fingerprints(w, root, active, i + 1, next, print);
                assert(next =~= done + seq![row]);
                lemma_in_either(done, seq![row], print);
                assert(seq![row][0] == row);
                assert(seq![row].contains(print) <==> print == row);
            },
            Err(_) => {},
        }
    }
}

/// A requirement that concerns another system than the machine's has no fingerprint; one
/// that concerns it has that of its tool, under its own name.
pub proof fn law_requirement_fingerprint(w: World, root: Seq<char>, scope: Option<Seq<char>>, name: Seq<char>, rows: Rows)
    requires
        found(rows, "_type"@) == Some(Node::Text("xcode_tool"@)),
    ensures
        scope is Some && scope->0 != w.host.os ==> requirement_fingerprint(w, root, scope, name, rows) == Ok::<_, Halt>(
            None::<(Seq<char>, Seq<char>)>,
        ),
        w.host.os != "macos"@ && found(rows, "platform"@) is None ==> requirement_fingerprint(w, root, scope, name, rows)
            == Ok::<_, Halt>(None::<(Seq<char>, Seq<char>)>),
        w.host.os == "macos"@ && found(rows, "platform"@) is None && scope is None ==> match required_tool(
            w,
            root,
            name,
            "xcode_tool"@,
            rows,
        ) {
            Ok(print) => requirement_fingerprint(w, root, scope, name, rows) == Ok::<_, Halt>(
                Some(("platform_requirement:"@ + name, print)),
            ),
            Err(stop) => requirement_fingerprint(w, root, scope, name, rows) matches Err(other) && other == stop,
        },
{
    reveal_strlit("macos");
}

/// A target that is resolved keeps its files apart from one that is built, and what need not
/// stay apart from both; without a target all is kept in the cache.
pub proof fn law_places(cache_dir: Seq<char>, lockfile: Seq<(Seq<char>, Seq<char>)>, target: Seq<char>, hash: u64)
    ensures
        ({
            let locked = found(lockfile, target).unwrap_or(Seq::empty());
            let resolved = target_dir(target) + "-"@ + version_name(locked);
            let built = target_dir(target) + "-"@ + hex(hash as int);
            &&& work_dir(cache_dir, lockfile, Some(target), None) == joined_path(joined_path(cache_dir, "resolve"@), resolved)
            &&& work_dir(cache_dir, lockfile, Some(target), Some(hash)) == joined_path(joined_path(cache_dir, "build"@), built)
            &&& work_dir(cache_dir, lockfile, None, None) == cache_dir
            &&& temporary_dir(cache_dir, lockfile, Some(target), None) == joined_path(
                joined_path(joined_path(cache_dir, "resolve"@), "scratch"@),
                resolved,
            )
            &&& temporary_dir(cache_dir, lockfile, Some(target), Some(hash)) == joined_path(
                joined_path(joined_path(cache_dir, "build"@), "scratch"@),
                built,
            )
        }),
{
}

/// A target's directory is named by the target with `_` for what separates its parts; a
/// version is part of the name as it is, or by its digest where it is long.
pub proof fn law_place_names(target: Seq<char>, i: int, version: Seq<char>)
    requires
        0 <= i < target.len(),
    ensures
        target_dir(target).len() == target.len(),
        target_dir(target)[i] == if target[i] == ':' || target[i] == '/' || target[i] == '@' {
            '_'
        } else {
            target[i]
        },
        utf8(version).len() <= 64 ==> version_name(version) == version,
        utf8(version).len() > 64 ==> version_name(version) == hex(short_digest(utf8(version))),
{
}

/// Apple's tools are there exactly where their two directories are, and in them the compiler
/// and the header that they are told by; their fingerprint holds both directories and the
/// digest of the header.
pub proof fn law_xcode(w: World, name: Seq<char>, dir: Seq<char>, sdk: Seq<char>)
    ensures
        ({
            let clang = joined_path(dir, "Toolchains/XcodeDefault.xctoolchain/usr/bin/clang"@);
            let header = joined_path(sdk, "usr/include/TargetConditionals.h"@);
            &&& xcode_fingerprint(w, name, dir, sdk) is Ok <==> {
                &&& w.dir(dir) == Ok::<_, Halt>(true) && w.dir(sdk) == Ok::<_, Halt>(true)
                &&& w.file(clang) == Ok::<_, Halt>(true) && w.file(header) == Ok::<_, Halt>(true)
                &&& w.bytes(header) is Ok
            }
            &&& xcode_fingerprint(w, name, dir, sdk) matches Ok(print) ==> print == "macos_xcode:developer_dir="@ + dir
                + ":sdk_path="@ + sdk + (":TargetConditionals.h="@ + hex_bytes(sha256(w.bytes(header)->Ok_0)))
        }),
{
}

} // verus!
