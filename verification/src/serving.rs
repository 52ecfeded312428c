//! Serving: how calls over the bus and requests to the load balancer are addressed and
//! answered, how schemas are built, and what a build begins with.

use vstd::prelude::*;

use crate::bus_plugin::{bus_rule, bus_steps, requires_package};
use crate::bus_rpc::{
    call_authority, call_headers, call_scheme, call_status, call_target, ending, le_bytes, le_number, BusRpcError,
    Received,
};
use crate::config_extra_keys::{CRATE_NAME, EDITION, ROOT_SOURCE};
use crate::digest::decimal;
use crate::error::Fault;
use crate::executor::Builders;
use crate::graph::{law_task_indexed, with_task};
use crate::host::{found_command, Halt, Query, World};
use crate::invocation::root_tasks;
use crate::load_balancer::{
    assembled_uri, authority_host, proxy_answer, redirect_answer, request_host, served_file, well_known_file, Answered,
    HostHeader,
};
use crate::model::ConfigModel;
use crate::path::{joined_path, lies_in};
use crate::plugin_abi::RuleRequest;
use crate::rainbow::{name_and_tag, tag_location};
use crate::rust_plugin::link::Deps;
use crate::rust_plugin::names::{extra_of, short_name};
use crate::table::{found, law_with_number, with_number};
use crate::text::{begins, has_char, joined, lemma_cut, lemma_pieces_joined, swapped};

verus! {

/// A call to `/service/method` is one of that method of that service; a path of more or of
/// fewer parts is none.
pub proof fn law_call_read(service: Seq<char>, method: Seq<char>, parts: Seq<Seq<char>>)
    requires
        !has_char(service, '/') && !has_char(method, '/'),
        parts.len() != 3 && parts.len() > 0,
        forall|i: int| 0 <= i < parts.len() ==> !has_char(#[trigger] parts[i], '/'),
    ensures
        call_target("/"@ + service + "/"@ + method) == Some((service, method)),
        call_target(joined(parts, "/"@)) is None,
{
    reveal_strlit("/");
    reveal_strlit("");
    assert("/"@ =~= seq!['/']);
    assert(""@ =~= Seq::<char>::empty());
    let three = seq![Seq::<char>::empty(), service, method];
    assert forall|i: int| 0 <= i < three.len() implies !has_char(#[trigger] three[i], '/') by {}
    lemma_pieces_joined(three, '/');
    lemma_pieces_joined(parts, '/');
    reveal_with_fuel(joined, 4);
    assert(three.drop_last() =~= seq![Seq::<char>::empty(), service]);
    assert(seq![Seq::<char>::empty(), service].drop_last() =~= seq![Seq::<char>::empty()]);
    assert(joined(three, seq!['/']) =~= "/"@ + service + "/"@ + method);
}

/// The status of a call tells success, a method that is not there, and a service that is not
/// there, from each other and from any other failure.
pub proof fn law_call_status(data: Vec<u8>, message: String)
    ensures
        call_status(Ok(data)) == 200,
        call_status(Err(BusRpcError::NotImplemented)) == 501,
        call_status(Err(BusRpcError::ServiceNameDidNotMatch)) == 404,
        call_status(Err(BusRpcError::FailedToBindPort)) == 500,
        call_status(Err(BusRpcError::InternalError(message))) == 500,
        call_status(Err(BusRpcError::ConnectionError(message))) == 500,
{
}

/// A stream that ends within a message is an error; one that ends behind a message is not.
pub proof fn law_stream_end(s: Received)
    ensures
        ending(s) is Some <==> s.buffer.len() > 0,
{
}

/// A number is read from its bytes, and written as its bytes, the least significant first.
pub proof fn law_little_endian(a: u8, b: u8, c: u8, d: u8)
    ensures
        le_number(seq![a, b, c, d]) == a + 256 * b + 65536 * c + 16777216 * d,
        le_bytes(a + 256 * b + 65536 * c + 16777216 * d) == seq![a, b, c, d],
{
    let n: int = a + 256 * b + 65536 * c + 16777216 * d;
    assert(n % 0x100 == a);
    assert(n / 0x100 == b + 256 * c + 65536 * d);
    assert(n / 0x100 % 0x100 == b);
    assert(n / 0x10000 == c + 256 * d);
    assert(n / 0x10000 % 0x100 == c);
    assert(n / 0x1000000 == d);
    assert(le_bytes(n) =~= seq![a, b, c, d]);
}

/// A call carries the headers of its client, and a call for a stream says so too.
pub proof fn law_call_headers(headers: Seq<(Seq<char>, Seq<char>)>, host: Seq<char>, port: u16, k: int)
    requires
        0 <= k < headers.len(),
    ensures
        call_headers(headers, false) == headers,
        call_headers(headers, true).contains(("bus-stream"@, "1"@)),
        call_headers(headers, true).len() == headers.len() + 1,
        call_headers(headers, true)[k + 1] == headers[k],
        call_scheme(true) == "https"@ && call_scheme(false) == "http"@,
        call_authority(host, port) == host + ":"@ + decimal(port as int),
{
    assert(call_headers(headers, true)[0] == ("bus-stream"@, "1"@));
}

/// A schema is built by one generator and depends on the runtime and on `futures`: on those
/// that it states, or else on the usual ones. It has one source.
pub proof fn law_schema_configured(request: RuleRequest)
    ensures
        bus_rule(request) is Ok <==> request.sources.len() == 1,
        bus_rule(request) matches Ok(c) ==> {
            let runtime = match found(request.label_fields, "bus_runtime"@) {
                Some(label) => label,
                None => "//util/bus:bus"@,
            };
            let codegen = match found(request.label_fields, "codegen"@) {
                Some(label) => label,
                None => "//util/bus/codegen:codegen"@,
            };
            &&& c.dependencies.contains(runtime)
            &&& forall|k: int| 0 <= k < request.dependencies.len() ==> c.dependencies.contains(#[trigger] request.dependencies[k])
            &&& forall|k: int|
                0 <= k < c.dependencies.len() ==> #[trigger] c.dependencies[k] == runtime || request.dependencies.contains(
                    c.dependencies[k],
                )
            &&& exists|k: int|
                0 <= k < c.external_requirements.len() && (#[trigger] c.external_requirements[k]).package == "futures"@
            &&& forall|k: int|
                0 <= k < request.cargo_requirements.len() ==> c.external_requirements.contains(
                    #[trigger] request.cargo_requirements[k],
                )
            &&& c.sources == request.sources && c.kind == request.kind
            &&& c.build_plugin == "@bus_plugin"@
            &&& c.build_dependencies.len() == 2 && c.build_dependencies[0] == "@rust_compiler"@ && c.build_dependencies[1]
                == codegen
            &&& extra_of(c, CRATE_NAME) == Some(request.name)
            &&& extra_of(c, EDITION) == Some(
                match found(request.string_fields, "edition"@) {
                    Some(edition) => edition,
                    None => "2021"@,
                },
            )
        },
{
    if let Ok(c) = bus_rule(request) {
        let runtime = match found(request.label_fields, "bus_runtime"@) {
            Some(label) => label,
            None => "//util/bus:bus"@,
        };
        let edition = match found(request.string_fields, "edition"@) {
            Some(edition) => edition,
            None => "2021"@,
        };
        if !request.dependencies.contains(runtime) {
            assert(c.dependencies.last() == runtime);
        }
        assert forall|k: int| 0 <= k < request.dependencies.len() implies c.dependencies.contains(
            #[trigger] request.dependencies[k],
        ) by {
            assert(c.dependencies[k] == request.dependencies[k]);
        }
        assert forall|k: int| 0 <= k < c.dependencies.len() implies #[trigger] c.dependencies[k] == runtime
            || request.dependencies.contains(c.dependencies[k]) by {
            if k < request.dependencies.len() {
                assert(c.dependencies[k] == request.dependencies[k]);
            }
        }
        if !requires_package(request.cargo_requirements, "futures"@) {
            assert(c.external_requirements[c.external_requirements.len() - 1].package == "futures"@);
        } else {
            let k = choose|k: int|
                0 <= k < request.cargo_requirements.len() && (#[trigger] request.cargo_requirements[k]).package
                    == "futures"@;
            assert(c.external_requirements[k].package == "futures"@);
        }
        assert forall|k: int| 0 <= k < request.cargo_requirements.len() implies c.external_requirements.contains(
            #[trigger] request.cargo_requirements[k],
        ) by {
            assert(c.external_requirements[k] == request.cargo_requirements[k]);
        }
        let none = Seq::<(u32, Seq<Seq<char>>)>::empty();
        let one = with_number(none, CRATE_NAME, seq![request.name]);
        law_with_number(none, CRATE_NAME, seq![request.name], CRATE_NAME);
        law_with_number(one, EDITION, seq![edition], EDITION);
        law_with_number(one, EDITION, seq![edition], CRATE_NAME);
    }
}

/// The code of a schema is generated by the first output of its generator from its source,
/// and is what the plugin for Rust then builds in its place, as a library with the schema's
/// dependencies.
pub proof fn law_schema_built(target: Seq<char>, config: ConfigModel, deps: Deps, working_directory: Seq<char>)
    requires
        bus_steps(target, config, deps, working_directory) is Ok,
    ensures
        ({
            let steps = bus_steps(target, config, deps, working_directory)->Ok_0;
            let name = match extra_of(config, CRATE_NAME) {
                Some(name) => name,
                None => swapped(short_name(target), '-', '_'),
            };
            &&& config.kind == "rust_bus_library"@ && config.sources.len() == 1
            &&& found(deps, config.build_dependencies[1]) matches Some(output) && output.outputs.len() > 0 && steps.codegen
                == output.outputs[0]
            &&& steps.args.len() == 2 && steps.args[0] == "--language=rust"@ && steps.args[1] == config.sources[0]
            &&& steps.generated == joined_path(working_directory, name + ".rs"@)
            &&& steps.config.sources.len() == 1 && steps.config.sources[0] == steps.generated
            &&& extra_of(steps.config, ROOT_SOURCE) == Some(steps.generated)
            &&& steps.config.kind == "rust_library"@ && steps.config.build_plugin == "@rust_plugin"@
            &&& steps.config.dependencies == config.dependencies
            &&& extra_of(steps.config, CRATE_NAME) == extra_of(config, CRATE_NAME)
            &&& extra_of(steps.config, EDITION) == extra_of(config, EDITION)
        }),
{
    let steps = bus_steps(target, config, deps, working_directory)->Ok_0;
    law_with_number(config.extras, ROOT_SOURCE, seq![steps.generated], ROOT_SOURCE);
    law_with_number(config.extras, ROOT_SOURCE, seq![steps.generated], CRATE_NAME);
    law_with_number(config.extras, ROOT_SOURCE, seq![steps.generated], EDITION);
}

/// A request is for the host of its header; where it has no header, or one that names no
/// host, for that of its address; a header that is no text names none at all.
pub proof fn law_request_host(header: String, authority: Option<Seq<char>>)
    ensures
        authority_host(header@) matches Some(host) ==> request_host(HostHeader::Text(header), authority) == Some(host),
        authority_host(header@) is None ==> request_host(HostHeader::Text(header), authority) == request_host(
            HostHeader::Missing,
            authority,
        ),
        authority matches Some(text) ==> request_host(HostHeader::Missing, authority) == authority_host(text),
        authority is None ==> request_host(HostHeader::Missing, authority) is None,
        request_host(HostHeader::Unreadable, authority) is None,
{
}

/// A well-known file is looked for below the root, whatever the query; no other request is
/// for a file.
pub proof fn law_well_known(root: Seq<char>, rest: Seq<char>, query: Seq<char>, other: Seq<char>)
    requires
        !has_char("/.well-known/"@ + rest, '?'),
        !begins(other, "/.well-known/"@),
        !has_char(other, '?'),
    ensures
        well_known_file(Some(root), Some("/.well-known/"@ + rest)) == Some(joined_path(root, ".well-known/"@ + rest)),
        well_known_file(Some(root), Some("/.well-known/"@ + rest + seq!['?'] + query)) == Some(
            joined_path(root, ".well-known/"@ + rest),
        ),
        well_known_file(Some(root), Some(other)) is None,
        well_known_file(None, Some("/.well-known/"@ + rest)) is None,
        well_known_file(Some(root), None) is None,
{
    reveal_strlit("/.well-known/");
    reveal_strlit(".well-known/");
    reveal_strlit("/");
    let path = "/.well-known/"@ + rest;
    lemma_cut(path, '?', query);
    assert(path.subrange(0, 13) =~= "/.well-known/"@);
    assert(path.subrange(1, path.len() as int) =~= ".well-known/"@ + rest);
    assert(!begins("/"@, "/.well-known/"@));
}

/// A file is served just where it is below the root.
pub proof fn law_served(root: Seq<char>, path: Seq<char>)
    ensures
        lies_in(path, root) ==> served_file(root, Some(path)) == Some(path),
        !lies_in(path, root) ==> served_file(root, Some(path)) is None,
        served_file(root, None) is None,
{
}

/// A plain request is led to the same place over a secure connection: to the authority of
/// its address, or else to its host; without either it is a bad request.
pub proof fn law_redirected(authority: Option<Seq<char>>, host: Option<Seq<char>>, path: Option<Seq<char>>)
    ensures
        authority is None && host is None ==> redirect_answer(authority, host, path) == Answered::Status(400),
        authority matches Some(text) ==> (assembled_uri("https"@, text, path) matches Some(uri) ==> redirect_answer(
            authority,
            host,
            path,
        ) == Answered::Location(uri)),
        authority is None ==> (host matches Some(name) ==> (assembled_uri("https"@, name, path) matches Some(uri)
            ==> redirect_answer(authority, host, path) == Answered::Location(uri))),
        redirect_answer(authority, host, path) matches Answered::Status(status) ==> authority is None && host is None,
{
}

/// A request is passed on to the backend of its host; without a host it is a bad request, and
/// a host without a backend is not found.
pub proof fn law_proxied(host: Seq<char>, ip: Seq<char>, port: u16, path: Option<Seq<char>>)
    ensures
        proxy_answer(None, Some((ip, port)), path) == Answered::Status(400),
        proxy_answer(Some(host), None, path) == Answered::Status(404),
        assembled_uri("http"@, ip + ":"@ + decimal(port as int), path) matches Some(uri) ==> proxy_answer(
            Some(host),
            Some((ip, port)),
            path,
        ) == Answered::Location(uri),
        assembled_uri("http"@, ip + ":"@ + decimal(port as int), path) is None ==> proxy_answer(
            Some(host),
            Some((ip, port)),
            path,
        ) == Answered::Unbuildable,
{
}

/// A released binary goes by a name and a tag with one `:` between them.
pub proof fn law_name_and_tag(name: Seq<char>, tag: Seq<char>, parts: Seq<Seq<char>>)
    requires
        !has_char(name, ':') && !has_char(tag, ':'),
        parts.len() != 2 && parts.len() > 0,
        forall|i: int| 0 <= i < parts.len() ==> !has_char(#[trigger] parts[i], ':'),
    ensures
        name_and_tag(name + seq![':'] + tag) == Ok::<_, Fault>((name, tag)),
        name_and_tag(joined(parts, seq![':'])) is Err,
        tag_location(name, tag) == "https://storage.googleapis.com/rainbow-binaries/"@ + name + "/tags/"@ + tag,
{
    let two = seq![name, tag];
    assert forall|i: int| 0 <= i < two.len() implies !has_char(#[trigger] two[i], ':') by {}
    lemma_pieces_joined(two, ':');
    lemma_pieces_joined(parts, ':');
    reveal_with_fuel(joined, 3);
    assert(two.drop_last() =~= seq![name]);
    assert(joined(two, seq![':']) =~= name + seq![':'] + tag);
}

/// A build begins with one task for each target that is asked for, in their order, which
/// nothing waits for.
pub proof fn law_roots(builders: Builders, targets: Seq<Seq<char>>, n: int, k: int)
    requires
        0 <= k < n <= targets.len() < usize::MAX,
    ensures
        ({
            let (g, roots) = root_tasks(builders, targets, n);
            &&& roots.len() == n
            &&& roots[k] < g.tasks.len()
            &&& g.tasks[roots[k] as int].target == targets[k]
        }),
{
    lemma_roots(builders, targets, n);
}

proof fn lemma_roots(builders: Builders, targets: Seq<Seq<char>>, n: int)
    requires
        0 <= n <= targets.len() < usize::MAX,
    ensures
        ({
            let (g, roots) = root_tasks(builders, targets, n);
            &&& g.indexed()
            &&& g.tasks.len() <= n
            &&& roots.len() == n
            &&& forall|k: int| 0 <= k < n ==> (#[trigger] roots[k]) < g.tasks.len()
            &&& forall|k: int| 0 <= k < n ==> g.tasks[(#[trigger] roots[k]) as int].target == targets[k]
        }),
    decreases n,
{
    if n > 0 {
        lemma_roots(builders, targets, n - 1);
        let (g, ids) = root_tasks(builders, targets, n - 1);
        let target = targets[n - 1];
        law_task_indexed(g, target, None);
        let (a, id) = with_task(g, target, None);
        let (h, all) = root_tasks(builders, targets, n);
        assert(all == ids.push(id));
        assert(a.tasks[id as int].target == target);
        assert forall|t: int| 0 <= t < g.tasks.len() implies (#[trigger] a.tasks[t]) == g.tasks[t] by {
            if found(g.by_target, target) is None {
                assert(a.tasks.drop_last()[t] == g.tasks[t]);
            }
        }
        assert(h.tasks.len() == a.tasks.len() && h.by_target == a.by_target && h.rdeps.len() == a.rdeps.len());
        assert forall|t: int| 0 <= t < a.tasks.len() implies (#[trigger] h.tasks[t]).target == a.tasks[t].target
            && h.tasks[t].id == a.tasks[t].id by {}
        assert(h.indexed()) by {
            assert forall|i: int| 0 <= i < h.tasks.len() implies (#[trigger] h.tasks[i]).id == i by {
                assert(a.tasks[i].id == i);
            }
            assert forall|i: int| 0 <= i < h.tasks.len() implies found(h.by_target, (#[trigger] h.tasks[i]).target) == Some(
                i as usize,
            ) by {
                assert(found(a.by_target, a.tasks[i].target) == Some(i as usize));
            }
            assert forall|name: Seq<char>| (#[trigger] found(h.by_target, name)) is Some implies found(h.by_target, name)->0
                < h.tasks.len() && h.tasks[found(h.by_target, name)->0 as int].target == name by {
                let at = found(a.by_target, name)->0;
                assert(a.tasks[at as int].target == name);
            }
        }
        assert forall|k: int| 0 <= k < n implies h.tasks[(#[trigger] all[k]) as int].target == targets[k] && all[k]
            < h.tasks.len() by {
            if k < n - 1 {
                assert(all[k] == ids[k]);
            }
        }
    }
}

/// What a program printed is known from the first time that it was asked for.
pub proof fn law_command_known<T>(rows: Seq<(Seq<Seq<char>>, T)>, command: Seq<Seq<char>>, i: int)
    requires
        0 <= i <= rows.len(),
    ensures
        match found_command(rows, command, i) {
            Some(answer) => exists|k: int|
                i <= k < rows.len() && (#[trigger] rows[k]).0 == command && rows[k].1 == answer && forall|j: int|
                    i <= j < k ==> (#[trigger] rows[j]).0 != command,
            None => forall|k: int| i <= k < rows.len() ==> (#[trigger] rows[k]).0 != command,
        },
    decreases rows.len() - i,
{
    if i < rows.len() {
        law_command_known(rows, command, i + 1);
        if rows[i].0 == command {
            assert(rows[i].1 == found_command(rows, command, i)->0);
        }
    }
}

/// What is not known is asked for, and by the question that belongs to it.
pub proof fn law_asked_for(w: World, path: Seq<char>, name: Seq<char>)
    ensures
        found(w.presence, path) is None ==> w.existing(path) == Err::<bool, Halt>(Halt::Ask(Query::Exists(path))),
        found(w.presence, path) matches Some(known) ==> w.existing(path) == Ok::<bool, Halt>(known),
        found(w.dirs, path) is None ==> w.dir(path) == Err::<bool, Halt>(Halt::Ask(Query::IsDir(path))),
        found(w.dirs, path) matches Some(known) ==> w.dir(path) == Ok::<bool, Halt>(known),
        found(w.files, path) is None ==> w.file(path) == Err::<bool, Halt>(Halt::Ask(Query::IsFile(path))),
        found(w.files, path) matches Some(known) ==> w.file(path) == Ok::<bool, Halt>(known),
        found(w.variables, name) is None ==> w.variable(name) == Err::<Option<Seq<char>>, Halt>(
            Halt::Ask(Query::Variable(name)),
        ),
        found(w.variables, name) matches Some(known) ==> w.variable(name) == Ok::<Option<Seq<char>>, Halt>(known),
        found(w.entries, path) is None ==> w.listed(path) == Err::<Seq<Seq<char>>, Halt>(Halt::Ask(Query::Entries(path))),
        found(w.entries, path) matches Some(Ok(names)) ==> w.listed(path) == Ok::<Seq<Seq<char>>, Halt>(names),
        found(w.entries, path) matches Some(Err(e)) ==> w.listed(path) == Err::<Seq<Seq<char>>, Halt>(Halt::Failed(e)),
        found(w.contents, path) is None ==> w.bytes(path) == Err::<Seq<u8>, Halt>(Halt::Ask(Query::Contents(path))),
        found(w.contents, path) matches Some(Ok(bytes)) ==> w.bytes(path) == Ok::<Seq<u8>, Halt>(bytes),
{
}

} // verus!
