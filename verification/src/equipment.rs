//! Equipment: the tools and the plugins that a workspace has from what it declares.

use vstd::prelude::*;

use crate::error::ErrorKind;
use crate::host::{Halt, Machine, Ran, World};
use crate::path::{absolute, components, joined_path};
use crate::rules::Rows;
use crate::table::{found, law_with_row, with_row};
use crate::text::{begins, same_but_case};
use crate::tools::{
    declared_fingerprint, declared_path, declares_tool, dist_digest, field_in, fingerprint_for, host_triple,
    key_of_host, tool_path, toolchain_fault, toolchain_metadata, toolchain_root, tools_at, with_declaration,
    with_more_tools, with_platform_tools, with_tools_in, Declared, DeclaredTools,
};
use crate::value::{rows_in, text_in, Node};
use crate::text::lines_in;

verus! {

/// A tool's path is that of a file below the workspace, unless it is absolute or a bare
/// name.
pub proof fn law_tool_path(root: Seq<char>, path: Seq<char>)
    ensures
        absolute(path) ==> tool_path(root, path) == path,
        components(path).len() == 1 ==> tool_path(root, path) == path,
        !absolute(path) && components(path).len() > 1 ==> tool_path(root, path) == joined_path(root, path),
{
}

/// A tool's fingerprint tells its kind, its path and the digest of its file; it is refused
/// just where a digest is demanded that the file does not have.
pub proof fn law_tool_fingerprint(
    name: Seq<char>,
    kind: Seq<char>,
    path: Seq<char>,
    expected: Option<Seq<char>>,
    actual: Option<Seq<char>>,
)
    ensures
        fingerprint_for(name, kind, path, expected, actual) is Ok <==> (expected matches Some(digest) ==> (actual
            matches Some(held) && same_but_case(digest, held))),
        fingerprint_for(name, kind, path, expected, actual) matches Ok(print) ==> print == kind + ":"@ + path + ":sha256="@
            + match actual {
            Some(held) => held,
            None => "unverified"@,
        },
        fingerprint_for(name, kind, path, expected, actual) matches Err(e) ==> e.kind == if actual is None {
            ErrorKind::NotFound
        } else {
            ErrorKind::InvalidData
        },
{
}

/// Whether a line of a program's output gives `field` the given value.
pub open spec fn gives(line: Seq<char>, field: Seq<char>, value: Seq<char>) -> bool {
    line == field + ": "@ + value
}

/// A field's value is that of the first line that gives it one; there is none just where no
/// line does.
pub proof fn law_field(lines: Seq<Seq<char>>, field: Seq<char>, i: int)
    requires
        0 <= i <= lines.len(),
    ensures
        match field_in(lines, field, i) {
            Some(value) => exists|k: int|
                i <= k < lines.len() && gives(#[trigger] lines[k], field, value) && forall|j: int|
                    i <= j < k ==> !begins(#[trigger] lines[j], field + ": "@),
            None => forall|j: int| i <= j < lines.len() ==> !begins(#[trigger] lines[j], field + ": "@),
        },
    decreases lines.len() - i,
{
    reveal_strlit(": ");
    if i < lines.len() {
        law_field(lines, field, i + 1);
        let line = lines[i];
        let n = field.len() as int;
        if begins(line, field + ": "@) {
            let start = line.subrange(0, n + 2);
            assert(start == field + ": "@);
            assert(line.subrange(0, n) =~= field) by {
                assert forall|k: int| 0 <= k < n implies line[k] == field[k] by {
                    assert(start[k] == (field + ": "@)[k]);
                }
            }
            let rest = line.subrange(n, line.len() as int);
            assert(rest.subrange(0, 2) =~= ": "@) by {
                assert(start[n] == (field + ": "@)[n]);
                assert(start[n + 1] == (field + ": "@)[n + 1]);
            }
            let value = rest.subrange(2, rest.len() as int);
            assert(line =~= field + ": "@ + value);
            assert(gives(lines[i], field, value));
        } else if begins(line, field) {
            let rest = line.subrange(n, line.len() as int);
            if begins(rest, ": "@) {
                assert(line.subrange(0, n + 2) =~= field + ": "@) by {
                    assert forall|k: int| 0 <= k < n + 2 implies line[k] == (field + ": "@)[k] by {
                        if k < n {
                            assert(line.subrange(0, n)[k] == field[k]);
                        } else {
                            assert(rest.subrange(0, 2)[k - n] == ": "@[k - n]);
                        }
                    }
                }
            }
        }
    }
}

/// A toolchain is accepted just where its compiler ran and said of itself what is declared:
/// its release, where a version is, and its host, where a host is.
pub proof fn law_toolchain_accepted(name: Seq<char>, rows: Rows, rustc: Seq<char>, ran: Ran)
    ensures
        toolchain_fault(name, rows, rustc, ran) is None <==> {
            &&& ran.success
            &&& ran.stdout matches Ok(text) && {
                &&& text_in(found(rows, "version"@)) matches Some(version) ==> field_in(lines_in(text), "release"@, 0) == Some(
                    version,
                )
                &&& text_in(found(rows, "host"@)) matches Some(host) ==> field_in(lines_in(text), "host"@, 0) == Some(host)
            }
        },
{
}

/// A toolchain's root is the one that is declared, or that a variable of the environment
/// names; else it is asked of the provider.
pub proof fn law_toolchain_root(w: World, root: Seq<char>, name: Seq<char>, rows: Rows)
    ensures
        found(rows, "root"@) matches Some(Node::Text(path)) ==> toolchain_root(w, root, name, rows) == Ok::<Seq<char>, Halt>(
            tool_path(root, path),
        ),
        text_in(found(rows, "root"@)) is None ==> (found(rows, "root_env"@) matches Some(Node::Text(variable)) ==> (
        w.variable(variable) matches Ok(Some(path)) ==> toolchain_root(w, root, name, rows) == Ok::<Seq<char>, Halt>(path))),
        text_in(found(rows, "root"@)) is None && text_in(found(rows, "root_env"@)) is None && (text_in(
            found(rows, "provider"@),
        ) matches Some(provider) && provider != "rustup"@) ==> (toolchain_root(w, root, name, rows) matches Err(
            Halt::Failed(e),
        ) && e.kind == ErrorKind::InvalidData),
{
}

/// A toolchain has two tools: the compiler and Cargo, both in its directory of programs, and
/// both with a fingerprint of the toolchain's kind that ends with what is recorded of it.
pub proof fn law_toolchain_tools(w: World, home: Seq<char>, name: Seq<char>, rows: Rows)
    requires
        tools_at(w, home, name, rows) is Ok,
    ensures
        ({
            let tools = tools_at(w, home, name, rows)->Ok_0;
            let bin = joined_path(home, "bin"@);
            &&& tools.len() == 2
            &&& tools[0].name == "rustc"@ && tools[1].name == "cargo"@
            &&& !w.host.windows ==> tools[0].path == joined_path(bin, "rustc"@) && tools[1].path == joined_path(bin, "cargo"@)
            &&& w.host.windows ==> tools[0].path == joined_path(bin, "rustc"@ + ".exe"@) && tools[1].path == joined_path(
                bin,
                "cargo"@ + ".exe"@,
            )
            &&& w.file(tools[0].path) == Ok::<bool, Halt>(true) && w.file(tools[1].path) == Ok::<bool, Halt>(true)
            &&& forall|k: int| 0 <= k < 2 ==> (#[trigger] tools[k]).kind == "rust_toolchain"@
            &&& forall|k: int|
                0 <= k < 2 ==> {
                    &&& toolchain_metadata(w.host, name, rows) matches Ok(metadata)
                    &&& declared_fingerprint(w, (#[trigger] tools[k]).name, "rust_toolchain"@, tools[k].path, None) matches Ok(
                        print,
                    )
                    &&& tools[k].fingerprint == print + ";"@ + metadata
                }
            &&& w.run(seq![tools[0].path, "-Vv"@]) matches Ok(ran) && toolchain_fault(name, rows, tools[0].path, ran) is None
        }),
{
}

/// What is recorded of a toolchain is its version, its host and the digest of its
/// distribution for that host.
pub proof fn law_toolchain_metadata(host: Machine, name: Seq<char>, rows: Rows)
    ensures
        toolchain_metadata(host, name, rows) matches Ok(metadata) ==> {
            let triple = match found(rows, "host"@) {
                Some(Node::Text(triple)) => triple,
                _ => host_triple(host),
            };
            let version = match found(rows, "version"@) {
                Some(Node::Text(version)) => version,
                _ => "unspecified"@,
            };
            &&& dist_digest(name, rows, triple) matches Ok(digest)
            &&& metadata == "rust-toolchain:version="@ + version + ":host="@ + triple + (":dist-sha256="@ + digest)
            &&& rows_in(found(rows, "dist"@)) matches Some(dists) ==> (rows_in(found(dists, key_of_host(triple)))
                matches Some(dist) && (text_in(found(dist, "sha256"@)) matches Some(given) ==> digest == given))
        },
{
}

/// A host's name as a key is of the same length and keeps its letters and digits.
pub proof fn law_host_key(host: Seq<char>, i: int)
    requires
        0 <= i < host.len(),
    ensures
        key_of_host(host).len() == host.len(),
        ('0' <= host[i] <= '9') || ('A' <= host[i] <= 'Z') || ('a' <= host[i] <= 'z') ==> key_of_host(host)[i] == host[i],
        host[i] == '-' || host[i] == '.' || host[i] == '_' ==> key_of_host(host)[i] == '_',
{
}

/// Tools are added just where none of them has the name of another; each is then found under
/// its name, and what was there stays.
pub proof fn law_tools_added(tools: DeclaredTools, more: Seq<Declared>, i: int)
    requires
        0 <= i <= more.len(),
    ensures
        with_more_tools(tools, more, i) is Ok <==> {
            &&& forall|k: int| i <= k < more.len() ==> found(tools, (#[trigger] more[k]).name) is None
            &&& forall|j: int, k: int| i <= j < k < more.len() ==> (#[trigger] more[j]).name != (#[trigger] more[k]).name
        },
        with_more_tools(tools, more, i) matches Ok(end) ==> {
            &&& forall|k: int| i <= k < more.len() ==> found(end, (#[trigger] more[k]).name) == Some(more[k])
            &&& forall|name: Seq<char>|
                (forall|k: int| i <= k < more.len() ==> (#[trigger] more[k]).name != name) ==> #[trigger] found(end, name)
                    == found(tools, name)
        },
    decreases more.len() - i,
{
    if i < more.len() {
        let tool = more[i];
        if found(tools, tool.name) is None {
            let next = with_row(tools, tool.name, tool);
            law_tools_added(next, more, i + 1);
            assert forall|name: Seq<char>| #[trigger] found(next, name) == if name == tool.name {
                Some(tool)
            } else {
                found(tools, name)
            } by {
                law_with_row(tools, tool.name, tool, name);
            }
            if let Ok(end) = with_more_tools(next, more, i + 1) {
                assert forall|k: int| i + 1 <= k < more.len() implies (#[trigger] more[k]).name != tool.name by {
                    assert(found(next, more[k].name) is None);
                }
                assert(found(end, tool.name) == found(next, tool.name));
            }
        }
    }
}

/// What tools are declared stays declared, whatever is declared behind it.
pub proof fn law_declaration_kept(w: World, root: Seq<char>, name: Seq<char>, rows: Rows, tools: DeclaredTools, other: Seq<char>)
    ensures
        with_declaration(w, root, name, rows, tools) matches Ok(next) ==> (found(tools, other) is Some ==> found(next, other)
            == found(tools, other)),
{
    if let Some(kind) = text_in(crate::rules::either(rows, "_type"@, "type"@)) {
        if kind == "rust_toolchain"@ {
            if let Ok(more) = crate::tools::toolchain_tools(w, root, name, rows) {
                lemma_kept(tools, more, 0, other);
            }
        } else if kind == "xcode_tool"@ {
            if let Ok(path) = declared_path(w, root, name, rows) {
                let sha256 = text_in(found(rows, "sha256"@));
                if let Ok(fingerprint) = declared_fingerprint(w, name, kind, path, sha256) {
                    law_with_row(tools, name, Declared { name, kind, path, sha256, fingerprint }, other);
                }
            }
        }
    }
}

proof fn lemma_kept(tools: DeclaredTools, more: Seq<Declared>, i: int, other: Seq<char>)
    requires
        0 <= i <= more.len(),
    ensures
        with_more_tools(tools, more, i) matches Ok(end) ==> (found(tools, other) is Some ==> found(end, other) == found(
            tools,
            other,
        )),
{
    law_tools_added(tools, more, i);
    if let Ok(end) = with_more_tools(tools, more, i) {
        if found(tools, other) is Some {
            assert forall|k: int| i <= k < more.len() implies (#[trigger] more[k]).name != other by {
                assert(found(tools, more[k].name) is None);
            }
        }
    }
}

/// A declared tool of Xcode is where its declaration says, with the fingerprint of the file
/// there; a declaration of another type than a toolchain's or Xcode's is refused.
pub proof fn law_tool_declared(w: World, root: Seq<char>, name: Seq<char>, rows: Rows, tools: DeclaredTools, kind: Seq<char>)
    requires
        found(rows, "_type"@) == Some(Node::Text(kind)),
    ensures
        kind == "xcode_tool"@ ==> (with_declaration(w, root, name, rows, tools) matches Ok(next) ==> {
            &&& found(tools, name) is None
            &&& found(next, name) matches Some(tool)
            &&& tool.name == name && tool.kind == kind
            &&& declared_path(w, root, name, rows) == Ok::<Seq<char>, Halt>(tool.path)
            &&& tool.sha256 == text_in(found(rows, "sha256"@))
            &&& declared_fingerprint(w, name, kind, tool.path, tool.sha256) == Ok::<Seq<char>, Halt>(tool.fingerprint)
        }),
        kind != "xcode_tool"@ && kind != "rust_toolchain"@ ==> (with_declaration(w, root, name, rows, tools) matches Err(
            Halt::Failed(e),
        ) && e.kind == ErrorKind::InvalidData),
{
    reveal_strlit("xcode_tool");
    reveal_strlit("rust_toolchain");
    if kind == "xcode_tool"@ {
        if let Ok(path) = declared_path(w, root, name, rows) {
            let sha256 = text_in(found(rows, "sha256"@));
            if let Ok(fingerprint) = declared_fingerprint(w, name, kind, path, sha256) {
                law_with_row(tools, name, Declared { name, kind, path, sha256, fingerprint }, name);
            }
        }
    }
}

/// Where a declaration is found among those of a workspace, its tools are the workspace's: it
/// is taken in with the tools that were declared before it, and what it gives stays.
pub proof fn law_all_declarations(w: World, root: Seq<char>, rows: Rows, i: int, tools: DeclaredTools, k: int, other: Seq<char>)
    requires
        0 <= i <= rows.len(),
        with_tools_in(w, root, rows, i, tools) is Ok,
    ensures
        found(tools, other) is Some ==> found(with_tools_in(w, root, rows, i, tools)->Ok_0, other) == found(tools, other),
        i <= k < rows.len() && declares_tool(rows_in(Some(rows[k].1))->0) ==> rows[k].1 is Table && exists|before: DeclaredTools|
            ({
                &&& (#[trigger] with_declaration(w, root, rows[k].0, rows_in(Some(rows[k].1))->0, before)) matches Ok(after)
                &&& found(after, other) is Some ==> found(with_tools_in(w, root, rows, i, tools)->Ok_0, other) == found(
                    after,
                    other,
                )
            }),
    decreases rows.len() - i,
{
    if i < rows.len() {
        let tool = rows_in(Some(rows[i].1))->0;
        let next = if rows[i].0 == w.host.os && !declares_tool(tool) {
            with_platform_tools(w, root, rows[i].0, tool, 0, tools)
        } else {
            with_declaration(w, root, rows[i].0, tool, tools)
        }->Ok_0;
        if rows[i].0 == w.host.os && !declares_tool(tool) {
            lemma_platform_kept(w, root, rows[i].0, tool, 0, tools, other);
        } else {
            law_declaration_kept(w, root, rows[i].0, tool, tools, other);
        }
        law_all_declarations(w, root, rows, i + 1, next, k, other);
        if k == i && declares_tool(tool) {
            assert(with_declaration(w, root, rows[k].0, rows_in(Some(rows[k].1))->0, tools) is Ok);
        }
    }
}

proof fn lemma_platform_kept(
    w: World,
    root: Seq<char>,
    platform: Seq<char>,
    rows: Rows,
    i: int,
    tools: DeclaredTools,
    other: Seq<char>,
)
    requires
        0 <= i <= rows.len(),
    ensures
        with_platform_tools(w, root, platform, rows, i, tools) matches Ok(end) ==> (found(tools, other) is Some ==> found(
            end,
            other,
        ) == found(tools, other)),
    decreases rows.len() - i,
{
    if i < rows.len() {
        if let Some(tool) = rows_in(Some(rows[i].1)) {
            law_declaration_kept(w, root, rows[i].0, tool, tools, other);
            if let Ok(next) = with_declaration(w, root, rows[i].0, tool, tools) {
                lemma_platform_kept(w, root, platform, rows, i + 1, next, other);
            }
        }
    }
}

/// What is declared for the platform that the build runs on is declared like any other tool.
pub proof fn law_platform_declarations(
    w: World,
    root: Seq<char>,
    platform: Seq<char>,
    rows: Rows,
    i: int,
    tools: DeclaredTools,
    k: int,
    other: Seq<char>,
)
    requires
        0 <= i <= k < rows.len(),
        with_platform_tools(w, root, platform, rows, i, tools) is Ok,
    ensures
        rows[k].1 is Table && exists|before: DeclaredTools|
            ({
                &&& (#[trigger] with_declaration(w, root, rows[k].0, rows_in(Some(rows[k].1))->0, before)) matches Ok(after)
                &&& found(after, other) is Some ==> found(
                    with_platform_tools(w, root, platform, rows, i, tools)->Ok_0,
                    other,
                ) == found(after, other)
            }),
    decreases rows.len() - i,
{
    let tool = rows_in(Some(rows[i].1))->0;
    let next = with_declaration(w, root, rows[i].0, tool, tools)->Ok_0;
    if k == i {
        lemma_platform_kept(w, root, platform, rows, i + 1, next, other);
        assert(with_declaration(w, root, rows[k].0, rows_in(Some(rows[k].1))->0, tools) is Ok);
    } else {
        law_platform_declarations(w, root, platform, rows, i + 1, next, k, other);
    }
}

} // verus!
