//! Tools: the programs that a workspace declares, where they are found, and the
//! fingerprints by which a build depends on them.

use vstd::prelude::*;

use crate::digest::{hex_bytes, hex_bytes_of, sha256, sha256_of};
use crate::error::{error, fault, invalid_data, outcome, Error, ErrorKind, Fault};
use crate::host::{settled, told, Answer, Halt, Host, Known, Machine, Ran, RunOutput, Stop, World};
use crate::path::{absolute, components, is_absolute, join_path, joined_path, parts_of};
use crate::rules::{either, text_at_either, Rows};
use crate::table::{found, with_row, Table};
use crate::text::{
    after_prefix, cat2, cat3, cat4, cat5, chars_of, debug_of, debug_text, keep, lines, lines_in, same, same_but_case,
    same_ignoring_case, strip_prefix, trim, trimmed, Duplicate,
};
use crate::value::{rows_in, table_at, text_at, text_in, text_or, ConfigTable};

verus! {

/// A tool of a workspace.
pub struct WorkspaceToolConfig {
    pub name: String,
    pub kind: String,
    pub path: String,
    pub sha256: Option<String>,
    pub fingerprint: String,
}

/// What a `WorkspaceToolConfig` says.
#[verifier::ext_equal]
pub struct Declared {
    pub name: Seq<char>,
    pub kind: Seq<char>,
    pub path: Seq<char>,
    pub sha256: Option<Seq<char>>,
    pub fingerprint: Seq<char>,
}

impl DeepView for WorkspaceToolConfig {
    type V = Declared;

    open spec fn deep_view(&self) -> Declared {
        Declared {
            name: self.name@,
            kind: self.kind@,
            path: self.path@,
            sha256: self.sha256.deep_view(),
            fingerprint: self.fingerprint@,
        }
    }
}

impl Duplicate for WorkspaceToolConfig {
    fn duplicate(&self) -> (r: Self) {
        WorkspaceToolConfig {
            name: self.name.clone(),
            kind: self.kind.clone(),
            path: self.path.clone(),
            sha256: self.sha256.duplicate(),
            fingerprint: self.fingerprint.clone(),
        }
    }
}

/// The tools of a workspace, by their names.
pub type DeclaredTools = Seq<(Seq<char>, Declared)>;

/// A path that a workspace names: a bare name is left as it is, as is an
/// absolute path; any other is below the workspace.
pub open spec fn tool_path(root: Seq<char>, path: Seq<char>) -> Seq<char> {
    if absolute(path) || components(path).len() == 1 {
        path
    } else {
        joined_path(root, path)
    }
}

pub fn root_relative(root: &str, path: &str) -> (r: String)
    ensures
        r@ == tool_path(root@, path@),
{
    let count: usize = parts_of(path).len();
    if is_absolute(path) || count == 1 {
        path.to_owned()
    } else {
        join_path(root, path)
    }
}

/// A failure of `r` with `prefix` before its message.
pub open spec fn explained<T>(r: Result<T, Halt>, prefix: Seq<char>) -> Result<T, Halt> {
    match r {
        Err(Halt::Failed(e)) => Err(Halt::Failed(fault(e.kind, prefix + e.message))),
        other => other,
    }
}

pub fn explain<T: DeepView>(r: Result<T, Stop>, prefix: String) -> (s: Result<T, Stop>)
    ensures
        told(s) == explained(told(r), prefix@),
{
    match r {
        Err(Stop::Failed(e)) => Err(Stop::Failed(error(e.kind, cat2(prefix.as_str(), e.message.as_str())))),
        other => other,
    }
}

fn failed<T: DeepView>(kind: ErrorKind, message: String) -> (r: Result<T, Stop>)
    ensures
        told(r) == Err::<T::V, Halt>(Halt::Failed(fault(kind, message@))),
{
    Err(Stop::Failed(error(kind, message)))
}

fn words2(a: &str, b: &str) -> (r: Vec<String>)
    ensures
        r.deep_view() == seq![a@, b@],
{
    let mut r: Vec<String> = Vec::new();
    keep(&mut r, a.to_owned());
    keep(&mut r, b.to_owned());
    assert(r.deep_view() =~= seq![a@, b@]);
    r
}

fn words3(a: &str, b: &str, c: &str) -> (r: Vec<String>)
    ensures
        r.deep_view() == seq![a@, b@, c@],
{
    let mut r = words2(a, b);
    keep(&mut r, c.to_owned());
    assert(r.deep_view() =~= seq![a@, b@, c@]);
    r
}

/// The path that a program printed, if it printed one.
pub open spec fn printed_path(ran: Result<Ran, Halt>) -> Result<Option<Seq<char>>, Halt> {
    match ran {
        Err(Halt::Ask(query)) => Err(Halt::Ask(query)),
        Err(Halt::Failed(_)) => Ok(None),
        Ok(ran) => match ran.stdout {
            Ok(text) => if ran.success && trimmed(text).len() > 0 {
                Ok(Some(trimmed(text)))
            } else {
                Ok(None)
            },
            Err(_) => Ok(None),
        },
    }
}

fn command_output_path(known: &Known, command: Vec<String>) -> (r: Result<Option<String>, Stop>)
    ensures
        told(r) == printed_path(known.deep_view().run(command.deep_view())),
{
    match known.run(command) {
        Err(Stop::Ask(question)) => Err(Stop::Ask(question)),
        Err(Stop::Failed(_)) => Ok(None),
        Ok(output) => match output.stdout {
            Answer::Given(text) => {
                let path = trim(text.as_str());
                if output.success && !path.as_str().is_empty() {
                    Ok(Some(path))
                } else {
                    Ok(None)
                }
            },
            Answer::Failed(_) => Ok(None),
        },
    }
}

/// Where Xcode's developer directory is.
pub open spec fn developer_dir(w: World) -> Result<Seq<char>, Halt> {
    match printed_path(w.run(seq!["/usr/bin/xcode-select"@, "-p"@])) {
        Ok(Some(path)) => Ok(path),
        Ok(None) => Ok("/Applications/Xcode.app/Contents/Developer"@),
        Err(stop) => Err(stop),
    }
}

pub fn detect_xcode_developer_dir(known: &Known) -> (r: Result<String, Stop>)
    ensures
        told(r) == developer_dir(known.deep_view()),
{
    match command_output_path(known, words2("/usr/bin/xcode-select", "-p"))? {
        Some(path) => Ok(path),
        None => Ok("/Applications/Xcode.app/Contents/Developer".to_owned()),
    }
}

/// Where the macOS SDK is.
pub open spec fn macos_sdk(w: World) -> Result<Seq<char>, Halt> {
    match printed_path(w.run(seq!["/usr/bin/xcrun"@, "--show-sdk-path"@])) {
        Ok(Some(path)) => Ok(path),
        Ok(None) => Ok("/Library/Developer/CommandLineTools/SDKs/MacOSX.sdk"@),
        Err(stop) => Err(stop),
    }
}

pub fn detect_macos_sdk_path(known: &Known) -> (r: Result<String, Stop>)
    ensures
        told(r) == macos_sdk(known.deep_view()),
{
    match command_output_path(known, words2("/usr/bin/xcrun", "--show-sdk-path"))? {
        Some(path) => Ok(path),
        None => Ok("/Library/Developer/CommandLineTools/SDKs/MacOSX.sdk".to_owned()),
    }
}

/// Where a tool of Xcode is.
pub open spec fn xcode_path(w: World, tool: Seq<char>) -> Result<Seq<char>, Halt> {
    match printed_path(w.run(seq!["/usr/bin/xcrun"@, "--find"@, tool])) {
        Ok(Some(path)) => Ok(path),
        Ok(None) => Err(Halt::Failed(fault(ErrorKind::NotFound, "xcrun could not find "@ + tool))),
        Err(stop) => Err(stop),
    }
}

pub fn xcrun_find(known: &Known, tool: &str) -> (r: Result<String, Stop>)
    ensures
        told(r) == xcode_path(known.deep_view(), tool@),
{
    match command_output_path(known, words3("/usr/bin/xcrun", "--find", tool))? {
        Some(path) => Ok(path),
        None => failed(ErrorKind::NotFound, cat2("xcrun could not find ", tool)),
    }
}

/// The digest of a file, in hexadecimal.
pub open spec fn file_digest(w: World, path: Seq<char>) -> Result<Seq<char>, Halt> {
    match w.bytes(path) {
        Ok(bytes) => Ok(hex_bytes(sha256(bytes))),
        Err(stop) => Err(stop),
    }
}

pub fn file_sha256(known: &Known, path: &str) -> (r: Result<String, Stop>)
    ensures
        told(r) == file_digest(known.deep_view(), path@),
{
    let bytes = known.contents(path)?;
    assert(bytes.deep_view() =~= bytes@);
    Ok(hex_bytes_of(&sha256_of(bytes)))
}

/// The digest of what is at `path`, where that is a file.
pub open spec fn actual_digest(w: World, path: Seq<char>) -> Result<Option<Seq<char>>, Halt> {
    match w.existing(path) {
        Err(stop) => Err(stop),
        Ok(false) => Ok(None),
        Ok(true) => match w.file(path) {
            Err(stop) => Err(stop),
            Ok(false) => Ok(None),
            Ok(true) => match file_digest(w, path) {
                Err(stop) => Err(stop),
                Ok(digest) => Ok(Some(digest)),
            },
        },
    }
}

fn digest_if_file(known: &Known, path: &str) -> (r: Result<Option<String>, Stop>)
    ensures
        told(r) == actual_digest(known.deep_view(), path@),
{
    if !known.is_present(path)? {
        return Ok(None);
    }
    if !known.is_file(path)? {
        return Ok(None);
    }
    Ok(Some(file_sha256(known, path)?))
}

/// The fingerprint of a tool whose file has the digest `actual`, where one of
/// `expected` may be demanded.
pub open spec fn fingerprint_for(
    name: Seq<char>,
    kind: Seq<char>,
    path: Seq<char>,
    expected: Option<Seq<char>>,
    actual: Option<Seq<char>>,
) -> Result<Seq<char>, Fault> {
    match (expected, actual) {
        (Some(expected), Some(actual)) => if same_but_case(expected, actual) {
            Ok(kind + ":"@ + path + ":sha256="@ + actual)
        } else {
            Err(
                fault(
                    ErrorKind::InvalidData,
                    "sha256 mismatch for tool "@ + name + " at "@ + path + (": expected "@ + expected + ", got "@ + actual),
                ),
            )
        },
        (Some(_), None) => Err(
            fault(
                ErrorKind::NotFound,
                "tool "@ + name + " at "@ + path + " is not a readable file, cannot verify sha256"@,
            ),
        ),
        (None, Some(actual)) => Ok(kind + ":"@ + path + ":sha256="@ + actual),
        (None, None) => Ok(kind + ":"@ + path + ":sha256="@ + "unverified"@),
    }
}

/// The fingerprint of a tool, from the digest that its file has.
pub fn tool_fingerprint(
    name: &str,
    kind: &str,
    path: &str,
    expected: &Option<String>,
    actual: &Option<String>,
) -> (r: Result<String, Error>)
    ensures
        outcome(r) == fingerprint_for(name@, kind@, path@, expected.deep_view(), actual.deep_view()),
{
    match (expected, actual) {
        (Some(expected), Some(actual)) => if same_ignoring_case(expected.as_str(), actual.as_str()) {
            Ok(cat5(kind, ":", path, ":sha256=", actual.as_str()))
        } else {
            Err(
                error(
                    ErrorKind::InvalidData,
                    cat5(
                        "sha256 mismatch for tool ",
                        name,
                        " at ",
                        path,
                        cat4(": expected ", expected.as_str(), ", got ", actual.as_str()).as_str(),
                    ),
                ),
            )
        },
        (Some(_), None) => Err(
            error(
                ErrorKind::NotFound,
                cat5("tool ", name, " at ", path, " is not a readable file, cannot verify sha256"),
            ),
        ),
        (None, Some(actual)) => Ok(cat5(kind, ":", path, ":sha256=", actual.as_str())),
        (None, None) => Ok(cat5(kind, ":", path, ":sha256=", "unverified")),
    }
}

/// A tool whose digest is demanded has a fingerprint only where its file has
/// that digest.
pub proof fn law_digest_demanded(
    name: Seq<char>,
    kind: Seq<char>,
    path: Seq<char>,
    expected: Seq<char>,
    actual: Option<Seq<char>>,
)
    ensures
        fingerprint_for(name, kind, path, Some(expected), actual) is Ok ==> actual is Some && same_but_case(
            expected,
            actual->0,
        ),
{
}

/// The fingerprint of a tool.
pub open spec fn declared_fingerprint(
    w: World,
    name: Seq<char>,
    kind: Seq<char>,
    path: Seq<char>,
    expected: Option<Seq<char>>,
) -> Result<Seq<char>, Halt> {
    match actual_digest(w, path) {
        Err(stop) => Err(stop),
        Ok(actual) => settled(fingerprint_for(name, kind, path, expected, actual)),
    }
}

pub fn declared_tool_fingerprint(known: &Known, name: &str, kind: &str, path: &str, expected: &Option<String>) -> (r: Result<
    String,
    Stop,
>)
    ensures
        told(r) == declared_fingerprint(known.deep_view(), name@, kind@, path@, expected.deep_view()),
{
    let actual = digest_if_file(known, path)?;
    crate::host::settle(tool_fingerprint(name, kind, path, expected, &actual))
}

/// Where the tool `name`, declared by `rows`, is.
pub open spec fn declared_path(w: World, root: Seq<char>, name: Seq<char>, rows: Rows) -> Result<Seq<char>, Halt> {
    match (text_in(found(rows, "path"@)), text_in(either(rows, "xcode_tool"@, "tool"@))) {
        (Some(path), _) => Ok(tool_path(root, path)),
        (None, Some(tool)) if w.host.os == "macos"@ => explained(
            xcode_path(w, tool),
            "failed to resolve Xcode tool "@ + debug_text(tool) + " for tools."@ + name
                + "; install Xcode or Command Line Tools: "@,
        ),
        _ => match text_in(found(rows, "program"@)) {
            Some(program) => Err(
                Halt::Failed(
                    fault(
                        ErrorKind::InvalidData,
                        "tools."@ + name + " uses program = "@ + debug_text(program)
                            + ", but generic host program search is no longer supported; use an explicit toolchain type or path"@,
                    ),
                ),
            ),
            None => Err(
                Halt::Failed(
                    fault(
                        ErrorKind::InvalidData,
                        "tools."@ + name + " must specify path or a platform-specific tool field"@,
                    ),
                ),
            ),
        },
    }
}

pub fn declared_tool_path(known: &Known, root: &str, name: &str, tool: &ConfigTable) -> (r: Result<String, Stop>)
    ensures
        told(r) == declared_path(known.deep_view(), root@, name@, tool.deep_view()),
{
    if let Some(path) = text_at(tool, "path") {
        return Ok(root_relative(root, path.as_str()));
    }
    if let Some(xcode_tool) = text_at_either(tool, "xcode_tool", "tool") {
        if same(known.host.os.as_str(), "macos") {
            return explain(
                xcrun_find(known, xcode_tool.as_str()),
                cat5(
                    "failed to resolve Xcode tool ",
                    debug_of(xcode_tool.as_str()).as_str(),
                    " for tools.",
                    name,
                    "; install Xcode or Command Line Tools: ",
                ),
            );
        }
    }
    if let Some(program) = text_at(tool, "program") {
        return failed(
            ErrorKind::InvalidData,
            cat5(
                "tools.",
                name,
                " uses program = ",
                debug_of(program.as_str()).as_str(),
                ", but generic host program search is no longer supported; use an explicit toolchain type or path",
            ),
        );
    }
    failed(
        ErrorKind::InvalidData,
        cat3("tools.", name, " must specify path or a platform-specific tool field"),
    )
}

/// The root of the current Rust toolchain.
pub open spec fn sysroot_of(ran: Ran) -> Result<Seq<char>, Fault> {
    if !ran.success {
        Err(fault(ErrorKind::NotFound, "rustc --print sysroot failed"@))
    } else {
        match ran.stdout {
            Ok(text) => Ok(trimmed(text)),
            Err(e) => Err(e),
        }
    }
}

/// The root that a run of `rustc --print sysroot` names.
pub fn printed_sysroot(output: &RunOutput) -> (r: Result<String, Error>)
    ensures
        outcome(r) == sysroot_of(output.deep_view()),
{
    if !output.success {
        return Err(error(ErrorKind::NotFound, "rustc --print sysroot failed".to_owned()));
    }
    match &output.stdout {
        Answer::Given(text) => Ok(trim(text.as_str())),
        Answer::Failed(e) => Err(e.duplicate()),
    }
}

pub open spec fn sysroot(w: World) -> Result<Seq<char>, Halt> {
    match w.run(seq!["rustc"@, "--print"@, "sysroot"@]) {
        Err(stop) => Err(stop),
        Ok(ran) => settled(sysroot_of(ran)),
    }
}

pub fn rustup_sysroot(known: &Known) -> (r: Result<String, Stop>)
    ensures
        told(r) == sysroot(known.deep_view()),
{
    let output = known.run(words3("rustc", "--print", "sysroot"))?;
    crate::host::settle(printed_sysroot(&output))
}

/// The root of the toolchain from the provider that `rows` name.
pub open spec fn provided_root(w: World, name: Seq<char>, rows: Rows) -> Result<Seq<char>, Halt> {
    let provider = text_in(found(rows, "provider"@)).unwrap_or("rustup"@);
    if provider == "rustup"@ {
        explained(
            sysroot(w),
            "failed to resolve rust_toolchain "@ + debug_text(name) + " from rustup/current rustc: "@,
        )
    } else {
        Err(
            Halt::Failed(
                fault(
                    ErrorKind::InvalidData,
                    "rust_toolchain "@ + debug_text(name) + " has unsupported provider "@ + debug_text(provider),
                ),
            ),
        )
    }
}

/// The root of the Rust toolchain `name`, declared by `rows`.
pub open spec fn toolchain_root(w: World, root: Seq<char>, name: Seq<char>, rows: Rows) -> Result<Seq<char>, Halt> {
    match (text_in(found(rows, "root"@)), text_in(found(rows, "root_env"@))) {
        (Some(path), _) => Ok(tool_path(root, path)),
        (None, Some(variable)) => match w.variable(variable) {
            Err(stop) => Err(stop),
            Ok(Some(path)) => Ok(path),
            Ok(None) => provided_root(w, name, rows),
        },
        (None, None) => provided_root(w, name, rows),
    }
}

pub fn rust_toolchain_root(known: &Known, root: &str, name: &str, toolchain: &ConfigTable) -> (r: Result<String, Stop>)
    ensures
        told(r) == toolchain_root(known.deep_view(), root@, name@, toolchain.deep_view()),
{
    if let Some(path) = text_at(toolchain, "root") {
        return Ok(root_relative(root, path.as_str()));
    }
    if let Some(variable) = text_at(toolchain, "root_env") {
        if let Some(path) = known.variable(variable.as_str())? {
            return Ok(path);
        }
    }
    let provider = text_or(toolchain, "provider", "rustup");
    if same(provider.as_str(), "rustup") {
        return explain(
            rustup_sysroot(known),
            cat3(
                "failed to resolve rust_toolchain ",
                debug_of(name).as_str(),
                " from rustup/current rustc: ",
            ),
        );
    }
    failed(
        ErrorKind::InvalidData,
        cat4(
            "rust_toolchain ",
            debug_of(name).as_str(),
            " has unsupported provider ",
            debug_of(provider.as_str()).as_str(),
        ),
    )
}

/// How a program's file is called.
pub open spec fn program_name(host: Machine, name: Seq<char>) -> Seq<char> {
    if host.windows {
        name + ".exe"@
    } else {
        name
    }
}

fn executable_name(host: &Host, name: &str) -> (r: String)
    ensures
        r@ == program_name(host.deep_view(), name@),
{
    if host.windows {
        cat2(name, ".exe")
    } else {
        name.to_owned()
    }
}

/// The value of `field` in the first of `lines[i..]` that gives it.
pub open spec fn field_in(lines: Seq<Seq<char>>, field: Seq<char>, i: int) -> Option<Seq<char>>
    decreases lines.len() - i,
{
    if i >= lines.len() {
        None
    } else {
        match after_prefix(lines[i], field) {
            Some(rest) => match after_prefix(rest, ": "@) {
                Some(value) => Some(value),
                None => field_in(lines, field, i + 1),
            },
            None => field_in(lines, field, i + 1),
        }
    }
}

pub fn rustc_version_field(output: &str, field: &str) -> (r: Option<String>)
    ensures
        r.deep_view() == field_in(lines_in(output@), field@, 0),
{
    let all = lines(output);
    let ghost list = all.deep_view();
    let mut i: usize = 0;
    while i < all.len()
        invariant
            i <= all.len(),
            list == all.deep_view(),
            list == lines_in(output@),
            field_in(list, field@, 0) == field_in(list, field@, i as int),
        decreases all.len() - i,
    {
        assert(list[i as int] == all@[i as int]@);
        if let Some(rest) = strip_prefix(all[i].as_str(), field) {
            if let Some(value) = strip_prefix(rest.as_str(), ": ") {
                return Some(value);
            }
        }
        i = i + 1;
    }
    None
}

/// Why `found`, the `what` of a toolchain, is not the one `expected`, if it is
/// not.
pub open spec fn mismatch(
    name: Seq<char>,
    expected: Option<Seq<char>>,
    found_value: Option<Seq<char>>,
    what: Seq<char>,
    title: Seq<char>,
) -> Option<Fault> {
    match expected {
        None => None,
        Some(expected) => match found_value {
            None => Some(
                fault(
                    ErrorKind::InvalidData,
                    "rust_toolchain "@ + debug_text(name) + " rustc -Vv output did not include a "@ + what,
                ),
            ),
            Some(value) => if value == expected {
                None
            } else {
                Some(
                    fault(
                        ErrorKind::InvalidData,
                        "rust_toolchain "@ + debug_text(name) + " expected "@ + title + expected + (", found "@ + value),
                    ),
                )
            },
        },
    }
}

fn field_mismatch(name: &str, expected: &Option<String>, value: &Option<String>, what: &str, title: &str) -> (r: Option<Error>)
    ensures
        r.deep_view() == mismatch(name@, expected.deep_view(), value.deep_view(), what@, title@),
{
    match expected {
        None => None,
        Some(expected) => match value {
            None => Some(
                error(
                    ErrorKind::InvalidData,
                    cat4(
                        "rust_toolchain ",
                        debug_of(name).as_str(),
                        " rustc -Vv output did not include a ",
                        what,
                    ),
                ),
            ),
            Some(value) => if same(value.as_str(), expected.as_str()) {
                None
            } else {
                Some(
                    error(
                        ErrorKind::InvalidData,
                        cat2(
                            cat5(
                                "rust_toolchain ",
                                debug_of(name).as_str(),
                                " expected ",
                                title,
                                expected.as_str(),
                            ).as_str(),
                            cat2(", found ", value.as_str()).as_str(),
                        ),
                    ),
                )
            },
        },
    }
}

/// Why the toolchain whose `rustc -Vv` came out as `ran` is not the one that
/// `rows` declare, if it is not.
pub open spec fn toolchain_fault(name: Seq<char>, rows: Rows, rustc: Seq<char>, ran: Ran) -> Option<Fault> {
    if !ran.success {
        Some(
            fault(
                ErrorKind::InvalidData,
                "rust_toolchain "@ + debug_text(name) + " failed to run "@ + rustc + " -Vv"@,
            ),
        )
    } else {
        match ran.stdout {
            Err(e) => Some(e),
            Ok(text) => match mismatch(
                name,
                text_in(found(rows, "version"@)),
                field_in(lines_in(text), "release"@, 0),
                "release"@,
                "Rust "@,
            ) {
                Some(e) => Some(e),
                None => mismatch(
                    name,
                    text_in(found(rows, "host"@)),
                    field_in(lines_in(text), "host"@, 0),
                    "host"@,
                    "host "@,
                ),
            },
        }
    }
}

/// Holds what a toolchain's `rustc -Vv` printed against its declaration.
pub fn validate_rust_toolchain(name: &str, toolchain: &ConfigTable, rustc: &str, output: &RunOutput) -> (r: Option<Error>)
    ensures
        r.deep_view() == toolchain_fault(name@, toolchain.deep_view(), rustc@, output.deep_view()),
{
    if !output.success {
        return Some(
            error(
                ErrorKind::InvalidData,
                cat5("rust_toolchain ", debug_of(name).as_str(), " failed to run ", rustc, " -Vv"),
            ),
        );
    }
    let text = match &output.stdout {
        Answer::Given(text) => text,
        Answer::Failed(e) => return Some(e.duplicate()),
    };
    let release = rustc_version_field(text.as_str(), "release");
    if let Some(e) = field_mismatch(name, &text_at(toolchain, "version"), &release, "release", "Rust ") {
        return Some(e);
    }
    let host = rustc_version_field(text.as_str(), "host");
    field_mismatch(name, &text_at(toolchain, "host"), &host, "host", "host ")
}

/// The target triple of the machine.
pub open spec fn host_triple(host: Machine) -> Seq<char> {
    if host.os == "macos"@ {
        host.arch + "-apple-darwin"@
    } else if host.os == "linux"@ {
        host.arch + "-unknown-linux-gnu"@
    } else if host.os == "windows"@ {
        host.arch + "-pc-windows-msvc"@
    } else {
        host.arch + "-unknown-"@ + host.os
    }
}

pub fn current_rust_host_triple(host: &Host) -> (r: String)
    ensures
        r@ == host_triple(host.deep_view()),
{
    let arch = host.arch.as_str();
    if same(host.os.as_str(), "macos") {
        cat2(arch, "-apple-darwin")
    } else if same(host.os.as_str(), "linux") {
        cat2(arch, "-unknown-linux-gnu")
    } else if same(host.os.as_str(), "windows") {
        cat2(arch, "-pc-windows-msvc")
    } else {
        cat3(arch, "-unknown-", host.os.as_str())
    }
}

/// Whether `c` is an ASCII letter or digit.
pub open spec fn alphanumeric(c: char) -> bool {
    ('0' <= c <= '9') || ('A' <= c <= 'Z') || ('a' <= c <= 'z')
}

/// `host` as a key: what is no ASCII letter or digit is `_`.
pub open spec fn key_of_host(host: Seq<char>) -> Seq<char> {
    host.map_values(
        |c: char|
            if alphanumeric(c) {
                c
            } else {
                '_'
            },
    )
}

pub fn dist_key(host: &str) -> (r: String)
    ensures
        r@ == key_of_host(host@),
{
    let chars = chars_of(host);
    let mut out = String::new();
    let mut i: usize = 0;
    assert(out@ =~= key_of_host(host@).take(0));
    while i < chars.len()
        invariant
            i <= chars.len(),
            chars@ == host@,
            out@ == key_of_host(host@).take(i as int),
        decreases chars.len() - i,
    {
        let c = chars[i];
        if ('0' <= c && c <= '9') || ('A' <= c && c <= 'Z') || ('a' <= c && c <= 'z') {
            out.push(c);
        } else {
            out.push('_');
        }
        i = i + 1;
        assert(key_of_host(host@).take(i as int) =~= key_of_host(host@).take(i - 1).push(key_of_host(host@)[i - 1]));
    }
    assert(key_of_host(host@).take(i as int) =~= key_of_host(host@));
    out
}

/// The digest of the toolchain's distribution for `host`.
pub open spec fn dist_digest(name: Seq<char>, rows: Rows, host: Seq<char>) -> Result<Seq<char>, Fault> {
    match rows_in(found(rows, "dist"@)) {
        None => Ok("unspecified"@),
        Some(dists) => match rows_in(found(dists, key_of_host(host))) {
            None => Err(
                fault(
                    ErrorKind::InvalidData,
                    "rust_toolchain "@ + debug_text(name) + " has no dist entry for host "@ + debug_text(host) + (
                    " (expected key "@ + key_of_host(host) + ")"@),
                ),
            ),
            Some(dist) => match text_in(either(dist, "sha256"@, "hash"@)) {
                Some(digest) => Ok(digest),
                None => Err(
                    fault(
                        ErrorKind::InvalidData,
                        "rust_toolchain "@ + debug_text(name) + " dist entry for "@ + debug_text(host)
                            + " must include sha256"@,
                    ),
                ),
            },
        },
    }
}

/// What is recorded of a toolchain: its version, its host, and the digest of
/// its distribution.
pub open spec fn toolchain_metadata(host: Machine, name: Seq<char>, rows: Rows) -> Result<Seq<char>, Fault> {
    let version = text_in(found(rows, "version"@)).unwrap_or("unspecified"@);
    let triple = text_in(found(rows, "host"@)).unwrap_or(host_triple(host));
    match dist_digest(name, rows, triple) {
        Err(e) => Err(e),
        Ok(digest) => Ok(
            "rust-toolchain:version="@ + version + ":host="@ + triple + (":dist-sha256="@ + digest),
        ),
    }
}

pub fn rust_toolchain_metadata(host: &Host, name: &str, toolchain: &ConfigTable) -> (r: Result<String, Error>)
    ensures
        outcome(r) == toolchain_metadata(host.deep_view(), name@, toolchain.deep_view()),
{
    let version = text_or(toolchain, "version", "unspecified");
    let triple = match text_at(toolchain, "host") {
        Some(triple) => triple,
        None => current_rust_host_triple(host),
    };
    let digest = match table_at(toolchain, "dist") {
        None => "unspecified".to_owned(),
        Some(dists) => {
            let key = dist_key(triple.as_str());
            match table_at(dists, key.as_str()) {
                None => return Err(
                    error(
                        ErrorKind::InvalidData,
                        cat5(
                            "rust_toolchain ",
                            debug_of(name).as_str(),
                            " has no dist entry for host ",
                            debug_of(triple.as_str()).as_str(),
                            cat3(" (expected key ", key.as_str(), ")").as_str(),
                        ),
                    ),
                ),
                Some(dist) => match text_at_either(dist, "sha256", "hash") {
                    Some(digest) => digest,
                    None => return Err(
                        error(
                            ErrorKind::InvalidData,
                            cat5(
                                "rust_toolchain ",
                                debug_of(name).as_str(),
                                " dist entry for ",
                                debug_of(triple.as_str()).as_str(),
                                " must include sha256",
                            ),
                        ),
                    ),
                },
            }
        },
    };
    Ok(
        cat5(
            "rust-toolchain:version=",
            version.as_str(),
            ":host=",
            triple.as_str(),
            cat2(":dist-sha256=", digest.as_str()).as_str(),
        ),
    )
}

/// A program of a Rust toolchain, as a tool.
pub open spec fn toolchain_tool(w: World, name: Seq<char>, path: Seq<char>, metadata: Seq<char>) -> Result<Declared, Halt> {
    match declared_fingerprint(w, name, "rust_toolchain"@, path, None) {
        Err(stop) => Err(stop),
        Ok(fingerprint) => Ok(
            Declared {
                name,
                kind: "rust_toolchain"@,
                path,
                sha256: None,
                fingerprint: fingerprint + ";"@ + metadata,
            },
        ),
    }
}

fn rust_toolchain_tool(known: &Known, name: &str, path: &str, metadata: &str) -> (r: Result<WorkspaceToolConfig, Stop>)
    ensures
        told(r) == toolchain_tool(known.deep_view(), name@, path@, metadata@),
{
    let fingerprint = declared_tool_fingerprint(known, name, "rust_toolchain", path, &None)?;
    Ok(
        WorkspaceToolConfig {
            name: name.to_owned(),
            kind: "rust_toolchain".to_owned(),
            path: path.to_owned(),
            sha256: None,
            fingerprint: cat3(fingerprint.as_str(), ";", metadata),
        },
    )
}

/// The failure of a toolchain without the program `program`.
pub open spec fn missing_program(name: Seq<char>, program: Seq<char>, path: Seq<char>) -> Halt {
    Halt::Failed(
        fault(
            ErrorKind::NotFound,
            "rust toolchain "@ + debug_text(name) + " does not contain "@ + program + (" at "@ + path),
        ),
    )
}

/// The tools of a Rust toolchain at `home`.
pub open spec fn tools_at(w: World, home: Seq<char>, name: Seq<char>, rows: Rows) -> Result<Seq<Declared>, Halt> {
    let rustc = joined_path(joined_path(home, "bin"@), program_name(w.host, "rustc"@));
    let cargo = joined_path(joined_path(home, "bin"@), program_name(w.host, "cargo"@));
    match w.file(rustc) {
        Err(stop) => Err(stop),
        Ok(false) => Err(missing_program(name, "rustc"@, rustc)),
        Ok(true) => match w.file(cargo) {
            Err(stop) => Err(stop),
            Ok(false) => Err(missing_program(name, "cargo"@, cargo)),
            Ok(true) => match w.run(seq![rustc, "-Vv"@]) {
                Err(stop) => Err(stop),
                Ok(ran) => match toolchain_fault(name, rows, rustc, ran) {
                    Some(e) => Err(Halt::Failed(e)),
                    None => match toolchain_metadata(w.host, name, rows) {
                        Err(e) => Err(Halt::Failed(e)),
                        Ok(metadata) => match toolchain_tool(w, "rustc"@, rustc, metadata) {
                            Err(stop) => Err(stop),
                            Ok(first) => match toolchain_tool(w, "cargo"@, cargo, metadata) {
                                Err(stop) => Err(stop),
                                Ok(second) => Ok(seq![first, second]),
                            },
                        },
                    },
                },
            },
        },
    }
}

/// The tools of the Rust toolchain `name`, declared by `rows`.
pub open spec fn toolchain_tools(w: World, root: Seq<char>, name: Seq<char>, rows: Rows) -> Result<Seq<Declared>, Halt> {
    match toolchain_root(w, root, name, rows) {
        Err(stop) => Err(stop),
        Ok(home) => tools_at(w, home, name, rows),
    }
}

fn missing<T: DeepView>(name: &str, program: &str, path: &str) -> (r: Result<T, Stop>)
    ensures
        told(r) == Err::<T::V, Halt>(missing_program(name@, program@, path@)),
{
    failed(
        ErrorKind::NotFound,
        cat5(
            "rust toolchain ",
            debug_of(name).as_str(),
            " does not contain ",
            program,
            cat2(" at ", path).as_str(),
        ),
    )
}

pub fn rust_toolchain_tools(known: &Known, root: &str, name: &str, toolchain: &ConfigTable) -> (r: Result<
    Vec<WorkspaceToolConfig>,
    Stop,
>)
    ensures
        told(r) == toolchain_tools(known.deep_view(), root@, name@, toolchain.deep_view()),
{
    let home = rust_toolchain_root(known, root, name, toolchain)?;
    let bin = join_path(home.as_str(), "bin");
    let rustc = join_path(bin.as_str(), executable_name(&known.host, "rustc").as_str());
    let cargo = join_path(bin.as_str(), executable_name(&known.host, "cargo").as_str());
    if !known.is_file(rustc.as_str())? {
        return missing(name, "rustc", rustc.as_str());
    }
    if !known.is_file(cargo.as_str())? {
        return missing(name, "cargo", cargo.as_str());
    }
    let output = known.run(words2(rustc.as_str(), "-Vv"))?;
    if let Some(e) = validate_rust_toolchain(name, toolchain, rustc.as_str(), &output) {
        return Err(Stop::Failed(e));
    }
    let metadata = match rust_toolchain_metadata(&known.host, name, toolchain) {
        Ok(metadata) => metadata,
        Err(e) => return Err(Stop::Failed(e)),
    };
    let first = rust_toolchain_tool(known, "rustc", rustc.as_str(), metadata.as_str())?;
    let second = rust_toolchain_tool(known, "cargo", cargo.as_str(), metadata.as_str())?;
    let ghost pair = seq![first.deep_view(), second.deep_view()];
    let mut out: Vec<WorkspaceToolConfig> = Vec::new();
    keep(&mut out, first);
    keep(&mut out, second);
    assert(out.deep_view() =~= pair);
    Ok(out)
}

/// `tools` with `tool`; no tool is declared twice.
pub open spec fn with_tool(tools: DeclaredTools, tool: Declared) -> Result<DeclaredTools, Fault> {
    if found(tools, tool.name) is Some {
        Err(fault(ErrorKind::InvalidData, "tool "@ + debug_text(tool.name) + " is declared more than once"@))
    } else {
        Ok(with_row(tools, tool.name, tool))
    }
}

/// `tools` with `more[i..]`.
pub open spec fn with_more_tools(tools: DeclaredTools, more: Seq<Declared>, i: int) -> Result<DeclaredTools, Fault>
    decreases more.len() - i,
{
    if i >= more.len() {
        Ok(tools)
    } else {
        match with_tool(tools, more[i]) {
            Err(e) => Err(e),
            Ok(next) => with_more_tools(next, more, i + 1),
        }
    }
}

/// Adds `tool`, or says that it is declared twice.
pub fn insert_workspace_tool(tools: &mut Table<WorkspaceToolConfig>, tool: WorkspaceToolConfig) -> (r: Option<Error>)
    ensures
        match r {
            Some(e) => with_tool(old(tools).deep_view(), tool.deep_view()) == Err::<DeclaredTools, Fault>(e.deep_view())
                && final(tools).deep_view() == old(tools).deep_view(),
            None => with_tool(old(tools).deep_view(), tool.deep_view()) == Ok::<DeclaredTools, Fault>(
                final(tools).deep_view(),
            ),
        },
{
    if tools.has(tool.name.as_str()) {
        return Some(
            error(
                ErrorKind::InvalidData,
                cat3("tool ", debug_of(tool.name.as_str()).as_str(), " is declared more than once"),
            ),
        );
    }
    tools.insert(tool.name.clone(), tool);
    None
}

/// Adds the tools `more`, or says which is the first that is declared twice.
pub fn insert_workspace_tools(tools: Table<WorkspaceToolConfig>, more: &Vec<WorkspaceToolConfig>) -> (r: Result<
    Table<WorkspaceToolConfig>,
    Error,
>)
    ensures
        outcome(r) == with_more_tools(tools.deep_view(), more.deep_view(), 0),
{
    let ghost list = more.deep_view();
    let mut done = tools;
    let mut i: usize = 0;
    while i < more.len()
        invariant
            i <= more.len(),
            list == more.deep_view(),
            with_more_tools(tools.deep_view(), list, 0) == with_more_tools(done.deep_view(), list, i as int),
        decreases more.len() - i,
    {
        assert(list[i as int] == more@[i as int].deep_view());
        if let Some(e) = insert_workspace_tool(&mut done, more[i].duplicate()) {
            return Err(e);
        }
        i = i + 1;
    }
    Ok(done)
}

/// `tools` with those that `rows` declare under the name `name`.
pub open spec fn with_declaration(w: World, root: Seq<char>, name: Seq<char>, rows: Rows, tools: DeclaredTools) -> Result<
    DeclaredTools,
    Halt,
> {
    match text_in(either(rows, "_type"@, "type"@)) {
        None => Err(Halt::Failed(fault(ErrorKind::InvalidData, "tools."@ + name + " must specify _type"@))),
        Some(kind) => if kind == "rust_toolchain"@ {
            match toolchain_tools(w, root, name, rows) {
                Err(stop) => Err(stop),
                Ok(more) => settled(with_more_tools(tools, more, 0)),
            }
        } else if kind == "xcode_tool"@ {
            match declared_path(w, root, name, rows) {
                Err(stop) => Err(stop),
                Ok(path) => {
                    let sha256 = text_in(found(rows, "sha256"@));
                    match declared_fingerprint(w, name, kind, path, sha256) {
                        Err(stop) => Err(stop),
                        Ok(fingerprint) => settled(
                            with_tool(tools, Declared { name, kind, path, sha256, fingerprint }),
                        ),
                    }
                },
            }
        } else {
            Err(
                Halt::Failed(
                    fault(
                        ErrorKind::InvalidData,
                        "tools."@ + name + " has unsupported type "@ + debug_text(kind),
                    ),
                ),
            )
        },
    }
}

pub fn add_workspace_tool(
    known: &Known,
    root: &str,
    name: &str,
    tool: &ConfigTable,
    tools: Table<WorkspaceToolConfig>,
) -> (r: Result<Table<WorkspaceToolConfig>, Stop>)
    ensures
        told(r) == with_declaration(known.deep_view(), root@, name@, tool.deep_view(), tools.deep_view()),
{
    let kind = match text_at_either(tool, "_type", "type") {
        Some(kind) => kind,
        None => return failed(ErrorKind::InvalidData, cat3("tools.", name, " must specify _type")),
    };
    if same(kind.as_str(), "rust_toolchain") {
        let more = rust_toolchain_tools(known, root, name, tool)?;
        return crate::host::settle(insert_workspace_tools(tools, &more));
    }
    if same(kind.as_str(), "xcode_tool") {
        let path = declared_tool_path(known, root, name, tool)?;
        let sha256 = text_at(tool, "sha256");
        let fingerprint = declared_tool_fingerprint(known, name, kind.as_str(), path.as_str(), &sha256)?;
        let mut done = tools;
        let made = WorkspaceToolConfig { name: name.to_owned(), kind, path, sha256, fingerprint };
        return match insert_workspace_tool(&mut done, made) {
            Some(e) => Err(Stop::Failed(e)),
            None => Ok(done),
        };
    }
    failed(
        ErrorKind::InvalidData,
        cat4("tools.", name, " has unsupported type ", debug_of(kind.as_str()).as_str()),
    )
}

/// Whether a table under `tools` declares a tool, and is not one of tools for a
/// platform.
pub open spec fn declares_tool(rows: Rows) -> bool {
    found(rows, "_type"@) is Some || found(rows, "type"@) is Some || found(rows, "path"@) is Some || found(
        rows,
        "program"@,
    ) is Some || found(rows, "xcode_tool"@) is Some || found(rows, "tool"@) is Some || found(rows, "root"@) is Some
        || found(rows, "provider"@) is Some
}

fn is_tool_declaration(tool: &ConfigTable) -> (r: bool)
    ensures
        r == declares_tool(tool.deep_view()),
{
    tool.has("_type") || tool.has("type") || tool.has("path") || tool.has("program") || tool.has("xcode_tool")
        || tool.has("tool") || tool.has("root") || tool.has("provider")
}

/// `tools` with those that `rows[i..]` declare for the platform `platform`.
pub open spec fn with_platform_tools(
    w: World,
    root: Seq<char>,
    platform: Seq<char>,
    rows: Rows,
    i: int,
    tools: DeclaredTools,
) -> Result<DeclaredTools, Halt>
    decreases rows.len() - i,
{
    if i >= rows.len() {
        Ok(tools)
    } else {
        match rows_in(Some(rows[i].1)) {
            None => Err(
                Halt::Failed(
                    fault(
                        ErrorKind::InvalidData,
                        "tools."@ + platform + "."@ + rows[i].0 + " must be a table"@,
                    ),
                ),
            ),
            Some(tool) => match with_declaration(w, root, rows[i].0, tool, tools) {
                Err(stop) => Err(stop),
                Ok(next) => with_platform_tools(w, root, platform, rows, i + 1, next),
            },
        }
    }
}

fn platform_tools(
    known: &Known,
    root: &str,
    platform: &str,
    table: &ConfigTable,
    tools: Table<WorkspaceToolConfig>,
) -> (r: Result<Table<WorkspaceToolConfig>, Stop>)
    ensures
        told(r) == with_platform_tools(known.deep_view(), root@, platform@, table.deep_view(), 0, tools.deep_view()),
{
    let ghost w = known.deep_view();
    let ghost rows = table.deep_view();
    let mut done = tools;
    let mut i: usize = 0;
    while i < table.rows.len()
        invariant
            i <= table.rows.len(),
            w == known.deep_view(),
            rows == table.deep_view(),
            with_platform_tools(w, root@, platform@, rows, 0, tools.deep_view()) == with_platform_tools(
                w,
                root@,
                platform@,
                rows,
                i as int,
                done.deep_view(),
            ),
        decreases table.rows.len() - i,
    {
        assert(rows[i as int] == (table.rows@[i as int].0@, table.rows@[i as int].1.deep_view()));
        let name = table.rows[i].0.as_str();
        match table.rows[i].1.as_table() {
            None => return failed(
                ErrorKind::InvalidData,
                cat5("tools.", platform, ".", name, " must be a table"),
            ),
            Some(tool) => {
                done = add_workspace_tool(known, root, name, tool, done)?;
            },
        }
        i = i + 1;
    }
    Ok(done)
}

/// `tools` with those that `rows[i..]` declare.
pub open spec fn with_tools_in(w: World, root: Seq<char>, rows: Rows, i: int, tools: DeclaredTools) -> Result<
    DeclaredTools,
    Halt,
>
    decreases rows.len() - i,
{
    if i >= rows.len() {
        Ok(tools)
    } else {
        match rows_in(Some(rows[i].1)) {
            None => Err(
                Halt::Failed(fault(ErrorKind::InvalidData, "tools."@ + rows[i].0 + " must be a table"@)),
            ),
            Some(tool) => {
                let next = if rows[i].0 == w.host.os && !declares_tool(tool) {
                    with_platform_tools(w, root, rows[i].0, tool, 0, tools)
                } else {
                    with_declaration(w, root, rows[i].0, tool, tools)
                };
                match next {
                    Err(stop) => Err(stop),
                    Ok(next) => with_tools_in(w, root, rows, i + 1, next),
                }
            },
        }
    }
}

/// The tools that a workspace declares.
pub open spec fn workspace_declared(w: World, root: Seq<char>, rows: Rows) -> Result<DeclaredTools, Halt> {
    match found(rows, "tools"@) {
        None => Ok(Seq::empty()),
        Some(value) => match rows_in(Some(value)) {
            None => Err(Halt::Failed(fault(ErrorKind::InvalidData, "tools must be a table"@))),
            Some(tools) => with_tools_in(w, root, tools, 0, Seq::empty()),
        },
    }
}

pub fn workspace_tools(known: &Known, root: &str, table: &ConfigTable) -> (r: Result<Table<WorkspaceToolConfig>, Stop>)
    ensures
        told(r) == workspace_declared(known.deep_view(), root@, table.deep_view()),
{
    let mut done: Table<WorkspaceToolConfig> = Table::new();
    let value = match table.get("tools") {
        None => return Ok(done),
        Some(value) => value,
    };
    let tools = match value.as_table() {
        None => return Err(Stop::Failed(invalid_data("tools must be a table"))),
        Some(tools) => tools,
    };
    let ghost w = known.deep_view();
    let ghost rows = tools.deep_view();
    let mut i: usize = 0;
    while i < tools.rows.len()
        invariant
            i <= tools.rows.len(),
            w == known.deep_view(),
            rows == tools.deep_view(),
            workspace_declared(w, root@, table.deep_view()) == with_tools_in(w, root@, rows, i as int, done.deep_view()),
        decreases tools.rows.len() - i,
    {
        assert(rows[i as int] == (tools.rows@[i as int].0@, tools.rows@[i as int].1.deep_view()));
        let name = tools.rows[i].0.as_str();
        match tools.rows[i].1.as_table() {
            None => return failed(ErrorKind::InvalidData, cat3("tools.", name, " must be a table")),
            Some(tool) => {
                if same(name, known.host.os.as_str()) && !is_tool_declaration(tool) {
                    done = platform_tools(known, root, name, tool, done)?;
                } else {
                    done = add_workspace_tool(known, root, name, tool, done)?;
                }
            },
        }
        i = i + 1;
    }
    Ok(done)
}

} // verus!
