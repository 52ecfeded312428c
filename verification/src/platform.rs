//! The platform: what a workspace requires of it, and what is built for.

use vstd::prelude::*;

use crate::context::{facts_in, BuildConfigKey};
use crate::error::{error, fault, invalid_data, outcome, Error, ErrorKind, Fault};
use crate::host::{told, Halt, Host, Known, Machine, Stop, World};
use crate::path::{join_path, joined_path};
use crate::rules::{either, text_at_either, Rows};
use crate::table::found;
use crate::text::{cat2, cat3, cat4, cat5, debug_of, debug_text, keep, same, Duplicate};
use crate::tools::{
    declared_fingerprint, declared_path, declared_tool_fingerprint, declared_tool_path, detect_macos_sdk_path,
    detect_xcode_developer_dir, developer_dir, file_digest, file_sha256, macos_sdk,
};
use crate::value::{member, rows_in, table_at, text_at, text_in, ConfigTable};

verus! {

/// Requirements on the platform: for which platform each is stated, if for one,
/// its name, and what it says.
pub type Requirements = Seq<(Option<Seq<char>>, Seq<char>, Rows)>;

/// Whether a table under `platform_requirements` states a requirement.
pub open spec fn states_requirement(rows: Rows) -> bool {
    found(rows, "_type"@) is Some || found(rows, "type"@) is Some || found(rows, "platform"@) is Some || found(
        rows,
        "path"@,
    ) is Some || found(rows, "program"@) is Some || found(rows, "xcode_tool"@) is Some || found(rows, "tool"@) is Some
}

fn is_platform_requirement(requirement: &ConfigTable) -> (r: bool)
    ensures
        r == states_requirement(requirement.deep_view()),
{
    requirement.has("_type") || requirement.has("type") || requirement.has("platform") || requirement.has("path")
        || requirement.has("program") || requirement.has("xcode_tool") || requirement.has("tool")
}

/// `done` with the requirements `rows[i..]` for the platform `platform`.
pub open spec fn scoped_requirements(platform: Seq<char>, rows: Rows, i: int, done: Requirements) -> Result<
    Requirements,
    Fault,
>
    decreases rows.len() - i,
{
    if i >= rows.len() {
        Ok(done)
    } else {
        match rows_in(Some(rows[i].1)) {
            None => Err(
                fault(
                    ErrorKind::InvalidData,
                    "platform_requirements."@ + platform + "."@ + rows[i].0 + " must be a table"@,
                ),
            ),
            Some(requirement) => scoped_requirements(
                platform,
                rows,
                i + 1,
                done.push((Some(platform), rows[i].0, requirement)),
            ),
        }
    }
}

/// `done` with the requirements `rows[i..]` that concern the system `os`.
pub open spec fn active_requirements(os: Seq<char>, rows: Rows, i: int, done: Requirements) -> Result<Requirements, Fault>
    decreases rows.len() - i,
{
    if i >= rows.len() {
        Ok(done)
    } else {
        match rows_in(Some(rows[i].1)) {
            None => Err(
                fault(ErrorKind::InvalidData, "platform_requirements."@ + rows[i].0 + " must be a table"@),
            ),
            Some(requirement) => if rows[i].0 == os {
                match scoped_requirements(rows[i].0, requirement, 0, done) {
                    Err(e) => Err(e),
                    Ok(next) => active_requirements(os, rows, i + 1, next),
                }
            } else if states_requirement(requirement) {
                active_requirements(os, rows, i + 1, done.push((None, rows[i].0, requirement)))
            } else {
                active_requirements(os, rows, i + 1, done)
            },
        }
    }
}

/// A requirement: for which platform it is stated, its name, and its table.
pub type StatedRequirement = (Option<String>, String, ConfigTable);

fn add_scoped(platform: &str, table: &ConfigTable, done: Vec<StatedRequirement>) -> (r: Result<Vec<StatedRequirement>, Error>)
    ensures
        outcome(r) == scoped_requirements(platform@, table.deep_view(), 0, done.deep_view()),
{
    let ghost rows = table.deep_view();
    let mut out = done;
    let mut i: usize = 0;
    while i < table.rows.len()
        invariant
            i <= table.rows.len(),
            rows == table.deep_view(),
            scoped_requirements(platform@, rows, 0, done.deep_view()) == scoped_requirements(
                platform@,
                rows,
                i as int,
                out.deep_view(),
            ),
        decreases table.rows.len() - i,
    {
        assert(rows[i as int] == (table.rows@[i as int].0@, table.rows@[i as int].1.deep_view()));
        match table.rows[i].1.as_table() {
            None => return Err(
                error(
                    ErrorKind::InvalidData,
                    cat5("platform_requirements.", platform, ".", table.rows[i].0.as_str(), " must be a table"),
                ),
            ),
            Some(requirement) => {
                keep(
                    &mut out,
                    (Some(platform.to_owned()), table.rows[i].0.clone(), requirement.duplicate()),
                );
            },
        }
        i = i + 1;
    }
    Ok(out)
}

fn add_active(os: &str, table: &ConfigTable) -> (r: Result<Vec<StatedRequirement>, Error>)
    ensures
        outcome(r) == active_requirements(os@, table.deep_view(), 0, Seq::empty()),
{
    let ghost rows = table.deep_view();
    let mut out: Vec<StatedRequirement> = Vec::new();
    assert(out.deep_view() =~= Seq::empty());
    let mut i: usize = 0;
    while i < table.rows.len()
        invariant
            i <= table.rows.len(),
            rows == table.deep_view(),
            active_requirements(os@, rows, 0, Seq::empty()) == active_requirements(os@, rows, i as int, out.deep_view()),
        decreases table.rows.len() - i,
    {
        assert(rows[i as int] == (table.rows@[i as int].0@, table.rows@[i as int].1.deep_view()));
        let name = table.rows[i].0.as_str();
        match table.rows[i].1.as_table() {
            None => return Err(
                error(ErrorKind::InvalidData, cat3("platform_requirements.", name, " must be a table")),
            ),
            Some(requirement) => {
                if same(name, os) {
                    out = add_scoped(name, requirement, out)?;
                } else if is_platform_requirement(requirement) {
                    keep(&mut out, (None, table.rows[i].0.clone(), requirement.duplicate()));
                }
            },
        }
        i = i + 1;
    }
    Ok(out)
}

/// The clang of the Xcode at `dir`.
pub open spec fn clang_in(dir: Seq<char>) -> Seq<char> {
    joined_path(dir, "Toolchains/XcodeDefault.xctoolchain/usr/bin/clang"@)
}

/// The header by which the SDK at `dir` is known.
pub open spec fn header_in(dir: Seq<char>) -> Seq<char> {
    joined_path(dir, "usr/include/TargetConditionals.h"@)
}

/// The failure of a requirement on Xcode.
pub open spec fn xcode_failure(name: Seq<char>, what: Seq<char>, path: Seq<char>, advice: Seq<char>) -> Halt {
    Halt::Failed(
        fault(
            ErrorKind::NotFound,
            "macOS Xcode requirement "@ + name + " is missing "@ + what + (path + advice),
        ),
    )
}

fn lacking<T: DeepView>(name: &str, what: &str, path: &str, advice: &str) -> (r: Result<T, Stop>)
    ensures
        told(r) == Err::<T::V, Halt>(xcode_failure(name@, what@, path@, advice@)),
{
    Err(
        Stop::Failed(
            error(
                ErrorKind::NotFound,
                cat5("macOS Xcode requirement ", name, " is missing ", what, cat2(path, advice).as_str()),
            ),
        ),
    )
}

/// The fingerprint of the Xcode at `dir` with the SDK at `sdk`.
pub open spec fn xcode_fingerprint(w: World, name: Seq<char>, dir: Seq<char>, sdk: Seq<char>) -> Result<Seq<char>, Halt> {
    match w.dir(dir) {
        Err(stop) => Err(stop),
        Ok(false) => Err(
            xcode_failure(
                name,
                "developer_dir "@,
                dir,
                ". Install Xcode or Command Line Tools and update WORKSPACE.ccl."@,
            ),
        ),
        Ok(true) => match w.dir(sdk) {
            Err(stop) => Err(stop),
            Ok(false) => Err(
                xcode_failure(name, "sdk_path "@, sdk, ". Install the macOS SDK and update WORKSPACE.ccl."@),
            ),
            Ok(true) => match w.file(clang_in(dir)) {
                Err(stop) => Err(stop),
                Ok(false) => Err(xcode_failure(name, "clang at "@, clang_in(dir), ""@)),
                Ok(true) => match w.file(header_in(sdk)) {
                    Err(stop) => Err(stop),
                    Ok(false) => Err(xcode_failure(name, "SDK header "@, header_in(sdk), ""@)),
                    Ok(true) => match file_digest(w, header_in(sdk)) {
                        Err(stop) => Err(stop),
                        Ok(digest) => Ok(
                            "macos_xcode:developer_dir="@ + dir + ":sdk_path="@ + sdk + (":TargetConditionals.h="@
                                + digest),
                        ),
                    },
                },
            },
        },
    }
}

pub fn macos_xcode_fingerprint(known: &Known, name: &str, developer_dir: &str, sdk_path: &str) -> (r: Result<String, Stop>)
    ensures
        told(r) == xcode_fingerprint(known.deep_view(), name@, developer_dir@, sdk_path@),
{
    if !known.is_dir(developer_dir)? {
        return lacking(
            name,
            "developer_dir ",
            developer_dir,
            ". Install Xcode or Command Line Tools and update WORKSPACE.ccl.",
        );
    }
    if !known.is_dir(sdk_path)? {
        return lacking(name, "sdk_path ", sdk_path, ". Install the macOS SDK and update WORKSPACE.ccl.");
    }
    let clang = join_path(developer_dir, "Toolchains/XcodeDefault.xctoolchain/usr/bin/clang");
    if !known.is_file(clang.as_str())? {
        return lacking(name, "clang at ", clang.as_str(), "");
    }
    let header = join_path(sdk_path, "usr/include/TargetConditionals.h");
    if !known.is_file(header.as_str())? {
        return lacking(name, "SDK header ", header.as_str(), "");
    }
    let digest = file_sha256(known, header.as_str())?;
    Ok(
        cat5(
            "macos_xcode:developer_dir=",
            developer_dir,
            ":sdk_path=",
            sdk_path,
            cat2(":TargetConditionals.h=", digest.as_str()).as_str(),
        ),
    )
}

/// Whether a requirement is also one on the macOS SDK.
pub open spec fn needs_sdk(host: Machine, rows: Rows) -> bool {
    host.os == "macos"@ && (found(rows, "xcode_tool"@) is Some || text_in(found(rows, "sdk"@)) == Some("macos"@))
}

fn requires_macos_sdk(host: &Host, requirement: &ConfigTable) -> (r: bool)
    ensures
        r == needs_sdk(host.deep_view(), requirement.deep_view()),
{
    if !same(host.os.as_str(), "macos") {
        return false;
    }
    if requirement.has("xcode_tool") {
        return true;
    }
    match text_at(requirement, "sdk") {
        Some(sdk) => same(sdk.as_str(), "macos"),
        None => false,
    }
}

/// The path under `key`, or what is detected.
pub open spec fn path_or(root: Seq<char>, rows: Rows, key: Seq<char>, detected: Result<Seq<char>, Halt>) -> Result<
    Seq<char>,
    Halt,
> {
    match text_in(found(rows, key)) {
        Some(path) => Ok(joined_path(root, path)),
        None => detected,
    }
}

/// The fingerprint of the tool that a requirement is on.
pub open spec fn required_tool(w: World, root: Seq<char>, name: Seq<char>, kind: Seq<char>, rows: Rows) -> Result<
    Seq<char>,
    Halt,
> {
    match declared_path(w, root, name, rows) {
        Err(stop) => Err(stop),
        Ok(path) => match declared_fingerprint(w, name, kind, path, text_in(found(rows, "sha256"@))) {
            Err(stop) => Err(stop),
            Ok(fingerprint) => if !needs_sdk(w.host, rows) {
                Ok(fingerprint)
            } else {
                match path_or(root, rows, "developer_dir"@, developer_dir(w)) {
                    Err(stop) => Err(stop),
                    Ok(dir) => match path_or(root, rows, "sdk_path"@, macos_sdk(w)) {
                        Err(stop) => Err(stop),
                        Ok(sdk) => match xcode_fingerprint(w, name, dir, sdk) {
                            Err(stop) => Err(stop),
                            Ok(more) => Ok(fingerprint + ";"@ + more),
                        },
                    },
                }
            },
        },
    }
}

fn required_tool_fingerprint(known: &Known, root: &str, name: &str, kind: &str, requirement: &ConfigTable) -> (r: Result<
    String,
    Stop,
>)
    ensures
        told(r) == required_tool(known.deep_view(), root@, name@, kind@, requirement.deep_view()),
{
    let path = declared_tool_path(known, root, name, requirement)?;
    let sha256 = text_at(requirement, "sha256");
    let fingerprint = declared_tool_fingerprint(known, name, kind, path.as_str(), &sha256)?;
    if !requires_macos_sdk(&known.host, requirement) {
        return Ok(fingerprint);
    }
    let dir = match text_at(requirement, "developer_dir") {
        Some(path) => join_path(root, path.as_str()),
        None => detect_xcode_developer_dir(known)?,
    };
    let sdk = match text_at(requirement, "sdk_path") {
        Some(path) => join_path(root, path.as_str()),
        None => detect_macos_sdk_path(known)?,
    };
    let more = macos_xcode_fingerprint(known, name, dir.as_str(), sdk.as_str())?;
    Ok(cat3(fingerprint.as_str(), ";", more.as_str()))
}

/// The name under which the fingerprint of a requirement is kept.
pub open spec fn requirement_key(scope: Option<Seq<char>>, name: Seq<char>) -> Seq<char> {
    match scope {
        Some(platform) => "platform_requirement:"@ + platform + ":"@ + name,
        None => "platform_requirement:"@ + name,
    }
}

/// The platform that a requirement of the kind `kind` is on.
pub open spec fn required_platform(kind: Seq<char>, rows: Rows) -> Seq<char> {
    text_in(found(rows, "platform"@)).unwrap_or(
        if kind == "xcode_tool"@ {
            "macos"@
        } else {
            ""@
        },
    )
}

/// The fingerprint of a requirement, if it concerns the machine, and the name
/// under which it is kept.
pub open spec fn requirement_fingerprint(
    w: World,
    root: Seq<char>,
    scope: Option<Seq<char>>,
    name: Seq<char>,
    rows: Rows,
) -> Result<Option<(Seq<char>, Seq<char>)>, Halt> {
    if scope is Some && scope->0 != w.host.os {
        Ok(None)
    } else {
        match text_in(either(rows, "_type"@, "type"@)) {
            None => Err(
                Halt::Failed(
                    fault(ErrorKind::InvalidData, "platform requirement "@ + name + " must specify _type"@),
                ),
            ),
            Some(kind) => {
                let platform = required_platform(kind, rows);
                if platform.len() > 0 && platform != w.host.os {
                    Ok(None)
                } else if kind != "xcode_tool"@ {
                    Err(
                        Halt::Failed(
                            fault(
                                ErrorKind::InvalidData,
                                "platform requirement "@ + name + " has unsupported type "@ + debug_text(kind)
                                    + "; expected xcode_tool"@,
                            ),
                        ),
                    )
                } else {
                    match required_tool(w, root, name, kind, rows) {
                        Err(stop) => Err(stop),
                        Ok(fingerprint) => Ok(Some((requirement_key(scope, name), fingerprint))),
                    }
                }
            },
        }
    }
}

pub fn platform_requirement_fingerprint(
    known: &Known,
    root: &str,
    scope: &Option<String>,
    name: &str,
    requirement: &ConfigTable,
) -> (r: Result<Option<(String, String)>, Stop>)
    ensures
        told(r) == requirement_fingerprint(
            known.deep_view(),
            root@,
            scope.deep_view(),
            name@,
            requirement.deep_view(),
        ),
{
    if let Some(platform) = scope {
        if !same(platform.as_str(), known.host.os.as_str()) {
            return Ok(None);
        }
    }
    let kind = match text_at_either(requirement, "_type", "type") {
        Some(kind) => kind,
        None => return Err(
            Stop::Failed(
                error(ErrorKind::InvalidData, cat3("platform requirement ", name, " must specify _type")),
            ),
        ),
    };
    let is_xcode = same(kind.as_str(), "xcode_tool");
    let platform = match text_at(requirement, "platform") {
        Some(platform) => platform,
        None => if is_xcode {
            "macos".to_owned()
        } else {
            "".to_owned()
        },
    };
    if !platform.as_str().is_empty() && !same(platform.as_str(), known.host.os.as_str()) {
        return Ok(None);
    }
    if !is_xcode {
        return Err(
            Stop::Failed(
                error(
                    ErrorKind::InvalidData,
                    cat5(
                        "platform requirement ",
                        name,
                        " has unsupported type ",
                        debug_of(kind.as_str()).as_str(),
                        "; expected xcode_tool",
                    ),
                ),
            ),
        );
    }
    let fingerprint = required_tool_fingerprint(known, root, name, kind.as_str(), requirement)?;
    let key = match scope {
        Some(platform) => cat4("platform_requirement:", platform.as_str(), ":", name),
        None => cat2("platform_requirement:", name),
    };
    Ok(Some((key, fingerprint)))
}

/// `done` with the fingerprints of the requirements `active[i..]`.
pub open spec fn fingerprints_of(
    w: World,
    root: Seq<char>,
    active: Requirements,
    i: int,
    done: Seq<(Seq<char>, Seq<char>)>,
) -> Result<Seq<(Seq<char>, Seq<char>)>, Halt>
    decreases active.len() - i,
{
    if i >= active.len() {
        Ok(done)
    } else {
        match requirement_fingerprint(w, root, active[i].0, active[i].1, active[i].2) {
            Err(stop) => Err(stop),
            Ok(None) => fingerprints_of(w, root, active, i + 1, done),
            Ok(Some(row)) => fingerprints_of(w, root, active, i + 1, done.push(row)),
        }
    }
}

/// The fingerprints of what a workspace requires of the platform.
pub open spec fn platform_fingerprints(w: World, root: Seq<char>, rows: Rows) -> Result<Seq<(Seq<char>, Seq<char>)>, Halt> {
    match found(rows, "platform_requirements"@) {
        None => Ok(Seq::empty()),
        Some(value) => match rows_in(Some(value)) {
            None => Err(Halt::Failed(fault(ErrorKind::InvalidData, "platform_requirements must be a table"@))),
            Some(requirements) => match active_requirements(w.host.os, requirements, 0, Seq::empty()) {
                Err(e) => Err(Halt::Failed(e)),
                Ok(active) => fingerprints_of(w, root, active, 0, Seq::empty()),
            },
        },
    }
}

pub fn platform_requirement_fingerprints(known: &Known, root: &str, table: &ConfigTable) -> (r: Result<
    Vec<(String, String)>,
    Stop,
>)
    ensures
        told(r) == platform_fingerprints(known.deep_view(), root@, table.deep_view()),
{
    let mut out: Vec<(String, String)> = Vec::new();
    assert(out.deep_view() =~= Seq::<(Seq<char>, Seq<char>)>::empty());
    let value = match table.get("platform_requirements") {
        None => return Ok(out),
        Some(value) => value,
    };
    let requirements = match value.as_table() {
        None => return Err(Stop::Failed(invalid_data("platform_requirements must be a table"))),
        Some(requirements) => requirements,
    };
    let active = match add_active(known.host.os.as_str(), requirements) {
        Ok(active) => active,
        Err(e) => return Err(Stop::Failed(e)),
    };
    let ghost w = known.deep_view();
    let ghost list = active.deep_view();
    let mut i: usize = 0;
    while i < active.len()
        invariant
            i <= active.len(),
            w == known.deep_view(),
            list == active.deep_view(),
            platform_fingerprints(w, root@, table.deep_view()) == fingerprints_of(w, root@, list, i as int, out.deep_view()),
        decreases active.len() - i,
    {
        assert(list[i as int] == active@[i as int].deep_view());
        let stated = &active[i];
        if let Some(row) = platform_requirement_fingerprint(known, root, &stated.0, stated.1.as_str(), &stated.2)? {
            keep(&mut out, row);
        }
        i = i + 1;
    }
    Ok(out)
}

/// The text under `key` of the table `target`, or `default`.
pub open spec fn target_fact(rows: Rows, key: Seq<char>, default: Seq<char>) -> Seq<char> {
    text_in(member(found(rows, "target"@), key)).unwrap_or(default)
}

fn fact(target: Option<&ConfigTable>, key: &str, default: &str) -> (r: String)
    ensures
        r@ == (match target.deep_view() {
            Some(rows) => text_in(found(rows, key@)).unwrap_or(default@),
            None => default@,
        }),
{
    match target {
        Some(target) => match text_at(target, key) {
            Some(text) => text,
            None => default.to_owned(),
        },
        None => default.to_owned(),
    }
}

/// The vendor of machines with the system `os`.
pub open spec fn usual_vendor(os: Seq<char>) -> Seq<char> {
    if os == "macos"@ || os == "ios"@ || os == "tvos"@ || os == "visionos"@ || os == "watchos"@ {
        "apple"@
    } else if os == "windows"@ {
        "pc"@
    } else {
        "unknown"@
    }
}

fn vendor_of(os: &str) -> (r: &'static str)
    ensures
        r@ == usual_vendor(os@),
{
    if same(os, "macos") || same(os, "ios") || same(os, "tvos") || same(os, "visionos") || same(os, "watchos") {
        "apple"
    } else if same(os, "windows") {
        "pc"
    } else {
        "unknown"
    }
}

/// The environment of machines with the system `os`.
pub open spec fn usual_env(os: Seq<char>) -> Seq<char> {
    if os == "linux"@ {
        "gnu"@
    } else if os == "windows"@ {
        "msvc"@
    } else {
        ""@
    }
}

fn env_of(os: &str) -> (r: &'static str)
    ensures
        r@ == usual_env(os@),
{
    if same(os, "linux") {
        "gnu"
    } else if same(os, "windows") {
        "msvc"
    } else {
        ""
    }
}

/// The facts of the machine that is built for, but for those on Xcode.
pub open spec fn plain_facts(host: Machine, rows: Rows) -> Seq<(BuildConfigKey, Seq<char>)> {
    let os = target_fact(rows, "os"@, host.os);
    seq![
        (
            BuildConfigKey::TargetFamily,
            target_fact(
                rows,
                "family"@,
                if host.windows {
                    "windows"@
                } else {
                    "unix"@
                },
            ),
        ),
        (BuildConfigKey::TargetOS, os),
        (BuildConfigKey::TargetEnv, target_fact(rows, "env"@, usual_env(os))),
        (BuildConfigKey::TargetArch, target_fact(rows, "arch"@, host.arch)),
        (BuildConfigKey::TargetVendor, target_fact(rows, "vendor"@, usual_vendor(os))),
        (
            BuildConfigKey::TargetEndian,
            target_fact(
                rows,
                "endian"@,
                if host.little_endian {
                    "little"@
                } else {
                    "big"@
                },
            ),
        ),
    ]
}

/// The facts of the machine that is built for.
pub open spec fn target_facts(w: World, rows: Rows) -> Result<Seq<(BuildConfigKey, Seq<char>)>, Halt> {
    if target_fact(rows, "os"@, w.host.os) != "macos"@ {
        Ok(plain_facts(w.host, rows))
    } else {
        match developer_dir(w) {
            Err(stop) => Err(stop),
            Ok(dir) => match macos_sdk(w) {
                Err(stop) => Err(stop),
                Ok(sdk) => Ok(
                    plain_facts(w.host, rows).push((BuildConfigKey::MacosDeveloperDir, dir)).push(
                        (BuildConfigKey::MacosSdkPath, sdk),
                    ),
                ),
            },
        }
    }
}

/// What a list of facts, or what stands in its place, says.
pub open spec fn facts_told(r: Result<Vec<(BuildConfigKey, String)>, Stop>) -> Result<Seq<(BuildConfigKey, Seq<char>)>, Halt> {
    match r {
        Ok(facts) => Ok(facts_in(facts@)),
        Err(stop) => Err(stop.deep_view()),
    }
}

pub fn target_config(known: &Known, table: &ConfigTable) -> (r: Result<Vec<(BuildConfigKey, String)>, Stop>)
    ensures
        facts_told(r) == target_facts(known.deep_view(), table.deep_view()),
{
    let target = table_at(table, "target");
    let os = fact(target, "os", known.host.os.as_str());
    let family = fact(
        target,
        "family",
        if known.host.windows {
            "windows"
        } else {
            "unix"
        },
    );
    let env = fact(target, "env", env_of(os.as_str()));
    let arch = fact(target, "arch", known.host.arch.as_str());
    let vendor = fact(target, "vendor", vendor_of(os.as_str()));
    let endian = fact(
        target,
        "endian",
        if known.host.little_endian {
            "little"
        } else {
            "big"
        },
    );
    let macos = same(os.as_str(), "macos");
    let mut facts: Vec<(BuildConfigKey, String)> = Vec::new();
    facts.push((BuildConfigKey::TargetFamily, family));
    facts.push((BuildConfigKey::TargetOS, os));
    facts.push((BuildConfigKey::TargetEnv, env));
    facts.push((BuildConfigKey::TargetArch, arch));
    facts.push((BuildConfigKey::TargetVendor, vendor));
    facts.push((BuildConfigKey::TargetEndian, endian));
    let ghost plain = facts@;
    assert(facts_in(plain) =~= plain_facts(known.host.deep_view(), table.deep_view()));
    if macos {
        let dir = detect_xcode_developer_dir(known)?;
        facts.push((BuildConfigKey::MacosDeveloperDir, dir));
        let sdk = detect_macos_sdk_path(known)?;
        facts.push((BuildConfigKey::MacosSdkPath, sdk));
        assert(facts_in(facts@) =~= facts_in(plain).push((BuildConfigKey::MacosDeveloperDir, dir@)).push(
            (BuildConfigKey::MacosSdkPath, sdk@),
        ));
    }
    Ok(facts)
}

} // verus!
