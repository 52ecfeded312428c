//! Compiling: the commands that build Rust's targets, and what they leave
//! behind.

use vstd::prelude::*;

use crate::actions::{Command, CommandLine};
use crate::build_output_kind::TRANSITIVE_PRODUCTS;
use crate::config_extra_keys::{CRATE_NAME, CRATE_TYPE, EDITION};
use crate::error::Fault;
use crate::model::{BuildOutput, Config, ConfigModel, Output};
use crate::path::{components, file_name, file_name_of, join_path, joined_path, parent, parent_of, parts_of};
use crate::plugin_abi::BuildRequest;
use crate::rust_plugin::link::{
    add_native_build_args, all_built, all_in_dirs, common_args, common_rustc_args, compiler_env, native_build_args,
    products_of, runtime_dependencies, runtime_targets, rustc_env, transitive_deps, Deps, Products,
};
use crate::rust_plugin::names::{
    crate_of, executable_root, executable_root_source, extra_of, extra_or, library_root, library_root_source, rust_name,
    text_told,
};
use crate::rust_plugin::native::{build_native_static_libs, native_builds, NativeBuild, NativeSteps};
use crate::rust_plugin::rule::single;
use crate::table::{found, with_number, Numbered, Table};
use crate::text::{
    cat2, cat3, cat5, cut_last, debug_of, debug_text, keep, keep_all, rsplit_once, same, trim, trim_end, trimmed,
    trimmed_end, Duplicate,
};
use crate::tool_diagnostics::{command_rejection, diagnose_command};

verus! {

/// The commands that build a target, and what they leave behind.
pub struct RustBuild {
    pub compiler: String,
    pub native: Vec<NativeBuild>,
    pub args: Vec<String>,
    pub env: Vec<(String, String)>,
    pub output: BuildOutput,
}

/// What a `RustBuild` says.
#[verifier::ext_equal]
pub struct RustSteps {
    pub compiler: Seq<char>,
    pub native: Seq<NativeSteps>,
    pub args: Seq<Seq<char>>,
    pub env: Products,
    pub output: Output,
}

impl DeepView for RustBuild {
    type V = RustSteps;

    open spec fn deep_view(&self) -> RustSteps {
        RustSteps {
            compiler: self.compiler@,
            native: self.native.deep_view(),
            args: self.args.deep_view(),
            env: self.env.deep_view(),
            output: self.output.deep_view(),
        }
    }
}

/// What a build, or the message in its place, says.
pub open spec fn build_told(r: Result<RustBuild, String>) -> Result<RustSteps, Seq<char>> {
    match r {
        Ok(build) => Ok(build.deep_view()),
        Err(message) => Err(message@),
    }
}

/// The compiler: what the first build dependency built.
pub open spec fn compiler_in(config: ConfigModel, deps: Deps) -> Result<Seq<char>, Seq<char>> {
    let output = if config.build_dependencies.len() > 0 {
        found(deps, config.build_dependencies[0])
    } else {
        None
    };
    match output {
        Some(output) if output.outputs.len() > 0 => Ok(output.outputs[0]),
        _ => Err("the rust compiler must be specified as a build_dependency!"@),
    }
}

pub fn compiler(config: &Config, deps: &Table<BuildOutput>) -> (r: Result<String, String>)
    ensures
        text_told(r) == compiler_in(config.deep_view(), deps.deep_view()),
{
    if config.build_dependencies.len() > 0 {
        assert(config.deep_view().build_dependencies[0] == config.build_dependencies@[0]@);
        if let Some(output) = deps.get(config.build_dependencies[0].as_str()) {
            if output.outputs.len() > 0 {
                assert(output.deep_view().outputs[0] == output.outputs@[0]@);
                return Ok(output.outputs[0].clone());
            }
        }
    }
    Err("the rust compiler must be specified as a build_dependency!".to_owned())
}

/// How the files of shared libraries end on the system `os`.
pub open spec fn shared_ending(os: Seq<char>) -> Seq<char> {
    if os == "macos"@ {
        "dylib"@
    } else if os == "windows"@ {
        "dll"@
    } else {
        "so"@
    }
}

pub fn dylib_extension(os: &str) -> (r: &'static str)
    ensures
        r@ == shared_ending(os@),
{
    if same(os, "macos") {
        "dylib"
    } else if same(os, "windows") {
        "dll"
    } else {
        "so"
    }
}

/// How the files of libraries of the type `crate_type` end.
pub open spec fn library_ending(crate_type: Seq<char>, os: Seq<char>) -> Seq<char> {
    if crate_type == "proc-macro"@ || crate_type == "cdylib"@ || crate_type == "dylib"@ {
        shared_ending(os)
    } else if crate_type == "staticlib"@ {
        "a"@
    } else {
        "rlib"@
    }
}

/// The file of a library.
pub open spec fn library_file(
    working_directory: Seq<char>,
    crate_name: Seq<char>,
    metadata: Seq<char>,
    crate_type: Seq<char>,
    os: Seq<char>,
) -> Seq<char> {
    joined_path(
        working_directory,
        "lib"@ + crate_name + "-"@ + metadata + ("."@ + library_ending(crate_type, os)),
    )
}

pub fn library_output_file(working_directory: &str, crate_name: &str, metadata: &str, crate_type: &str, os: &str) -> (r: String)
    ensures
        r@ == library_file(working_directory@, crate_name@, metadata@, crate_type@, os@),
{
    let ending = if same(crate_type, "proc-macro") || same(crate_type, "cdylib") || same(crate_type, "dylib") {
        dylib_extension(os)
    } else if same(crate_type, "staticlib") {
        "a"
    } else {
        "rlib"
    };
    join_path(
        working_directory,
        cat5("lib", crate_name, "-", metadata, cat2(".", ending).as_str()).as_str(),
    )
}

/// What tells the build in a directory from others of the same name.
pub open spec fn metadata_in(working_directory: Seq<char>) -> Seq<char> {
    match file_name_of(working_directory) {
        None => "cbs"@,
        Some(name) => match cut_last(name, '-') {
            Some((_, metadata)) => metadata,
            None => "cbs"@,
        },
    }
}

pub fn metadata_from_working_directory(working_directory: &str) -> (r: String)
    ensures
        r@ == metadata_in(working_directory@),
{
    if let Some(name) = file_name(working_directory) {
        if let Some((_, metadata)) = rsplit_once(name.as_str(), '-') {
            return metadata;
        }
    }
    "cbs".to_owned()
}

/// The native libraries that were made, as files.
pub open spec fn native_products(libs: Seq<NativeSteps>) -> Products {
    libs.map_values(|lib: NativeSteps| ("native_"@ + lib.name, lib.path))
}

/// `products` as texts.
pub open spec fn product_texts(products: Products) -> Seq<Seq<char>> {
    products.map_values(|row: (Seq<char>, Seq<char>)| row.0 + ":"@ + row.1)
}

fn handed_on_texts(products: &Vec<(String, String)>, libs: &Vec<NativeBuild>) -> (r: Vec<String>)
    ensures
        r.deep_view() == product_texts(products.deep_view() + native_products(libs.deep_view())),
{
    let ghost rows = products.deep_view();
    let ghost list = libs.deep_view();
    let mut out: Vec<String> = Vec::new();
    let mut i: usize = 0;
    assert(out.deep_view() =~= product_texts(rows).take(0));
    while i < products.len()
        invariant
            i <= products.len(),
            rows == products.deep_view(),
            out.deep_view() == product_texts(rows).take(i as int),
        decreases products.len() - i,
    {
        assert(rows[i as int] == (products@[i as int].0@, products@[i as int].1@));
        keep(&mut out, cat3(products[i].0.as_str(), ":", products[i].1.as_str()));
        i = i + 1;
        assert(product_texts(rows).take(i as int) =~= product_texts(rows).take(i - 1).push(product_texts(rows)[i - 1]));
    }
    let ghost more = product_texts(native_products(list));
    let ghost head = product_texts(rows);
    assert(head.take(i as int) =~= head);
    let mut k: usize = 0;
    assert(out.deep_view() =~= head + more.take(0));
    while k < libs.len()
        invariant
            k <= libs.len(),
            list == libs.deep_view(),
            more == product_texts(native_products(list)),
            out.deep_view() == head + more.take(k as int),
        decreases libs.len() - k,
    {
        assert(list[k as int] == libs@[k as int].deep_view());
        keep(&mut out, cat3(cat2("native_", libs[k].name.as_str()).as_str(), ":", libs[k].path.as_str()));
        k = k + 1;
        assert(more.take(k as int) =~= more.take(k - 1).push(more[k - 1]));
        assert(out.deep_view() =~= head + more.take(k as int));
    }
    assert(more.take(k as int) =~= more);
    assert(out.deep_view() =~= product_texts(rows + native_products(list)));
    out
}

/// The arguments with which a library is compiled.
pub open spec fn library_compile_args(
    config: ConfigModel,
    deps: Deps,
    native: Seq<NativeSteps>,
    root: Seq<char>,
    names: (Seq<char>, Seq<char>, Seq<char>, Seq<char>),
    file: Seq<char>,
) -> Seq<Seq<char>> {
    let (crate_name, crate_type, edition, metadata) = names;
    common_args(config, deps).push(root) + native_build_args(native, native.len() as int) + naming_args(
        crate_name,
        crate_type,
        edition,
        metadata,
        file,
    )
}

/// The arguments that say what a library is called and where it goes.
pub open spec fn naming_args(
    crate_name: Seq<char>,
    crate_type: Seq<char>,
    edition: Seq<char>,
    metadata: Seq<char>,
    file: Seq<char>,
) -> Seq<Seq<char>> {
    seq![
        "--edition="@ + edition,
        "-C"@,
        "metadata="@ + metadata,
        "--crate-type"@,
        crate_type,
        "--crate-name"@,
        crate_name,
        "-o"@,
        file,
        "--cap-lints"@,
        "allow"@,
        "--color=always"@,
    ]
}

fn library_naming(crate_name: &str, crate_type: &str, edition: &str, metadata: &str, file: &str) -> (r: Vec<String>)
    ensures
        r.deep_view() == naming_args(crate_name@, crate_type@, edition@, metadata@, file@),
{
    let mut args: Vec<String> = Vec::new();
    keep(&mut args, cat2("--edition=", edition));
    keep(&mut args, "-C".to_owned());
    keep(&mut args, cat2("metadata=", metadata));
    keep(&mut args, "--crate-type".to_owned());
    keep(&mut args, crate_type.to_owned());
    keep(&mut args, "--crate-name".to_owned());
    keep(&mut args, crate_name.to_owned());
    keep(&mut args, "-o".to_owned());
    keep(&mut args, file.to_owned());
    keep(&mut args, "--cap-lints".to_owned());
    keep(&mut args, "allow".to_owned());
    keep(&mut args, "--color=always".to_owned());
    assert(args.deep_view() =~= naming_args(crate_name@, crate_type@, edition@, metadata@, file@));
    args
}

/// The message for native libraries that a configuration states wrongly.
pub open spec fn native_failure(e: Fault) -> Seq<char> {
    "failed to build native static libs: Custom { kind: InvalidData, error: "@ + debug_text(e.message) + " }"@
}

/// Whether all that a target is linked with was built, and lies in directories.
pub open spec fn linkable(config: ConfigModel, deps: Deps) -> bool {
    all_built(runtime_targets(config), deps) && all_in_dirs(products_of(config, deps))
}

/// Whether the compiler, the root and the native libraries of a library are known,
/// so that it comes to be linked.
pub open spec fn library_comes_to_link(
    working_directory: Seq<char>,
    name: Seq<char>,
    config: ConfigModel,
    deps: Deps,
) -> bool {
    compiler_in(config, deps) is Ok && library_root(config, name) is Ok && native_builds(config, working_directory) is Ok
}

/// Whether the compiler and the root of a program, or of a test, are known, so
/// that it comes to be linked.
pub open spec fn executable_comes_to_link(name: Seq<char>, config: ConfigModel, deps: Deps, test: bool) -> bool {
    compiler_in(config, deps) is Ok && executable_root(config, name, test) is Ok
}

/// How a library is built.
pub open spec fn library_steps(
    working_directory: Seq<char>,
    name: Seq<char>,
    config: ConfigModel,
    deps: Deps,
    os: Seq<char>,
) -> Result<RustSteps, Seq<char>> {
    let crate_name = extra_of(config, CRATE_NAME).unwrap_or(name);
    let crate_type = extra_of(config, CRATE_TYPE).unwrap_or("rlib"@);
    let edition = extra_of(config, EDITION).unwrap_or("2018"@);
    let metadata = metadata_in(working_directory);
    let file = library_file(working_directory, crate_name, metadata, crate_type, os);
    match compiler_in(config, deps) {
        Err(message) => Err(message),
        Ok(compiler) => match library_root(config, name) {
            Err(message) => Err(message),
            Ok(root) => match native_builds(config, working_directory) {
                Err(e) => Err(native_failure(e)),
                Ok(native) => Ok(
                    RustSteps {
                        compiler,
                        native,
                        args: library_compile_args(
                            config,
                            deps,
                            native,
                            root,
                            (crate_name, crate_type, edition, metadata),
                            file,
                        ),
                        env: compiler_env(config),
                        output: Output {
                            outputs: seq![file],
                            extras: with_number(
                                Seq::empty(),
                                TRANSITIVE_PRODUCTS,
                                product_texts(products_of(config, deps) + native_products(native)),
                            ),
                        },
                    },
                ),
            },
        },
    }
}

pub fn build_library(working_directory: &str, name: &str, config: &Config, deps: &Table<BuildOutput>, os: &str) -> (r: Result<
    RustBuild,
    String,
>)
    requires
        library_comes_to_link(working_directory@, name@, config.deep_view(), deps.deep_view()) ==> linkable(
            config.deep_view(),
            deps.deep_view(),
        ),
    ensures
        build_told(r) == library_steps(working_directory@, name@, config.deep_view(), deps.deep_view(), os@),
{
    let compiler = match compiler(config, deps) {
        Ok(compiler) => compiler,
        Err(message) => return Err(message),
    };
    let crate_name = extra_or(config, CRATE_NAME, name);
    let crate_type = extra_or(config, CRATE_TYPE, "rlib");
    let edition = extra_or(config, EDITION, "2018");
    let metadata = metadata_from_working_directory(working_directory);
    let file = library_output_file(
        working_directory,
        crate_name.as_str(),
        metadata.as_str(),
        crate_type.as_str(),
        os,
    );
    let root = match library_root_source(config, name) {
        Ok(root) => root,
        Err(message) => return Err(message),
    };
    let native = match build_native_static_libs(config, working_directory) {
        Ok(native) => native,
        Err(e) => return Err(
            cat3(
                "failed to build native static libs: Custom { kind: InvalidData, error: ",
                debug_of(e.message.as_str()).as_str(),
                " }",
            ),
        ),
    };
    let mut args = common_rustc_args(config, deps);
    keep(&mut args, root);
    add_native_build_args(&mut args, &native);
    let naming = library_naming(
        crate_name.as_str(),
        crate_type.as_str(),
        edition.as_str(),
        metadata.as_str(),
        file.as_str(),
    );
    keep_all(&mut args, &naming);
    let products = transitive_deps(config, deps);
    let mut extras: Numbered<Vec<String>> = Numbered::new();
    extras.insert(TRANSITIVE_PRODUCTS, handed_on_texts(&products, &native));
    let output = BuildOutput { outputs: single(file.as_str()), extras };
    Ok(RustBuild { compiler, native, args, env: rustc_env(config), output })
}

/// How a program, or a test, is built.
pub open spec fn executable_steps(
    working_directory: Seq<char>,
    name: Seq<char>,
    config: ConfigModel,
    deps: Deps,
    test: bool,
) -> Result<RustSteps, Seq<char>> {
    let file = joined_path(working_directory, name);
    let edition = extra_of(config, EDITION).unwrap_or("2021"@);
    match compiler_in(config, deps) {
        Err(message) => Err(message),
        Ok(compiler) => match executable_root(config, name, test) {
            Err(message) => Err(message),
            Ok(root) => Ok(
                RustSteps {
                    compiler,
                    native: Seq::empty(),
                    args: common_args(config, deps).push(root) + (if test {
                        seq!["--test"@]
                    } else {
                        Seq::empty()
                    }) + seq!["-o"@, file, "--edition="@ + edition, "--color=always"@],
                    env: compiler_env(config),
                    output: Output { outputs: seq![file], extras: Seq::empty() },
                },
            ),
        },
    }
}

pub fn build_executable(working_directory: &str, name: &str, config: &Config, deps: &Table<BuildOutput>, test: bool) -> (r: Result<
    RustBuild,
    String,
>)
    requires
        executable_comes_to_link(name@, config.deep_view(), deps.deep_view(), test) ==> linkable(
            config.deep_view(),
            deps.deep_view(),
        ),
    ensures
        build_told(r) == executable_steps(working_directory@, name@, config.deep_view(), deps.deep_view(), test),
{
    let compiler = match compiler(config, deps) {
        Ok(compiler) => compiler,
        Err(message) => return Err(message),
    };
    let file = join_path(working_directory, name);
    let edition = extra_or(config, EDITION, "2021");
    let root = match executable_root_source(config, name, test) {
        Ok(root) => root,
        Err(message) => return Err(message),
    };
    let mut args = common_rustc_args(config, deps);
    let ghost head = args.deep_view();
    keep(&mut args, root);
    if test {
        keep(&mut args, "--test".to_owned());
    }
    keep(&mut args, "-o".to_owned());
    keep(&mut args, file.clone());
    keep(&mut args, cat2("--edition=", edition.as_str()));
    keep(&mut args, "--color=always".to_owned());
    let native: Vec<NativeBuild> = Vec::new();
    let output = BuildOutput { outputs: single(file.as_str()), extras: Numbered::new() };
    proof {
        assert(args.deep_view() =~= head.push(root@) + (if test {
            seq!["--test"@]
        } else {
            Seq::empty()
        }) + seq!["-o"@, file@, "--edition="@ + edition@, "--color=always"@]);
        assert(native.deep_view() =~= Seq::<NativeSteps>::empty());
        assert(output.deep_view() =~= (Output { outputs: seq![file@], extras: Seq::empty() }));
    }
    Ok(RustBuild { compiler, native, args, env: rustc_env(config), output })
}

/// How a target of Rust's is built.
pub open spec fn rust_steps(
    target: Seq<char>,
    config: ConfigModel,
    deps: Deps,
    working_directory: Seq<char>,
    os: Seq<char>,
) -> Result<RustSteps, Seq<char>> {
    let name = crate_of(target);
    if config.kind == "rust_library"@ {
        library_steps(working_directory, name, config, deps, os)
    } else if config.kind == "rust_binary"@ {
        executable_steps(working_directory, name, config, deps, false)
    } else if config.kind == "rust_test"@ {
        executable_steps(working_directory, name, config, deps, true)
    } else {
        Err("unsupported target kind: "@ + debug_text(config.kind))
    }
}

/// Whether what a target is linked with is in place, or will not be asked for.
pub open spec fn buildable(target: Seq<char>, config: ConfigModel, deps: Deps, working_directory: Seq<char>) -> bool {
    let name = crate_of(target);
    let comes_to_link = if config.kind == "rust_library"@ {
        library_comes_to_link(working_directory, name, config, deps)
    } else if config.kind == "rust_binary"@ {
        executable_comes_to_link(name, config, deps, false)
    } else if config.kind == "rust_test"@ {
        executable_comes_to_link(name, config, deps, true)
    } else {
        false
    };
    comes_to_link ==> linkable(config, deps)
}

pub fn build_rust_request(request: &BuildRequest, os: &str) -> (r: Result<RustBuild, String>)
    requires
        buildable(
            request.target@,
            request.config.deep_view(),
            request.dependencies.deep_view(),
            request.working_directory@,
        ),
    ensures
        build_told(r) == rust_steps(
            request.target@,
            request.config.deep_view(),
            request.dependencies.deep_view(),
            request.working_directory@,
            os@,
        ),
{
    let name = rust_name(request.target.as_str());
    let dir = request.working_directory.as_str();
    let config = &request.config;
    let deps = &request.dependencies;
    if same(config.kind.as_str(), "rust_library") {
        build_library(dir, name.as_str(), config, deps, os)
    } else if same(config.kind.as_str(), "rust_binary") {
        build_executable(dir, name.as_str(), config, deps, false)
    } else if same(config.kind.as_str(), "rust_test") {
        build_executable(dir, name.as_str(), config, deps, true)
    } else {
        Err(cat2("unsupported target kind: ", debug_of(config.kind.as_str()).as_str()))
    }
}

/// Whether all that a target is linked with was built, and lies in directories.
fn ready_to_link(config: &Config, deps: &Table<BuildOutput>) -> (r: bool)
    ensures
        r == linkable(config.deep_view(), deps.deep_view()),
{
    let targets = runtime_dependencies(config);
    let ghost list = targets.deep_view();
    let mut i: usize = 0;
    while i < targets.len()
        invariant
            i <= targets.len(),
            list == targets.deep_view(),
            list == runtime_targets(config.deep_view()),
            forall|j: int| 0 <= j < i ==> found(deps.deep_view(), #[trigger] list[j]) is Some,
        decreases targets.len() - i,
    {
        assert(list[i as int] == targets@[i as int]@);
        if !deps.has(targets[i].as_str()) {
            return false;
        }
        i = i + 1;
    }
    let products = transitive_deps(config, deps);
    let ghost rows = products.deep_view();
    let mut k: usize = 0;
    while k < products.len()
        invariant
            k <= products.len(),
            rows == products.deep_view(),
            rows == products_of(config.deep_view(), deps.deep_view()),
            forall|j: int| 0 <= j < k ==> parent_of((#[trigger] rows[j]).1) is Some,
        decreases products.len() - k,
    {
        assert(rows[k as int] == (products@[k as int].0@, products@[k as int].1@));
        if parent(products[k].1.as_str()).is_none() {
            return false;
        }
        k = k + 1;
    }
    true
}

/// Whether what a target is linked with is in place, or will not be asked for.
pub fn ready_to_build(request: &BuildRequest) -> (r: bool)
    ensures
        r == buildable(
            request.target@,
            request.config.deep_view(),
            request.dependencies.deep_view(),
            request.working_directory@,
        ),
{
    let config = &request.config;
    let deps = &request.dependencies;
    if ready_to_link(config, deps) || compiler(config, deps).is_err() {
        return true;
    }
    let name = rust_name(request.target.as_str());
    if same(config.kind.as_str(), "rust_library") {
        library_root_source(config, name.as_str()).is_err() || build_native_static_libs(
            config,
            request.working_directory.as_str(),
        ).is_err()
    } else if same(config.kind.as_str(), "rust_binary") {
        executable_root_source(config, name.as_str(), false).is_err()
    } else if same(config.kind.as_str(), "rust_test") {
        executable_root_source(config, name.as_str(), true).is_err()
    } else {
        true
    }
}

/// The directory with the links to the declared tools.
pub open spec fn links_dir(working_directory: Seq<char>) -> Seq<char> {
    joined_path(working_directory, ".cbs-tools"@)
}

/// The links to the declared tools, each with the program that it leads to.
pub open spec fn links_to(working_directory: Seq<char>, tools: Products) -> Products {
    tools.map_values(|row: (Seq<char>, Seq<char>)| (joined_path(links_dir(working_directory), row.0), row.1))
}

pub fn materialize_declared_tools(working_directory: &str, tools: &Table<String>) -> (r: Vec<(String, String)>)
    ensures
        r.deep_view() == links_to(working_directory@, tools.deep_view()),
{
    let dir = join_path(working_directory, ".cbs-tools");
    let ghost rows = tools.deep_view();
    let ghost all = links_to(working_directory@, rows);
    let mut out: Vec<(String, String)> = Vec::new();
    let mut i: usize = 0;
    assert(out.deep_view() =~= all.take(0));
    while i < tools.rows.len()
        invariant
            i <= tools.rows.len(),
            rows == tools.deep_view(),
            all == links_to(working_directory@, rows),
            dir@ == links_dir(working_directory@),
            out.deep_view() == all.take(i as int),
        decreases tools.rows.len() - i,
    {
        assert(rows[i as int] == (tools.rows@[i as int].0@, tools.rows@[i as int].1@));
        keep(&mut out, (join_path(dir.as_str(), tools.rows[i].0.as_str()), tools.rows[i].1.clone()));
        i = i + 1;
        assert(all.take(i as int) =~= all.take(i - 1).push(all[i - 1]));
    }
    assert(all.take(i as int) =~= all);
    out
}

/// Whether `program` is the bare name of a declared tool.
pub open spec fn names_declared(program: Seq<char>, tools: Products) -> bool {
    components(program).len() == 1 && found(tools, program) is Some
}

/// The command that the plugin runs: a declared tool, or a program that is none
/// of the host's; it sees nothing of the host.
pub open spec fn plugin_command(
    program: Seq<char>,
    args: Seq<Seq<char>>,
    env: Products,
    working_directory: Seq<char>,
    tools: Products,
) -> Result<Command, Seq<char>> {
    let hermetic = seq![
        ("PATH"@, links_dir(working_directory)),
        ("TMPDIR"@, joined_path(working_directory, "tmp"@)),
        ("HOME"@, joined_path(working_directory, "home"@)),
    ] + env;
    if names_declared(program, tools) {
        Ok(Command { bin: joined_path(links_dir(working_directory), program), args, env: hermetic, hermetic: true })
    } else {
        match command_rejection(program, "rust plugin action"@) {
            Some(e) => Err(e.message),
            None => Ok(Command { bin: program, args, env: hermetic, hermetic: true }),
        }
    }
}

/// What a command, or the message in its place, says.
pub open spec fn command_told(r: Result<CommandLine, String>) -> Result<Command, Seq<char>> {
    match r {
        Ok(command) => Ok(command.deep_view()),
        Err(message) => Err(message@),
    }
}

pub fn run_process(
    program: &str,
    args: &Vec<String>,
    env: &Vec<(String, String)>,
    working_directory: &str,
    tools: &Table<String>,
) -> (r: Result<CommandLine, String>)
    ensures
        command_told(r) == plugin_command(
            program@,
            args.deep_view(),
            env.deep_view(),
            working_directory@,
            tools.deep_view(),
        ),
{
    let dir = join_path(working_directory, ".cbs-tools");
    let parts = parts_of(program);
    assert(parts@.len() == components(program@).len());
    let declared = parts.len() == 1 && tools.has(program);
    let bin = if declared {
        join_path(dir.as_str(), program)
    } else {
        match diagnose_command(program, "rust plugin action") {
            Err(e) => return Err(e.message),
            Ok(_) => program.to_owned(),
        }
    };
    let mut all: Vec<(String, String)> = Vec::new();
    keep(&mut all, ("PATH".to_owned(), dir));
    keep(&mut all, ("TMPDIR".to_owned(), join_path(working_directory, "tmp")));
    keep(&mut all, ("HOME".to_owned(), join_path(working_directory, "home")));
    assert(all.deep_view() =~= seq![
        ("PATH"@, links_dir(working_directory@)),
        ("TMPDIR"@, joined_path(working_directory@, "tmp"@)),
        ("HOME"@, joined_path(working_directory@, "home"@)),
    ]);
    keep_all(&mut all, env);
    Ok(CommandLine { bin, args: args.duplicate(), env: all, hermetic: true })
}

/// `printed` under a heading, where it is more than space.
pub open spec fn printed_part(heading: Seq<char>, printed: Seq<char>) -> Seq<char> {
    if trimmed(printed).len() == 0 {
        Seq::empty()
    } else {
        heading + trimmed_end(printed)
    }
}

/// The message for a program that failed.
pub open spec fn failure_message(what: Seq<char>, status: Seq<char>, stdout: Seq<char>, stderr: Seq<char>) -> Seq<char> {
    what + " exited with "@ + status + printed_part("\nstdout:\n"@, stdout) + printed_part("\nstderr:\n"@, stderr)
}

fn show_part(heading: &str, printed: &str) -> (r: String)
    ensures
        r@ == printed_part(heading@, printed@),
{
    if trim(printed).as_str().is_empty() {
        let none = String::new();
        assert(none@ =~= Seq::empty());
        none
    } else {
        cat2(heading, trim_end(printed).as_str())
    }
}

/// The message for a program, `what`, that failed.
pub fn describe_failure(what: &str, status: &str, stdout: &str, stderr: &str) -> (r: String)
    ensures
        r@ == failure_message(what@, status@, stdout@, stderr@),
{
    cat5(
        what,
        " exited with ",
        status,
        show_part("\nstdout:\n", stdout).as_str(),
        show_part("\nstderr:\n", stderr).as_str(),
    )
}

} // verus!
