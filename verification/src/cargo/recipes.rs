//! Recipes: what replaces the build scripts of the packages that have one.

use vstd::prelude::*;

use crate::build_config_key;
use crate::cargo::cfg::Facts;
use crate::model::PluginContext;
use crate::table::found_number;
use crate::text::{join, joined, keep, same, Duplicate};

verus! {

pub struct CargoBuildRecipe {
    pub rustc_cfgs: Vec<String>,
    pub native_static_libs: Vec<CargoNativeStaticLib>,
}

pub struct CargoNativeStaticLib {
    pub name: String,
    pub sources: Vec<String>,
    pub include_dirs: Vec<String>,
    pub flags: Vec<String>,
}

/// What a `CargoBuildRecipe` says.
#[verifier::ext_equal]
pub struct Recipe {
    pub rustc_cfgs: Seq<Seq<char>>,
    pub native_static_libs: Seq<StaticLib>,
}

/// What a `CargoNativeStaticLib` says.
#[verifier::ext_equal]
pub struct StaticLib {
    pub name: Seq<char>,
    pub sources: Seq<Seq<char>>,
    pub include_dirs: Seq<Seq<char>>,
    pub flags: Seq<Seq<char>>,
}

impl DeepView for CargoNativeStaticLib {
    type V = StaticLib;

    open spec fn deep_view(&self) -> StaticLib {
        StaticLib {
            name: self.name@,
            sources: self.sources.deep_view(),
            include_dirs: self.include_dirs.deep_view(),
            flags: self.flags.deep_view(),
        }
    }
}

impl DeepView for CargoBuildRecipe {
    type V = Recipe;

    open spec fn deep_view(&self) -> Recipe {
        Recipe {
            rustc_cfgs: self.rustc_cfgs.deep_view(),
            native_static_libs: self.native_static_libs.deep_view(),
        }
    }
}

impl Duplicate for CargoNativeStaticLib {
    fn duplicate(&self) -> (r: Self) {
        CargoNativeStaticLib {
            name: self.name.clone(),
            sources: self.sources.duplicate(),
            include_dirs: self.include_dirs.duplicate(),
            flags: self.flags.duplicate(),
        }
    }
}

impl Duplicate for CargoBuildRecipe {
    fn duplicate(&self) -> (r: Self) {
        CargoBuildRecipe {
            rustc_cfgs: self.rustc_cfgs.duplicate(),
            native_static_libs: self.native_static_libs.duplicate(),
        }
    }
}

/// Whether the build script of a package has no effect that its build needs.
pub open spec fn script_is_idle(package: Seq<char>, version: Seq<char>) -> bool {
    ||| package == "flatbuffers"@ && version == "25.12.19"@
    ||| package == "generic-array"@ && version == "0.14.7"@
    ||| package == "httparse"@ && (version == "1.8.0"@ || version == "1.10.1"@)
    ||| package == "libc"@ && (version == "0.2.151"@ || version == "0.2.186"@)
    ||| package == "proc-macro2"@ && (version == "1.0.71"@ || version == "1.0.106"@)
    ||| package == "quote"@ && version == "1.0.45"@
    ||| package == "rustls"@ && version == "0.23.31"@
    ||| package == "serde"@ && (version == "1.0.193"@ || version == "1.0.228"@)
    ||| package == "serde_json"@ && version == "1.0.117"@
    ||| package == "serde_core"@ && version == "1.0.228"@
    ||| package == "slab"@ && (version == "0.4.9"@ || version == "0.4.12"@)
    ||| package == "syn"@ && version == "1.0.109"@
    ||| package == "zerocopy"@ && version == "0.8.48"@
}

fn has_idle_script(package: &str, version: &str) -> (r: bool)
    ensures
        r == script_is_idle(package@, version@),
{
    (same(package, "flatbuffers") && same(version, "25.12.19"))
        || (same(package, "generic-array") && same(version, "0.14.7"))
        || (same(package, "httparse") && (same(version, "1.8.0") || same(version, "1.10.1")))
        || (same(package, "libc") && (same(version, "0.2.151") || same(version, "0.2.186")))
        || (same(package, "proc-macro2") && (same(version, "1.0.71") || same(version, "1.0.106")))
        || (same(package, "quote") && same(version, "1.0.45"))
        || (same(package, "rustls") && same(version, "0.23.31"))
        || (same(package, "serde") && (same(version, "1.0.193") || same(version, "1.0.228")))
        || (same(package, "serde_json") && same(version, "1.0.117"))
        || (same(package, "serde_core") && same(version, "1.0.228"))
        || (same(package, "slab") && (same(version, "0.4.9") || same(version, "0.4.12")))
        || (same(package, "syn") && same(version, "1.0.109"))
        || (same(package, "zerocopy") && same(version, "0.8.48"))
}

/// Whether the facts describe one of Apple's 64-bit ARM machines.
pub open spec fn is_apple_arm(facts: Facts) -> bool {
    let os = found_number(facts, build_config_key::TARGET_OS);
    &&& found_number(facts, build_config_key::TARGET_FAMILY) == Some("unix"@)
    &&& found_number(facts, build_config_key::TARGET_ARCH) == Some("aarch64"@)
    &&& found_number(facts, build_config_key::TARGET_VENDOR) == Some("apple"@)
    &&& found_number(facts, build_config_key::TARGET_ENDIAN) == Some("little"@)
    &&& (os == Some("ios"@) || os == Some("macos"@) || os == Some("tvos"@) || os == Some("visionos"@) || os == Some(
        "watchos"@,
    ))
}

fn is_aarch64_apple(context: &PluginContext) -> (r: bool)
    ensures
        r == is_apple_arm(context.target_config.deep_view()),
{
    context.config_is(build_config_key::TARGET_FAMILY, "unix") && context.config_is(
        build_config_key::TARGET_ARCH,
        "aarch64",
    ) && context.config_is(build_config_key::TARGET_VENDOR, "apple") && context.config_is(
        build_config_key::TARGET_ENDIAN,
        "little",
    ) && (context.config_is(build_config_key::TARGET_OS, "ios") || context.config_is(
        build_config_key::TARGET_OS,
        "macos",
    ) || context.config_is(build_config_key::TARGET_OS, "tvos") || context.config_is(
        build_config_key::TARGET_OS,
        "visionos",
    ) || context.config_is(build_config_key::TARGET_OS, "watchos"))
}

/// The C and assembly sources of `ring` for Apple's 64-bit ARM machines.
pub open spec fn ring_sources() -> Seq<Seq<char>> {
    seq![
        "crypto/curve25519/curve25519.c"@,
        "crypto/fipsmodule/aes/aes_nohw.c"@,
        "crypto/fipsmodule/bn/montgomery.c"@,
        "crypto/fipsmodule/bn/montgomery_inv.c"@,
        "crypto/fipsmodule/ec/ecp_nistz.c"@,
        "crypto/fipsmodule/ec/gfp_p256.c"@,
        "crypto/fipsmodule/ec/gfp_p384.c"@,
        "crypto/fipsmodule/ec/p256.c"@,
        "crypto/limbs/limbs.c"@,
        "crypto/mem.c"@,
        "crypto/poly1305/poly1305.c"@,
        "crypto/fipsmodule/ec/p256-nistz.c"@,
        "pregenerated/aesv8-armx-ios64.S"@,
        "pregenerated/aesv8-gcm-armv8-ios64.S"@,
        "pregenerated/ghash-neon-armv8-ios64.S"@,
        "pregenerated/ghashv8-armx-ios64.S"@,
        "pregenerated/p256-armv8-asm-ios64.S"@,
        "pregenerated/sha256-armv8-ios64.S"@,
        "pregenerated/sha512-armv8-ios64.S"@,
        "pregenerated/chacha-armv8-ios64.S"@,
        "pregenerated/chacha20_poly1305_armv8-ios64.S"@,
        "pregenerated/armv8-mont-ios64.S"@,
        "pregenerated/vpaes-armv8-ios64.S"@,
    ]
}

/// The compiler flags for those sources.
pub open spec fn ring_flags() -> Seq<Seq<char>> {
    seq![
        "-fvisibility=hidden"@,
        "-std=c1x"@,
        "-Wall"@,
        "-Wbad-function-cast"@,
        "-Wcast-align"@,
        "-Wcast-qual"@,
        "-Wconversion"@,
        "-Wmissing-field-initializers"@,
        "-Wmissing-include-dirs"@,
        "-Wnested-externs"@,
        "-Wredundant-decls"@,
        "-Wshadow"@,
        "-Wsign-compare"@,
        "-Wsign-conversion"@,
        "-Wstrict-prototypes"@,
        "-Wundef"@,
        "-Wuninitialized"@,
        "-gfull"@,
        "-DNDEBUG"@,
    ]
}

/// The library that `ring` links on Apple's 64-bit ARM machines.
pub open spec fn ring_lib() -> StaticLib {
    StaticLib {
        name: "ring_core_0_17_14_"@,
        sources: ring_sources(),
        include_dirs: seq!["include"@, "pregenerated"@],
        flags: ring_flags(),
    }
}

/// Appends a copy of `s`.
fn list(out: &mut Vec<String>, s: &str)
    ensures
        final(out).deep_view() == old(out).deep_view().push(s@),
{
    keep(out, s.to_owned());
}

fn ring_source_list() -> (r: Vec<String>)
    ensures
        r.deep_view() == ring_sources(),
{
    let mut out: Vec<String> = Vec::new();
    list(&mut out, "crypto/curve25519/curve25519.c");
    list(&mut out, "crypto/fipsmodule/aes/aes_nohw.c");
    list(&mut out, "crypto/fipsmodule/bn/montgomery.c");
    list(&mut out, "crypto/fipsmodule/bn/montgomery_inv.c");
    list(&mut out, "crypto/fipsmodule/ec/ecp_nistz.c");
    list(&mut out, "crypto/fipsmodule/ec/gfp_p256.c");
    list(&mut out, "crypto/fipsmodule/ec/gfp_p384.c");
    list(&mut out, "crypto/fipsmodule/ec/p256.c");
    list(&mut out, "crypto/limbs/limbs.c");
    list(&mut out, "crypto/mem.c");
    list(&mut out, "crypto/poly1305/poly1305.c");
    list(&mut out, "crypto/fipsmodule/ec/p256-nistz.c");
    list(&mut out, "pregenerated/aesv8-armx-ios64.S");
    list(&mut out, "pregenerated/aesv8-gcm-armv8-ios64.S");
    list(&mut out, "pregenerated/ghash-neon-armv8-ios64.S");
    list(&mut out, "pregenerated/ghashv8-armx-ios64.S");
    list(&mut out, "pregenerated/p256-armv8-asm-ios64.S");
    list(&mut out, "pregenerated/sha256-armv8-ios64.S");
    list(&mut out, "pregenerated/sha512-armv8-ios64.S");
    list(&mut out, "pregenerated/chacha-armv8-ios64.S");
    list(&mut out, "pregenerated/chacha20_poly1305_armv8-ios64.S");
    list(&mut out, "pregenerated/armv8-mont-ios64.S");
    list(&mut out, "pregenerated/vpaes-armv8-ios64.S");
    assert(out.deep_view() =~= ring_sources());
    out
}

fn ring_flag_list() -> (r: Vec<String>)
    ensures
        r.deep_view() == ring_flags(),
{
    let mut out: Vec<String> = Vec::new();
    list(&mut out, "-fvisibility=hidden");
    list(&mut out, "-std=c1x");
    list(&mut out, "-Wall");
    list(&mut out, "-Wbad-function-cast");
    list(&mut out, "-Wcast-align");
    list(&mut out, "-Wcast-qual");
    list(&mut out, "-Wconversion");
    list(&mut out, "-Wmissing-field-initializers");
    list(&mut out, "-Wmissing-include-dirs");
    list(&mut out, "-Wnested-externs");
    list(&mut out, "-Wredundant-decls");
    list(&mut out, "-Wshadow");
    list(&mut out, "-Wsign-compare");
    list(&mut out, "-Wsign-conversion");
    list(&mut out, "-Wstrict-prototypes");
    list(&mut out, "-Wundef");
    list(&mut out, "-Wuninitialized");
    list(&mut out, "-gfull");
    list(&mut out, "-DNDEBUG");
    assert(out.deep_view() =~= ring_flags());
    out
}

fn ring_aarch64_apple_native_static_lib() -> (r: CargoNativeStaticLib)
    ensures
        r.deep_view() == ring_lib(),
{
    let mut include_dirs: Vec<String> = Vec::new();
    list(&mut include_dirs, "include");
    list(&mut include_dirs, "pregenerated");
    assert(include_dirs.deep_view() =~= ring_lib().include_dirs);
    CargoNativeStaticLib {
        name: "ring_core_0_17_14_".to_owned(),
        sources: ring_source_list(),
        include_dirs,
        flags: ring_flag_list(),
    }
}

/// The recipe that is known for a version of a package.
pub open spec fn known_recipe(facts: Facts, package: Seq<char>, version: Seq<char>) -> Option<Recipe> {
    if script_is_idle(package, version) {
        Some(Recipe { rustc_cfgs: Seq::empty(), native_static_libs: Seq::empty() })
    } else if package == "indexmap"@ && version == "1.9.3"@ {
        Some(Recipe { rustc_cfgs: seq!["has_std"@], native_static_libs: Seq::empty() })
    } else if package == "ring"@ && version == "0.17.14"@ && is_apple_arm(facts) {
        Some(Recipe { rustc_cfgs: Seq::empty(), native_static_libs: seq![ring_lib()] })
    } else {
        None
    }
}

pub fn build_recipe(context: &PluginContext, package: &str, version: &str) -> (r: Option<CargoBuildRecipe>)
    ensures
        r.deep_view() == known_recipe(context.target_config.deep_view(), package@, version@),
{
    let mut rustc_cfgs: Vec<String> = Vec::new();
    let mut native_static_libs: Vec<CargoNativeStaticLib> = Vec::new();
    assert(rustc_cfgs.deep_view() =~= Seq::<Seq<char>>::empty());
    assert(native_static_libs.deep_view() =~= Seq::<StaticLib>::empty());
    if has_idle_script(package, version) {
        return Some(CargoBuildRecipe { rustc_cfgs, native_static_libs });
    }
    if same(package, "indexmap") && same(version, "1.9.3") {
        list(&mut rustc_cfgs, "has_std");
        assert(rustc_cfgs.deep_view() =~= seq!["has_std"@]);
        return Some(CargoBuildRecipe { rustc_cfgs, native_static_libs });
    }
    if same(package, "ring") && same(version, "0.17.14") && is_aarch64_apple(context) {
        keep(&mut native_static_libs, ring_aarch64_apple_native_static_lib());
        assert(native_static_libs.deep_view() =~= seq![ring_lib()]);
        return Some(CargoBuildRecipe { rustc_cfgs, native_static_libs });
    }
    None
}

/// A library as one line of text: its name, sources, directories and flags
/// with `|` between them, and `;` between the texts of each list.
pub open spec fn encoded_lib(lib: StaticLib) -> Seq<char> {
    joined(
        seq![
            lib.name,
            joined(lib.sources, ";"@),
            joined(lib.include_dirs, ";"@),
            joined(lib.flags, ";"@),
        ],
        "|"@,
    )
}

pub fn encode_native_static_lib(lib: &CargoNativeStaticLib) -> (r: String)
    ensures
        r@ == encoded_lib(lib.deep_view()),
{
    let mut parts: Vec<String> = Vec::new();
    keep(&mut parts, lib.name.clone());
    keep(&mut parts, join(&lib.sources, ";"));
    keep(&mut parts, join(&lib.include_dirs, ";"));
    keep(&mut parts, join(&lib.flags, ";"));
    let ghost l = lib.deep_view();
    assert(parts.deep_view() =~= seq![
        l.name,
        joined(l.sources, ";"@),
        joined(l.include_dirs, ";"@),
        joined(l.flags, ";"@),
    ]);
    join(&parts, "|")
}

} // verus!
