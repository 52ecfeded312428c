//! The numbers under which a target's configuration keeps what only its build
//! plugin reads.

use vstd::prelude::*;

verus! {

pub const FEATURES: u32 = 0;

pub const CRATE_NAME: u32 = 1;

pub const CRATE_TYPE: u32 = 2;

pub const EDITION: u32 = 3;

pub const ROOT_SOURCE: u32 = 4;

pub const CRATE_ROOT: u32 = 5;

pub const DEPENDENCY_ALIASES: u32 = 6;

pub const RUSTC_CFGS: u32 = 7;

pub const NATIVE_STATIC_LIBS: u32 = 8;

pub const RUSTC_ENV: u32 = 9;

} // verus!
