//! The numbers under which the facts about the target machine are kept.

use vstd::prelude::*;

verus! {

pub const TARGET_FAMILY: u32 = 0;

pub const TARGET_ENV: u32 = 1;

pub const TARGET_OS: u32 = 2;

pub const TARGET_ARCH: u32 = 3;

pub const TARGET_VENDOR: u32 = 4;

pub const TARGET_ENDIAN: u32 = 5;

pub const MACOS_DEVELOPER_DIR: u32 = 6;

pub const MACOS_SDK_PATH: u32 = 7;

} // verus!
