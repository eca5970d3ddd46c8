//! Device numbers.

use vstd::prelude::*;

verus! {

/// The device number that stands for the major number `major` and the minor
/// number `minor`.
pub open spec fn device_number(major: u32, minor: u32) -> u64 {
    (((minor & 0xff) as u64) | (((major & 0xfff) as u64) << 8) | (((minor & !0xffu32) as u64) << 12)
        | (((major & !0xfffu32) as u64) << 32))
}

/// Returns the device number from a major/minor pair.
pub fn makedev(major: u32, minor: u32) -> (n: u64)
    ensures
        n == device_number(major, minor),
{
    (((minor & 0xff) as u64) | (((major & 0xfff) as u64) << 8) | (((minor & !0xffu32) as u64) << 12)
        | (((major & !0xfffu32) as u64) << 32))
}

/// The major number of the device number `dev`.
pub open spec fn major_of(dev: u64) -> u32 {
    (((dev >> 8) & 0xfff) | ((dev >> 32) & !0xfffu64)) as u32
}

/// Returns the major number from a device number.
pub fn major(dev: u64) -> (n: u32)
    ensures
        n == major_of(dev),
{
    #[verifier::truncate]
    ((((dev >> 8) & 0xfff) | ((dev >> 32) & !0xfffu64)) as u32)
}

/// The minor number of the device number `dev`.
pub open spec fn minor_of(dev: u64) -> u32 {
    ((dev & 0xff) | ((dev >> 12) & !0xffu64)) as u32
}

/// Returns the minor number from a device number.
pub fn minor(dev: u64) -> (n: u32)
    ensures
        n == minor_of(dev),
{
    #[verifier::truncate]
    (((dev & 0xff) | ((dev >> 12) & !0xffu64)) as u32)
}

} // verus!
