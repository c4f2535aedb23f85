//! Device numbers: how the platform packs a major and a minor number into
//! one device identifier.

use vstd::prelude::*;

verus! {

/// The major number packed in a Linux device identifier: its bits 8 to 19,
/// and above them its bits 44 to 63.
pub open spec fn major_spec(dev: u64) -> u32 {
    (((dev & 0x0000_0000_000f_ff00u64) >> 8u64) | ((dev & 0xffff_f000_0000_0000u64) >> 32u64)) as u32
}

/// The minor number packed in a Linux device identifier: its bits 0 to 7,
/// and above them its bits 20 to 43.
pub open spec fn minor_spec(dev: u64) -> u32 {
    ((dev & 0x0000_0000_0000_00ffu64) | ((dev & 0x0000_0fff_fff0_0000u64) >> 12u64)) as u32
}

/// The Linux device identifier that packs a major and a minor number.
pub open spec fn makedev_spec(major: u32, minor: u32) -> u64 {
    (((major as u64) & 0x0000_0fffu64) << 8u64) | (((major as u64) & 0xffff_f000u64) << 32u64) | ((
    minor as u64) & 0x0000_00ffu64) | (((minor as u64) & 0xffff_ff00u64) << 12u64)
}

/// Calls `libc::major`. Trusted: on Linux it returns the bits of the
/// identifier that `major_spec` names.
#[verifier::external_body]
pub(crate) fn dev_major(dev: u64) -> (r: u32)
    ensures
        r == major_spec(dev),
{
    libc::major(dev)
}

/// Calls `libc::minor`. Trusted: on Linux it returns the bits of the
/// identifier that `minor_spec` names.
#[verifier::external_body]
pub(crate) fn dev_minor(dev: u64) -> (r: u32)
    ensures
        r == minor_spec(dev),
{
    libc::minor(dev)
}

/// Calls `libc::makedev`. Trusted: on Linux it packs the two numbers as
/// `makedev_spec` says.
#[verifier::external_body]
pub(crate) fn make_dev(major: u32, minor: u32) -> (r: u64)
    ensures
        r == makedev_spec(major, minor),
{
    libc::makedev(major, minor)
}

/// Packing two numbers and unpacking the identifier gives the numbers back.
pub proof fn lemma_device_round_trip(major: u32, minor: u32)
    ensures
        major_spec(makedev_spec(major, minor)) == major,
        minor_spec(makedev_spec(major, minor)) == minor,
{
    let ma = major as u64;
    let mi = minor as u64;
    let dev = ((ma & 0x0000_0fffu64) << 8u64) | ((ma & 0xffff_f000u64) << 32u64) | (mi
        & 0x0000_00ffu64) | ((mi & 0xffff_ff00u64) << 12u64);
    assert((((dev & 0x0000_0000_000f_ff00u64) >> 8u64) | ((dev & 0xffff_f000_0000_0000u64)
        >> 32u64)) == ma) by (bit_vector)
        requires
            ma <= 0xffff_ffffu64,
            mi <= 0xffff_ffffu64,
            dev == ((ma & 0x0000_0fffu64) << 8u64) | ((ma & 0xffff_f000u64) << 32u64) | (mi
                & 0x0000_00ffu64) | ((mi & 0xffff_ff00u64) << 12u64),
    ;
    assert(((dev & 0x0000_0000_0000_00ffu64) | ((dev & 0x0000_0fff_fff0_0000u64) >> 12u64))
        == mi) by (bit_vector)
        requires
            ma <= 0xffff_ffffu64,
            mi <= 0xffff_ffffu64,
            dev == ((ma & 0x0000_0fffu64) << 8u64) | ((ma & 0xffff_f000u64) << 32u64) | (mi
                & 0x0000_00ffu64) | ((mi & 0xffff_ff00u64) << 12u64),
    ;
}

} // verus!
