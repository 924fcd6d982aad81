//! Protocol version probe and gate.
//!
//! The plugin exposes one packed 32-bit version word: the major part in the
//! upper 16 bits, the minor part in the lower 16 bits. A major difference
//! signals binary incompatibility, so a host must refuse to call a plugin
//! whose major part differs from its own; a minor difference is additive
//! only and is accepted.

use vstd::prelude::*;

verus! {

/// Major part of the protocol version this library implements.
pub const PROTOCOL_MAJOR: u16 = 0;

/// Minor part of the protocol version this library implements.
pub const PROTOCOL_MINOR: u16 = 1;

/// The packed form of a (major, minor) version pair.
pub open spec fn spec_packed_version(major: u16, minor: u16) -> u32 {
    (major * 0x1_0000 + minor) as u32
}

/// The major part of a packed version word.
pub open spec fn spec_major_of(packed: u32) -> u16 {
    (packed / 0x1_0000) as u16
}

/// The minor part of a packed version word.
pub open spec fn spec_minor_of(packed: u32) -> u16 {
    (packed % 0x1_0000) as u16
}

/// Packs a (major, minor) pair into the single version word of the probe.
pub fn pack_version(major: u16, minor: u16) -> (packed: u32)
    ensures
        packed == spec_packed_version(major, minor),
{
    proof {
        assert(((major as u32) << 16u32) + (minor as u32) == major * 0x1_0000 + minor)
            by (bit_vector);
    }
    ((major as u32) << 16u32) + minor as u32
}

/// Recovers the (major, minor) pair from a packed version word.
pub fn unpack_version(packed: u32) -> (pair: (u16, u16))
    ensures
        pair.0 == spec_major_of(packed),
        pair.1 == spec_minor_of(packed),
{
    proof {
        assert((packed >> 16u32) == packed / 0x1_0000 && (packed & 0xffffu32) == packed
            % 0x1_0000) by (bit_vector);
    }
    ((packed >> 16u32) as u16, (packed & 0xffffu32) as u16)
}

/// The version word this plugin reports from its probe.
pub fn get_plugin_version() -> (packed: u32)
    ensures
        packed == spec_packed_version(PROTOCOL_MAJOR, PROTOCOL_MINOR),
{
    pack_version(PROTOCOL_MAJOR, PROTOCOL_MINOR)
}

/// The version gate: a host holding `host_packed` may call the compute and
/// type-resolution entry points of a plugin reporting `plugin_packed` exactly
/// when the major parts agree.
pub fn may_call(host_packed: u32, plugin_packed: u32) -> (ok: bool)
    ensures
        ok <==> spec_major_of(host_packed) == spec_major_of(plugin_packed),
{
    let (host_major, _) = unpack_version(host_packed);
    let (plugin_major, _) = unpack_version(plugin_packed);
    host_major == plugin_major
}

/// Packing is lossless: `may_call` judges exactly the major part that went
/// into the version word, so a host accepts every plugin that shares its
/// major part and refuses every plugin that differs in it.
pub proof fn lemma_pack_version_round_trip(major: u16, minor: u16)
    ensures
        spec_major_of(spec_packed_version(major, minor)) == major,
        spec_minor_of(spec_packed_version(major, minor)) == minor,
{
    let packed = major * 0x1_0000 + minor;
    assert(packed / 0x1_0000 == major && packed % 0x1_0000 == minor) by (nonlinear_arith)
        requires
            packed == major * 0x1_0000 + minor,
            minor < 0x1_0000,
    ;
}

} // verus!
