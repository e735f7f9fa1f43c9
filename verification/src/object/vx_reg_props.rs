//! The class identifiers under which the two processing objects are registered.

use vstd::prelude::*;
use crate::guid::GUID;

verus! {

/// The class identifier of the object that processes a stream before mixing.
#[verifier::allow_in_spec]
pub fn clsid_pre_mix() -> GUID
    returns
        (GUID {
            data1: 0xA1B2C3D4,
            data2: 0x1234,
            data3: 0x5678,
            data4: [0x9A, 0xBC, 0xDE, 0xF0, 0x12, 0x34, 0x56, 0x78],
        }),
{
    GUID {
        data1: 0xA1B2C3D4,
        data2: 0x1234,
        data3: 0x5678,
        data4: [0x9A, 0xBC, 0xDE, 0xF0, 0x12, 0x34, 0x56, 0x78],
    }
}

/// The class identifier of the object that processes a stream after mixing.
#[verifier::allow_in_spec]
pub fn clsid_post_mix() -> GUID
    returns
        (GUID {
            data1: 0xD4C3B2A1,
            data2: 0x4321,
            data3: 0x8765,
            data4: [0x9A, 0xBC, 0xDE, 0xF0, 0x12, 0x34, 0x56, 0x79],
        }),
{
    GUID {
        data1: 0xD4C3B2A1,
        data2: 0x4321,
        data3: 0x8765,
        data4: [0x9A, 0xBC, 0xDE, 0xF0, 0x12, 0x34, 0x56, 0x79],
    }
}

/// Whether a class identifier is one of this library's own.
pub open spec fn is_own_clsid(g: GUID) -> bool {
    g == clsid_pre_mix() || g == clsid_post_mix()
}

/// Whether a class identifier is one of this library's own.
pub fn own_clsid(g: &GUID) -> (r: bool)
    ensures
        r == is_own_clsid(*g),
{
    *g == clsid_pre_mix() || *g == clsid_post_mix()
}

/// The two class identifiers differ.
pub proof fn law_clsids_distinct()
    ensures
        clsid_pre_mix() != clsid_post_mix(),
{
}

} // verus!
