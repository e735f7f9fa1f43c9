//! The state of a processing object, and class identifiers with a special
//! meaning.

use vstd::prelude::*;
use crate::guid::GUID;
use crate::object::vx_reg_props::{clsid_post_mix, clsid_pre_mix};

verus! {

/// Stands for effect properties that do not exist.
#[verifier::allow_in_spec]
pub fn apoguid_nokey() -> GUID
    returns
        (GUID { data1: 0, data2: 0, data3: 0, data4: [0, 0, 0, 0, 0, 0, 0, 1] }),
{
    GUID { data1: 0, data2: 0, data3: 0, data4: [0, 0, 0, 0, 0, 0, 0, 1] }
}

/// Stands for a slot that is empty or taken by another object.
#[verifier::allow_in_spec]
pub fn apoguid_novalue() -> GUID
    returns
        (GUID { data1: 0, data2: 0, data3: 0, data4: [0, 0, 0, 0, 0, 0, 0, 2] }),
{
    GUID { data1: 0, data2: 0, data3: 0, data4: [0, 0, 0, 0, 0, 0, 0, 2] }
}

/// The identifier whose bytes are all zero.
#[verifier::allow_in_spec]
pub fn guid_null() -> GUID
    returns
        (GUID { data1: 0, data2: 0, data3: 0, data4: [0, 0, 0, 0, 0, 0, 0, 0] }),
{
    GUID { data1: 0, data2: 0, data3: 0, data4: [0, 0, 0, 0, 0, 0, 0, 0] }
}

/// Whether an identifier stands for missing properties or a missing value.
pub open spec fn special(g: GUID) -> bool {
    g == apoguid_nokey() || g == apoguid_novalue()
}

/// Whether an identifier names an object.
pub open spec fn names_object(g: GUID) -> bool {
    !special(g) && g != guid_null()
}

/// Whether an identifier stands for missing properties or a missing value.
pub fn is_special_guid(guid: &GUID) -> (r: bool)
    ensures
        r == special(*guid),
{
    *guid == apoguid_nokey() || *guid == apoguid_novalue()
}

/// Whether an identifier names an object: it is neither special nor zero.
pub fn is_valid_apo_guid(guid: &GUID) -> (r: bool)
    ensures
        r == names_object(*guid),
{
    !is_special_guid(guid) && *guid != guid_null()
}

/// Whether two identifiers name the same object.
pub fn guid_matches(a: &GUID, b: &GUID) -> (r: bool)
    ensures
        r == (*a == *b),
{
    *a == *b
}

/// The state of a processing object.
#[derive(Clone, Debug)]
pub struct ApoObjectState {
    /// The class of the object.
    pub clsid: GUID,
    /// The class of the object that this one replaced, if it is kept as a child.
    pub child_apo_guid: Option<GUID>,
    /// Whether a format is agreed on; nothing is processed before.
    pub is_locked: bool,
    pub sample_rate: u32,
    pub input_channel_count: u32,
    pub output_channel_count: u32,
    pub channel_mask: u32,
    pub bits_per_sample: u32,
    /// Whether silent buffers may be passed through.
    pub allow_silent_buffer_modification: bool,
}

/// The state of a new object of a class.
pub open spec fn fresh(clsid: GUID) -> ApoObjectState {
    ApoObjectState {
        clsid,
        child_apo_guid: None,
        is_locked: false,
        sample_rate: 0,
        input_channel_count: 0,
        output_channel_count: 0,
        channel_mask: 0,
        bits_per_sample: 0,
        allow_silent_buffer_modification: false,
    }
}

/// A state once a format is agreed on.
pub open spec fn locked(
    s: ApoObjectState,
    sample_rate: u32,
    input_channels: u32,
    output_channels: u32,
    channel_mask: u32,
    bits_per_sample: u32,
) -> ApoObjectState {
    ApoObjectState {
        is_locked: true,
        sample_rate,
        input_channel_count: input_channels,
        output_channel_count: output_channels,
        channel_mask,
        bits_per_sample,
        ..s
    }
}

/// A state once the format is given up.
pub open spec fn unlocked(s: ApoObjectState) -> ApoObjectState {
    ApoObjectState {
        is_locked: false,
        sample_rate: 0,
        input_channel_count: 0,
        output_channel_count: 0,
        channel_mask: 0,
        bits_per_sample: 0,
        ..s
    }
}

impl ApoObjectState {
    /// The state of a new object of a class.
    pub fn new(clsid: GUID) -> (s: ApoObjectState)
        ensures
            s == fresh(clsid),
    {
        ApoObjectState {
            clsid,
            child_apo_guid: None,
            is_locked: false,
            sample_rate: 0,
            input_channel_count: 0,
            output_channel_count: 0,
            channel_mask: 0,
            bits_per_sample: 0,
            allow_silent_buffer_modification: false,
        }
    }

    /// Whether the object processes a stream before mixing.
    pub fn is_pre_mix(&self) -> (r: bool)
        ensures
            r == (self.clsid == clsid_pre_mix()),
    {
        self.clsid == clsid_pre_mix()
    }

    /// Whether the object processes a stream after mixing.
    pub fn is_post_mix(&self) -> (r: bool)
        ensures
            r == (self.clsid == clsid_post_mix()),
    {
        self.clsid == clsid_post_mix()
    }

    /// Agrees on a format.
    pub fn lock_for_process(
        &mut self,
        sample_rate: u32,
        input_channels: u32,
        output_channels: u32,
        channel_mask: u32,
        bits_per_sample: u32,
    )
        ensures
            *final(self) == locked(
                *old(self),
                sample_rate,
                input_channels,
                output_channels,
                channel_mask,
                bits_per_sample,
            ),
    {
        self.sample_rate = sample_rate;
        self.input_channel_count = input_channels;
        self.output_channel_count = output_channels;
        self.channel_mask = channel_mask;
        self.bits_per_sample = bits_per_sample;
        self.is_locked = true;
    }

    /// Gives the format up.
    pub fn unlock_for_process(&mut self)
        ensures
            *final(self) == unlocked(*old(self)),
    {
        self.is_locked = false;
        self.sample_rate = 0;
        self.input_channel_count = 0;
        self.output_channel_count = 0;
        self.channel_mask = 0;
        self.bits_per_sample = 0;
    }
}

/// The special identifiers and the zero identifier are three different ones.
pub proof fn law_special_guids_distinct()
    ensures
        apoguid_nokey() != apoguid_novalue(),
        apoguid_nokey() != guid_null(),
        apoguid_novalue() != guid_null(),
        !special(guid_null()),
{
    let a = [0u8, 0, 0, 0, 0, 0, 0, 1];
    let b = [0u8, 0, 0, 0, 0, 0, 0, 2];
    let z = [0u8, 0, 0, 0, 0, 0, 0, 0];
    assert(a@[7] == 1);
    assert(b@[7] == 2);
    assert(z@[7] == 0);
}

/// Giving up a format takes back exactly what agreeing on it changed.
pub proof fn law_unlock_undoes_lock(
    s: ApoObjectState,
    sample_rate: u32,
    input_channels: u32,
    output_channels: u32,
    channel_mask: u32,
    bits_per_sample: u32,
)
    requires
        s == unlocked(s),
    ensures
        unlocked(
            locked(s, sample_rate, input_channels, output_channels, channel_mask, bits_per_sample),
        ) == s,
{
}

} // verus!
