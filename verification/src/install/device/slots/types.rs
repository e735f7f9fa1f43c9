//! Slots, modes and slot values.

use vstd::prelude::*;
use crate::text;
use crate::guid::GUID;
use crate::text::{concat2, decimal_text, parse_usize};

verus! {

/// The key below an endpoint that holds its effect slots.
pub const FX_PROPERTIES_KEY: &'static str = "FxProperties";

/// The version written by a current installation.
pub const INSTALL_VERSION: &'static str = "2";

/// The version written by a legacy installation.
pub const INSTALL_VERSION_LEGACY: &'static str = "1";

/// Whether one version comes before another, as numbers; a version that is no
/// number comes before none.
pub open spec fn is_lower_version(version: Seq<char>, other: Seq<char>) -> bool {
    match (text::usize_of(version), text::usize_of(other)) {
        (Some(a), Some(b)) => a < b,
        _ => false,
    }
}

/// Whether one version comes before another, as numbers; a version that is no
/// number comes before none.
pub fn version_is_lower(version: &str, other: &str) -> (r: bool)
    ensures
        r == is_lower_version(version@, other@),
{
    match (parse_usize(version), parse_usize(other)) {
        (Some(a), Some(b)) => a < b,
        _ => false,
    }
}

/// The property set of the slot values.
pub const APO_FX_PROPERTY_GUID: &'static str = "d04e05a6-594b-4fb6-a80d-01af5eed7d1d";

/// The name of the slot values up to the property identifier: the property set in
/// braces, and a comma.
pub const SLOT_NAME_PREFIX: &'static str = "{d04e05a6-594b-4fb6-a80d-01af5eed7d1d},";

/// An effect slot of an endpoint.
#[derive(Clone, Copy, Debug, PartialEq, Eq, Structural, Hash)]
pub enum ApoSlot {
    /// Legacy, before mixing.
    Lfx,
    /// Legacy, after mixing.
    Gfx,
    /// Stream effect, before mixing.
    Sfx,
    /// Mode effect, after mixing.
    Mfx,
    /// Endpoint effect, after mixing.
    Efx,
}

/// The position of a slot among the five.
pub open spec fn slot_index(slot: ApoSlot) -> u8 {
    match slot {
        ApoSlot::Lfx => 0,
        ApoSlot::Gfx => 1,
        ApoSlot::Sfx => 2,
        ApoSlot::Mfx => 3,
        ApoSlot::Efx => 4,
    }
}

/// The property identifier of a slot.
pub open spec fn slot_pid(slot: ApoSlot) -> u8 {
    match slot {
        ApoSlot::Lfx => 0,
        ApoSlot::Gfx => 3,
        ApoSlot::Sfx => 5,
        ApoSlot::Mfx => 6,
        ApoSlot::Efx => 7,
    }
}

/// The name of the registry value that holds a slot.
pub open spec fn slot_name(slot: ApoSlot) -> Seq<char> {
    SLOT_NAME_PREFIX@ + text::decimal(slot_pid(slot) as nat)
}

/// The slots in the order of their positions.
pub open spec fn all_slots() -> Seq<ApoSlot> {
    seq![ApoSlot::Lfx, ApoSlot::Gfx, ApoSlot::Sfx, ApoSlot::Mfx, ApoSlot::Efx]
}

impl ApoSlot {
    /// The slots in the order of their positions.
    pub const ALL: [ApoSlot; 5] = [
        ApoSlot::Lfx,
        ApoSlot::Gfx,
        ApoSlot::Sfx,
        ApoSlot::Mfx,
        ApoSlot::Efx,
    ];

    /// The position of the slot among the five.
    pub fn index(self) -> (r: u8)
        ensures
            r == slot_index(self),
            r < 5,
            Self::ALL@[r as int] == self,
    {
        match self {
            ApoSlot::Lfx => 0,
            ApoSlot::Gfx => 1,
            ApoSlot::Sfx => 2,
            ApoSlot::Mfx => 3,
            ApoSlot::Efx => 4,
        }
    }

    /// The property identifier of the slot.
    pub fn registry_pid(self) -> (r: u8)
        ensures
            r == slot_pid(self),
    {
        match self {
            ApoSlot::Lfx => 0,
            ApoSlot::Gfx => 3,
            ApoSlot::Sfx => 5,
            ApoSlot::Mfx => 6,
            ApoSlot::Efx => 7,
        }
    }

    /// The name of the registry value that holds the slot.
    pub fn value_name(self) -> (r: String)
        ensures
            r@ == slot_name(self),
    {
        let pid = decimal_text(self.registry_pid() as u64);
        concat2(SLOT_NAME_PREFIX, pid.as_str())
    }

    /// Whether the slot stands before mixing.
    pub fn is_premix(self) -> (r: bool)
        ensures
            r == (self is Lfx || self is Sfx),
    {
        match self {
            ApoSlot::Lfx | ApoSlot::Sfx => true,
            _ => false,
        }
    }

    /// Whether the slot stands after mixing.
    pub fn is_postmix(self) -> (r: bool)
        ensures
            r == (self is Gfx || self is Mfx || self is Efx),
    {
        match self {
            ApoSlot::Gfx | ApoSlot::Mfx | ApoSlot::Efx => true,
            _ => false,
        }
    }
}

/// Which two slots an installation occupies.
#[derive(Clone, Copy, Debug, PartialEq, Eq, Structural)]
pub enum InstallMode {
    /// The legacy slots.
    LfxGfx,
    /// Stream effect and mode effect.
    SfxMfx,
    /// Stream effect and endpoint effect; the default.
    SfxEfx,
}

/// The slot that a mode occupies before mixing.
pub open spec fn premix_of(mode: InstallMode) -> ApoSlot {
    match mode {
        InstallMode::LfxGfx => ApoSlot::Lfx,
        InstallMode::SfxMfx => ApoSlot::Sfx,
        InstallMode::SfxEfx => ApoSlot::Sfx,
    }
}

/// The slot that a mode occupies after mixing.
pub open spec fn postmix_of(mode: InstallMode) -> ApoSlot {
    match mode {
        InstallMode::LfxGfx => ApoSlot::Gfx,
        InstallMode::SfxMfx => ApoSlot::Mfx,
        InstallMode::SfxEfx => ApoSlot::Efx,
    }
}

impl InstallMode {
    /// The slot that the mode occupies before mixing.
    pub fn premix_slot(self) -> (r: ApoSlot)
        ensures
            r == premix_of(self),
    {
        match self {
            InstallMode::LfxGfx => ApoSlot::Lfx,
            InstallMode::SfxMfx | InstallMode::SfxEfx => ApoSlot::Sfx,
        }
    }

    /// The slot that the mode occupies after mixing.
    pub fn postmix_slot(self) -> (r: ApoSlot)
        ensures
            r == postmix_of(self),
    {
        match self {
            InstallMode::LfxGfx => ApoSlot::Gfx,
            InstallMode::SfxMfx => ApoSlot::Mfx,
            InstallMode::SfxEfx => ApoSlot::Efx,
        }
    }

    /// The mode used when nothing speaks for another.
    pub fn default_mode() -> (r: InstallMode)
        ensures
            r == InstallMode::SfxEfx,
    {
        InstallMode::SfxEfx
    }
}

/// What a slot holds.
#[derive(Clone, Copy, Debug, Eq)]
pub enum SlotValue {
    /// The endpoint has no effect properties at all.
    NoKey,
    /// The slot is empty.
    NoValue,
    /// The slot holds this class identifier.
    Guid(GUID),
}

impl PartialEq for SlotValue {
    fn eq(&self, other: &SlotValue) -> (r: bool) {
        match (self, other) {
            (SlotValue::NoKey, SlotValue::NoKey) => true,
            (SlotValue::NoValue, SlotValue::NoValue) => true,
            (SlotValue::Guid(a), SlotValue::Guid(b)) => *a == *b,
            _ => false,
        }
    }
}

impl vstd::std_specs::cmp::PartialEqSpecImpl for SlotValue {
    open spec fn obeys_eq_spec() -> bool {
        true
    }

    open spec fn eq_spec(&self, other: &SlotValue) -> bool {
        *self == *other
    }
}

impl SlotValue {
    /// Whether the slot holds a class identifier.
    pub fn is_guid(&self) -> (r: bool)
        ensures
            r == (self is Guid),
    {
        match self {
            SlotValue::Guid(_) => true,
            _ => false,
        }
    }

    /// Whether the slot holds none.
    pub fn is_empty(&self) -> (r: bool)
        ensures
            r == !(self is Guid),
    {
        match self {
            SlotValue::Guid(_) => false,
            _ => true,
        }
    }

    /// The class identifier that the slot holds, if any.
    pub fn as_guid(&self) -> (r: Option<GUID>)
        ensures
            r == slot_guid(*self),
    {
        match self {
            SlotValue::Guid(g) => Some(*g),
            _ => None,
        }
    }
}

/// The class identifier that a slot value holds, if any.
pub open spec fn slot_guid(v: SlotValue) -> Option<GUID> {
    match v {
        SlotValue::Guid(g) => Some(g),
        _ => None,
    }
}

/// Every mode occupies one slot before mixing and a different one after it.
pub proof fn law_mode_slots(mode: InstallMode)
    ensures
        premix_of(mode) is Lfx || premix_of(mode) is Sfx,
        postmix_of(mode) is Gfx || postmix_of(mode) is Mfx || postmix_of(mode) is Efx,
        premix_of(mode) != postmix_of(mode),
{
}

/// Slots with the same value name, in whatever case, are the same slot.
pub proof fn law_slot_names_distinct(a: ApoSlot, b: ApoSlot)
    ensures
        text::eq_ci(slot_name(a), slot_name(b)) ==> a == b,
{
    let x = slot_name(a);
    let y = slot_name(b);
    let n = SLOT_NAME_PREFIX@.len() as int;
    assert(x[n] == text::digit_char(slot_pid(a) as nat));
    assert(y[n] == text::digit_char(slot_pid(b) as nat));
    if text::eq_ci(x, y) {
        assert(text::ascii_lower(x)[n] == text::lower_char(x[n]));
        assert(text::ascii_lower(y)[n] == text::lower_char(y[n]));
    }
}

} // verus!
