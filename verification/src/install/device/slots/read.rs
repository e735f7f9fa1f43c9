//! Reading slots, and the mode that what they hold calls for.

use vstd::prelude::*;
use crate::text;
use crate::install::device::slots::types;
use crate::guid;
use crate::guid::{guid_from_bytes, is_zero_guid, parse_guid_string, GUID};
use crate::install::device::slots::types::{ApoSlot, InstallMode, SlotValue, FX_PROPERTIES_KEY};
use crate::registry;
use crate::registry::{Hkey, KeyView, RegKey, RegValue, ValueView};
use crate::text::trim_text;

verus! {

/// A slot that holds a class identifier, unless it is the all-zero placeholder.
pub open spec fn occupied(g: Option<GUID>) -> SlotValue {
    match g {
        Some(g) => if guid::is_zero(g) {
            SlotValue::NoValue
        } else {
            SlotValue::Guid(g)
        },
        None => SlotValue::NoValue,
    }
}

/// What a slot holds, given its registry value: the text form of a class
/// identifier, or at least its 16 bytes.
pub open spec fn slot_value_of(v: Option<ValueView>) -> SlotValue {
    match v {
        Some(ValueView::Sz(s)) => occupied(guid::parse_guid(text::trim(s))),
        Some(ValueView::Binary(b)) => occupied(guid::bytes_guid(b)),
        _ => SlotValue::NoValue,
    }
}

fn occupied_by(g: Option<GUID>) -> (r: SlotValue)
    ensures
        r == occupied(g),
{
    match g {
        Some(g) => if is_zero_guid(&g) {
            SlotValue::NoValue
        } else {
            SlotValue::Guid(g)
        },
        None => SlotValue::NoValue,
    }
}

/// What a slot holds, given its registry value.
pub fn slot_value(v: Option<&RegValue>) -> (r: SlotValue)
    ensures
        r == slot_value_of(match v {
            Some(v) => Some(v@),
            None => None,
        }),
{
    match v {
        Some(RegValue::Sz(s)) => {
            let t = trim_text(s.as_str());
            occupied_by(parse_guid_string(t.as_str()))
        },
        Some(RegValue::Binary(raw)) => occupied_by(guid_from_bytes(raw.as_slice())),
        _ => SlotValue::NoValue,
    }
}

/// What a slot holds, given the key with the effect properties.
pub fn read_slot_value(fx_key: &RegKey, slot: ApoSlot) -> (r: SlotValue)
    ensures
        r == slot_value_of(fx_key.value(types::slot_name(slot))),
{
    let name = slot.value_name();
    slot_value(fx_key.read_value(name.as_str()))
}

/// The mode that an endpoint calls for.
pub open spec fn mode_for(
    is_windows_8_1_or_newer: bool,
    slots: Seq<SlotValue>,
    has_bluetooth: bool,
) -> InstallMode {
    if !is_windows_8_1_or_newer {
        InstallMode::LfxGfx
    } else if (slots[0] is Guid || slots[1] is Guid) && !(slots[2] is Guid) && !(slots[3] is Guid)
        && !(slots[4] is Guid) {
        InstallMode::LfxGfx
    } else if has_bluetooth {
        InstallMode::SfxMfx
    } else {
        InstallMode::SfxEfx
    }
}

/// The mode that an endpoint calls for: the legacy slots before Windows 8.1, and
/// where only legacy slots are occupied; the mode effect for Bluetooth devices;
/// the endpoint effect otherwise.
pub fn detect_install_mode(
    is_windows_8_1_or_newer: bool,
    slots: &[SlotValue; 5],
    has_bluetooth: bool,
) -> (r: InstallMode)
    ensures
        r == mode_for(is_windows_8_1_or_newer, slots@, has_bluetooth),
{
    if !is_windows_8_1_or_newer {
        return InstallMode::LfxGfx;
    }
    let has_lfx = slots[0].is_guid();
    let has_gfx = slots[1].is_guid();
    let has_sfx = slots[2].is_guid();
    let has_mfx = slots[3].is_guid();
    let has_efx = slots[4].is_guid();
    if (has_lfx || has_gfx) && !has_sfx && !has_mfx && !has_efx {
        return InstallMode::LfxGfx;
    }
    if has_bluetooth {
        return InstallMode::SfxMfx;
    }
    InstallMode::SfxEfx
}

/// What the five slots of an endpoint hold, by position.
pub open spec fn slots_of(endpoint_key: RegKey) -> Seq<SlotValue> {
    slots_at(endpoint_key.registry@, endpoint_key.root, endpoint_key.path@)
}

/// What the five slots of the endpoint at a place hold, by position.
pub open spec fn slots_at(r: Seq<KeyView>, root: Hkey, path: Seq<char>) -> Seq<SlotValue> {
    let fx = registry::join(path, FX_PROPERTIES_KEY@);
    Seq::new(
        5,
        |i: int|
            if registry::has_key(r, root, fx) {
                slot_value_of(
                    registry::value_at(r, root, fx, types::slot_name(types::all_slots()[i])),
                )
            } else {
                SlotValue::NoKey
            },
    )
}

/// What the five slots of an endpoint hold, by position; `NoKey` throughout when
/// the endpoint has no effect properties.
pub fn read_all_slots(endpoint_key: &RegKey) -> (r: [SlotValue; 5])
    ensures
        r@ == slots_of(*endpoint_key),
{
    match endpoint_key.open_sub_key(FX_PROPERTIES_KEY) {
        Some(fx_key) => {
            let r = [
                read_slot_value(&fx_key, ApoSlot::Lfx),
                read_slot_value(&fx_key, ApoSlot::Gfx),
                read_slot_value(&fx_key, ApoSlot::Sfx),
                read_slot_value(&fx_key, ApoSlot::Mfx),
                read_slot_value(&fx_key, ApoSlot::Efx),
            ];
            assert(r@ =~= slots_of(*endpoint_key));
            r
        },
        None => {
            let r = [
                SlotValue::NoKey,
                SlotValue::NoKey,
                SlotValue::NoKey,
                SlotValue::NoKey,
                SlotValue::NoKey,
            ];
            assert(r@ =~= slots_of(*endpoint_key));
            r
        },
    }
}

/// The slot at a position is the one that has this position.
pub proof fn law_slot_positions(slot: ApoSlot)
    ensures
        types::all_slots()[types::slot_index(slot) as int] == slot,
        ApoSlot::ALL@ == types::all_slots(),
{
    assert(ApoSlot::ALL@ =~= types::all_slots());
}

/// Before Windows 8.1 the legacy slots are used, on every endpoint.
pub proof fn law_old_windows_is_legacy(slots: Seq<SlotValue>, has_bluetooth: bool)
    ensures
        mode_for(false, slots, has_bluetooth) is LfxGfx,
{
}

/// From Windows 8.1 on, the legacy slots are used exactly where one of them is occupied
/// and none of the others is; elsewhere Bluetooth devices get the mode effect, and every
/// other device the endpoint effect.
pub proof fn law_mode_for(slots: Seq<SlotValue>, has_bluetooth: bool)
    requires
        slots.len() == 5,
    ensures
        ({
            let only_legacy = (slots[0] is Guid || slots[1] is Guid) && forall|i: int|
                2 <= i < 5 ==> !((#[trigger] slots[i]) is Guid);
            let mode = mode_for(true, slots, has_bluetooth);
            &&& mode is LfxGfx <==> only_legacy
            &&& mode is SfxMfx <==> !only_legacy && has_bluetooth
            &&& mode is SfxEfx <==> !only_legacy && !has_bluetooth
        }),
{
    assert(slots[2] is Guid || !(slots[2] is Guid));
    assert(slots[3] is Guid || !(slots[3] is Guid));
    assert(slots[4] is Guid || !(slots[4] is Guid));
}

/// A slot reads back as the object whose text or whose bytes were written to it, unless
/// that is the zero one, which stands for none; a slot that holds anything else, or was
/// not written to, is empty.
pub proof fn law_slot_reads_back(g: GUID, n: u32)
    ensures
        ({
            let expected = if guid::is_zero(g) {
                SlotValue::NoValue
            } else {
                SlotValue::Guid(g)
            };
            &&& slot_value_of(Some(ValueView::Sz(guid::guid_text(g)))) == expected
            &&& slot_value_of(Some(ValueView::Binary(guid::guid_bytes(g)))) == expected
        }),
        slot_value_of(None) == SlotValue::NoValue,
        slot_value_of(Some(ValueView::Dword(n))) == SlotValue::NoValue,
{
    guid::law_guid_text_round_trip(g);
    guid::law_guid_bytes_round_trip(g);
    lemma_text_is_trimmed(g);
}

proof fn lemma_text_is_trimmed(g: GUID)
    ensures
        text::trim(guid::guid_text(g)) == guid::guid_text(g),
{
    let t = guid::guid_text(g);
    guid::law_guid_text_round_trip(g);
    reveal_strlit("{");
    reveal_strlit("}");
    assert(t[0] == '{');
    assert(t.last() == '}');
    text::lemma_trim_noop(t);
}

} // verus!
