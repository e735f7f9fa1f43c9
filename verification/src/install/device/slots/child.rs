//! The objects that an installation displaced: where they are recorded, and
//! which one a slot stood for.

use vstd::prelude::*;
use crate::text;
use crate::registry;
use crate::install::device::slots::types;
use crate::guid;
use crate::guid::{guid_to_string, parse_guid_string, GUID};
use crate::install::device::slots::types::{ApoSlot, InstallMode, SlotValue};
use crate::registry::join_path;
use crate::registry::{Hkey, KeyView, RegKey, Registry};
use crate::text::{eq_ignore_case, position_of, sub_string, to_chars};

verus! {

/// The slot that another mode occupies before mixing.
pub open spec fn other_premix(mode: InstallMode) -> ApoSlot {
    match mode {
        InstallMode::LfxGfx => ApoSlot::Sfx,
        InstallMode::SfxMfx => ApoSlot::Lfx,
        InstallMode::SfxEfx => ApoSlot::Lfx,
    }
}

/// The other slots after mixing, in the order in which they are tried.
pub open spec fn postmix_fallbacks(mode: InstallMode) -> Seq<ApoSlot> {
    match mode {
        InstallMode::SfxEfx => seq![ApoSlot::Mfx, ApoSlot::Gfx],
        InstallMode::SfxMfx => seq![ApoSlot::Efx, ApoSlot::Gfx],
        InstallMode::LfxGfx => seq![ApoSlot::Efx, ApoSlot::Mfx],
    }
}

/// What a slot holds among the values of all five.
pub open spec fn slot_in(slots: Seq<SlotValue>, slot: ApoSlot) -> SlotValue {
    slots[types::slot_index(slot) as int]
}

/// The text of a slot's class identifier; empty when the slot holds none.
pub open spec fn guid_or_empty(v: SlotValue) -> Seq<char> {
    match v {
        SlotValue::Guid(g) => guid::guid_text(g),
        _ => Seq::empty(),
    }
}

/// The object that was there before mixing: the mode's own slot, or the other
/// mode's where the own slot is empty but present.
pub open spec fn original_pre_mix(slots: Seq<SlotValue>, mode: InstallMode) -> Seq<char> {
    match slot_in(slots, types::premix_of(mode)) {
        SlotValue::Guid(g) => guid::guid_text(g),
        SlotValue::NoKey => Seq::empty(),
        SlotValue::NoValue => guid_or_empty(slot_in(slots, other_premix(mode))),
    }
}

/// The object that was there after mixing: the mode's own slot, or the first of
/// the others that holds one where the own slot is empty but present.
pub open spec fn original_post_mix(slots: Seq<SlotValue>, mode: InstallMode) -> Seq<char> {
    match slot_in(slots, types::postmix_of(mode)) {
        SlotValue::Guid(g) => guid::guid_text(g),
        SlotValue::NoKey => Seq::empty(),
        SlotValue::NoValue => {
            let first = slot_in(slots, postmix_fallbacks(mode)[0]);
            if first is Guid {
                guid_or_empty(first)
            } else {
                guid_or_empty(slot_in(slots, postmix_fallbacks(mode)[1]))
            }
        },
    }
}

/// The slot that another mode occupies before mixing.
pub fn other_premix_slot(mode: InstallMode) -> (r: ApoSlot)
    ensures
        r == other_premix(mode),
{
    match mode {
        InstallMode::LfxGfx => ApoSlot::Sfx,
        InstallMode::SfxMfx | InstallMode::SfxEfx => ApoSlot::Lfx,
    }
}

/// The other slots after mixing, in the order in which they are tried.
pub fn postmix_fallback_order(mode: InstallMode) -> (r: [ApoSlot; 2])
    ensures
        r@ == postmix_fallbacks(mode),
{
    let r = match mode {
        InstallMode::SfxEfx => [ApoSlot::Mfx, ApoSlot::Gfx],
        InstallMode::SfxMfx => [ApoSlot::Efx, ApoSlot::Gfx],
        InstallMode::LfxGfx => [ApoSlot::Efx, ApoSlot::Mfx],
    };
    assert(r@ =~= postmix_fallbacks(mode));
    r
}

/// The text of the object that was there before mixing; empty when there was
/// none.
pub fn get_original_pre_mix(slots: &[SlotValue; 5], mode: InstallMode) -> (r: String)
    ensures
        r@ == original_pre_mix(slots@, mode),
{
    match slots[mode.premix_slot().index() as usize] {
        SlotValue::Guid(g) => guid_to_string(&g),
        SlotValue::NoKey => String::new(),
        SlotValue::NoValue => match slots[other_premix_slot(mode).index() as usize] {
            SlotValue::Guid(g) => guid_to_string(&g),
            _ => String::new(),
        },
    }
}

/// The text of the object that was there after mixing; empty when there was
/// none.
pub fn get_original_post_mix(slots: &[SlotValue; 5], mode: InstallMode) -> (r: String)
    ensures
        r@ == original_post_mix(slots@, mode),
{
    match slots[mode.postmix_slot().index() as usize] {
        SlotValue::Guid(g) => guid_to_string(&g),
        SlotValue::NoKey => String::new(),
        SlotValue::NoValue => {
            let order = postmix_fallback_order(mode);
            match slots[order[0].index() as usize] {
                SlotValue::Guid(g) => guid_to_string(&g),
                _ => match slots[order[1].index() as usize] {
                    SlotValue::Guid(g) => guid_to_string(&g),
                    _ => String::new(),
                },
            }
        },
    }
}

// ---------------------------------------------------------------------------
// The record of an installation
// ---------------------------------------------------------------------------
/// The place of the installation records, one key per endpoint, with its hive.
pub const CHILD_APO_PATH_ROOT: &'static str = "HKLM\\SOFTWARE\\VxAPO\\Child APOs";

/// Which of the two displaced objects.
#[derive(Clone, Copy, Debug, PartialEq, Eq, Structural)]
pub enum ChildApoKind {
    PreMix,
    PostMix,
}

/// The value of a record that holds a displaced object.
pub open spec fn child_value_name(kind: ChildApoKind) -> Seq<char> {
    match kind {
        ChildApoKind::PreMix => "PreMixChild"@,
        ChildApoKind::PostMix => "PostMixChild"@,
    }
}

impl ChildApoKind {
    /// The value of a record that holds the displaced object.
    pub fn value_name(self) -> (r: &'static str)
        ensures
            r@ == child_value_name(self),
    {
        match self {
            ChildApoKind::PreMix => "PreMixChild",
            ChildApoKind::PostMix => "PostMixChild",
        }
    }
}

/// The hive and the rest of a path that starts with the name of the local
/// machine's hive.
pub open spec fn split_hive(path: Seq<char>) -> Option<(Hkey, Seq<char>)> {
    let n = text::span_until(path, '\\');
    if n < path.len() && text::eq_ci(path.subrange(0, n), "HKLM"@) {
        Some((Hkey::LocalMachine, path.subrange(n + 1, path.len() as int)))
    } else {
        None
    }
}

/// The hive and the rest of a path; `None` for every hive but the local
/// machine's, and for a path without a hive.
pub fn split_path(path: &str) -> (r: Option<(Hkey, String)>)
    ensures
        r is Some == split_hive(path@) is Some,
        r matches Some(p) ==> split_hive(path@) == Some((p.0, p.1@)),
{
    let v = to_chars(path);
    let n = position_of(v.as_slice(), '\\', 0);
    assert(v@.subrange(0, v@.len() as int) =~= v@);
    if n == v.len() {
        return None;
    }
    let head = sub_string(v.as_slice(), 0, n);
    if eq_ignore_case(head.as_str(), "HKLM") {
        Some((Hkey::LocalMachine, sub_string(v.as_slice(), n + 1, v.len())))
    } else {
        None
    }
}

/// The place of an endpoint's installation record.
pub open spec fn record_path(device_guid: Seq<char>) -> Seq<char> {
    registry::join("SOFTWARE\\VxAPO\\Child APOs"@, device_guid)
}

/// The full path of a record splits into the hive and the record's place.
pub proof fn lemma_record_path(device_guid: Seq<char>)
    ensures
        split_hive(registry::join(CHILD_APO_PATH_ROOT@, device_guid)) == Some(
            (Hkey::LocalMachine, record_path(device_guid)),
        ),
{
    let p = registry::join(CHILD_APO_PATH_ROOT@, device_guid);
    reveal_strlit("HKLM\\SOFTWARE\\VxAPO\\Child APOs");
    reveal_strlit("SOFTWARE\\VxAPO\\Child APOs");
    reveal_strlit("HKLM");
    reveal_strlit("\\");
    crate::text::lemma_span_until(p, '\\', 4);
    assert(p.subrange(0, 4) =~= "HKLM"@);
    assert(p.subrange(5, p.len() as int) =~= record_path(device_guid));
}

/// Whether an endpoint has an installation record.
pub fn child_apo_key_exists(registry: &Registry, device_guid: &str) -> (r: bool)
    ensures
        r == registry::has_key(registry@, Hkey::LocalMachine, record_path(device_guid@)),
{
    let key_path = join_path(CHILD_APO_PATH_ROOT, device_guid);
    proof {
        lemma_record_path(device_guid@);
    }
    match split_path(key_path.as_str()) {
        Some((root, sub_key)) => registry.holds_key(root, sub_key.as_str()),
        None => false,
    }
}

/// The displaced object that an endpoint's record names.
pub open spec fn child_guid(
    registry: Seq<KeyView>,
    device_guid: Seq<char>,
    kind: ChildApoKind,
) -> Option<GUID> {
    match registry::as_sz(
        registry::value_at(registry, Hkey::LocalMachine, record_path(device_guid), child_value_name(kind)),
    ) {
        Some(s) => guid::parse_guid(s),
        None => None,
    }
}

/// The displaced object that an endpoint's record names; `None` when there is
/// no record, no such value, or no class identifier in it.
pub fn read_child_apo_guid(
    registry: &Registry,
    device_guid: &str,
    kind: ChildApoKind,
) -> (r: Option<GUID>)
    ensures
        r == child_guid(registry@, device_guid@, kind),
{
    let key_path = join_path(CHILD_APO_PATH_ROOT, device_guid);
    proof {
        lemma_record_path(device_guid@);
    }
    match split_path(key_path.as_str()) {
        Some((root, sub_key)) => match RegKey::open(registry, root, sub_key.as_str()) {
            Some(key) => match key.read_sz(kind.value_name()) {
                Some(s) => parse_guid_string(s.as_str()),
                None => None,
            },
            None => None,
        },
        None => None,
    }
}

// ---------------------------------------------------------------------------
// What is promised
// ---------------------------------------------------------------------------
/// The object displaced before mixing is that of the mode's own slot where it holds one;
/// where that is empty, that of the other slot before mixing; none where neither holds
/// one. The slots after mixing play no part.
pub proof fn law_displaced_before_mixing(slots: Seq<SlotValue>, mode: InstallMode)
    requires
        slots.len() == 5,
    ensures
        ({
            let (first, second) = if mode is LfxGfx {
                (slots[0], slots[2])
            } else {
                (slots[2], slots[0])
            };
            let found = original_pre_mix(slots, mode);
            &&& first matches SlotValue::Guid(g) ==> found == guid::guid_text(g)
            &&& first is NoValue ==> (second matches SlotValue::Guid(g) ==> found
                == guid::guid_text(g))
            &&& !(first is Guid) && !(second is Guid) ==> found.len() == 0
            &&& first is NoKey ==> found.len() == 0
        }),
{
}

/// The object displaced after mixing is that of the mode's own slot where it holds one;
/// where that is empty, that of the endpoint effect before that of the mode effect before
/// the legacy one, as far as they are others; none where none of them holds one. The
/// slots before mixing play no part.
pub proof fn law_displaced_after_mixing(slots: Seq<SlotValue>, mode: InstallMode)
    requires
        slots.len() == 5,
    ensures
        ({
            let (first, second, third) = match mode {
                InstallMode::LfxGfx => (slots[1], slots[4], slots[3]),
                InstallMode::SfxMfx => (slots[3], slots[4], slots[1]),
                InstallMode::SfxEfx => (slots[4], slots[3], slots[1]),
            };
            let found = original_post_mix(slots, mode);
            &&& first matches SlotValue::Guid(g) ==> found == guid::guid_text(g)
            &&& first is NoValue ==> (second matches SlotValue::Guid(g) ==> found
                == guid::guid_text(g))
            &&& first is NoValue && !(second is Guid) ==> (third matches SlotValue::Guid(g) ==> found
                == guid::guid_text(g))
            &&& !(first is Guid) && !(second is Guid) && !(third is Guid) ==> found.len() == 0
            &&& first is NoKey ==> found.len() == 0
        }),
{
}

/// A record names its displaced objects apart: one value for each.
pub proof fn law_child_values_apart()
    ensures
        child_value_name(ChildApoKind::PreMix) == "PreMixChild"@,
        child_value_name(ChildApoKind::PostMix) == "PostMixChild"@,
        !text::eq_ci(
            child_value_name(ChildApoKind::PreMix),
            child_value_name(ChildApoKind::PostMix),
        ),
{
    reveal_strlit("PreMixChild");
    reveal_strlit("PostMixChild");
    assert(text::ascii_lower("PreMixChild"@).len() == 11);
    assert(text::ascii_lower("PostMixChild"@).len() == 12);
}

} // verus!
