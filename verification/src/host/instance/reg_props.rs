//! The properties under which the two processing objects are registered.

use vstd::prelude::*;
use crate::guid::GUID;
use crate::object::vx_reg_props;
use crate::object::vx_reg_props::{clsid_post_mix, clsid_pre_mix, own_clsid};
use crate::text;
use crate::text::utf16_units;

verus! {

/// The name shown for both objects.
pub const APO_NAME: &'static str = "VxAPO";

/// The copyright notice of both objects.
pub const APO_COPYRIGHT: &'static str = "VxAPO Project";

/// Flag: a buffer is processed in place.
pub const APO_FLAG_INPLACE: u32 = 0x1;

/// Flag: input and output have the same frame rate.
pub const APO_FLAG_FRAMESPERSECOND_MUST_MATCH: u32 = 0x4;

/// Flag: input and output have the same sample size.
pub const APO_FLAG_BITSPERSAMPLE_MUST_MATCH: u32 = 0x8;

/// The flags of both objects.
pub const APO_FLAGS: u32 = APO_FLAG_FRAMESPERSECOND_MUST_MATCH | APO_FLAG_BITSPERSAMPLE_MUST_MATCH
    | APO_FLAG_INPLACE;

/// The number of interfaces that both objects offer.
pub const APO_INTERFACES: u32 = 3;

/// The direction in which an object works.
#[derive(Clone, Copy, Debug, PartialEq, Eq, Structural)]
pub enum AudioFlowType {
    Render,
    Capture,
}

/// The properties under which an object is registered.
#[derive(Clone, Debug)]
pub struct ApoRegProperties {
    pub clsid: GUID,
    pub flags: u32,
    /// The name, in UTF-16, ended by a zero.
    pub sz_name: [u16; 256],
    /// The copyright notice, in UTF-16, ended by a zero.
    pub sz_copyright: [u16; 256],
    pub major_version: u32,
    pub minor_version: u32,
    pub min_input_connections: u32,
    pub max_input_connections: u32,
    pub min_output_connections: u32,
    pub max_output_connections: u32,
    pub max_instances: u32,
    pub num_apo_interfaces: u32,
    pub audio_flow_type: AudioFlowType,
}

/// The contents of registered properties.
pub struct PropsView {
    pub clsid: GUID,
    pub flags: u32,
    pub sz_name: Seq<u16>,
    pub sz_copyright: Seq<u16>,
    pub major_version: u32,
    pub minor_version: u32,
    pub min_input_connections: u32,
    pub max_input_connections: u32,
    pub min_output_connections: u32,
    pub max_output_connections: u32,
    pub max_instances: u32,
    pub num_apo_interfaces: u32,
    pub audio_flow_type: AudioFlowType,
}

impl View for ApoRegProperties {
    type V = PropsView;

    open spec fn view(&self) -> PropsView {
        PropsView {
            clsid: self.clsid,
            flags: self.flags,
            sz_name: self.sz_name@,
            sz_copyright: self.sz_copyright@,
            major_version: self.major_version,
            minor_version: self.minor_version,
            min_input_connections: self.min_input_connections,
            max_input_connections: self.max_input_connections,
            min_output_connections: self.min_output_connections,
            max_output_connections: self.max_output_connections,
            max_instances: self.max_instances,
            num_apo_interfaces: self.num_apo_interfaces,
            audio_flow_type: self.audio_flow_type,
        }
    }
}

/// A text in UTF-16 in 256 places: at most 255 code units, then zeros.
pub open spec fn wide_field(s: Seq<char>) -> Seq<u16> {
    Seq::new(
        256,
        |i: int|
            if i < 255 && i < text::utf16(s).len() {
                text::utf16(s)[i]
            } else {
                0
            },
    )
}

/// The properties of the object of a class.
pub open spec fn props_of(clsid: GUID) -> PropsView {
    PropsView {
        clsid,
        flags: APO_FLAGS,
        sz_name: wide_field(APO_NAME@),
        sz_copyright: wide_field(APO_COPYRIGHT@),
        major_version: 1,
        minor_version: 0,
        min_input_connections: 1,
        max_input_connections: 1,
        min_output_connections: 1,
        max_output_connections: 1,
        max_instances: 1,
        num_apo_interfaces: APO_INTERFACES,
        audio_flow_type: AudioFlowType::Render,
    }
}

/// A text in UTF-16 in 256 places: at most 255 code units, then zeros.
pub fn str_to_u16_256(s: &str) -> (buf: [u16; 256])
    ensures
        buf@ == wide_field(s@),
{
    let units = utf16_units(s);
    let mut buf: [u16; 256] = [0; 256];
    let mut i: usize = 0;
    while i < units.len() && i < 255
        invariant
            i <= 255,
            i <= units@.len(),
            units@ == text::utf16(s@),
            forall|j: int| 0 <= j < i ==> buf@[j] == units@[j],
            forall|j: int| i <= j < 256 ==> buf@[j] == 0,
        decreases 255 - i,
    {
        buf[i] = units[i];
        i += 1;
    }
    assert(buf@ =~= wide_field(s@));
    buf
}

fn reg_props(clsid: GUID) -> (p: ApoRegProperties)
    ensures
        p@ == props_of(clsid),
{
    ApoRegProperties {
        clsid,
        flags: APO_FLAGS,
        sz_name: str_to_u16_256(APO_NAME),
        sz_copyright: str_to_u16_256(APO_COPYRIGHT),
        major_version: 1,
        minor_version: 0,
        min_input_connections: 1,
        max_input_connections: 1,
        min_output_connections: 1,
        max_output_connections: 1,
        max_instances: 1,
        num_apo_interfaces: APO_INTERFACES,
        audio_flow_type: AudioFlowType::Render,
    }
}

/// The properties of the object that processes before mixing.
pub fn reg_props_pre_mix() -> (p: ApoRegProperties)
    ensures
        p@ == props_of(clsid_pre_mix()),
{
    reg_props(clsid_pre_mix())
}

/// The properties of the object that processes after mixing.
pub fn reg_props_post_mix() -> (p: ApoRegProperties)
    ensures
        p@ == props_of(clsid_post_mix()),
{
    reg_props(clsid_post_mix())
}

/// The properties of the object of a class; `None` for a class of another
/// library.
pub fn props_for_clsid(clsid: &GUID) -> (r: Option<ApoRegProperties>)
    ensures
        match r {
            Some(p) => vx_reg_props::is_own_clsid(*clsid) && p@ == props_of(*clsid),
            None => !vx_reg_props::is_own_clsid(*clsid),
        },
{
    if *clsid == clsid_pre_mix() {
        Some(reg_props_pre_mix())
    } else if *clsid == clsid_post_mix() {
        Some(reg_props_post_mix())
    } else {
        None
    }
}

/// Whether a class is that of one of the two objects.
pub fn is_vxapo_clsid(clsid: &GUID) -> (r: bool)
    ensures
        r == vx_reg_props::is_own_clsid(*clsid),
{
    own_clsid(clsid)
}

/// The classes of the two objects.
pub fn supported_clsids() -> (r: [GUID; 2])
    ensures
        r@ == seq![clsid_pre_mix(), clsid_post_mix()],
{
    let r = [clsid_pre_mix(), clsid_post_mix()];
    assert(r@ =~= seq![clsid_pre_mix(), clsid_post_mix()]);
    r
}

/// The flags are those three and no others.
pub proof fn law_flags()
    ensures
        APO_FLAGS == 0x0D,
{
    assert(0x4u32 | 0x8u32 | 0x1u32 == 0x0Du32) by (bit_vector);
}

/// The two objects are registered under the same properties but for the class.
pub proof fn law_props_differ_by_class(a: GUID, b: GUID)
    ensures
        props_of(b) == (PropsView { clsid: b, ..props_of(a) }),
{
}

/// Exactly the supported classes have properties.
pub proof fn law_supported_classes(g: GUID)
    ensures
        seq![clsid_pre_mix(), clsid_post_mix()].contains(g) == vx_reg_props::is_own_clsid(g),
{
    let s = seq![clsid_pre_mix(), clsid_post_mix()];
    assert(s[0] == clsid_pre_mix());
    assert(s[1] == clsid_post_mix());
    if vx_reg_props::is_own_clsid(g) {
        assert(s.contains(g));
    }
}

/// A text always ends in a zero.
pub proof fn law_wide_field_ends(s: Seq<char>)
    ensures
        wide_field(s).len() == 256,
        wide_field(s)[255] == 0,
{
}

} // verus!
