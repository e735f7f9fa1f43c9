//! Agreeing on a format from what is known of the connections.

use vstd::prelude::*;
use crate::host::instance::apo_interface::ApoObject;
use crate::hresult::{E_FAIL, HRESULT, S_FALSE, S_OK};
use crate::instance::object;
use crate::object::vx_reg_props;

verus! {

/// The format of a connection.
#[derive(Clone, Copy, Debug, PartialEq, Eq, Structural)]
pub struct ConnectionFormat {
    pub channel_count: u32,
    /// In hertz.
    pub sample_rate: u32,
    pub bits_per_sample: u32,
    /// The speaker positions.
    pub channel_mask: u32,
}

/// The formats of the inputs and of the outputs.
#[derive(Clone, Debug, PartialEq, Eq)]
pub struct LockConfig {
    pub inputs: Vec<ConnectionFormat>,
    pub outputs: Vec<ConnectionFormat>,
}

/// The numbers of input and output channels: those of the connections where
/// there is a child; otherwise one number for both, that of the input unless it
/// is zero.
pub open spec fn channel_counts(
    has_child: bool,
    input: ConnectionFormat,
    output: ConnectionFormat,
) -> (u32, u32) {
    if has_child {
        (input.channel_count, output.channel_count)
    } else if input.channel_count > 0 {
        (input.channel_count, input.channel_count)
    } else {
        (output.channel_count, output.channel_count)
    }
}

/// The speaker positions: those of the output for an object that plays back,
/// those of the input otherwise; the other ones where these are zero.
pub open spec fn speaker_mask(
    plays_back: bool,
    input: ConnectionFormat,
    output: ConnectionFormat,
) -> u32 {
    let (first, second) = if plays_back {
        (output.channel_mask, input.channel_mask)
    } else {
        (input.channel_mask, output.channel_mask)
    };
    if first != 0 {
        first
    } else {
        second
    }
}

/// Whether formats can be agreed on: there is an input and an output, and the
/// first of each have the same rate and the same sample size.
pub open spec fn acceptable(inputs: Seq<ConnectionFormat>, outputs: Seq<ConnectionFormat>) -> bool {
    &&& inputs.len() > 0
    &&& outputs.len() > 0
    &&& inputs[0].sample_rate == outputs[0].sample_rate
    &&& inputs[0].bits_per_sample == outputs[0].bits_per_sample
}

/// An object once it has agreed on the formats of an input and an output.
pub open spec fn agreed(
    obj: ApoObject,
    input: ConnectionFormat,
    output: ConnectionFormat,
) -> ApoObject {
    let counts = channel_counts(obj.state.child_apo_guid is Some, input, output);
    ApoObject {
        state: object::locked(
            obj.state,
            input.sample_rate,
            counts.0,
            counts.1,
            speaker_mask(vx_reg_props::is_own_clsid(obj.state.clsid), input, output),
            input.bits_per_sample,
        ),
        ..obj
    }
}

/// The numbers of input and output channels.
fn determine_channel_counts(
    obj: &ApoObject,
    input: &ConnectionFormat,
    output: &ConnectionFormat,
) -> (r: (u32, u32))
    ensures
        r == channel_counts(obj.state.child_apo_guid is Some, *input, *output),
{
    if obj.state.child_apo_guid.is_some() {
        (input.channel_count, output.channel_count)
    } else {
        let channels: u32 = if input.channel_count > 0 {
            input.channel_count
        } else {
            output.channel_count
        };
        (channels, channels)
    }
}

/// The speaker positions.
fn determine_channel_mask(
    obj: &ApoObject,
    input: &ConnectionFormat,
    output: &ConnectionFormat,
) -> (r: u32)
    ensures
        r == speaker_mask(vx_reg_props::is_own_clsid(obj.state.clsid), *input, *output),
{
    if obj.state.is_pre_mix() || obj.state.is_post_mix() {
        if output.channel_mask != 0 {
            output.channel_mask
        } else {
            input.channel_mask
        }
    } else if input.channel_mask != 0 {
        input.channel_mask
    } else {
        output.channel_mask
    }
}

/// Agrees on the formats of the first input and the first output.
pub fn lock_for_process(obj: &mut ApoObject, config: &LockConfig) -> (hr: HRESULT)
    ensures
        if !old(obj).state.is_locked && acceptable(config.inputs@, config.outputs@) {
            hr == S_OK && *final(obj) == agreed(*old(obj), config.inputs@[0], config.outputs@[0])
        } else {
            hr == E_FAIL && *final(obj) == *old(obj)
        },
{
    if obj.state.is_locked {
        return E_FAIL;
    }
    if config.inputs.len() == 0 || config.outputs.len() == 0 {
        return E_FAIL;
    }
    let input = &config.inputs[0];
    let output = &config.outputs[0];
    if input.sample_rate != output.sample_rate {
        return E_FAIL;
    }
    if input.bits_per_sample != output.bits_per_sample {
        return E_FAIL;
    }
    let (input_channels, output_channels) = determine_channel_counts(obj, input, output);
    let channel_mask = determine_channel_mask(obj, input, output);
    obj.state.lock_for_process(
        input.sample_rate,
        input_channels,
        output_channels,
        channel_mask,
        input.bits_per_sample,
    );
    S_OK
}

/// Gives the format up; the result says whether there was one. A child is told
/// beforehand; its answer does not matter.
pub fn unlock_for_process(obj: &mut ApoObject) -> (hr: HRESULT)
    ensures
        if old(obj).state.is_locked {
            hr == S_OK && *final(obj) == (ApoObject {
                state: object::unlocked(old(obj).state),
                ..*old(obj)
            })
        } else {
            hr == S_FALSE && *final(obj) == *old(obj)
        },
{
    if !obj.state.is_locked {
        return S_FALSE;
    }
    obj.state.unlock_for_process();
    S_OK
}

/// Without a child as many channels come out as go in.
pub proof fn law_channels_without_child(input: ConnectionFormat, output: ConnectionFormat)
    ensures
        channel_counts(false, input, output).0 == channel_counts(false, input, output).1,
{
}

/// Speaker positions are missing only where neither connection has any.
pub proof fn law_speaker_mask_is_kept(
    plays_back: bool,
    input: ConnectionFormat,
    output: ConnectionFormat,
)
    ensures
        speaker_mask(plays_back, input, output) == 0 <==> input.channel_mask == 0
            && output.channel_mask == 0,
{
}

/// Giving a format up takes an object back to what it was before it agreed on
/// it.
pub proof fn law_unlock_undoes_agreement(
    obj: ApoObject,
    input: ConnectionFormat,
    output: ConnectionFormat,
)
    requires
        obj.state == object::unlocked(obj.state),
    ensures
        (ApoObject {
            state: object::unlocked(agreed(obj, input, output).state),
            ..agreed(obj, input, output)
        }) == obj,
{
}

/// Formats are agreed on exactly where both sides have a connection, and the first of
/// each agree in rate and sample size, whatever their channels.
pub proof fn law_acceptable(inputs: Seq<ConnectionFormat>, outputs: Seq<ConnectionFormat>)
    ensures
        acceptable(inputs, outputs) == acceptable(outputs, inputs),
        inputs.len() == 0 ==> !acceptable(inputs, outputs),
        inputs.len() > 0 ==> acceptable(inputs, inputs),
        inputs.len() > 0 && outputs.len() > 0 ==> (acceptable(inputs, outputs) <==> inputs[0]
            == (ConnectionFormat {
            channel_count: inputs[0].channel_count,
            channel_mask: inputs[0].channel_mask,
            ..outputs[0]
        })),
{
}

/// What an object takes over when it agrees on formats. With a child each side keeps its
/// channels; without one both sides have those of the input, or of the output where the
/// input has none. The speakers of an object of this library are those of the output, of
/// any other those of the input, or of the other side where these are not given.
pub proof fn law_agreement(obj: ApoObject, input: ConnectionFormat, output: ConnectionFormat)
    ensures
        ({
            let s = agreed(obj, input, output).state;
            let own = vx_reg_props::is_own_clsid(obj.state.clsid);
            &&& s.is_locked
            &&& s.sample_rate == input.sample_rate
            &&& s.bits_per_sample == input.bits_per_sample
            &&& s.clsid == obj.state.clsid && s.child_apo_guid == obj.state.child_apo_guid
            &&& obj.state.child_apo_guid is Some ==> s.input_channel_count == input.channel_count
                && s.output_channel_count == output.channel_count
            &&& obj.state.child_apo_guid is None ==> s.input_channel_count
                == s.output_channel_count
            &&& obj.state.child_apo_guid is None && input.channel_count > 0
                ==> s.output_channel_count == input.channel_count
            &&& obj.state.child_apo_guid is None && input.channel_count == 0
                ==> s.input_channel_count == output.channel_count
            &&& own && output.channel_mask != 0 ==> s.channel_mask == output.channel_mask
            &&& own && output.channel_mask == 0 ==> s.channel_mask == input.channel_mask
            &&& !own && input.channel_mask != 0 ==> s.channel_mask == input.channel_mask
            &&& !own && input.channel_mask == 0 ==> s.channel_mask == output.channel_mask
        }),
{
}

} // verus!
