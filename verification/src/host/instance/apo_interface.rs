//! A processing object: the formats it agrees on, the latency it reports, and
//! what it does with a buffer.

use vstd::prelude::*;
use crate::audio_defs;
use crate::audio_defs::{default_channel_mask, read_le16, read_le32, WAVE_FORMAT_EXTENSIBLE};
use crate::guid::GUID;
use crate::host::instance::apo_child::ChildApo;
use crate::host::instance::apo_rt;
use crate::host::instance::apo_rt::{
    calc_input_frames, calc_output_frames, time_of_frames, Pipeline, BUFFER_SILENT,
};
use crate::host::instance::audio_compat;
use crate::host::instance::audio_compat::EXTENSION_SIZE;
use crate::host::instance::reg_props;
use crate::host::instance::reg_props::{props_for_clsid, ApoRegProperties};
use crate::hresult::{E_FAIL, E_INVALIDARG, E_POINTER, HRESULT, S_OK};
use crate::instance::object;
use crate::instance::object::ApoObjectState;
use crate::instance::ref_count;
use crate::object::vx_reg_props;

verus! {

/// Where the channel mask of an extended format stands.
pub const CHANNEL_MASK_OFFSET: usize = 20;

/// The least number of bytes that an object is initialised with.
pub const INIT_DATA_SIZE: u32 = 36;

/// A processing object.
#[derive(Clone, Debug)]
pub struct ApoObject {
    /// The class of the object.
    pub clsid: GUID,
    pub state: ApoObjectState,
    /// What processes the stream, once a format is agreed on.
    pub pipeline: Option<Pipeline>,
    /// The latency, in frames.
    pub latency_samples: u32,
    /// The displaced object, where it is kept.
    pub child_apo: Option<ChildApo>,
}

/// What is said of a connection before processing.
#[derive(Clone, Debug, PartialEq, Eq)]
pub struct ConnectionDescriptor {
    /// The bytes of the format.
    pub format: Option<Vec<u8>>,
    /// The largest number of frames in one buffer.
    pub max_frame_count: u32,
}

/// What is said of a connection with each buffer.
#[derive(Clone, Copy, Debug, PartialEq, Eq, Structural)]
pub struct ConnectionProperty {
    /// The address of the buffer; zero for a missing one.
    pub p_buffer: usize,
    pub valid_frame_count: u32,
    pub buffer_flags: u32,
}

/// What is read from a format.
#[derive(Clone, Copy, Debug, PartialEq, Eq, Structural)]
pub struct WaveFormat {
    pub sample_rate: u32,
    pub channels: u32,
    pub channel_mask: u32,
    pub bits_per_sample: u32,
}

/// What is done with a buffer.
#[derive(Clone, Copy, Debug, PartialEq, Eq, Structural)]
pub enum ProcessPlan {
    /// All outputs are silenced.
    Silence,
    /// The pipeline runs.
    Run {
        frame_count: u32,
        input_channels: u32,
        output_channels: u32,
        /// The number of samples read; none where the input is silent or missing.
        input_samples: u64,
        /// The number of samples written.
        output_samples: u64,
        input_flags: u32,
    },
}

// ---------------------------------------------------------------------------
// Model
// ---------------------------------------------------------------------------
/// What is read from the bytes of a format: the channel mask is the format's own
/// where it has one, else that of the standard layout.
pub open spec fn wave_format(b: Seq<u8>) -> WaveFormat {
    WaveFormat {
        sample_rate: audio_defs::le32(b, 4) as u32,
        channels: audio_defs::le16(b, 2) as u32,
        channel_mask: if audio_compat::is_extended(b) {
            audio_defs::le32(b, CHANNEL_MASK_OFFSET as int) as u32
        } else {
            audio_defs::standard_mask(audio_defs::le16(b, 2))
        },
        bits_per_sample: audio_defs::le16(b, 14) as u32,
    }
}

/// Whether a connection has no format, or one whose bytes are those of a format.
pub open spec fn well_described(d: Option<&ConnectionDescriptor>) -> bool {
    d matches Some(c) ==> (c.format matches Some(b) ==> audio_compat::is_format(b@))
}

/// The format of a connection.
pub open spec fn format_of_connection(d: Option<&ConnectionDescriptor>) -> Option<WaveFormat> {
    match d {
        Some(c) => match c.format {
            Some(b) => Some(wave_format(b@)),
            None => None,
        },
        None => None,
    }
}

/// Why no format is agreed on; `None` where one is.
pub open spec fn lock_refusal(
    obj: ApoObject,
    num_input: u32,
    input: Option<&ConnectionDescriptor>,
    num_output: u32,
    output: Option<&ConnectionDescriptor>,
) -> Option<HRESULT> {
    match (format_of_connection(input), format_of_connection(output)) {
        (Some(i), Some(o)) => if num_input == 0 || num_output == 0 || i.sample_rate != o.sample_rate
            || i.channels == 0 || o.channels == 0 {
            Some(E_INVALIDARG)
        } else if obj.state.is_locked {
            Some(E_FAIL)
        } else {
            None
        },
        _ => Some(E_INVALIDARG),
    }
}

/// An object once it has agreed on the formats of an input and an output: a new
/// pipeline fades over a hundredth of a second.
pub open spec fn locked_object(
    obj: ApoObject,
    input: WaveFormat,
    output: WaveFormat,
    max_frame_count: u32,
) -> ApoObject {
    ApoObject {
        state: object::locked(
            obj.state,
            input.sample_rate,
            input.channels,
            output.channels,
            input.channel_mask,
            input.bits_per_sample,
        ),
        pipeline: Some(
            Pipeline {
                smoothing_length: (input.sample_rate / 100) as u32,
                max_frames: max_frame_count as usize,
                max_channels: (if input.channels >= output.channels {
                    input.channels
                } else {
                    output.channels
                }) as usize,
                chain_latency: None,
            },
        ),
        latency_samples: 0,
        ..obj
    }
}

/// An object without a format.
pub open spec fn idle(obj: ApoObject) -> ApoObject {
    ApoObject { state: object::unlocked(obj.state), pipeline: None, latency_samples: 0, ..obj }
}

/// What is done with a buffer.
pub open spec fn plan(
    obj: ApoObject,
    num_input: u32,
    input: Option<&ConnectionProperty>,
    num_output: u32,
    output: Option<&ConnectionProperty>,
) -> ProcessPlan {
    match (input, output) {
        (Some(i), Some(o)) => if obj.pipeline is None || num_input == 0 || num_output == 0
            || obj.state.input_channel_count == 0 || obj.state.output_channel_count == 0
            || obj.state.sample_rate == 0 || obj.state.bits_per_sample < 8 || i.valid_frame_count
            == 0 || o.p_buffer == 0 {
            ProcessPlan::Silence
        } else {
            ProcessPlan::Run {
                frame_count: i.valid_frame_count,
                input_channels: obj.state.input_channel_count,
                output_channels: obj.state.output_channel_count,
                input_samples: if i.p_buffer == 0 || i.buffer_flags == BUFFER_SILENT {
                    0
                } else {
                    (obj.state.input_channel_count * i.valid_frame_count) as u64
                },
                output_samples: (obj.state.output_channel_count * i.valid_frame_count) as u64,
                input_flags: i.buffer_flags,
            }
        },
        _ => ProcessPlan::Silence,
    }
}

/// The number of samples that are cleared to silence an output.
pub open spec fn samples_to_clear(p: ConnectionProperty, channels: u32) -> u64 {
    if p.p_buffer != 0 {
        (p.valid_frame_count * channels) as u64
    } else {
        0
    }
}

/// An output with other flags.
pub open spec fn with_flags(p: ConnectionProperty, flags: u32) -> ConnectionProperty {
    ConnectionProperty { buffer_flags: flags, ..p }
}

// ---------------------------------------------------------------------------
// Objects
// ---------------------------------------------------------------------------
/// What is read from the bytes of a format.
pub fn extract_waveformat(format: Option<&[u8]>) -> (r: Option<WaveFormat>)
    requires
        audio_compat::may_be_format(format),
    ensures
        r == (match format {
            Some(b) => Some(wave_format(b@)),
            None => None,
        }),
{
    match format {
        Some(b) => {
            let format_tag = read_le16(b, 0);
            let channels = read_le16(b, 2);
            let sample_rate = read_le32(b, 4);
            let bits_per_sample = read_le16(b, 14);
            let cb_size = read_le16(b, 16);
            let channel_mask = if format_tag == WAVE_FORMAT_EXTENSIBLE && cb_size
                >= EXTENSION_SIZE {
                read_le32(b, CHANNEL_MASK_OFFSET)
            } else {
                default_channel_mask(channels as u32)
            };
            Some(
                WaveFormat {
                    sample_rate,
                    channels: channels as u32,
                    channel_mask,
                    bits_per_sample: bits_per_sample as u32,
                },
            )
        },
        None => None,
    }
}

fn connection_format(d: &ConnectionDescriptor) -> (r: Option<WaveFormat>)
    requires
        well_described(Some(d)),
    ensures
        r == format_of_connection(Some(d)),
{
    match &d.format {
        Some(b) => extract_waveformat(Some(b.as_slice())),
        None => None,
    }
}

/// Silences outputs: their valid frames are cleared, in as many channels as they
/// have, and they are marked as silent. The result says how many samples of each
/// are to be cleared.
pub fn zero_all_outputs(outputs: &mut Vec<ConnectionProperty>, channels: u32) -> (cleared: Vec<u64>)
    ensures
        final(outputs)@ == old(outputs)@.map_values(
            |p: ConnectionProperty| with_flags(p, BUFFER_SILENT),
        ),
        cleared@ == old(outputs)@.map_values(|p: ConnectionProperty| samples_to_clear(p, channels)),
{
    let ghost before = outputs@;
    let ghost silenced = before.map_values(|p: ConnectionProperty| with_flags(p, BUFFER_SILENT));
    let ghost amounts = before.map_values(|p: ConnectionProperty| samples_to_clear(p, channels));
    let mut cleared: Vec<u64> = Vec::new();
    let mut i: usize = 0;
    while i < outputs.len()
        invariant
            i <= outputs@.len(),
            outputs@.len() == before.len(),
            silenced == before.map_values(|p: ConnectionProperty| with_flags(p, BUFFER_SILENT)),
            amounts == before.map_values(|p: ConnectionProperty| samples_to_clear(p, channels)),
            forall|j: int| 0 <= j < i ==> outputs@[j] == silenced[j],
            forall|j: int| i <= j < before.len() ==> outputs@[j] == before[j],
            cleared@ == amounts.take(i as int),
        decreases before.len() - i,
    {
        let mut p = outputs[i];
        assert(p == before[i as int]);
        let n: u64 = if p.p_buffer != 0 {
            assert(p.valid_frame_count * channels <= 0xFFFF_FFFF * 0xFFFF_FFFF)
                by (nonlinear_arith)
                requires
                    p.valid_frame_count <= 0xFFFF_FFFF,
                    channels <= 0xFFFF_FFFF,
            ;
            p.valid_frame_count as u64 * channels as u64
        } else {
            0
        };
        cleared.push(n);
        p.buffer_flags = BUFFER_SILENT;
        outputs.set(i, p);
        assert(cleared@ =~= amounts.take(i + 1));
        i += 1;
    }
    assert(outputs@ =~= silenced);
    assert(amounts.take(i as int) =~= amounts);
    cleared
}

impl ApoObject {
    /// A new object of a class. It is counted.
    pub fn new(clsid: GUID, alive: &mut u32) -> (obj: ApoObject)
        requires
            *old(alive) < u32::MAX,
        ensures
            obj == (ApoObject {
                clsid,
                state: object::fresh(clsid),
                pipeline: None,
                latency_samples: 0,
                child_apo: None,
            }),
            *final(alive) == *old(alive) + 1,
    {
        let _ = ref_count::increment(alive);
        ApoObject {
            clsid,
            state: ApoObjectState::new(clsid),
            pipeline: None,
            latency_samples: 0,
            child_apo: None,
        }
    }

    /// Ends an object. It is no longer counted; the result lists the interfaces of
    /// its child to release, in order.
    pub fn release(self, alive: &mut u32) -> (r: Vec<usize>)
        requires
            *old(alive) > 0,
        ensures
            *final(alive) == *old(alive) - 1,
            r@ == (match self.child_apo {
                Some(c) => crate::host::instance::apo_child::to_release(
                    seq![c.iapo_ptr, c.iapo_rt_ptr, c.iapo_cfg_ptr],
                ),
                None => Seq::empty(),
            }),
    {
        let _ = ref_count::decrement(alive);
        match self.child_apo {
            Some(mut child) => child.release(),
            None => {
                let none: Vec<usize> = Vec::new();
                assert(none@ =~= Seq::empty());
                none
            },
        }
    }

    /// Gives up the format and the pipeline.
    pub fn reset(&mut self) -> (hr: HRESULT)
        ensures
            hr == S_OK,
            *final(self) == idle(*old(self)),
    {
        self.pipeline = None;
        self.state.unlock_for_process();
        self.latency_samples = 0;
        S_OK
    }

    /// The latency, in units of 100 nanoseconds, where there is a place for it.
    pub fn get_latency(&self, has_place: bool) -> (r: Result<i64, HRESULT>)
        ensures
            match r {
                Ok(t) => has_place && t == apo_rt::frames_time(
                    self.latency_samples,
                    self.state.sample_rate,
                ),
                Err(hr) => !has_place && hr == E_POINTER,
            },
    {
        if !has_place {
            return Err(E_POINTER);
        }
        Ok(time_of_frames(self.latency_samples, self.state.sample_rate))
    }

    /// The properties under which the object is registered, where there is a
    /// place for them.
    pub fn get_registration_properties(&self, has_place: bool) -> (r: Result<
        ApoRegProperties,
        HRESULT,
    >)
        ensures
            match r {
                Ok(p) => has_place && vx_reg_props::is_own_clsid(self.state.clsid) && p@
                    == reg_props::props_of(self.state.clsid),
                Err(hr) => if !has_place {
                    hr == E_POINTER
                } else {
                    !vx_reg_props::is_own_clsid(self.state.clsid) && hr == E_FAIL
                },
            },
    {
        if !has_place {
            return Err(E_POINTER);
        }
        match props_for_clsid(&self.state.clsid) {
            Some(p) => Ok(p),
            None => Err(E_FAIL),
        }
    }

    /// Whether the data that an object is initialised with is acceptable.
    pub fn initialize(&self, cb_data_size: u32, has_data: bool) -> (hr: HRESULT)
        ensures
            hr == (if has_data && cb_data_size >= INIT_DATA_SIZE {
                S_OK
            } else {
                E_INVALIDARG
            }),
    {
        if !has_data || cb_data_size < INIT_DATA_SIZE {
            return E_INVALIDARG;
        }
        S_OK
    }

    /// The number of input channels; none while no format is agreed on.
    pub fn get_input_channel_count(&self) -> (r: u32)
        ensures
            r == (if self.state.is_locked {
                self.state.input_channel_count
            } else {
                0
            }),
    {
        if self.state.is_locked {
            self.state.input_channel_count
        } else {
            0
        }
    }

    /// The frames that have to go in for some to come out.
    pub fn calc_input_frames(&self, output_frames: u32) -> (r: u32)
        ensures
            r == (match self.pipeline {
                Some(p) => apo_rt::frames_in(output_frames, apo_rt::latency_of(p)),
                None => output_frames,
            }),
    {
        match &self.pipeline {
            Some(p) => calc_input_frames(p, output_frames),
            None => output_frames,
        }
    }

    /// The frames that come out when some go in.
    pub fn calc_output_frames(&self, input_frames: u32) -> (r: u32)
        ensures
            r == (match self.pipeline {
                Some(p) => apo_rt::frames_out(input_frames, apo_rt::latency_of(p)),
                None => input_frames,
            }),
    {
        match &self.pipeline {
            Some(p) => calc_output_frames(p, input_frames),
            None => input_frames,
        }
    }

    /// What is done with a buffer, given the numbers of connections and the first
    /// of each kind.
    pub fn apo_process_inner(
        &self,
        num_input: u32,
        input: Option<&ConnectionProperty>,
        num_output: u32,
        output: Option<&ConnectionProperty>,
    ) -> (r: ProcessPlan)
        ensures
            r == plan(*self, num_input, input, num_output, output),
    {
        if self.pipeline.is_none() {
            return ProcessPlan::Silence;
        }
        match (input, output) {
            (Some(input_prop), Some(output_prop)) => {
                if num_input == 0 || num_output == 0 {
                    return ProcessPlan::Silence;
                }
                let input_channels = self.state.input_channel_count;
                let output_channels = self.state.output_channel_count;
                if input_channels == 0 || output_channels == 0 || self.state.sample_rate == 0 {
                    return ProcessPlan::Silence;
                }
                if self.state.bits_per_sample / 8 == 0 {
                    return ProcessPlan::Silence;
                }
                let frame_count = input_prop.valid_frame_count;
                if frame_count == 0 {
                    return ProcessPlan::Silence;
                }
                if output_prop.p_buffer == 0 {
                    return ProcessPlan::Silence;
                }
                assert(input_channels * frame_count <= 0xFFFF_FFFF * 0xFFFF_FFFF && output_channels
                    * frame_count <= 0xFFFF_FFFF * 0xFFFF_FFFF) by (nonlinear_arith)
                    requires
                        input_channels <= 0xFFFF_FFFF,
                        output_channels <= 0xFFFF_FFFF,
                        frame_count <= 0xFFFF_FFFF,
                ;
                let input_samples: u64 = if input_prop.p_buffer == 0 || input_prop.buffer_flags
                    == BUFFER_SILENT {
                    0
                } else {
                    input_channels as u64 * frame_count as u64
                };
                ProcessPlan::Run {
                    frame_count,
                    input_channels,
                    output_channels,
                    input_samples,
                    output_samples: output_channels as u64 * frame_count as u64,
                    input_flags: input_prop.buffer_flags,
                }
            },
            _ => ProcessPlan::Silence,
        }
    }

    /// What is left to do with the outputs once the pipeline has run, or did not
    /// come to an end: its flags go to the first output, or all outputs are
    /// silenced over all of their channels. The result says how many samples of each
    /// are to be cleared.
    pub fn apo_process(
        &self,
        outputs: &mut Vec<ConnectionProperty>,
        channels: u32,
        processed: Option<u32>,
    ) -> (r: Vec<u64>)
        requires
            processed is Some ==> old(outputs)@.len() > 0,
        ensures
            match processed {
                Some(flags) => {
                    &&& final(outputs)@ == old(outputs)@.update(
                        0,
                        with_flags(old(outputs)@[0], flags),
                    )
                    &&& r@ == Seq::<u64>::empty()
                },
                None => {
                    &&& final(outputs)@ == old(outputs)@.map_values(
                        |p: ConnectionProperty| with_flags(p, BUFFER_SILENT),
                    )
                    &&& r@ == old(outputs)@.map_values(
                        |p: ConnectionProperty| samples_to_clear(p, channels),
                    )
                },
            },
    {
        match processed {
            Some(flags) => {
                let mut first = outputs[0];
                first.buffer_flags = flags;
                outputs.set(0, first);
                let none: Vec<u64> = Vec::new();
                assert(none@ =~= Seq::empty());
                none
            },
            None => zero_all_outputs(outputs, channels),
        }
    }

    /// Agrees on the formats of the first input and the first output.
    pub fn lock_for_process(
        &mut self,
        num_input: u32,
        input: Option<&ConnectionDescriptor>,
        num_output: u32,
        output: Option<&ConnectionDescriptor>,
    ) -> (hr: HRESULT)
        requires
            well_described(input),
            well_described(output),
        ensures
            match lock_refusal(*old(self), num_input, input, num_output, output) {
                Some(code) => hr == code && *final(self) == *old(self),
                None => hr == S_OK && *final(self) == locked_object(
                    *old(self),
                    format_of_connection(input).unwrap(),
                    format_of_connection(output).unwrap(),
                    input.unwrap().max_frame_count,
                ),
            },
    {
        if num_input == 0 || num_output == 0 {
            return E_INVALIDARG;
        }
        match (input, output) {
            (Some(input_desc), Some(output_desc)) => {
                let i = match connection_format(input_desc) {
                    Some(f) => f,
                    None => {
                        return E_INVALIDARG;
                    },
                };
                let o = match connection_format(output_desc) {
                    Some(f) => f,
                    None => {
                        return E_INVALIDARG;
                    },
                };
                if i.sample_rate != o.sample_rate {
                    return E_INVALIDARG;
                }
                if i.channels == 0 || o.channels == 0 {
                    return E_INVALIDARG;
                }
                if self.state.is_locked {
                    return E_FAIL;
                }
                self.state.lock_for_process(
                    i.sample_rate,
                    i.channels,
                    o.channels,
                    i.channel_mask,
                    i.bits_per_sample,
                );
                let max_channels: u32 = if i.channels >= o.channels {
                    i.channels
                } else {
                    o.channels
                };
                let pipeline = Pipeline::new(
                    i.sample_rate / 100,
                    input_desc.max_frame_count as usize,
                    max_channels as usize,
                );
                self.latency_samples = pipeline.latency();
                self.pipeline = Some(pipeline);
                S_OK
            },
            _ => E_INVALIDARG,
        }
    }

    /// Gives the format up, if there is one.
    pub fn unlock_for_process(&mut self) -> (hr: HRESULT)
        ensures
            hr == S_OK,
            *final(self) == (if old(self).state.is_locked {
                idle(*old(self))
            } else {
                *old(self)
            }),
    {
        if !self.state.is_locked {
            return S_OK;
        }
        self.state.unlock_for_process();
        self.pipeline = None;
        self.latency_samples = 0;
        S_OK
    }
}

// ---------------------------------------------------------------------------
// Negotiation
// ---------------------------------------------------------------------------
/// Whether a pair of formats is supported.
#[derive(Clone, Copy, Debug, PartialEq, Eq, Structural)]
pub enum FormatSupportResult {
    Supported,
    /// Not as they are, but another pair would be.
    UnsupportedWithAlternative,
    Unsupported,
}

/// A pair of formats.
#[derive(Clone, Copy, Debug, PartialEq, Eq, Structural)]
pub struct FormatNegotiation {
    pub input_channels: u32,
    pub output_channels: u32,
    pub input_sample_rate: u32,
    pub output_sample_rate: u32,
    pub input_bits_per_sample: u32,
    pub output_bits_per_sample: u32,
    pub input_channel_mask: u32,
    pub output_channel_mask: u32,
}

/// Whether a pair of formats is supported: rates and sample sizes agree, and no
/// channels are lost from more than two.
pub open spec fn support(neg: FormatNegotiation) -> FormatSupportResult {
    if neg.input_sample_rate != neg.output_sample_rate || neg.input_bits_per_sample
        != neg.output_bits_per_sample {
        FormatSupportResult::Unsupported
    } else if neg.input_channels > 2 && neg.output_channels < neg.input_channels {
        FormatSupportResult::UnsupportedWithAlternative
    } else {
        FormatSupportResult::Supported
    }
}

/// Whether a pair of formats is supported.
pub fn check_format_support(neg: &FormatNegotiation) -> (r: FormatSupportResult)
    ensures
        r == support(*neg),
{
    if neg.input_sample_rate != neg.output_sample_rate {
        return FormatSupportResult::Unsupported;
    }
    if neg.input_bits_per_sample != neg.output_bits_per_sample {
        return FormatSupportResult::Unsupported;
    }
    if neg.input_channels > 2 && neg.output_channels < neg.input_channels {
        return FormatSupportResult::UnsupportedWithAlternative;
    }
    FormatSupportResult::Supported
}

// ---------------------------------------------------------------------------
// Laws
// ---------------------------------------------------------------------------
/// An object that has agreed on a format agrees on no other before it has given
/// the first one up.
pub proof fn law_no_second_lock(
    obj: ApoObject,
    num_input: u32,
    input: Option<&ConnectionDescriptor>,
    num_output: u32,
    output: Option<&ConnectionDescriptor>,
)
    requires
        obj.state.is_locked,
    ensures
        lock_refusal(obj, num_input, input, num_output, output) is Some,
{
}

/// Giving a format up takes an object back to what it was before it agreed on
/// it, and it can agree on the same one again.
pub proof fn law_lock_cycle(
    obj: ApoObject,
    num_input: u32,
    input: Option<&ConnectionDescriptor>,
    num_output: u32,
    output: Option<&ConnectionDescriptor>,
)
    requires
        obj == idle(obj),
        lock_refusal(obj, num_input, input, num_output, output) is None,
    ensures
        ({
            let after = locked_object(
                obj,
                format_of_connection(input).unwrap(),
                format_of_connection(output).unwrap(),
                input.unwrap().max_frame_count,
            );
            after.state.is_locked && idle(after) == obj
        }),
{
}

/// Nothing but silence comes out of an object without a format.
pub proof fn law_idle_is_silent(
    obj: ApoObject,
    num_input: u32,
    input: Option<&ConnectionProperty>,
    num_output: u32,
    output: Option<&ConnectionProperty>,
)
    ensures
        plan(idle(obj), num_input, input, num_output, output) is Silence,
{
}

/// An object that has agreed on a format processes whole samples only: every
/// buffer with frames, at a sample size of at least a byte, and a place for the
/// output.
pub proof fn law_locked_object_runs(
    obj: ApoObject,
    input: WaveFormat,
    output: WaveFormat,
    max_frame_count: u32,
    num_input: u32,
    i: &ConnectionProperty,
    num_output: u32,
    o: &ConnectionProperty,
)
    requires
        input.channels > 0,
        output.channels > 0,
        input.sample_rate > 0,
        num_input > 0,
        num_output > 0,
    ensures
        plan(
            locked_object(obj, input, output, max_frame_count),
            num_input,
            Some(i),
            num_output,
            Some(o),
        ) is Run <==> input.bits_per_sample >= 8 && i.valid_frame_count > 0 && o.p_buffer != 0,
{
}

/// What is done with a buffer after a format is agreed on: as many samples are
/// written as the output format has channels, for each valid frame of the input, and
/// as many are read as the input format has channels, for each of them; none are read
/// from an input that is missing or silent. The number of channels is the third byte
/// of a format and, above it, the fourth.
pub proof fn law_samples_by_format(
    obj: ApoObject,
    num_input: u32,
    input: &ConnectionDescriptor,
    num_output: u32,
    output: &ConnectionDescriptor,
    num_input_buffers: u32,
    i: &ConnectionProperty,
    num_output_buffers: u32,
    o: &ConnectionProperty,
)
    requires
        lock_refusal(obj, num_input, Some(input), num_output, Some(output)) is None,
    ensures
        input.format is Some && output.format is Some,
        ({
            let ib = input.format.unwrap()@;
            let ob = output.format.unwrap()@;
            let locked = locked_object(
                obj,
                format_of_connection(Some(input)).unwrap(),
                format_of_connection(Some(output)).unwrap(),
                input.max_frame_count,
            );
            plan(
                locked,
                num_input_buffers,
                Some(i),
                num_output_buffers,
                Some(o),
            ) matches ProcessPlan::Run {
                frame_count,
                input_channels,
                output_channels,
                input_samples,
                output_samples,
                input_flags,
            } ==> {
                &&& frame_count == i.valid_frame_count
                &&& input_channels == ib[2] + ib[3] * 256
                &&& output_channels == ob[2] + ob[3] * 256
                &&& output_samples == (ob[2] + ob[3] * 256) * i.valid_frame_count
                &&& i.p_buffer != 0 && i.buffer_flags != 2 ==> input_samples == (ib[2] + ib[3]
                    * 256) * i.valid_frame_count
                &&& i.p_buffer == 0 || i.buffer_flags == 2 ==> input_samples == 0
                &&& input_flags == i.buffer_flags
                &&& o.p_buffer != 0
            }
        }),
{
    let ib = input.format.unwrap()@;
    let ob = output.format.unwrap()@;
    lemma_samples_fit((ib[2] + ib[3] * 0x100) as u32, i.valid_frame_count);
    lemma_samples_fit((ob[2] + ob[3] * 0x100) as u32, i.valid_frame_count);
}

proof fn lemma_samples_fit(channels: u32, frames: u32)
    ensures
        0 <= channels * frames <= u64::MAX,
{
    assert(0 <= channels * frames <= 0xFFFF_FFFF * 0xFFFF_FFFF) by (nonlinear_arith)
        requires
            channels <= 0xFFFF_FFFF,
            frames <= 0xFFFF_FFFF,
    ;
}

/// An object with so many channels runs over exactly the valid frames of the input,
/// and writes every channel of each of them: the samples go up with the frames and
/// with the channels of their own side alone.
pub proof fn law_samples_by_channels(
    obj: ApoObject,
    num_input: u32,
    i: &ConnectionProperty,
    num_output: u32,
    o: &ConnectionProperty,
)
    ensures
        plan(obj, num_input, Some(i), num_output, Some(o)) matches ProcessPlan::Run {
            frame_count,
            input_channels,
            output_channels,
            input_samples,
            output_samples,
            input_flags,
        } ==> {
            &&& frame_count == i.valid_frame_count
            &&& input_channels == obj.state.input_channel_count
            &&& output_channels == obj.state.output_channel_count
            &&& output_samples == obj.state.output_channel_count * i.valid_frame_count
            &&& input_samples == if i.p_buffer != 0 && i.buffer_flags != 2 {
                obj.state.input_channel_count * i.valid_frame_count
            } else {
                0
            }
            &&& input_flags == i.buffer_flags
        },
{
    lemma_samples_fit(obj.state.input_channel_count, i.valid_frame_count);
    lemma_samples_fit(obj.state.output_channel_count, i.valid_frame_count);
}

/// A format is agreed on exactly where there are connections on both sides, both
/// have a format with channels, the rates are the same, and none is agreed on yet.
pub proof fn law_lock_conditions(
    obj: ApoObject,
    num_input: u32,
    input: &ConnectionDescriptor,
    num_output: u32,
    output: &ConnectionDescriptor,
)
    ensures
        lock_refusal(obj, num_input, Some(input), num_output, Some(output)) is None <==> {
            &&& num_input > 0
            &&& num_output > 0
            &&& !obj.state.is_locked
            &&& input.format matches Some(i) && output.format matches Some(o) && {
                &&& i@[2] + i@[3] * 256 > 0
                &&& o@[2] + o@[3] * 256 > 0
                &&& i@[4] == o@[4] && i@[5] == o@[5] && i@[6] == o@[6] && i@[7] == o@[7]
            }
        },
        lock_refusal(obj, num_input, None, num_output, Some(output)) is Some,
        lock_refusal(obj, num_input, Some(input), num_output, None) is Some,
        lock_refusal(obj, num_input, Some(input), num_output, Some(output)) == Some(E_FAIL)
            ==> obj.state.is_locked,
{
}

/// What an object keeps of the formats that it agreed on: the rate, mask and sample
/// size of the input, and the channels of both sides. The buffers of its pipeline hold
/// the largest number of frames in as many channels as the side with more has, and it
/// fades over a hundredth of a second.
pub proof fn law_locked_by_formats(
    obj: ApoObject,
    input: WaveFormat,
    output: WaveFormat,
    max_frame_count: u32,
)
    ensures
        ({
            let after = locked_object(obj, input, output, max_frame_count);
            &&& after.state.is_locked
            &&& after.state.sample_rate == input.sample_rate
            &&& after.state.input_channel_count == input.channels
            &&& after.state.output_channel_count == output.channels
            &&& after.state.channel_mask == input.channel_mask
            &&& after.state.bits_per_sample == input.bits_per_sample
            &&& after.clsid == obj.clsid
            &&& after.child_apo == obj.child_apo
            &&& after.latency_samples == 0
            &&& after.pipeline matches Some(p) && {
                &&& p.max_frames == max_frame_count
                &&& p.max_channels >= input.channels && p.max_channels >= output.channels
                &&& p.max_channels == input.channels || p.max_channels == output.channels
                &&& p.smoothing_length * 100 <= input.sample_rate < p.smoothing_length * 100 + 100
                &&& p.chain_latency is None
            }
        }),
{
}

/// Silencing outputs clears every channel of every valid frame where there is a
/// buffer, and nothing where there is none.
pub proof fn law_silencing_clears_all(p: ConnectionProperty, channels: u32)
    ensures
        p.p_buffer != 0 ==> samples_to_clear(p, channels) == p.valid_frame_count * channels,
        p.p_buffer == 0 ==> samples_to_clear(p, channels) == 0,
        with_flags(p, BUFFER_SILENT).buffer_flags == 2,
        with_flags(p, BUFFER_SILENT).p_buffer == p.p_buffer,
        with_flags(p, BUFFER_SILENT).valid_frame_count == p.valid_frame_count,
{
    lemma_samples_fit(p.valid_frame_count, channels);
}

/// A pair of formats with different rates or sample sizes is never supported; one
/// that agrees in both is supported as it is unless channels are lost from more than
/// two, and then another pair would be. Keeping the channels always does.
pub proof fn law_support(neg: FormatNegotiation)
    ensures
        support(neg) is Unsupported <==> neg.input_sample_rate != neg.output_sample_rate
            || neg.input_bits_per_sample != neg.output_bits_per_sample,
        support(neg) is UnsupportedWithAlternative ==> neg.input_channels > 2
            && neg.output_channels < neg.input_channels,
        neg.input_channels <= neg.output_channels ==> !(support(
            neg,
        ) is UnsupportedWithAlternative),
        neg.input_channels <= 2 ==> !(support(neg) is UnsupportedWithAlternative),
        support(neg) is Supported ==> neg.input_channels <= 2 || neg.output_channels
            >= neg.input_channels,
{
}

} // verus!
