//! What happens in real time: the latency of the filters, the frames that go in
//! and come out, and what is left of a failure.

use vstd::prelude::*;

verus! {

/// Buffer flag: the buffer holds samples.
pub const BUFFER_VALID: u32 = 1;

/// Buffer flag: the buffer is silent.
pub const BUFFER_SILENT: u32 = 2;

/// What is known of the pipeline that processes a stream.
#[derive(Clone, Copy, Debug, PartialEq, Eq, Structural)]
pub struct Pipeline {
    /// The number of frames over which one chain of filters fades into the next.
    pub smoothing_length: u32,
    /// The largest number of frames in one buffer.
    pub max_frames: usize,
    /// The largest number of channels.
    pub max_channels: usize,
    /// The latency of the chain of filters in use, in frames; `None` while there
    /// is no chain.
    pub chain_latency: Option<u32>,
}

/// The latency of the filters in use, in frames.
pub open spec fn latency_of(p: Pipeline) -> u32 {
    match p.chain_latency {
        Some(n) => n,
        None => 0,
    }
}

/// The time that some frames take, in units of 100 nanoseconds, rounded down;
/// none while the rate is not known.
pub open spec fn frames_time(frames: u32, sample_rate: u32) -> int {
    if sample_rate == 0 || frames == 0 {
        0
    } else {
        frames as int * 10_000_000 / (sample_rate as int)
    }
}

/// The frames that have to go in for some to come out, as far as they can be
/// counted.
pub open spec fn frames_in(output_frames: u32, latency: u32) -> u32 {
    if output_frames + latency <= u32::MAX {
        (output_frames + latency) as u32
    } else {
        u32::MAX
    }
}

/// The frames that come out when some go in.
pub open spec fn frames_out(input_frames: u32, latency: u32) -> u32 {
    if input_frames >= latency {
        (input_frames - latency) as u32
    } else {
        0
    }
}

impl Pipeline {
    /// A pipeline without a chain of filters.
    pub fn new(smoothing_length: u32, max_frames: usize, max_channels: usize) -> (p: Pipeline)
        ensures
            p == (Pipeline { smoothing_length, max_frames, max_channels, chain_latency: None }),
    {
        Pipeline { smoothing_length, max_frames, max_channels, chain_latency: None }
    }

    /// The latency of the filters in use, in frames.
    pub fn latency(&self) -> (r: u32)
        ensures
            r == latency_of(*self),
    {
        match self.chain_latency {
            Some(n) => n,
            None => 0,
        }
    }
}

/// The time that some frames take, in units of 100 nanoseconds.
pub fn time_of_frames(frames: u32, sample_rate: u32) -> (r: i64)
    ensures
        r == frames_time(frames, sample_rate),
{
    if sample_rate == 0 || frames == 0 {
        return 0;
    }
    let n: u64 = frames as u64 * 10_000_000;
    let q: u64 = n / sample_rate as u64;
    assert(q <= n) by (nonlinear_arith)
        requires
            q == n / sample_rate as u64,
            sample_rate > 0,
    ;
    q as i64
}

/// The latency of a pipeline, in units of 100 nanoseconds.
pub fn get_latency(pipeline: &Pipeline, sample_rate: u32) -> (r: i64)
    ensures
        r == frames_time(latency_of(*pipeline), sample_rate),
{
    time_of_frames(pipeline.latency(), sample_rate)
}

/// The frames that have to go in for some to come out.
pub fn calc_input_frames(pipeline: &Pipeline, output_frames: u32) -> (r: u32)
    ensures
        r == frames_in(output_frames, latency_of(*pipeline)),
{
    let latency = pipeline.latency();
    if output_frames <= u32::MAX - latency {
        output_frames + latency
    } else {
        u32::MAX
    }
}

/// The frames that come out when some go in.
pub fn calc_output_frames(pipeline: &Pipeline, input_frames: u32) -> (r: u32)
    ensures
        r == frames_out(input_frames, latency_of(*pipeline)),
{
    let latency = pipeline.latency();
    if input_frames >= latency {
        input_frames - latency
    } else {
        0
    }
}

/// The line that is logged of a failure during processing.
pub fn panic_line(message: Option<&str>) -> (r: String)
    ensures
        r@ == "PANIC: "@ + (match message {
            Some(m) => m@,
            None => "unknown panic in APOProcess"@,
        }) + "\n"@,
{
    match message {
        Some(m) => crate::text::concat3("PANIC: ", m, "\n"),
        None => crate::text::concat3("PANIC: ", "unknown panic in APOProcess", "\n"),
    }
}

/// What processing a buffer comes to: the flags that processing gave, or
/// silence when it failed.
pub fn output_flags(processed: Option<u32>) -> (r: u32)
    ensures
        r == (match processed {
            Some(flags) => flags,
            None => BUFFER_SILENT,
        }),
{
    match processed {
        Some(flags) => flags,
        None => BUFFER_SILENT,
    }
}

/// As many frames come out as the input was calculated for, unless they could
/// not be counted.
pub proof fn law_frames_round_trip(frames: u32, latency: u32)
    requires
        frames + latency <= u32::MAX,
    ensures
        frames_out(frames_in(frames, latency), latency) == frames,
{
}

/// More frames out need no fewer frames in, and the other way round.
pub proof fn law_frames_monotonic(a: u32, b: u32, latency: u32)
    requires
        a <= b,
    ensures
        frames_in(a, latency) <= frames_in(b, latency),
        frames_out(a, latency) <= frames_out(b, latency),
        frames_out(a, latency) <= a <= frames_in(a, latency),
{
}

} // verus!
