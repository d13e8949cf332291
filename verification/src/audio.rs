//! Decisions about devices, encoders and playback.

use crate::constants::{
    CROSSFADE_SAMPLES, REPRIME_AFTER_EMPTY_CALLBACKS, SAMPLE_RATE,
};
use crate::state::{DeviceResponse, EncoderMode};
use crate::text::{optional_text, same_text};
use vstd::prelude::*;

verus! {

// ---------------------------------------------------------------------------------------------
// Encoder

/// How an encoder is set up.
#[derive(Clone, Copy, Debug, PartialEq, Eq)]
pub struct EncoderSettings {
    /// Whether it is tuned for speech rather than for music.
    pub voip: bool,
    pub bitrate: i32,
    /// Whether packets carry what is needed to make up for a lost one.
    pub inband_fec: bool,
}

/// How the encoder of a mode is set up: only speech has error correction.
pub fn encoder_settings(bitrate: u32, mode: EncoderMode) -> (r: EncoderSettings)
    ensures
        r == (EncoderSettings {
            voip: mode == EncoderMode::Speech,
            bitrate: bitrate as i32,
            inband_fec: mode == EncoderMode::Speech,
        }),
{
    let speech: bool = match mode {
        EncoderMode::Music => false,
        EncoderMode::Speech => true,
    };
    EncoderSettings { voip: speech, bitrate: bitrate as i32, inband_fec: speech }
}

// ---------------------------------------------------------------------------------------------
// Playback

/// Counts output callbacks that found every ring empty. After too many in a row playback stops, to
/// start again once the rings have filled.
pub fn handle_underrun(all_empty: bool, started: &mut bool, empty_counter: &mut u32)
    ensures
        !all_empty ==> *final(started) == *old(started) && *final(empty_counter) == 0,
        all_empty && *old(empty_counter) + 1 < REPRIME_AFTER_EMPTY_CALLBACKS ==> *final(started)
            == *old(started) && *final(empty_counter) == *old(empty_counter) + 1,
        all_empty && *old(empty_counter) + 1 >= REPRIME_AFTER_EMPTY_CALLBACKS ==> !*final(started)
            && *final(empty_counter) == 0,
        all_empty ==> (*final(empty_counter) == 0 <==> *old(empty_counter) >= 29),
        all_empty && *old(empty_counter) >= 29 ==> !*final(started),
{
    if all_empty {
        if *empty_counter >= REPRIME_AFTER_EMPTY_CALLBACKS - 1 {
            *started = false;
            *empty_counter = 0;
        } else {
            *empty_counter = *empty_counter + 1;
        }
    } else {
        *empty_counter = 0;
    }
}

/// Whether any flag is set.
pub open spec fn any_set(flags: Seq<bool>) -> bool {
    exists|i: int| 0 <= i < flags.len() && #[trigger] flags[i]
}

fn some_set(flags: &[bool]) -> (r: bool)
    ensures
        r == any_set(flags@),
{
    for i in 0..flags.len()
        invariant
            forall|j: int| 0 <= j < i ==> !#[trigger] flags@[j],
    {
        if flags[i] {
            assert(flags@[i as int]);
            return true;
        }
    }
    false
}

/// Whether the output plays: some session has its link, and some session has filled its rings.
pub fn is_playing(connected: &[bool], started: &[bool]) -> (r: bool)
    ensures
        r == (any_set(connected@) && any_set(started@)),
{
    some_set(connected) && some_set(started)
}

/// How many samples of every ring an output callback of `frames` frames throws away where
/// `remaining` are still to be thrown away, and how many are then left.
pub fn flush_step(remaining: usize, frames: usize) -> (r: (usize, usize))
    ensures
        r.0 == if remaining < frames {
            remaining
        } else {
            frames
        },
        r.0 + r.1 == remaining,
{
    if remaining < frames {
        (remaining, 0)
    } else {
        (frames, remaining - frames)
    }
}

/// How a frame is faded at its start.
#[derive(Clone, Copy, Debug, PartialEq, Eq, Structural)]
pub enum Fade {
    /// Not at all.
    Plain,
    /// From the end of the last real frame into the one that the decoder made up.
    FromTail,
    /// From silence into the real frame.
    FromSilence,
}

/// How a frame is faded, where `tail_len` samples are kept of the last real frame.
pub fn fade_for(is_real: bool, was_plc: bool, tail_len: usize) -> (r: Fade)
    ensures
        r == if !is_real && !was_plc && tail_len == CROSSFADE_SAMPLES {
            Fade::FromTail
        } else if is_real && was_plc {
            Fade::FromSilence
        } else {
            Fade::Plain
        },
        r == Fade::FromTail <==> !is_real && !was_plc && tail_len == 64,
{
    if !is_real && !was_plc && tail_len == CROSSFADE_SAMPLES {
        Fade::FromTail
    } else if is_real && was_plc {
        Fade::FromSilence
    } else {
        Fade::Plain
    }
}

/// Where the part of a frame begins that is kept for fading.
pub fn tail_start(frame_len: usize) -> (r: usize)
    ensures
        r == if frame_len >= CROSSFADE_SAMPLES {
            frame_len - CROSSFADE_SAMPLES
        } else {
            0
        },
        frame_len >= 64 ==> r + 64 == frame_len,
        frame_len < 64 ==> r == 0,
{
    frame_len.saturating_sub(CROSSFADE_SAMPLES)
}

// ---------------------------------------------------------------------------------------------
// Devices

/// A range of configurations that a device supports.
#[derive(Clone, Copy, Debug, PartialEq, Eq)]
pub struct ConfigRange {
    pub channels: u16,
    pub min_rate: u32,
    pub max_rate: u32,
}

/// The configuration that a device is opened with.
#[derive(Clone, Copy, Debug, PartialEq, Eq)]
pub struct StreamChoice {
    pub channels: u16,
    pub rate: u32,
}

/// Whether a device can run `channels` channels at the rate of the wire.
pub open spec fn supports_wire_rate(ranges: Seq<ConfigRange>, channels: u16) -> bool {
    exists|i: int|
        0 <= i < ranges.len() && (#[trigger] ranges[i]).channels >= channels && ranges[i].min_rate
            <= SAMPLE_RATE <= ranges[i].max_rate
}

fn runs_at_wire_rate(ranges: &[ConfigRange], channels: u16) -> (r: bool)
    ensures
        r == supports_wire_rate(ranges@, channels),
{
    for i in 0..ranges.len()
        invariant
            forall|j: int|
                0 <= j < i ==> !((#[trigger] ranges@[j]).channels >= channels && ranges@[j].min_rate
                    <= SAMPLE_RATE <= ranges@[j].max_rate),
    {
        if ranges[i].channels >= channels && ranges[i].min_rate <= SAMPLE_RATE && ranges[i].max_rate
            >= SAMPLE_RATE {
            assert(ranges@[i as int].channels >= channels);
            return true;
        }
    }
    false
}

/// The configuration of an output: the channels that are asked for, at the rate of the wire where
/// the device can, else at its own. `native` is its own configuration as rate and channels, and
/// `ranges` what it supports, as far as the system tells.
pub fn best_output_config(
    native: Option<(u32, u16)>,
    ranges: &[ConfigRange],
    preferred_channels: u16,
) -> (r: StreamChoice)
    ensures
        r.channels == preferred_channels,
        r.rate == if supports_wire_rate(ranges@, preferred_channels) {
            SAMPLE_RATE
        } else {
            told_rate(native)
        },
{
    let rate: u32 = if runs_at_wire_rate(ranges, preferred_channels) {
        SAMPLE_RATE
    } else {
        match native {
            Some((rate, _)) => rate,
            None => SAMPLE_RATE,
        }
    };
    StreamChoice { channels: preferred_channels, rate }
}

/// The number of channels that an input is opened with: those that are asked for, but no more than
/// the device has, and at least one.
pub open spec fn input_channels(native: Option<(u32, u16)>, preferred: u16) -> u16 {
    let most = match native {
        Some((_, channels)) => if preferred < channels {
            preferred
        } else {
            channels
        },
        None => preferred,
    };
    if most < 1 {
        1
    } else {
        most
    }
}

/// The configuration of an input: at the rate of the wire where the device can, else at its own.
pub fn best_input_config(
    native: Option<(u32, u16)>,
    ranges: &[ConfigRange],
    preferred_channels: usize,
) -> (r: StreamChoice)
    ensures
        r.channels == input_channels(native, preferred_channels as u16),
        r.rate == if supports_wire_rate(ranges@, r.channels) {
            SAMPLE_RATE
        } else {
            told_rate(native)
        },
{
    let preferred: u16 = preferred_channels as u16;
    let mut channels: u16 = preferred;
    if let Some((_, most)) = native {
        if most < channels {
            channels = most;
        }
    }
    if channels < 1 {
        channels = 1;
    }
    best_output_config(native, ranges, channels)
}

/// What the system tells of its devices.
#[derive(Debug)]
pub struct DeviceScan {
    pub default_input: Option<String>,
    pub default_output: Option<String>,
    /// Rate and channels of the default input.
    pub input_config: Option<(u32, u16)>,
    /// Rate and channels of the default output.
    pub output_config: Option<(u32, u16)>,
    pub inputs: Vec<String>,
    pub outputs: Vec<String>,
}

/// The name of a device, or the word for none.
pub open spec fn name_or_none(name: Option<String>) -> Seq<char> {
    match name {
        Some(n) => n@,
        None => "none"@,
    }
}

/// The channels of a configuration that the system tells; none otherwise.
pub open spec fn told_channels(config: Option<(u32, u16)>) -> usize {
    match config {
        Some((_, channels)) => channels as usize,
        None => 0,
    }
}

/// The rate of a configuration that the system tells; that of the wire otherwise.
pub open spec fn told_rate(config: Option<(u32, u16)>) -> u32 {
    match config {
        Some((rate, _)) => rate,
        None => SAMPLE_RATE,
    }
}

fn name_of(name: Option<String>) -> (r: String)
    ensures
        r@ == name_or_none(name),
{
    match name {
        Some(n) => n,
        None => "none".to_string(),
    }
}

fn channels_of(config: Option<(u32, u16)>) -> (r: usize)
    ensures
        r == told_channels(config),
{
    match config {
        Some((_, channels)) => channels as usize,
        None => 0,
    }
}

fn rate_of(config: Option<(u32, u16)>) -> (r: u32)
    ensures
        r == told_rate(config),
{
    match config {
        Some((rate, _)) => rate,
        None => SAMPLE_RATE,
    }
}

/// The devices of the machine, from what the system tells.
pub fn scan_audio_devices_once(scan: DeviceScan) -> (r: DeviceResponse)
    ensures
        r.sample_rate == SAMPLE_RATE,
        r.sample_rate == 48_000,
        r.default_input@ == name_or_none(scan.default_input),
        r.default_output@ == name_or_none(scan.default_output),
        r.default_input_channels == told_channels(scan.input_config),
        r.default_output_channels == told_channels(scan.output_config),
        r.default_input_sample_rate == told_rate(scan.input_config),
        r.default_output_sample_rate == told_rate(scan.output_config),
        r.inputs == scan.inputs,
        r.outputs == scan.outputs,
{
    DeviceResponse {
        sample_rate: SAMPLE_RATE,
        default_input: name_of(scan.default_input),
        default_output: name_of(scan.default_output),
        default_input_channels: channels_of(scan.input_config),
        default_output_channels: channels_of(scan.output_config),
        default_input_sample_rate: rate_of(scan.input_config),
        default_output_sample_rate: rate_of(scan.output_config),
        inputs: scan.inputs,
        outputs: scan.outputs,
    }
}

/// Whether some device has this name.
pub open spec fn names_one(names: Seq<Option<String>>, name: Seq<char>) -> bool {
    exists|i: int| 0 <= i < names.len() && optional_text(#[trigger] names[i]) == Some(name)
}

/// The first device with the name that is asked for, where `names` has the name of each device as
/// far as it is known. `None` means the default device: where no name is asked for, or none has it.
pub fn find_device(preferred: &Option<String>, names: &[Option<String>]) -> (r: Option<usize>)
    ensures
        match r {
            Some(i) => {
                &&& i < names@.len()
                &&& preferred is Some
                &&& preferred->0@.len() > 0
                &&& optional_text(names@[i as int]) == Some(preferred->0@)
                &&& !names_one(names@.take(i as int), preferred->0@)
            },
            None => preferred is None || preferred->0@.len() == 0 || !names_one(
                names@,
                preferred->0@,
            ),
        },
{
    let wanted = match preferred {
        Some(name) => name,
        None => {
            return None;
        },
    };
    if wanted.as_str().is_empty() {
        return None;
    }
    for i in 0..names.len()
        invariant
            *preferred == Some(*wanted),
            wanted@.len() > 0,
            forall|j: int| 0 <= j < i ==> optional_text(#[trigger] names@[j]) != Some(wanted@),
    {
        if let Some(name) = &names[i] {
            if same_text(name.as_str(), wanted.as_str()) {
                return Some(i);
            }
        }
    }
    None
}

/// The device whose rate is set: the one that is asked for, or the default.
pub fn device_to_force(preferred: &Option<String>, default_name: Option<String>) -> (r: Option<String>)
    ensures
        optional_text(r) == if preferred is Some && preferred->0@.len() > 0 {
            Some(preferred->0@)
        } else {
            optional_text(default_name)
        },
{
    if let Some(name) = preferred {
        if !name.as_str().is_empty() {
            return Some(name.clone());
        }
    }
    default_name
}

// ---------------------------------------------------------------------------------------------
// Resampling

/// The samples that a resampler between two rates takes at a time: those of one frame at the first
/// rate. `None` where the rates are the same and nothing is resampled.
pub fn io_resampler_chunk(from_rate: u32, to_rate: u32) -> (r: Option<usize>)
    ensures
        match r {
            Some(chunk) => from_rate != to_rate && chunk == from_rate * 20 / 1000,
            None => from_rate == to_rate,
        },
{
    if from_rate == to_rate {
        None
    } else {
        Some(((from_rate as u64 * 20) / 1000) as usize)
    }
}

// ---------------------------------------------------------------------------------------------
// Laws

/// A device runs at 48 kHz where one of its ranges holds that rate and has the channels that are
/// wanted, or more.
pub proof fn law_runs_at_the_rate_of_the_wire(ranges: Seq<ConfigRange>, channels: u16, i: int)
    ensures
        0 <= i < ranges.len() && ranges[i].min_rate <= 48_000 <= ranges[i].max_rate
            && ranges[i].channels >= channels ==> supports_wire_rate(ranges, channels),
        (forall|j: int|
            0 <= j < ranges.len() ==> (#[trigger] ranges[j]).min_rate > 48_000 || ranges[j].max_rate
                < 48_000 || ranges[j].channels < channels) ==> !supports_wire_rate(ranges, channels),
{
    if supports_wire_rate(ranges, channels) {
        let j = choose|j: int|
            0 <= j < ranges.len() && (#[trigger] ranges[j]).channels >= channels && ranges[j].min_rate
                <= SAMPLE_RATE <= ranges[j].max_rate;
        assert(ranges[j].channels >= channels);
    }
}

/// An input is opened with the channels that are wanted, but with no more than the device has, and
/// with one at least.
pub proof fn law_channels_of_an_input(rate: u32, channels: u16, preferred: u16)
    ensures
        1 <= preferred <= channels ==> input_channels(Some((rate, channels)), preferred) == preferred,
        1 <= channels <= preferred ==> input_channels(Some((rate, channels)), preferred) == channels,
        channels == 0 || preferred == 0 ==> input_channels(Some((rate, channels)), preferred) == 1,
        preferred >= 1 ==> input_channels(None, preferred) == preferred,
        input_channels(None, 0) == 1,
{
}

/// What a device does not tell: it has no channels, runs at 48 kHz and has no name.
pub proof fn law_what_is_not_told(rate: u32, channels: u16, name: String)
    ensures
        told_rate(None) == 48_000,
        told_rate(Some((rate, channels))) == rate,
        told_channels(None) == 0,
        told_channels(Some((rate, channels))) == channels,
        name_or_none(None) == "none"@,
        name_or_none(Some(name)) == name@,
{
}

/// One is set among some where at least one is.
pub proof fn law_any_is_set(flags: Seq<bool>, b: bool)
    ensures
        !any_set(Seq::empty()),
        any_set(flags.push(b)) <==> any_set(flags) || b,
{
    if any_set(flags) {
        let i = choose|i: int| 0 <= i < flags.len() && #[trigger] flags[i];
        assert(flags.push(b)[i]);
    }
    if b {
        assert(flags.push(b)[flags.len() as int]);
    }
    if any_set(flags.push(b)) && !b {
        let i = choose|i: int| 0 <= i < flags.len() + 1 && #[trigger] flags.push(b)[i];
        assert(flags[i]);
    }
}

} // verus!
