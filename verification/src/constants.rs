//! The numbers that both ends of a link agree on.

use vstd::prelude::*;

verus! {

/// Samples per second on the wire.
pub const SAMPLE_RATE: u32 = 48_000;

/// Samples in one frame: 20 ms at 48 kHz.
pub const FRAME_SAMPLES: usize = 960;

/// Length of a frame in milliseconds.
pub const FRAME_MS: u32 = 20;

/// Channels that one link can carry.
pub const MAX_CHANNELS: usize = 64;

/// The UDP port of an endpoint.
pub const PORT: u16 = 20102;

/// Payload class of handshake, keepalive and round-trip packets.
pub const SSRC_CONTROL: u32 = 0x0000_0200;

/// Payload class of channel metadata.
pub const SSRC_METADATA: u32 = 0x0000_0000;

/// Payload class of audio.
pub const SSRC_MEDIA: u32 = 0x0001_0000;

/// The token of a link for which no names are known.
pub const DEFAULT_SHARED_TOKEN: [u8; 16] = [
    0xa5, 0xa5, 0xa5, 0xa5, 0xa5, 0xa5, 0xa5, 0xa5, 0xa5, 0xa5, 0xa5, 0xa5, 0xa5, 0xa5, 0xa5, 0xa5,
];

/// Samples that playback waits for before it starts: 120 ms.
pub const PRIME_SAMPLES: usize = 5_760;

/// Smallest receive buffer that can be asked for, in milliseconds.
pub const MIN_LATENCY_MS: u32 = 5;

/// Largest receive buffer that can be asked for, in milliseconds.
pub const MAX_LATENCY_MS: u32 = 10_000;

/// Smallest receive buffer in effect: two frames.
pub const MIN_EFFECTIVE_RX_BUFFER_MS: u32 = 40;

/// How long a group of packets waits for its missing channels, in milliseconds.
pub const PHASE_LOCK_TIMEOUT_MS: u64 = 10;

/// A timestamp further back than this can mean that the sender started anew.
pub const RTP_RESTART_ROLLBACK_SAMPLES: u32 = 48_000;

/// A timestamp no larger than this can come from a sender that has just started.
pub const RTP_RESTART_LOW_TS_SAMPLES: u32 = 96_000;

/// Seconds between two log lines with statistics.
pub const STATS_LOG_INTERVAL_SECS: u64 = 5;

/// Seconds between two looks at the network interfaces.
pub const INTERFACE_POLL_INTERVAL_SECS: u64 = 3;

/// Samples that a capture ring holds: 200 ms.
pub const CAP_RING_SIZE: usize = 9_600;

/// Samples that a playback ring holds at least: one second.
pub const PB_RING_SIZE: usize = 48_000;

/// Empty output callbacks in a row after which playback primes again.
pub const REPRIME_AFTER_EMPTY_CALLBACKS: u32 = 30;

/// Samples over which real audio and concealment are faded into one another.
pub const CROSSFADE_SAMPLES: usize = 64;

/// Source code of the left line-up tone.
pub const TX_SRC_EBU_L: usize = 100;

/// Source code of the right line-up tone.
pub const TX_SRC_EBU_R: usize = 101;

/// Source code of the first physical input.
pub const TX_SRC_INPUT_BASE: usize = 1000;

/// Milliseconds without any packet after which a connected link counts as stale.
pub const STALE_MS: u64 = 15_000;

/// Milliseconds between two probes.
pub const PROBE_INTERVAL_MS: u64 = 2_130;

/// Nanoseconds between two warnings that the receive buffer has run too full.
pub const WARNING_INTERVAL_NS: u64 = 10_000_000_000;

/// The numbers hang together: a frame is 20 ms at 48 kHz, playback begins with six frames, a capture ring
/// holds ten frames and a playback ring a second, a link is stale after more than seven probes went
/// without an answer, and the codes of the sources lie apart.
pub proof fn law_numbers_hang_together()
    ensures
        SAMPLE_RATE == 48_000,
        FRAME_SAMPLES * 1000 == SAMPLE_RATE * FRAME_MS,
        FRAME_MS == 20,
        PRIME_SAMPLES == 6 * FRAME_SAMPLES,
        CAP_RING_SIZE == 10 * FRAME_SAMPLES,
        PB_RING_SIZE == SAMPLE_RATE,
        7 * PROBE_INTERVAL_MS < STALE_MS < 8 * PROBE_INTERVAL_MS,
        PROBE_INTERVAL_MS == 2_130,
        STALE_MS == 15_000,
        MAX_CHANNELS == 64,
        PORT == 20102,
        MIN_LATENCY_MS == 5 && MAX_LATENCY_MS == 10_000,
        MIN_EFFECTIVE_RX_BUFFER_MS == 2 * FRAME_MS,
        PHASE_LOCK_TIMEOUT_MS * 2 == FRAME_MS,
        RTP_RESTART_ROLLBACK_SAMPLES == SAMPLE_RATE,
        RTP_RESTART_LOW_TS_SAMPLES == 2 * SAMPLE_RATE,
        TX_SRC_EBU_L == 100 && TX_SRC_EBU_R == 101 && TX_SRC_INPUT_BASE == 1000,
        REPRIME_AFTER_EMPTY_CALLBACKS == 30 && CROSSFADE_SAMPLES == 64,
        STATS_LOG_INTERVAL_SECS == 5 && INTERFACE_POLL_INTERVAL_SECS == 3,
        WARNING_INTERVAL_NS == 10_000_000_000,
        SSRC_CONTROL == 0x200 && SSRC_METADATA == 0 && SSRC_MEDIA == 0x1_0000,
{
}

/// The token of a link between devices without names.
pub proof fn law_usual_token(i: int)
    requires
        0 <= i < 16,
    ensures
        DEFAULT_SHARED_TOKEN@.len() == 16,
        DEFAULT_SHARED_TOKEN@[i] == 0xa5,
{
}

} // verus!
