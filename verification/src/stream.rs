//! The receive side of one link: loss counting, restart detection, and what becomes of each audio
//! packet.

use crate::constants::{
    MAX_CHANNELS, RTP_RESTART_LOW_TS_SAMPLES, RTP_RESTART_ROLLBACK_SAMPLES,
};
use crate::jitter::{
    at_or_before, drain_phase_locked_groups, drained, drained_views, elapsed, group_views,
    groups_wf, insert_packet, rtp_seq_looks_reset, rtp_timestamp_at_or_before, steps_back,
    timestamp_elapsed_samples, with_packet, FrameGroup, GroupView,
};
use crate::packet::{MediaPacket, MediaView};
use std::collections::BTreeMap;
use vstd::prelude::*;

verus! {

/// The receive side of one link.
pub struct StreamState {
    /// The groups that wait, by timestamp.
    pub groups: BTreeMap<u32, FrameGroup>,
    /// The latest timestamp so far.
    pub newest_ts: Option<u32>,
    /// The timestamp of the last group that was played.
    pub last_drained_ts: Option<u32>,
    /// The count of the last packet of each channel.
    pub last_seq: Vec<Option<u16>>,
    /// The timestamp last decoded where channels are decoded on their own.
    pub last_unlocked_ts: Option<u32>,
    pub media_total: u64,
    pub rx_bytes_total: u64,
    pub lost_total: u64,
    pub plc_total: u64,
    pub decoded_total: u64,
}

/// The receive side of one link.
#[verifier::ext_equal]
pub struct StreamView {
    pub groups: Map<u32, GroupView>,
    pub newest_ts: Option<u32>,
    pub last_drained_ts: Option<u32>,
    pub last_seq: Seq<Option<u16>>,
    pub last_unlocked_ts: Option<u32>,
    pub media_total: u64,
    pub rx_bytes_total: u64,
    pub lost_total: u64,
    pub plc_total: u64,
    pub decoded_total: u64,
}

impl View for StreamState {
    type V = StreamView;

    open spec fn view(&self) -> StreamView {
        StreamView {
            groups: group_views(self.groups@),
            newest_ts: self.newest_ts,
            last_drained_ts: self.last_drained_ts,
            last_seq: self.last_seq@,
            last_unlocked_ts: self.last_unlocked_ts,
            media_total: self.media_total,
            rx_bytes_total: self.rx_bytes_total,
            lost_total: self.lost_total,
            plc_total: self.plc_total,
            decoded_total: self.decoded_total,
        }
    }
}

/// What becomes of an audio packet.
#[derive(Clone, Copy, Debug, PartialEq, Eq, Structural)]
pub enum Placed {
    /// It is not played.
    Dropped,
    /// It waits in its group.
    Grouped,
    /// It is to be decoded at once.
    DecodeNow,
}

/// What an audio packet does.
#[derive(Clone, Copy, Debug, PartialEq, Eq, Structural)]
pub struct MediaOutcome {
    /// Whether the sender has started anew, and the receive side with it.
    pub restarted: bool,
    pub placed: Placed,
}

/// How many packets are missing before a packet with count `seq`; a gap too large to be one counts
/// for nothing.
pub open spec fn missing_before(prev: Option<u16>, seq: u16) -> u64 {
    match prev {
        Some(p) => {
            let gap = seq.wrapping_sub(p.wrapping_add(1));
            if gap < 10_000 {
                gap as u64
            } else {
                0
            }
        },
        None => 0,
    }
}

impl StreamView {
    /// A receive side that has heard nothing.
    pub open spec fn fresh() -> StreamView {
        StreamView {
            groups: Map::empty(),
            newest_ts: None,
            last_drained_ts: None,
            last_seq: Seq::new(MAX_CHANNELS as nat, |i: int| None),
            last_unlocked_ts: None,
            media_total: 0,
            rx_bytes_total: 0,
            lost_total: 0,
            plc_total: 0,
            decoded_total: 0,
        }
    }

    /// A place for every channel.
    pub open spec fn wf(self) -> bool {
        &&& self.last_seq.len() == MAX_CHANNELS
        &&& groups_wf(self.groups)
    }

    /// Whether a packet comes from a sender that has started anew: it lies more than a second behind
    /// what was played, and its count steps back or its timestamp is that of a young sender.
    pub open spec fn looks_restarted(self, p: MediaView) -> bool {
        self.last_drained_ts matches Some(played) && at_or_before(p.timestamp, played) && elapsed(
            played,
            p.timestamp,
        ) > RTP_RESTART_ROLLBACK_SAMPLES && ((self.last_seq[p.channel as int] matches Some(prev)
            && steps_back(prev, p.seq)) || p.timestamp <= RTP_RESTART_LOW_TS_SAMPLES)
    }

    /// Whether a packet comes too late: its moment was played.
    pub open spec fn is_late(self, p: MediaView) -> bool {
        self.last_drained_ts matches Some(played) && at_or_before(p.timestamp, played)
    }

    /// The receive side after a packet was counted.
    pub open spec fn counted(self, len: u64) -> StreamView {
        StreamView {
            media_total: self.media_total.wrapping_add(1),
            rx_bytes_total: self.rx_bytes_total.wrapping_add(len),
            ..self
        }
    }

    /// The receive side after a packet of a channel was seen.
    pub open spec fn seen(self, p: MediaView) -> StreamView {
        StreamView {
            lost_total: self.lost_total.wrapping_add(
                missing_before(self.last_seq[p.channel as int], p.seq),
            ),
            last_seq: self.last_seq.update(p.channel as int, Some(p.seq)),
            newest_ts: match self.newest_ts {
                Some(prev) => if elapsed(p.timestamp, prev) < 0x8000_0000 {
                    Some(p.timestamp)
                } else {
                    Some(prev)
                },
                None => Some(p.timestamp),
            },
            ..self
        }
    }
}

/// The number of channels in play: at least one, at most as many as a link carries.
pub open spec fn active_channels(remote_channels: int) -> int {
    if remote_channels < 1 {
        1
    } else if remote_channels > MAX_CHANNELS {
        MAX_CHANNELS as int
    } else {
        remote_channels
    }
}

/// The number of channels in play.
pub fn active_count(remote_channels: usize) -> (r: usize)
    ensures
        r == active_channels(remote_channels as int),
{
    if remote_channels < 1 {
        1
    } else if remote_channels > MAX_CHANNELS {
        MAX_CHANNELS
    } else {
        remote_channels
    }
}

/// What an audio packet of `len` bytes does to the receive side.
pub open spec fn media_step(
    s: StreamView,
    p: MediaView,
    len: u64,
    phase_lock: bool,
    remote_channels: int,
    now: u64,
) -> (StreamView, MediaOutcome) {
    let counted = s.counted(len);
    if p.channel >= MAX_CHANNELS {
        (counted, MediaOutcome { restarted: false, placed: Placed::Dropped })
    } else {
        let restarted = phase_lock && counted.looks_restarted(p);
        let base = if restarted {
            StreamView::fresh()
        } else {
            counted
        };
        let seen = base.seen(p);
        if !phase_lock {
            (
                StreamView {
                    decoded_total: if seen.last_unlocked_ts == Some(p.timestamp) {
                        seen.decoded_total
                    } else {
                        seen.decoded_total.wrapping_add(1)
                    },
                    last_unlocked_ts: Some(p.timestamp),
                    ..seen
                },
                MediaOutcome { restarted, placed: Placed::DecodeNow },
            )
        } else if seen.is_late(p) {
            (seen, MediaOutcome { restarted, placed: Placed::Dropped })
        } else {
            (
                StreamView {
                    groups: with_packet(
                        seen.groups,
                        p.timestamp,
                        active_channels(remote_channels),
                        p.channel as int,
                        p.opus,
                        now,
                    ),
                    ..seen
                },
                MediaOutcome { restarted, placed: Placed::Grouped },
            )
        }
    }
}

/// The receive side after groups have left.
pub open spec fn after_drain(
    s: StreamView,
    out: Seq<(u32, GroupView)>,
    groups: Map<u32, GroupView>,
) -> StreamView {
    StreamView {
        groups,
        decoded_total: s.decoded_total.wrapping_add(out.len() as u64),
        last_drained_ts: if out.len() > 0 {
            Some(out.last().0)
        } else {
            s.last_drained_ts
        },
        ..s
    }
}

fn no_counts() -> (r: Vec<Option<u16>>)
    ensures
        r@ == Seq::new(MAX_CHANNELS as nat, |i: int| None::<u16>),
{
    let mut out: Vec<Option<u16>> = Vec::new();
    for i in 0..MAX_CHANNELS
        invariant
            out@.len() == i,
            forall|j: int| 0 <= j < i ==> out@[j] == None::<u16>,
    {
        out.push(None);
    }
    out
}

impl StreamState {
    /// A receive side that has heard nothing.
    pub fn new() -> (r: Self)
        ensures
            r@ == StreamView::fresh(),
            r@.wf(),
    {
        let groups: BTreeMap<u32, FrameGroup> = BTreeMap::new();
        assert(group_views(groups@) =~= Map::<u32, GroupView>::empty());
        let r = StreamState {
            groups,
            newest_ts: None,
            last_drained_ts: None,
            last_seq: no_counts(),
            last_unlocked_ts: None,
            media_total: 0,
            rx_bytes_total: 0,
            lost_total: 0,
            plc_total: 0,
            decoded_total: 0,
        };
        assert(r@ =~= StreamView::fresh());
        r
    }

    /// Starts the receive side anew.
    pub fn reset(&mut self)
        ensures
            final(self)@ == StreamView::fresh(),
            final(self)@.wf(),
    {
        *self = StreamState::new();
    }

    fn is_restart(&self, p: &MediaPacket) -> (r: bool)
        requires
            self@.wf(),
            p.channel < MAX_CHANNELS,
        ensures
            r == self@.looks_restarted(p@),
    {
        match self.last_drained_ts {
            Some(played) => {
                let behind: bool = rtp_timestamp_at_or_before(p.timestamp, played);
                let rollback: u32 = timestamp_elapsed_samples(played, p.timestamp);
                let stepped: bool = match self.last_seq[p.channel as usize] {
                    Some(prev) => rtp_seq_looks_reset(prev, p.seq),
                    None => false,
                };
                behind && rollback > RTP_RESTART_ROLLBACK_SAMPLES && (stepped || p.timestamp
                    <= RTP_RESTART_LOW_TS_SAMPLES)
            },
            None => false,
        }
    }

    fn see(&mut self, p: &MediaPacket)
        requires
            old(self)@.wf(),
            p.channel < MAX_CHANNELS,
        ensures
            final(self)@ == old(self)@.seen(p@),
            final(self)@.wf(),
            final(self).groups == old(self).groups,
    {
        let ch: usize = p.channel as usize;
        if let Some(prev) = self.last_seq[ch] {
            let gap: u16 = p.seq.wrapping_sub(prev.wrapping_add(1));
            if gap < 10_000 {
                self.lost_total = self.lost_total.wrapping_add(gap as u64);
            }
        }
        self.last_seq.set(ch, Some(p.seq));
        match self.newest_ts {
            Some(prev) => {
                if timestamp_elapsed_samples(p.timestamp, prev) < 0x8000_0000 {
                    self.newest_ts = Some(p.timestamp);
                }
            },
            None => {
                self.newest_ts = Some(p.timestamp);
            },
        }
    }

    /// Takes in an audio packet of `len` bytes.
    pub fn on_media(
        &mut self,
        p: &MediaPacket,
        len: u64,
        phase_lock: bool,
        remote_channels: usize,
        now: u64,
    ) -> (r: MediaOutcome)
        requires
            old(self)@.wf(),
        ensures
            (final(self)@, r) == media_step(
                old(self)@,
                p@,
                len,
                phase_lock,
                remote_channels as int,
                now,
            ),
            final(self)@.wf(),
    {
        self.media_total = self.media_total.wrapping_add(1);
        self.rx_bytes_total = self.rx_bytes_total.wrapping_add(len);
        if p.channel as usize >= MAX_CHANNELS {
            return MediaOutcome { restarted: false, placed: Placed::Dropped };
        }
        let restarted: bool = phase_lock && self.is_restart(p);
        if restarted {
            self.reset();
        }
        self.see(p);
        if !phase_lock {
            if self.last_unlocked_ts != Some(p.timestamp) {
                self.decoded_total = self.decoded_total.wrapping_add(1);
            }
            self.last_unlocked_ts = Some(p.timestamp);
            return MediaOutcome { restarted, placed: Placed::DecodeNow };
        }
        if let Some(played) = self.last_drained_ts {
            if rtp_timestamp_at_or_before(p.timestamp, played) {
                return MediaOutcome { restarted, placed: Placed::Dropped };
            }
        }
        insert_packet(
            &mut self.groups,
            p.timestamp,
            active_count(remote_channels),
            p.channel as usize,
            p.opus_payload,
            now,
        );
        MediaOutcome { restarted, placed: Placed::Grouped }
    }

    /// Takes out the groups that are to be played, oldest first.
    pub fn drain(&mut self, remote_channels: usize, now: u64) -> (r: Vec<(u32, FrameGroup)>)
        requires
            old(self)@.wf(),
        ensures
            drained(old(self)@.groups, now, drained_views(r@), final(self)@.groups),
            final(self)@ == after_drain(old(self)@, drained_views(r@), final(self)@.groups),
            final(self)@.wf(),
    {
        let out = drain_phase_locked_groups(&mut self.groups, active_count(remote_channels), now);
        self.decoded_total = self.decoded_total.wrapping_add(out.len() as u64);
        if out.len() > 0 {
            self.last_drained_ts = Some(out[out.len() - 1].0);
            assert(drained_views(out@).last().0 == out@[out@.len() - 1].0);
        }
        out
    }

    /// Counts channels for which the decoder had to make up a frame.
    pub fn count_concealed(&mut self, channels: u64)
        ensures
            final(self)@ == (StreamView {
                plc_total: old(self)@.plc_total.wrapping_add(channels),
                ..old(self)@
            }),
    {
        self.plc_total = self.plc_total.wrapping_add(channels);
    }
}

// ---------------------------------------------------------------------------------------------
// Laws

/// A moment is not played twice: a packet that belongs to a moment that was played waits in no
/// group, unless its sender has started anew.
pub proof fn law_played_is_played(
    s: StreamView,
    p: MediaView,
    len: u64,
    remote_channels: int,
    now: u64,
)
    requires
        s.is_late(p),
    ensures
        ({
            let (after, outcome) = media_step(s, p, len, true, remote_channels, now);
            !outcome.restarted ==> outcome.placed == Placed::Dropped && after.groups == s.groups
        }),
{
}

/// A packet less than a second behind what was played never makes the receive side start anew.
pub proof fn law_late_is_no_restart(
    s: StreamView,
    p: MediaView,
    len: u64,
    phase_lock: bool,
    remote_channels: int,
    now: u64,
    played: u32,
)
    requires
        s.last_drained_ts == Some(played),
        elapsed(played, p.timestamp) <= RTP_RESTART_ROLLBACK_SAMPLES,
    ensures
        !media_step(s, p, len, phase_lock, remote_channels, now).1.restarted,
{
}

/// After a restart the receive side is as it would be had this packet been the first.
pub proof fn law_restart_forgets(
    s: StreamView,
    p: MediaView,
    len: u64,
    remote_channels: int,
    now: u64,
)
    requires
        s.wf(),
        media_step(s, p, len, true, remote_channels, now).1.restarted,
    ensures
        ({
            let (after, outcome) = media_step(s, p, len, true, remote_channels, now);
            let (first, _) = media_step(StreamView::fresh(), p, len, true, remote_channels, now);
            &&& outcome.placed == Placed::Grouped
            &&& after == (StreamView { media_total: 0, rx_bytes_total: 0, ..first })
        }),
{
}

/// Packets that come in order count as nothing lost, and after a gap of `n` packets `n` are counted.
pub proof fn law_loss_is_the_gap(prev: u16, n: u16)
    requires
        n < 10_000,
    ensures
        missing_before(Some(prev), prev.wrapping_add(1)) == 0,
        missing_before(Some(prev), prev.wrapping_add(1).wrapping_add(n)) == n,
{
}

/// A packet that is accepted is there: the group of its timestamp holds it under its channel.
pub proof fn law_grouped_is_held(
    s: StreamView,
    p: MediaView,
    len: u64,
    remote_channels: int,
    now: u64,
)
    requires
        s.wf(),
        media_step(s, p, len, true, remote_channels, now).1.placed == Placed::Grouped,
    ensures
        ({
            let after = media_step(s, p, len, true, remote_channels, now).0;
            &&& after.groups.contains_key(p.timestamp)
            &&& after.groups[p.timestamp].packets[p.channel as int] == Some(p.opus)
        }),
{
}

/// What was played is not played again: after groups have left, a packet that belongs to one of
/// them waits in no group, unless its sender has started anew. The moments of the groups must lie
/// within half a turn of the clock.
pub proof fn law_drained_is_not_played_again(
    s: StreamView,
    drain_time: u64,
    out: Seq<(u32, GroupView)>,
    groups: Map<u32, GroupView>,
    i: int,
    p: MediaView,
    len: u64,
    remote_channels: int,
    now: u64,
)
    requires
        drained(s.groups, drain_time, out, groups),
        0 <= i < out.len(),
        p.timestamp == out[i].0,
        out.last().0 - out[i].0 < 0x8000_0000,
    ensures
        ({
            let after = after_drain(s, out, groups);
            let (next, outcome) = media_step(after, p, len, true, remote_channels, now);
            !outcome.restarted ==> outcome.placed == Placed::Dropped && next.groups == groups
        }),
{
    assert(out[i].0 <= out.last().0) by {
        if i < out.len() - 1 {
            assert(out[i].0 < out[out.len() - 1].0);
        }
    }
    law_played_is_played(after_drain(s, out, groups), p, len, remote_channels, now);
}

/// Every channel that a link carries is taken in, however many channels the other end has told of,
/// unless its moment was played.
pub proof fn law_every_channel_is_taken_in(
    s: StreamView,
    p: MediaView,
    len: u64,
    phase_lock: bool,
    remote_channels: int,
    now: u64,
)
    requires
        p.channel < MAX_CHANNELS,
        !s.is_late(p),
    ensures
        media_step(s, p, len, phase_lock, remote_channels, now).1.placed != Placed::Dropped,
{
}

/// A packet of one channel leaves the others alone: their counts, and what waits of them.
pub proof fn law_channels_are_independent(
    s: StreamView,
    p: MediaView,
    len: u64,
    phase_lock: bool,
    remote_channels: int,
    now: u64,
    ch: int,
    ts: u32,
)
    requires
        s.wf(),
        0 <= ch < MAX_CHANNELS,
        ch != p.channel,
        !media_step(s, p, len, phase_lock, remote_channels, now).1.restarted,
    ensures
        ({
            let after = media_step(s, p, len, phase_lock, remote_channels, now).0;
            &&& after.last_seq[ch] == s.last_seq[ch]
            &&& s.groups.contains_key(ts) ==> after.groups.contains_key(ts)
                && after.groups[ts].packets[ch] == s.groups[ts].packets[ch]
        }),
{
    if s.groups.contains_key(ts) {
        assert(s.groups[ts].wf());
    }
}

/// Between one channel and as many as a link carries are in play.
pub proof fn law_channels_in_play(n: int)
    ensures
        n < 1 ==> active_channels(n) == 1,
        1 <= n <= 64 ==> active_channels(n) == n,
        n > 64 ==> active_channels(n) == 64,
{
}

/// What becomes of a packet whose moment lies `behind` samples before the last one that was played,
/// where channels are put together: it is dropped, unless it lies more than a second behind and its
/// count has stepped back or its timestamp is within the first two seconds; then the receive side
/// starts anew and it is kept.
pub proof fn law_late_packets_are_dropped(
    s: StreamView,
    p: MediaView,
    len: u64,
    remote_channels: int,
    now: u64,
    behind: u32,
)
    requires
        s.wf(),
        p.channel < 64,
        behind < 0x8000_0000,
        s.last_drained_ts == Some(p.timestamp.wrapping_add(behind)),
    ensures
        ({
            let (after, outcome) = media_step(s, p, len, true, remote_channels, now);
            let back = match s.last_seq[p.channel as int] {
                Some(prev) => exists|d: u16|
                    1 <= d < 0x8000 && p.seq == #[trigger] prev.wrapping_sub(d),
                None => false,
            };
            let anew = behind > 48_000 && (back || p.timestamp <= 96_000);
            &&& outcome.restarted == anew
            &&& outcome.placed == if anew {
                Placed::Grouped
            } else {
                Placed::Dropped
            }
            &&& !anew ==> after.groups == s.groups && after.last_drained_ts == s.last_drained_ts
            &&& anew ==> after.last_drained_ts is None && forall|ts: u32| #[trigger]
                after.groups.contains_key(ts) <==> ts == p.timestamp
        }),
{
    if let Some(prev) = s.last_seq[p.channel as int] {
        let d = prev.wrapping_sub(p.seq);
        assert(prev.wrapping_sub(d) == p.seq);
        if exists|d: u16| 1 <= d < 0x8000 && p.seq == #[trigger] prev.wrapping_sub(d) {
            let e = choose|d: u16| 1 <= d < 0x8000 && p.seq == #[trigger] prev.wrapping_sub(d);
            assert(e == d);
        }
    }
}

/// What becomes of a packet of a moment that is yet to be played, or of the first: where channels are
/// put together it waits in its group, else it is decoded at once; nothing starts anew.
pub proof fn law_timely_packets_are_kept(
    s: StreamView,
    p: MediaView,
    len: u64,
    phase_lock: bool,
    remote_channels: int,
    now: u64,
)
    requires
        s.wf(),
        p.channel < 64,
        s.last_drained_ts matches Some(played) ==> exists|ahead: u32|
            1 <= ahead <= 0x8000_0000 && p.timestamp == #[trigger] played.wrapping_add(ahead),
    ensures
        ({
            let (after, outcome) = media_step(s, p, len, phase_lock, remote_channels, now);
            &&& !outcome.restarted
            &&& outcome.placed == if phase_lock {
                Placed::Grouped
            } else {
                Placed::DecodeNow
            }
            &&& after.last_drained_ts == s.last_drained_ts
            &&& phase_lock ==> after.groups.contains_key(p.timestamp)
                && after.groups[p.timestamp].packets[p.channel as int] == Some(p.opus)
            &&& !phase_lock ==> after.groups == s.groups
            &&& forall|ts: u32|
                ts != p.timestamp ==> (#[trigger] after.groups.contains_key(ts)
                    <==> s.groups.contains_key(ts)) && (s.groups.contains_key(ts)
                    ==> after.groups[ts] == s.groups[ts])
        }),
{
    if let Some(played) = s.last_drained_ts {
        let ahead = choose|ahead: u32|
            1 <= ahead <= 0x8000_0000 && p.timestamp == #[trigger] played.wrapping_add(ahead);
        assert(p.timestamp == played.wrapping_add(ahead));
    }
}

/// A packet of a channel that no link carries is counted and nothing else.
pub proof fn law_far_channels_are_dropped(
    s: StreamView,
    p: MediaView,
    len: u64,
    phase_lock: bool,
    remote_channels: int,
    now: u64,
)
    requires
        p.channel >= 64,
    ensures
        ({
            let (after, outcome) = media_step(s, p, len, phase_lock, remote_channels, now);
            &&& outcome == (MediaOutcome { restarted: false, placed: Placed::Dropped })
            &&& after == (StreamView {
                media_total: after.media_total,
                rx_bytes_total: after.rx_bytes_total,
                ..s
            })
        }),
{
}

/// What is counted of a packet: one packet, its bytes, and as many lost ones as are missing between
/// the last count of its channel and its own, where fewer than ten thousand are.
pub proof fn law_packets_are_counted(
    s: StreamView,
    p: MediaView,
    len: u64,
    phase_lock: bool,
    remote_channels: int,
    now: u64,
    gap: u16,
)
    requires
        s.wf(),
        p.channel < 64,
        s.last_seq[p.channel as int] matches Some(prev) ==> p.seq == prev.wrapping_add(
            1,
        ).wrapping_add(gap),
        !media_step(s, p, len, phase_lock, remote_channels, now).1.restarted,
        s.media_total < u64::MAX,
        s.rx_bytes_total + len <= u64::MAX,
        s.lost_total + gap <= u64::MAX,
    ensures
        ({
            let after = media_step(s, p, len, phase_lock, remote_channels, now).0;
            &&& after.media_total == s.media_total + 1
            &&& after.rx_bytes_total == s.rx_bytes_total + len
            &&& after.lost_total == s.lost_total + (if s.last_seq[p.channel as int] is Some && gap
                < 10_000 {
                gap as int
            } else {
                0
            })
            &&& after.last_seq.len() == 64
            &&& after.last_seq[p.channel as int] == Some(p.seq)
            &&& after.plc_total == s.plc_total
            &&& phase_lock || s.last_unlocked_ts == Some(p.timestamp) ==> after.decoded_total
                == s.decoded_total
            &&& !phase_lock && s.last_unlocked_ts != Some(p.timestamp) && s.decoded_total < u64::MAX
                ==> after.decoded_total == s.decoded_total + 1
        }),
{
}

/// The latest timestamp so far is kept: a later one takes its place, an earlier one does not.
pub proof fn law_latest_timestamp_is_kept(
    s: StreamView,
    p: MediaView,
    len: u64,
    phase_lock: bool,
    remote_channels: int,
    now: u64,
    ahead: u32,
)
    requires
        s.wf(),
        p.channel < 64,
        s.newest_ts matches Some(prev) ==> p.timestamp == prev.wrapping_add(ahead),
        !media_step(s, p, len, phase_lock, remote_channels, now).1.restarted,
    ensures
        media_step(s, p, len, phase_lock, remote_channels, now).0.newest_ts == if s.newest_ts is None
            || ahead < 0x8000_0000 {
            Some(p.timestamp)
        } else {
            s.newest_ts
        },
{
}

/// After groups have left, the moment that counts as played is that of the last of them, each counts
/// as one frame, and nothing else has changed.
pub proof fn law_drain_moves_on(
    s: StreamView,
    drain_time: u64,
    out: Seq<(u32, GroupView)>,
    groups: Map<u32, GroupView>,
)
    requires
        drained(s.groups, drain_time, out, groups),
        s.decoded_total + out.len() <= u64::MAX,
    ensures
        ({
            let after = after_drain(s, out, groups);
            &&& out.len() == 0 ==> after.last_drained_ts == s.last_drained_ts
            &&& out.len() > 0 ==> (after.last_drained_ts matches Some(played) && s.groups.contains_key(
                played,
            ) && forall|i: int| 0 <= i < out.len() ==> (#[trigger] out[i]).0 <= played)
            &&& after.decoded_total == s.decoded_total + out.len()
            &&& after.groups == groups
            &&& after == (StreamView {
                groups: after.groups,
                last_drained_ts: after.last_drained_ts,
                decoded_total: after.decoded_total,
                ..s
            })
        }),
{
    if out.len() > 0 {
        assert(out.last() == out[out.len() - 1]);
        assert forall|i: int| 0 <= i < out.len() implies (#[trigger] out[i]).0 <= out.last().0 by {
            if i < out.len() - 1 {
                assert(out[i].0 < out[out.len() - 1].0);
            }
        }
    }
}

/// A receive side that starts has heard nothing: no group waits, nothing was played and nothing is
/// counted.
pub proof fn law_fresh_stream_is_empty(ch: int, ts: u32)
    requires
        0 <= ch < 64,
    ensures
        ({
            let s = StreamView::fresh();
            &&& !s.groups.contains_key(ts)
            &&& s.last_seq.len() == 64 && s.last_seq[ch] is None
            &&& s.newest_ts is None && s.last_drained_ts is None && s.last_unlocked_ts is None
            &&& s.media_total == 0 && s.rx_bytes_total == 0 && s.lost_total == 0
            &&& s.plc_total == 0 && s.decoded_total == 0
        }),
{
}

} // verus!
