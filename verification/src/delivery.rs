//! From one end to the other: what is sent for a moment is what is played for it.

use crate::constants::{MAX_CHANNELS, PHASE_LOCK_TIMEOUT_MS};
use crate::jitter::{at_or_before, drained, GroupView};
use crate::packet::{law_media_roundtrip, media_bytes, media_of, MediaView};
use crate::routing::{law_nothing_without_routes, send_mask};
use crate::state::RouteView;
use crate::stream::{active_channels, media_step, StreamView};
use crate::transmit::{frame_packets, is_routed, is_sent};
use vstd::prelude::*;

verus! {

/// The receive side after packets have come, channels being put together.
pub open spec fn taken_in(
    s: StreamView,
    packets: Seq<Seq<u8>>,
    channels: int,
    now: u64,
) -> StreamView
    decreases packets.len(),
{
    if packets.len() == 0 {
        s
    } else {
        let before = taken_in(s, packets.drop_last(), channels, now);
        let last = packets.last();
        match media_of(last) {
            Some(p) => media_step(before, p, last.len() as u64, true, channels, now).0,
            None => before,
        }
    }
}

/// The channel of an audio packet.
pub open spec fn channel_of(packet: Seq<u8>) -> int {
    media_of(packet)->0.channel as int
}

/// Whether a packet belongs to the frame of a moment: it carries what the encoder of its channel
/// gave for that moment.
pub open spec fn is_of_frame(packet: Seq<u8>, encoded: Seq<Vec<u8>>, ts: u32) -> bool {
    media_of(packet) matches Some(m) && m.timestamp == ts && m.channel < encoded.len() && m.opus
        == encoded[m.channel as int]@
}

/// Whether a packet of a channel is among some packets.
pub open spec fn has_come(packets: Seq<Seq<u8>>, ch: int) -> bool {
    exists|i: int| 0 <= i < packets.len() && channel_of(#[trigger] packets[i]) == ch
}

proof fn lemma_frame_packets(
    wanted: Seq<usize>,
    masks: Seq<usize>,
    encoded: Seq<Vec<u8>>,
    seqs: Seq<u16>,
    ts: u32,
    n: int,
)
    requires
        0 <= n <= wanted.len(),
        seqs.len() == encoded.len(),
        encoded.len() <= MAX_CHANNELS,
    ensures
        frame_packets(wanted, masks, encoded, seqs, ts, n).1.len() == seqs.len(),
        forall|i: int|
            0 <= i < frame_packets(wanted, masks, encoded, seqs, ts, n).0.len() ==> is_of_frame(
                #[trigger] frame_packets(wanted, masks, encoded, seqs, ts, n).0[i],
                encoded,
                ts,
            ),
        forall|k: int|
            0 <= k < n && is_sent(masks, encoded, #[trigger] wanted[k]) ==> has_come(
                frame_packets(wanted, masks, encoded, seqs, ts, n).0,
                wanted[k] as int,
            ),
    decreases n,
{
    if n > 0 {
        lemma_frame_packets(wanted, masks, encoded, seqs, ts, n - 1);
        let (before, counts) = frame_packets(wanted, masks, encoded, seqs, ts, n - 1);
        let packets = frame_packets(wanted, masks, encoded, seqs, ts, n).0;
        let ch = wanted[n - 1];
        if is_sent(masks, encoded, ch) {
            let last = media_bytes(counts[ch as int], ts, ch as u8, encoded[ch as int]@);
            law_media_roundtrip(counts[ch as int], ts, ch as u8, encoded[ch as int]@);
            assert(packets == before.push(last));
            assert(channel_of(last) == ch);
            assert forall|i: int| 0 <= i < packets.len() implies is_of_frame(
                #[trigger] packets[i],
                encoded,
                ts,
            ) by {
                if i < before.len() {
                    assert(packets[i] == before[i]);
                }
            }
        }
        assert forall|k: int| 0 <= k < n && is_sent(masks, encoded, #[trigger] wanted[k]) implies has_come(
            packets,
            wanted[k] as int,
        ) by {
            if k < n - 1 {
                assert(has_come(before, wanted[k] as int));
                let i = choose|i: int|
                    0 <= i < before.len() && channel_of(#[trigger] before[i]) == wanted[k];
                assert(packets[i] == before[i]);
            } else {
                assert(channel_of(packets[before.len() as int]) == wanted[k]);
            }
        }
    }
}

/// Every packet of a frame carries the timestamp of the frame and what the encoder of its channel
/// gave, and every channel that a remote gets, to which a source is routed and that has something to
/// send has a packet.
pub proof fn law_frame_is_sent(
    wanted: Seq<usize>,
    masks: Seq<usize>,
    encoded: Seq<Vec<u8>>,
    seqs: Seq<u16>,
    ts: u32,
)
    requires
        seqs.len() == encoded.len(),
        encoded.len() <= MAX_CHANNELS,
    ensures
        ({
            let packets = frame_packets(wanted, masks, encoded, seqs, ts, wanted.len() as int).0;
            &&& forall|i: int|
                0 <= i < packets.len() ==> is_of_frame(#[trigger] packets[i], encoded, ts)
            &&& forall|k: int|
                0 <= k < wanted.len() && is_sent(masks, encoded, #[trigger] wanted[k]) ==> has_come(
                    packets,
                    wanted[k] as int,
                )
        }),
{
    lemma_frame_packets(wanted, masks, encoded, seqs, ts, wanted.len() as int);
}

proof fn lemma_unrouted(
    wanted: Seq<usize>,
    masks: Seq<usize>,
    encoded: Seq<Vec<u8>>,
    seqs: Seq<u16>,
    ts: u32,
    n: int,
    ch: int,
)
    requires
        0 <= n <= wanted.len(),
        seqs.len() == encoded.len(),
        encoded.len() <= MAX_CHANNELS,
        !is_routed(masks, ch),
    ensures
        ({
            let (packets, counts) = frame_packets(wanted, masks, encoded, seqs, ts, n);
            &&& counts.len() == seqs.len()
            &&& 0 <= ch < seqs.len() ==> counts[ch] == seqs[ch]
            &&& !has_come(packets, ch)
        }),
    decreases n,
{
    if n > 0 {
        lemma_unrouted(wanted, masks, encoded, seqs, ts, n - 1, ch);
        let (before, counts) = frame_packets(wanted, masks, encoded, seqs, ts, n - 1);
        let packets = frame_packets(wanted, masks, encoded, seqs, ts, n).0;
        let sent = wanted[n - 1];
        if is_sent(masks, encoded, sent) {
            law_media_roundtrip(counts[sent as int], ts, sent as u8, encoded[sent as int]@);
        }
        if has_come(packets, ch) {
            let i = choose|i: int| 0 <= i < packets.len() && channel_of(#[trigger] packets[i]) == ch;
            if i < before.len() {
                assert(packets[i] == before[i]);
                assert(has_come(before, ch));
            }
        }
    }
}

/// Nothing is sent of a channel until a route to it is made: whatever its encoder gave, no packet of
/// the channel leaves and none is counted.
pub proof fn law_unrouted_is_not_sent(
    routes: Seq<RouteView>,
    wanted: Seq<usize>,
    masks: Seq<usize>,
    encoded: Seq<Vec<u8>>,
    seqs: Seq<u16>,
    ts: u32,
    ch: int,
)
    requires
        seqs.len() == encoded.len(),
        encoded.len() <= MAX_CHANNELS,
        forall|j: int| 0 <= j < masks.len() ==> #[trigger] masks[j] == send_mask(routes, j) as usize,
        send_mask(routes, ch) == 0,
    ensures
        ({
            let (packets, counts) = frame_packets(
                wanted,
                masks,
                encoded,
                seqs,
                ts,
                wanted.len() as int,
            );
            &&& !has_come(packets, ch)
            &&& 0 <= ch < seqs.len() ==> counts[ch] == seqs[ch]
        }),
{
    lemma_unrouted(wanted, masks, encoded, seqs, ts, wanted.len() as int, ch);
}

proof fn lemma_all_unrouted(
    wanted: Seq<usize>,
    masks: Seq<usize>,
    encoded: Seq<Vec<u8>>,
    seqs: Seq<u16>,
    ts: u32,
    n: int,
)
    requires
        forall|j: int| !#[trigger] is_routed(masks, j),
    ensures
        frame_packets(wanted, masks, encoded, seqs, ts, n) == (Seq::<Seq<u8>>::empty(), seqs),
    decreases n,
{
    if n > 0 {
        lemma_all_unrouted(wanted, masks, encoded, seqs, ts, n - 1);
        assert(!is_routed(masks, wanted[n - 1] as int));
    }
}

/// Nothing at all is sent until a route is made.
pub proof fn law_nothing_is_sent_without_routes(
    wanted: Seq<usize>,
    masks: Seq<usize>,
    encoded: Seq<Vec<u8>>,
    seqs: Seq<u16>,
    ts: u32,
)
    requires
        forall|j: int|
            0 <= j < masks.len() ==> #[trigger] masks[j] == send_mask(Seq::empty(), j) as usize,
    ensures
        frame_packets(wanted, masks, encoded, seqs, ts, wanted.len() as int) == (
            Seq::<Seq<u8>>::empty(),
            seqs,
        ),
{
    assert forall|j: int| !#[trigger] is_routed(masks, j) by {
        law_nothing_without_routes(0, 0, j);
    }
    lemma_all_unrouted(wanted, masks, encoded, seqs, ts, wanted.len() as int);
}

proof fn lemma_taken_in(
    s: StreamView,
    packets: Seq<Seq<u8>>,
    encoded: Seq<Vec<u8>>,
    ts: u32,
    now: u64,
)
    requires
        s.wf(),
        1 <= encoded.len() <= MAX_CHANNELS,
        !s.groups.contains_key(ts),
        s.last_drained_ts matches Some(played) ==> !at_or_before(ts, played),
        forall|i: int| 0 <= i < packets.len() ==> is_of_frame(#[trigger] packets[i], encoded, ts),
    ensures
        ({
            let t = taken_in(s, packets, encoded.len() as int, now);
            &&& t.wf()
            &&& t.last_drained_ts == s.last_drained_ts
            &&& forall|other: u32|
                other != ts ==> (#[trigger] t.groups.contains_key(other) <==> s.groups.contains_key(
                    other,
                )) && (s.groups.contains_key(other) ==> t.groups[other] == s.groups[other])
            &&& packets.len() == 0 ==> !t.groups.contains_key(ts)
            &&& packets.len() > 0 ==> t.groups.contains_key(ts) && t.groups[ts].expected
                == GroupView::fresh(encoded.len() as int, now).expected
                && t.groups[ts].received_at == now
            &&& forall|ch: int|
                0 <= ch < MAX_CHANNELS && packets.len() > 0 && !has_come(packets, ch)
                    ==> #[trigger] t.groups[ts].packets[ch] is None
            &&& forall|i: int|
                0 <= i < packets.len() ==> t.groups[ts].packets[channel_of(#[trigger] packets[i])]
                    == Some(encoded[channel_of(packets[i])]@)
        }),
    decreases packets.len(),
{
    let n = encoded.len() as int;
    if packets.len() > 0 {
        let first = packets.drop_last();
        let last = packets.last();
        assert forall|i: int| 0 <= i < first.len() implies is_of_frame(
            #[trigger] first[i],
            encoded,
            ts,
        ) by {
            assert(first[i] == packets[i]);
        }
        lemma_taken_in(s, first, encoded, ts, now);
        assert(is_of_frame(packets[packets.len() - 1], encoded, ts));
        let before = taken_in(s, first, n, now);
        let p: MediaView = media_of(last)->0;
        let t = taken_in(s, packets, n, now);
        assert(t == media_step(before, p, last.len() as u64, true, n, now).0);
        assert(active_channels(n) == n);
        assert(t.groups.contains_key(ts));
        let ch = channel_of(last);
        assert(t.groups[ts].packets[ch] == Some(encoded[ch]@));
        assert forall|i: int| 0 <= i < packets.len() implies t.groups[ts].packets[channel_of(
            #[trigger] packets[i],
        )] == Some(encoded[channel_of(packets[i])]@) by {
            if i < first.len() {
                assert(first[i] == packets[i]);
                assert(is_of_frame(first[i], encoded, ts));
            }
        }
        assert forall|other: int|
            0 <= other < MAX_CHANNELS && !has_come(packets, other) implies #[trigger] t.groups[ts].packets[
            other
        ] is None by {
            assert(channel_of(packets[packets.len() - 1]) != other);
            if has_come(first, other) {
                let i = choose|i: int|
                    0 <= i < first.len() && channel_of(#[trigger] first[i]) == other;
                assert(packets[i] == first[i]);
            }
        }
    }
}

/// Whatever the order in which the packets of a frame come, and however often, once every channel
/// has come the frame is complete: it holds for each channel what the encoder gave. What waits for
/// other moments is not touched.
pub proof fn law_frame_is_put_together(
    s: StreamView,
    packets: Seq<Seq<u8>>,
    encoded: Seq<Vec<u8>>,
    ts: u32,
    now: u64,
)
    requires
        s.wf(),
        1 <= encoded.len() <= MAX_CHANNELS,
        !s.groups.contains_key(ts),
        s.last_drained_ts matches Some(played) ==> !at_or_before(ts, played),
        forall|i: int| 0 <= i < packets.len() ==> is_of_frame(#[trigger] packets[i], encoded, ts),
        forall|ch: int| 0 <= ch < encoded.len() ==> #[trigger] has_come(packets, ch),
    ensures
        ({
            let t = taken_in(s, packets, encoded.len() as int, now);
            &&& t.groups.contains_key(ts)
            &&& t.groups[ts].is_complete()
            &&& forall|ch: int|
                0 <= ch < encoded.len() ==> #[trigger] t.groups[ts].packets[ch] == Some(
                    encoded[ch]@,
                )
            &&& forall|other: u32|
                other != ts ==> (#[trigger] t.groups.contains_key(other) <==> s.groups.contains_key(
                    other,
                ))
        }),
{
    lemma_taken_in(s, packets, encoded, ts, now);
    let t = taken_in(s, packets, encoded.len() as int, now);
    assert forall|ch: int| 0 <= ch < encoded.len() implies #[trigger] t.groups[ts].packets[ch]
        == Some(encoded[ch]@) by {
        assert(has_come(packets, ch));
        let i = choose|i: int| 0 <= i < packets.len() && channel_of(#[trigger] packets[i]) == ch;
        assert(channel_of(packets[i]) == ch);
    }
    assert(has_come(packets, 0));
    assert forall|ch: u8| #[trigger] t.groups[ts].expected.contains(ch) implies t.groups[ts].packets[
        ch as int
    ] is Some by {
        assert(t.groups[ts].packets[ch as int] == Some(encoded[ch as int]@));
    }
}

/// The one group that waits leaves alone where it is ready.
proof fn lemma_sole_group_leaves(
    groups: Map<u32, GroupView>,
    ts: u32,
    later: u64,
    out: Seq<(u32, GroupView)>,
    rest: Map<u32, GroupView>,
)
    requires
        groups.contains_key(ts),
        forall|k: u32| #[trigger] groups.contains_key(k) ==> k == ts,
        groups[ts].is_ready(later),
        drained(groups, later, out, rest),
    ensures
        out == seq![(ts, groups[ts])],
        forall|k: u32| !#[trigger] rest.contains_key(k),
{
    if rest.contains_key(ts) {
        assert forall|other: u32| #[trigger] rest.contains_key(other) implies ts <= other by {
            assert(groups.contains_key(other));
        }
        assert(!rest[ts].is_ready(later));
        assert(rest[ts] == groups[ts]);
    }
    let i = choose|i: int| 0 <= i < out.len() && (#[trigger] out[i]).0 == ts;
    assert(out[i].0 == ts);
    assert forall|j: int| 0 <= j < out.len() implies (#[trigger] out[j]).0 == ts by {
        assert(groups.contains_key(out[j].0));
    }
    if out.len() > 1 {
        assert(out[0].0 < out[1].0);
    }
    assert forall|k: u32| !#[trigger] rest.contains_key(k) by {
        if rest.contains_key(k) {
            assert(groups.contains_key(k));
        }
    }
    assert(out =~= seq![(ts, groups[ts])]);
}

/// A frame that has come whole is played at the next turn, alone where nothing else waits, with what
/// was sent for each channel.
pub proof fn law_frame_is_played(
    s: StreamView,
    packets: Seq<Seq<u8>>,
    encoded: Seq<Vec<u8>>,
    ts: u32,
    now: u64,
    later: u64,
    out: Seq<(u32, GroupView)>,
    rest: Map<u32, GroupView>,
)
    requires
        s.wf(),
        1 <= encoded.len() <= MAX_CHANNELS,
        forall|k: u32| !#[trigger] s.groups.contains_key(k),
        s.last_drained_ts matches Some(played) ==> !at_or_before(ts, played),
        forall|i: int| 0 <= i < packets.len() ==> is_of_frame(#[trigger] packets[i], encoded, ts),
        forall|ch: int| 0 <= ch < encoded.len() ==> #[trigger] has_come(packets, ch),
        drained(taken_in(s, packets, encoded.len() as int, now).groups, later, out, rest),
    ensures
        out.len() == 1,
        out[0].0 == ts,
        forall|ch: int|
            0 <= ch < encoded.len() ==> #[trigger] out[0].1.packets[ch] == Some(encoded[ch]@),
        forall|k: u32| !#[trigger] rest.contains_key(k),
{
    law_frame_is_put_together(s, packets, encoded, ts, now);
    let groups = taken_in(s, packets, encoded.len() as int, now).groups;
    assert forall|k: u32| #[trigger] groups.contains_key(k) implies k == ts by {
        assert(!s.groups.contains_key(k));
    }
    lemma_sole_group_leaves(groups, ts, later, out, rest);
}

/// A frame of which some channels have not come, because they were lost or because nothing is routed
/// to them, is played all the same once it has waited: with what was sent for the channels that came,
/// and with nothing for the others, which are concealed.
pub proof fn law_part_of_frame_is_played(
    s: StreamView,
    packets: Seq<Seq<u8>>,
    encoded: Seq<Vec<u8>>,
    ts: u32,
    now: u64,
    later: u64,
    out: Seq<(u32, GroupView)>,
    rest: Map<u32, GroupView>,
)
    requires
        s.wf(),
        1 <= encoded.len() <= MAX_CHANNELS,
        packets.len() > 0,
        forall|k: u32| !#[trigger] s.groups.contains_key(k),
        s.last_drained_ts matches Some(played) ==> !at_or_before(ts, played),
        forall|i: int| 0 <= i < packets.len() ==> is_of_frame(#[trigger] packets[i], encoded, ts),
        later - now >= PHASE_LOCK_TIMEOUT_MS * 1_000_000,
        drained(taken_in(s, packets, encoded.len() as int, now).groups, later, out, rest),
    ensures
        out.len() == 1,
        out[0].0 == ts,
        forall|ch: int|
            0 <= ch < encoded.len() ==> #[trigger] out[0].1.packets[ch] == if has_come(packets, ch) {
                Some(encoded[ch]@)
            } else {
                None
            },
        forall|k: u32| !#[trigger] rest.contains_key(k),
{
    lemma_taken_in(s, packets, encoded, ts, now);
    let groups = taken_in(s, packets, encoded.len() as int, now).groups;
    assert forall|k: u32| #[trigger] groups.contains_key(k) implies k == ts by {
        assert(!s.groups.contains_key(k));
    }
    lemma_sole_group_leaves(groups, ts, later, out, rest);
    assert forall|ch: int| 0 <= ch < encoded.len() implies #[trigger] out[0].1.packets[ch] == if has_come(
        packets,
        ch,
    ) {
        Some(encoded[ch]@)
    } else {
        None
    } by {
        assert(out[0].1 == groups[ts]);
        if has_come(packets, ch) {
            let i = choose|i: int| 0 <= i < packets.len() && channel_of(#[trigger] packets[i]) == ch;
            assert(channel_of(packets[i]) == ch);
        }
    }
}

// ---------------------------------------------------------------------------------------------
// The packets of one channel

/// How often a channel stands among the first `n` of some channels.
pub open spec fn times(wanted: Seq<usize>, ch: int, n: int) -> nat
    decreases n,
{
    if n <= 0 {
        0
    } else if wanted[n - 1] == ch {
        times(wanted, ch, n - 1) + 1
    } else {
        times(wanted, ch, n - 1)
    }
}

/// Those of some packets that carry a channel, in their order.
pub open spec fn packets_of(packets: Seq<Seq<u8>>, ch: int) -> Seq<Seq<u8>>
    decreases packets.len(),
{
    if packets.len() == 0 {
        Seq::empty()
    } else if channel_of(packets.last()) == ch {
        packets_of(packets.drop_last(), ch).push(packets.last())
    } else {
        packets_of(packets.drop_last(), ch)
    }
}

proof fn lemma_packets_of(packets: Seq<Seq<u8>>, ch: int)
    ensures
        forall|j: int|
            0 <= j < packets_of(packets, ch).len() ==> packets.contains(
                #[trigger] packets_of(packets, ch)[j],
            ),
    decreases packets.len(),
{
    if packets.len() > 0 {
        let before = packets.drop_last();
        lemma_packets_of(before, ch);
        assert forall|j: int| 0 <= j < packets_of(packets, ch).len() implies packets.contains(
            #[trigger] packets_of(packets, ch)[j],
        ) by {
            if j < packets_of(before, ch).len() {
                assert(before.contains(packets_of(before, ch)[j]));
                let i = choose|i: int| 0 <= i < before.len() && before[i] == packets_of(before, ch)[j];
                assert(packets[i] == packets_of(packets, ch)[j]);
            } else {
                assert(packets[packets.len() - 1] == packets_of(packets, ch)[j]);
            }
        }
    }
}

proof fn lemma_channel_packets(
    wanted: Seq<usize>,
    masks: Seq<usize>,
    encoded: Seq<Vec<u8>>,
    seqs: Seq<u16>,
    ts: u32,
    n: int,
    ch: int,
)
    requires
        0 <= n <= wanted.len(),
        seqs.len() == encoded.len(),
        encoded.len() <= 256,
        0 <= ch < encoded.len(),
    ensures
        ({
            let (packets, counts) = frame_packets(wanted, masks, encoded, seqs, ts, n);
            let of = packets_of(packets, ch);
            &&& counts.len() == seqs.len()
            &&& ch < masks.len() && masks[ch] != 0 && encoded[ch]@.len() > 0 ==> {
                &&& of.len() == times(wanted, ch, n)
                &&& counts[ch] == (seqs[ch] + times(wanted, ch, n)) % 65536
                &&& forall|j: int|
                    0 <= j < of.len() ==> media_of(#[trigger] of[j]) == Some(
                        MediaView {
                            seq: ((seqs[ch] + j) % 65536) as u16,
                            timestamp: ts,
                            channel: ch as u8,
                            opus: encoded[ch]@,
                        },
                    )
            }
            &&& !(ch < masks.len() && masks[ch] != 0 && encoded[ch]@.len() > 0) ==> of.len() == 0
                && counts[ch] == seqs[ch]
        }),
    decreases n,
{
    if n > 0 {
        lemma_channel_packets(wanted, masks, encoded, seqs, ts, n - 1, ch);
        let (before, counts) = frame_packets(wanted, masks, encoded, seqs, ts, n - 1);
        let (packets, after) = frame_packets(wanted, masks, encoded, seqs, ts, n);
        let sent = wanted[n - 1];
        if is_sent(masks, encoded, sent) {
            let last = media_bytes(counts[sent as int], ts, sent as u8, encoded[sent as int]@);
            law_media_roundtrip(counts[sent as int], ts, sent as u8, encoded[sent as int]@);
            assert(packets == before.push(last));
            assert(packets.drop_last() =~= before);
            assert(packets.last() == last);
            assert(channel_of(last) == sent);
            if sent == ch {
                let t = times(wanted, ch, n - 1);
                assert(packets_of(packets, ch) == packets_of(before, ch).push(last));
                assert(after[ch] == counts[ch].wrapping_add(1));
                assert(((seqs[ch] + t) % 65536 + 1) % 65536 == (seqs[ch] + t + 1) % 65536);
            }
        }
    }
}

/// What is sent of a channel in a frame, however long what its encoder gave is: where something is
/// routed to the channel and its encoder gave anything, one packet for every time that the remote
/// wants the channel, each with the timestamp of the frame and the whole of what the encoder gave,
/// counted on from the count that the channel was at; and otherwise none.
pub proof fn law_packets_of_a_channel(
    wanted: Seq<usize>,
    masks: Seq<usize>,
    encoded: Seq<Vec<u8>>,
    seqs: Seq<u16>,
    ts: u32,
    ch: int,
)
    requires
        seqs.len() == encoded.len(),
        encoded.len() <= 256,
        0 <= ch < encoded.len(),
    ensures
        ({
            let (packets, counts) = frame_packets(
                wanted,
                masks,
                encoded,
                seqs,
                ts,
                wanted.len() as int,
            );
            let of = packets_of(packets, ch);
            let wants = times(wanted, ch, wanted.len() as int);
            &&& ch < masks.len() && masks[ch] != 0 && encoded[ch]@.len() > 0 ==> {
                &&& of.len() == wants
                &&& counts[ch] == (seqs[ch] + wants) % 65536
                &&& forall|j: int|
                    0 <= j < of.len() ==> media_of(#[trigger] of[j]) == Some(
                        MediaView {
                            seq: ((seqs[ch] + j) % 65536) as u16,
                            timestamp: ts,
                            channel: ch as u8,
                            opus: encoded[ch]@,
                        },
                    )
            }
            &&& ch >= masks.len() || masks[ch] == 0 || encoded[ch]@.len() == 0 ==> of.len() == 0
                && counts[ch] == seqs[ch]
        }),
{
    lemma_channel_packets(wanted, masks, encoded, seqs, ts, wanted.len() as int, ch);
}

proof fn lemma_times_none(wanted: Seq<usize>, ch: int, n: int)
    requires
        0 <= n <= wanted.len(),
        forall|i: int| 0 <= i < n ==> wanted[i] != ch,
    ensures
        times(wanted, ch, n) == 0,
    decreases n,
{
    if n > 0 {
        lemma_times_none(wanted, ch, n - 1);
    }
}

proof fn lemma_times_once(wanted: Seq<usize>, ch: int, n: int, k: int)
    requires
        0 <= k < n <= wanted.len(),
        wanted[k] == ch,
        forall|i: int| 0 <= i < n && i != k ==> wanted[i] != ch,
    ensures
        times(wanted, ch, n) == 1,
    decreases n,
{
    if k == n - 1 {
        lemma_times_none(wanted, ch, n - 1);
    } else {
        lemma_times_once(wanted, ch, n - 1, k);
    }
}

/// Every channel that a remote wants, to which something is routed and whose encoder gave something,
/// of whatever length, is sent: a packet reads as that channel, the timestamp of the frame, the count
/// that the channel was at and what the encoder gave, no other packet is of that channel, and the
/// count goes on by one.
pub proof fn law_every_routed_channel_is_sent(
    wanted: Seq<usize>,
    masks: Seq<usize>,
    encoded: Seq<Vec<u8>>,
    seqs: Seq<u16>,
    ts: u32,
    k: int,
)
    requires
        seqs.len() == encoded.len(),
        encoded.len() <= 256,
        0 <= k < wanted.len(),
        forall|i: int| 0 <= i < wanted.len() && i != k ==> wanted[i] != wanted[k],
        wanted[k] < encoded.len(),
        wanted[k] < masks.len(),
        masks[wanted[k] as int] != 0,
        encoded[wanted[k] as int]@.len() > 0,
    ensures
        ({
            let (packets, counts) = frame_packets(
                wanted,
                masks,
                encoded,
                seqs,
                ts,
                wanted.len() as int,
            );
            let ch = wanted[k] as int;
            &&& exists|i: int|
                0 <= i < packets.len() && media_of(#[trigger] packets[i]) == Some(
                    MediaView {
                        seq: seqs[ch],
                        timestamp: ts,
                        channel: ch as u8,
                        opus: encoded[ch]@,
                    },
                )
            &&& packets_of(packets, ch).len() == 1
            &&& counts[ch] == (seqs[ch] + 1) % 65536
        }),
{
    let ch = wanted[k] as int;
    let packets = frame_packets(wanted, masks, encoded, seqs, ts, wanted.len() as int).0;
    lemma_channel_packets(wanted, masks, encoded, seqs, ts, wanted.len() as int, ch);
    lemma_times_once(wanted, ch, wanted.len() as int, k);
    lemma_packets_of(packets, ch);
    let sole = packets_of(packets, ch)[0];
    assert(packets.contains(sole));
    let i = choose|i: int| 0 <= i < packets.len() && packets[i] == sole;
    assert(media_of(packets[i]) is Some);
}

/// A frame of channels that nobody wants, or that no encoder gave, is nothing; and nothing is sent but
/// channels that are wanted.
pub proof fn law_only_wanted_channels_are_sent(
    wanted: Seq<usize>,
    masks: Seq<usize>,
    encoded: Seq<Vec<u8>>,
    seqs: Seq<u16>,
    ts: u32,
    i: int,
)
    requires
        seqs.len() == encoded.len(),
        encoded.len() <= 256,
        0 <= i < frame_packets(wanted, masks, encoded, seqs, ts, wanted.len() as int).0.len(),
    ensures
        ({
            let packet = frame_packets(wanted, masks, encoded, seqs, ts, wanted.len() as int).0[i];
            exists|k: int|
                0 <= k < wanted.len() && #[trigger] wanted[k] < encoded.len() && wanted[k]
                    < masks.len() && masks[wanted[k] as int] != 0 && encoded[wanted[k] as int]@.len()
                    > 0 && (media_of(packet) matches Some(m) && m.channel == wanted[k]
                    && m.timestamp == ts && m.opus == encoded[wanted[k] as int]@)
        }),
{
    lemma_packet_is_wanted(wanted, masks, encoded, seqs, ts, wanted.len() as int, i);
}

proof fn lemma_packet_is_wanted(
    wanted: Seq<usize>,
    masks: Seq<usize>,
    encoded: Seq<Vec<u8>>,
    seqs: Seq<u16>,
    ts: u32,
    n: int,
    i: int,
)
    requires
        0 <= n <= wanted.len(),
        seqs.len() == encoded.len(),
        encoded.len() <= 256,
        0 <= i < frame_packets(wanted, masks, encoded, seqs, ts, n).0.len(),
    ensures
        ({
            let packet = frame_packets(wanted, masks, encoded, seqs, ts, n).0[i];
            exists|k: int|
                0 <= k < n && #[trigger] wanted[k] < encoded.len() && wanted[k] < masks.len()
                    && masks[wanted[k] as int] != 0 && encoded[wanted[k] as int]@.len() > 0 && (
                media_of(packet) matches Some(m) && m.channel == wanted[k] && m.timestamp == ts
                    && m.opus == encoded[wanted[k] as int]@)
        }),
    decreases n,
{
    if n > 0 {
        let (before, counts) = frame_packets(wanted, masks, encoded, seqs, ts, n - 1);
        if i < before.len() {
            lemma_packet_is_wanted(wanted, masks, encoded, seqs, ts, n - 1, i);
        } else {
            let sent = wanted[n - 1];
            law_media_roundtrip(counts[sent as int], ts, sent as u8, encoded[sent as int]@);
            assert(wanted[n - 1] < encoded.len());
        }
    }
}

} // verus!
