//! Receive timing: RTP clock arithmetic, buffer sizes, and the groups in which the channels of one
//! moment are put together.

use crate::constants::{
    MAX_CHANNELS, MAX_LATENCY_MS, MIN_EFFECTIVE_RX_BUFFER_MS, MIN_LATENCY_MS, PHASE_LOCK_TIMEOUT_MS,
    SAMPLE_RATE,
};
use std::collections::{BTreeMap, HashSet};
use vstd::laws_cmp::obeys_cmp;
use vstd::prelude::*;
use vstd::std_specs::btree::increasing_seq;
use vstd::std_specs::cmp::OrdSpec;
use vstd::std_specs::iter::IteratorSpec;

verus! {

// ---------------------------------------------------------------------------------------------
// RTP clock

/// Samples from `older` to `newer` on a clock that wraps.
pub open spec fn elapsed(newer: u32, older: u32) -> u32 {
    newer.wrapping_sub(older)
}

/// Samples from `older` to `newer` on a clock that wraps.
pub fn timestamp_elapsed_samples(newer: u32, older: u32) -> (r: u32)
    ensures
        r == elapsed(newer, older),
        (older + r) % 0x1_0000_0000 == newer,
{
    newer.wrapping_sub(older)
}

/// Whether `ts` lies in the half of the clock that ends at `reference`.
pub open spec fn at_or_before(ts: u32, reference: u32) -> bool {
    elapsed(reference, ts) < 0x8000_0000
}

/// Whether `ts` lies in the half of the clock that ends at `reference`.
pub fn rtp_timestamp_at_or_before(ts: u32, reference: u32) -> (r: bool)
    ensures
        r == at_or_before(ts, reference),
{
    reference.wrapping_sub(ts) < 0x8000_0000
}

/// A moment is at or before itself, and of two moments less than half a turn apart exactly one is
/// before the other.
pub proof fn law_clock_order(a: u32, b: u32)
    ensures
        at_or_before(a, a),
        a != b && elapsed(a, b) != 0x8000_0000 ==> (at_or_before(a, b) <==> !at_or_before(b, a)),
{
}

/// Whether `next` steps back from `prev` on the wrapping count of packets.
pub open spec fn steps_back(prev: u16, next: u16) -> bool {
    prev != next && prev.wrapping_sub(next) < 0x8000
}

/// Whether `next` steps back from `prev` on the wrapping count of packets.
pub fn rtp_seq_looks_reset(prev: u16, next: u16) -> (r: bool)
    ensures
        r == steps_back(prev, next),
{
    prev != next && prev.wrapping_sub(next) < 0x8000
}

/// The next packet of a stream never looks like a reset.
pub proof fn law_next_packet_is_no_reset(seq: u16)
    ensures
        !steps_back(seq, seq.wrapping_add(1)),
{
}

// ---------------------------------------------------------------------------------------------
// Buffer sizes

/// Samples in `ms` milliseconds.
pub open spec fn samples_in(ms: int) -> int {
    ms * SAMPLE_RATE / 1000
}

/// Samples in `ms` milliseconds, as many as a 32-bit count holds of them.
pub fn latency_ms_to_samples(ms: u32) -> (r: u32)
    ensures
        r == samples_in(ms as int) % 0x1_0000_0000,
{
    let samples: u64 = (ms as u64 * SAMPLE_RATE as u64) / 1000;
    assert(samples as u32 == samples % 0x1_0000_0000) by (bit_vector);
    samples as u32
}

/// The buffer in effect where `configured` milliseconds are asked for.
pub open spec fn effective_buffer_ms(configured: u32) -> u32 {
    let asked = if configured < MIN_LATENCY_MS {
        MIN_LATENCY_MS
    } else if configured > MAX_LATENCY_MS {
        MAX_LATENCY_MS
    } else {
        configured
    };
    if asked < MIN_EFFECTIVE_RX_BUFFER_MS {
        MIN_EFFECTIVE_RX_BUFFER_MS
    } else {
        asked
    }
}

/// The buffer in effect where `configured_ms` milliseconds are asked for.
pub fn effective_receive_buffer_ms(configured_ms: u32) -> (r: u32)
    ensures
        r == effective_buffer_ms(configured_ms),
        MIN_EFFECTIVE_RX_BUFFER_MS <= r <= MAX_LATENCY_MS,
{
    let asked: u32 = if configured_ms < MIN_LATENCY_MS {
        MIN_LATENCY_MS
    } else if configured_ms > MAX_LATENCY_MS {
        MAX_LATENCY_MS
    } else {
        configured_ms
    };
    if asked < MIN_EFFECTIVE_RX_BUFFER_MS {
        MIN_EFFECTIVE_RX_BUFFER_MS
    } else {
        asked
    }
}

/// The least of some numbers; zero if there is none.
pub open spec fn least(s: Seq<usize>) -> usize
    decreases s.len(),
{
    if s.len() == 0 {
        0
    } else if s.len() == 1 {
        s[0]
    } else if least(s.drop_last()) <= s.last() {
        least(s.drop_last())
    } else {
        s.last()
    }
}

/// `least` gives one of the numbers, and none is smaller.
pub proof fn law_least(s: Seq<usize>)
    requires
        s.len() > 0,
    ensures
        s.contains(least(s)),
        forall|i: int| 0 <= i < s.len() ==> least(s) <= s[i],
    decreases s.len(),
{
    if s.len() == 1 {
        assert(s[0] == least(s));
    } else {
        let t = s.drop_last();
        law_least(t);
        if least(t) <= s.last() {
            let i = choose|i: int| 0 <= i < t.len() && t[i] == least(t);
            assert(s[i] == least(s));
        } else {
            assert(s[s.len() - 1] == least(s));
        }
        assert forall|i: int| 0 <= i < s.len() implies least(s) <= s[i] by {
            if i < t.len() {
                assert(t[i] == s[i]);
            }
        }
    }
}

/// How many milliseconds the emptiest of the first `active_channels` rings holds, where
/// `occupied` says how many samples there are in each ring.
pub fn ring_fill_ms(occupied: &[usize], active_channels: usize) -> (r: usize)
    requires
        active_channels <= occupied@.len(),
    ensures
        r == least(occupied@.take(active_channels as int)) * 1000 / SAMPLE_RATE as int,
{
    if active_channels == 0 {
        return 0;
    }
    let mut fill: usize = occupied[0];
    assert(occupied@.take(1).len() == 1);
    for i in 1..active_channels
        invariant
            1 <= active_channels <= occupied@.len(),
            fill == least(occupied@.take(i as int)),
    {
        assert(occupied@.take(i + 1).drop_last() =~= occupied@.take(i as int));
        if occupied[i] < fill {
            fill = occupied[i];
        }
    }
    fill / 48
}

// ---------------------------------------------------------------------------------------------
// Frame groups

/// The packets of one moment, one for each channel, as far as they have come.
pub struct FrameGroup {
    pub packets: Vec<Option<Vec<u8>>>,
    pub expected: HashSet<u8>,
    /// When the first of them came, in nanoseconds.
    pub received_at: u64,
}

/// The packets of one moment.
#[verifier::ext_equal]
pub struct GroupView {
    pub packets: Seq<Option<Seq<u8>>>,
    pub expected: Set<u8>,
    pub received_at: u64,
}

/// The payload of a packet that has come.
pub open spec fn payload_view(p: Option<Vec<u8>>) -> Option<Seq<u8>> {
    match p {
        Some(bytes) => Some(bytes@),
        None => None,
    }
}

impl View for FrameGroup {
    type V = GroupView;

    open spec fn view(&self) -> GroupView {
        GroupView {
            packets: Seq::new(self.packets@.len(), |i: int| payload_view(self.packets@[i])),
            expected: self.expected@,
            received_at: self.received_at,
        }
    }
}

impl GroupView {
    /// A place for every channel, and no others expected.
    pub open spec fn wf(self) -> bool {
        &&& self.packets.len() == MAX_CHANNELS
        &&& forall|ch: u8| #[trigger] self.expected.contains(ch) ==> ch < MAX_CHANNELS
    }

    /// A group that expects channels `0` to `expected_channels - 1`, and has none yet.
    pub open spec fn fresh(expected_channels: int, now: u64) -> GroupView {
        GroupView {
            packets: Seq::new(MAX_CHANNELS as nat, |i: int| None),
            expected: Set::new(|ch: u8| ch < expected_channels && ch < MAX_CHANNELS),
            received_at: now,
        }
    }

    /// The group with the packet of a channel put in.
    pub open spec fn with(self, channel: int, payload: Seq<u8>) -> GroupView {
        if channel < MAX_CHANNELS {
            GroupView { packets: self.packets.update(channel, Some(payload)), ..self }
        } else {
            self
        }
    }

    /// Whether every channel that is expected has come.
    pub open spec fn is_complete(self) -> bool {
        forall|ch: u8| #[trigger] self.expected.contains(ch) ==> self.packets[ch as int] is Some
    }

    /// Whether the group has waited long enough.
    pub open spec fn is_timed_out(self, now: u64) -> bool {
        now - self.received_at >= PHASE_LOCK_TIMEOUT_MS * 1_000_000
    }

    /// Whether the group is to be played.
    pub open spec fn is_ready(self, now: u64) -> bool {
        self.is_complete() || self.is_timed_out(now)
    }
}

impl FrameGroup {
    /// A group that waits for the channels `0` to `expected_channels - 1`.
    pub fn new(_timestamp: u32, expected_channels: usize, now: u64) -> (r: Self)
        ensures
            r@ == GroupView::fresh(expected_channels as int, now),
            r@.wf(),
    {
        let mut packets: Vec<Option<Vec<u8>>> = Vec::new();
        for i in 0..MAX_CHANNELS
            invariant
                packets@.len() == i,
                forall|j: int| 0 <= j < i ==> #[trigger] packets@[j] is None,
        {
            packets.push(None);
        }
        let mut expected: HashSet<u8> = HashSet::new();
        let limit: u8 = if expected_channels < MAX_CHANNELS {
            expected_channels as u8
        } else {
            MAX_CHANNELS as u8
        };
        for ch in 0..limit
            invariant
                limit <= MAX_CHANNELS,
                expected@ == Set::new(|c: u8| c < ch),
        {
            expected.insert(ch);
            assert(expected@ =~= Set::new(|c: u8| c < ch + 1));
        }
        let r = FrameGroup { packets, expected, received_at: now };
        assert(r@ =~= GroupView::fresh(expected_channels as int, now));
        r
    }

    /// Puts in the packet of a channel.
    pub fn insert(&mut self, channel: usize, payload: &[u8])
        requires
            old(self)@.wf(),
        ensures
            final(self)@ == old(self)@.with(channel as int, payload@),
            final(self)@.wf(),
    {
        if channel < MAX_CHANNELS {
            let mut bytes: Vec<u8> = Vec::new();
            bytes.extend_from_slice(payload);
            assert(bytes@ =~= payload@);
            self.packets.set(channel, Some(bytes));
            assert(self@ =~= old(self)@.with(channel as int, payload@));
        }
    }

    /// Whether every channel that is expected has come.
    pub fn complete(&self) -> (r: bool)
        requires
            self@.wf(),
        ensures
            r == self@.is_complete(),
            r <==> forall|ch: u8| #[trigger]
                self.expected@.contains(ch) ==> self.packets@[ch as int] is Some,
    {
        let limit: u8 = MAX_CHANNELS as u8;
        for ch in 0..limit
            invariant
                limit == MAX_CHANNELS,
                self@.wf(),
                forall|c: u8|
                    c < ch && #[trigger] self@.expected.contains(c) ==> self@.packets[c as int] is Some,
        {
            if self.expected.contains(&ch) && self.packets[ch as usize].is_none() {
                assert(self@.expected.contains(ch));
                assert(self@.packets[ch as int] is None);
                return false;
            }
        }
        assert forall|ch: u8| #[trigger] self.expected@.contains(ch) implies self.packets@[ch as int] is Some by {
            assert(self@.expected.contains(ch));
            assert(self@.packets[ch as int] is Some);
        }
        true
    }

    /// Whether the group has waited long enough.
    pub fn timed_out(&self, now: u64) -> (r: bool)
        ensures
            r == self@.is_timed_out(now),
            r == (now - self.received_at >= 10_000_000),
    {
        now >= self.received_at && now - self.received_at >= PHASE_LOCK_TIMEOUT_MS * 1_000_000
    }
}

// ---------------------------------------------------------------------------------------------
// The groups that wait

/// The groups that wait, by timestamp.
pub open spec fn group_views(m: Map<u32, FrameGroup>) -> Map<u32, GroupView> {
    m.map_values(|g: FrameGroup| g@)
}

/// Every group has a place for every channel.
pub open spec fn groups_wf(m: Map<u32, GroupView>) -> bool {
    forall|ts: u32| #[trigger] m.contains_key(ts) ==> m[ts].wf()
}

/// The groups with a packet put in, in a new group if there is none for its timestamp.
pub open spec fn with_packet(
    m: Map<u32, GroupView>,
    ts: u32,
    expected_channels: int,
    channel: int,
    payload: Seq<u8>,
    now: u64,
) -> Map<u32, GroupView> {
    let group = if m.contains_key(ts) {
        m[ts]
    } else {
        GroupView::fresh(expected_channels, now)
    };
    m.insert(ts, group.with(channel, payload))
}

/// Whether `out` are the groups that leave at `now`, and `after` those that stay: they leave oldest
/// first, as long as the oldest is ready.
pub open spec fn drained(
    before: Map<u32, GroupView>,
    now: u64,
    out: Seq<(u32, GroupView)>,
    after: Map<u32, GroupView>,
) -> bool {
    &&& forall|i: int, j: int| 0 <= i < j < out.len() ==> (#[trigger] out[i]).0 < (#[trigger] out[j]).0
    &&& forall|i: int|
        0 <= i < out.len() ==> before.contains_key((#[trigger] out[i]).0) && before[out[i].0]
            == out[i].1 && out[i].1.is_ready(now)
    &&& forall|ts: u32| #[trigger]
        after.contains_key(ts) ==> before.contains_key(ts) && after[ts] == before[ts]
    &&& forall|ts: u32| #[trigger]
        before.contains_key(ts) ==> after.contains_key(ts) || exists|i: int|
            0 <= i < out.len() && (#[trigger] out[i]).0 == ts
    &&& forall|i: int, ts: u32|
        0 <= i < out.len() && #[trigger] after.contains_key(ts) ==> (#[trigger] out[i]).0 < ts
    &&& forall|ts: u32| #[trigger]
        after.contains_key(ts) && (forall|other: u32| #[trigger]
            after.contains_key(other) ==> ts <= other) ==> !after[ts].is_ready(now)
}

proof fn lemma_timestamps_are_ordered()
    ensures
        obeys_cmp::<u32>(),
{
    broadcast use vstd::laws_cmp::group_laws_cmp;
}

/// Puts a packet into its group.
pub fn insert_packet(
    groups: &mut BTreeMap<u32, FrameGroup>,
    timestamp: u32,
    expected_channels: usize,
    channel: usize,
    payload: &[u8],
    now: u64,
)
    requires
        groups_wf(group_views(old(groups)@)),
    ensures
        group_views(final(groups)@) == with_packet(
            group_views(old(groups)@),
            timestamp,
            expected_channels as int,
            channel as int,
            payload@,
            now,
        ),
        groups_wf(group_views(final(groups)@)),
{
    proof {
        lemma_timestamps_are_ordered();
    }
    let ghost before = group_views(groups@);
    let mut group = match groups.remove(&timestamp) {
        Some(group) => {
            assert(before.contains_key(timestamp));
            assert(before[timestamp] == group@);
            group
        },
        None => FrameGroup::new(timestamp, expected_channels, now),
    };
    group.insert(channel, payload);
    groups.insert(timestamp, group);
    assert(group_views(groups@) =~= with_packet(
        before,
        timestamp,
        expected_channels as int,
        channel as int,
        payload@,
        now,
    ));
}

/// The timestamp of the oldest group.
fn oldest_timestamp(groups: &BTreeMap<u32, FrameGroup>) -> (r: Option<u32>)
    ensures
        match r {
            Some(ts) => groups@.contains_key(ts) && forall|other: u32| #[trigger]
                groups@.contains_key(other) ==> ts <= other,
            None => groups@ == Map::<u32, FrameGroup>::empty(),
        },
{
    proof {
        lemma_timestamps_are_ordered();
    }
    for entry in it: groups.iter()
        invariant
            it.index() == 0,
            obeys_cmp::<u32>(),
            it.seq() == groups.iter().remaining(),
            increasing_seq(it.seq().map_values(|kv: (&u32, &FrameGroup)| *kv.0)),
    {
        let ghost all = it.seq();
        let ghost keys = all.map_values(|kv: (&u32, &FrameGroup)| *kv.0);
        proof {
            assert(groups@.contains_key(*all[0].0));
            assert forall|other: u32| #[trigger] groups@.contains_key(other) implies *entry.0
                <= other by {
                assert(all.contains((&other, &groups@[other])));
                let i = choose|i: int| 0 <= i < all.len() && all[i] == (&other, &groups@[other]);
                assert(keys[i] == other);
                assert(keys[0] == *entry.0);
                assert(i == 0 || keys[0].cmp_spec(&keys[i]) is Less);
            }
        }
        return Some(*entry.0);
    }
    proof {
        let all = groups.iter().remaining();
        assert forall|k: u32| !groups@.contains_key(k) by {
            if groups@.contains_key(k) {
                assert(all.contains((&k, &groups@[k])));
            }
        }
        assert(groups@ =~= Map::<u32, FrameGroup>::empty());
    }
    None
}

/// Whether there is a group with this timestamp that is ready.
fn is_group_ready(groups: &BTreeMap<u32, FrameGroup>, timestamp: u32, now: u64) -> (r: bool)
    requires
        groups_wf(group_views(groups@)),
    ensures
        r == (groups@.contains_key(timestamp) && groups@[timestamp]@.is_ready(now)),
{
    proof {
        lemma_timestamps_are_ordered();
    }
    match groups.get(&timestamp) {
        Some(group) => {
            assert(group_views(groups@).contains_key(timestamp));
            group.complete() || group.timed_out(now)
        },
        None => false,
    }
}

/// The groups that left, by their views.
pub open spec fn drained_views(out: Seq<(u32, FrameGroup)>) -> Seq<(u32, GroupView)> {
    Seq::new(out.len(), |i: int| (out[i].0, out[i].1@))
}

/// Takes out the groups that are to be played, oldest first: each one that is complete or has waited
/// long enough, up to the first that is neither.
pub fn drain_phase_locked_groups(
    groups: &mut BTreeMap<u32, FrameGroup>,
    remote_channels: usize,
    now: u64,
) -> (r: Vec<(u32, FrameGroup)>)
    requires
        groups_wf(group_views(old(groups)@)),
    ensures
        remote_channels == 0 ==> r@.len() == 0 && *final(groups) == *old(groups),
        remote_channels > 0 ==> drained(
            group_views(old(groups)@),
            now,
            drained_views(r@),
            group_views(final(groups)@),
        ),
        groups_wf(group_views(final(groups)@)),
{
    let mut out: Vec<(u32, FrameGroup)> = Vec::new();
    if remote_channels == 0 {
        return out;
    }
    let ghost before = groups@;
    loop
        invariant
            groups_wf(group_views(groups@)),
            drains(before, now, out@, groups@),
        ensures
            groups_wf(group_views(groups@)),
            drains(before, now, out@, groups@),
            forall|ts: u32| #[trigger]
                groups@.contains_key(ts) && (forall|other: u32| #[trigger]
                    groups@.contains_key(other) ==> ts <= other) ==> !groups@[ts]@.is_ready(now),
        decreases groups@.len(),
    {
        let ts: u32 = match oldest_timestamp(groups) {
            Some(ts) => ts,
            None => {
                break;
            },
        };
        if !is_group_ready(groups, ts, now) {
            break;
        }
        let ghost here = groups@;
        let ghost taken = out@;
        let group = take_group(groups, ts);
        proof {
            lemma_drain_step(before, now, taken, here, ts, group);
        }
        out.push((ts, group));
    }
    proof {
        lemma_drains_is_drained(before, now, out@, groups@);
    }
    out
}

fn take_group(groups: &mut BTreeMap<u32, FrameGroup>, timestamp: u32) -> (r: FrameGroup)
    requires
        old(groups)@.contains_key(timestamp),
        groups_wf(group_views(old(groups)@)),
    ensures
        r == old(groups)@[timestamp],
        final(groups)@ == old(groups)@.remove(timestamp),
        final(groups)@.len() < old(groups)@.len(),
        groups_wf(group_views(final(groups)@)),
{
    proof {
        lemma_timestamps_are_ordered();
    }
    let taken = groups.remove(&timestamp);
    assert forall|ts: u32| #[trigger] group_views(groups@).contains_key(ts) implies group_views(
        groups@,
    )[ts].wf() by {
        assert(group_views(old(groups)@).contains_key(ts));
    }
    taken.unwrap()
}

/// What holds while groups are taken out.
spec fn drains(
    before: Map<u32, FrameGroup>,
    now: u64,
    out: Seq<(u32, FrameGroup)>,
    after: Map<u32, FrameGroup>,
) -> bool {
    &&& forall|i: int, j: int| 0 <= i < j < out.len() ==> (#[trigger] out[i]).0 < (#[trigger] out[j]).0
    &&& forall|i: int|
        0 <= i < out.len() ==> before.contains_key((#[trigger] out[i]).0) && before[out[i].0]
            == out[i].1 && out[i].1@.is_ready(now)
    &&& forall|ts: u32| #[trigger]
        after.contains_key(ts) ==> before.contains_key(ts) && after[ts] == before[ts]
    &&& forall|ts: u32| #[trigger]
        before.contains_key(ts) ==> after.contains_key(ts) || exists|i: int|
            0 <= i < out.len() && (#[trigger] out[i]).0 == ts
    &&& forall|i: int, ts: u32|
        0 <= i < out.len() && #[trigger] after.contains_key(ts) ==> (#[trigger] out[i]).0 < ts
}

proof fn lemma_drain_step(
    before: Map<u32, FrameGroup>,
    now: u64,
    out: Seq<(u32, FrameGroup)>,
    here: Map<u32, FrameGroup>,
    ts: u32,
    group: FrameGroup,
)
    requires
        drains(before, now, out, here),
        here.contains_key(ts),
        here[ts] == group,
        group@.is_ready(now),
        forall|other: u32| #[trigger] here.contains_key(other) ==> ts <= other,
    ensures
        drains(before, now, out.push((ts, group)), here.remove(ts)),
{
    let more = out.push((ts, group));
    let rest = here.remove(ts);
    assert(more[out.len() as int] == (ts, group));
    assert forall|k: u32| #[trigger] before.contains_key(k) implies rest.contains_key(k) || exists|
        i: int,
    |
        0 <= i < more.len() && (#[trigger] more[i]).0 == k by {
        if !here.contains_key(k) {
            let i = choose|i: int| 0 <= i < out.len() && (#[trigger] out[i]).0 == k;
            assert(more[i].0 == k);
        } else if k == ts {
            assert(more[out.len() as int].0 == k);
        }
    }
}

proof fn lemma_drains_is_drained(
    before: Map<u32, FrameGroup>,
    now: u64,
    out: Seq<(u32, FrameGroup)>,
    after: Map<u32, FrameGroup>,
)
    requires
        drains(before, now, out, after),
        forall|ts: u32| #[trigger]
            after.contains_key(ts) && (forall|other: u32| #[trigger]
                after.contains_key(other) ==> ts <= other) ==> !after[ts]@.is_ready(now),
    ensures
        drained(group_views(before), now, drained_views(out), group_views(after)),
{
    let b = group_views(before);
    let o = drained_views(out);
    let a = group_views(after);
    assert forall|ts: u32| #[trigger] b.contains_key(ts) implies a.contains_key(ts) || exists|i: int|
        0 <= i < o.len() && (#[trigger] o[i]).0 == ts by {
        assert(before.contains_key(ts));
        if !after.contains_key(ts) {
            let i = choose|i: int| 0 <= i < out.len() && (#[trigger] out[i]).0 == ts;
            assert(o[i].0 == ts);
        }
    }
    assert forall|i: int, ts: u32|
        0 <= i < o.len() && #[trigger] a.contains_key(ts) implies (#[trigger] o[i]).0 < ts by {
        assert(after.contains_key(ts));
        assert(out[i].0 < ts);
    }
    assert forall|i: int, j: int| 0 <= i < j < o.len() implies (#[trigger] o[i]).0 < (
    #[trigger] o[j]).0 by {
        assert(out[i].0 < out[j].0);
    }
    assert forall|i: int| 0 <= i < o.len() implies b.contains_key((#[trigger] o[i]).0) && b[o[i].0]
        == o[i].1 && o[i].1.is_ready(now) by {
        assert(before.contains_key(out[i].0));
    }
    assert forall|ts: u32| #[trigger] a.contains_key(ts) implies b.contains_key(ts) && a[ts] == b[ts] by {
        assert(after.contains_key(ts));
    }
    assert forall|ts: u32| #[trigger]
        a.contains_key(ts) && (forall|other: u32| #[trigger] a.contains_key(other) ==> ts <= other)
            implies !a[ts].is_ready(now) by {
        assert(after.contains_key(ts));
        assert forall|other: u32| #[trigger] after.contains_key(other) implies ts <= other by {
            assert(a.contains_key(other));
        }
    }
}

/// What leaves is settled by what was there and the time: the oldest groups, as long as they are
/// ready.
pub proof fn law_drain_is_determined(
    before: Map<u32, GroupView>,
    now: u64,
    out: Seq<(u32, GroupView)>,
    after: Map<u32, GroupView>,
    ts: u32,
)
    requires
        before.dom().finite(),
        drained(before, now, out, after),
        before.contains_key(ts),
    ensures
        after.contains_key(ts) <==> exists|older: u32|
            older <= ts && #[trigger] before.contains_key(older) && !before[older].is_ready(now),
{
    if after.contains_key(ts) {
        let kept = after.dom();
        assert(kept.subset_of(before.dom()));
        vstd::set_lib::lemma_len_subset(kept, before.dom());
        let leq = |a: u32, b: u32| a <= b;
        let older = kept.find_unique_minimal(leq);
        kept.find_unique_minimal_ensures(leq);
        assert(after.contains_key(older));
        assert forall|other: u32| #[trigger] after.contains_key(other) implies older <= other by {
            assert(kept.contains(other));
            assert(vstd::relations::is_minimal(leq, older, kept));
            if other < older {
                assert(leq(other, older));
                assert(leq(older, other));
            }
        }
        assert(!after[older].is_ready(now));
        assert(before.contains_key(older));
    }
    if exists|older: u32|
        older <= ts && #[trigger] before.contains_key(older) && !before[older].is_ready(now) {
        let older = choose|older: u32|
            older <= ts && #[trigger] before.contains_key(older) && !before[older].is_ready(now);
        if !after.contains_key(ts) {
            let i = choose|i: int| 0 <= i < out.len() && (#[trigger] out[i]).0 == ts;
            if !after.contains_key(older) {
                let j = choose|j: int| 0 <= j < out.len() && (#[trigger] out[j]).0 == older;
                assert(before[out[j].0] == out[j].1);
            } else {
                assert(out[i].0 < older);
            }
        }
    }
}

// ---------------------------------------------------------------------------------------------
// Laws

/// The moment that lies `d` samples behind another is at or before it exactly where `d` is less than
/// half a turn of the clock, and that many samples have elapsed in between.
pub proof fn law_clock_counts_samples(ts: u32, d: u32)
    ensures
        elapsed(ts.wrapping_add(d), ts) == d,
        at_or_before(ts, ts.wrapping_add(d)) <==> d < 0x8000_0000,
{
}

/// A count has stepped back exactly where it lies one to 32767 behind.
pub proof fn law_count_steps_back(prev: u16, d: u16)
    ensures
        steps_back(prev, prev.wrapping_sub(d)) <==> 1 <= d < 0x8000,
{
}

/// There are 48 samples in a millisecond.
pub proof fn law_samples_of_a_millisecond(ms: int)
    requires
        ms >= 0,
    ensures
        samples_in(ms) == 48 * ms,
{
}

/// The buffer in effect is the one that is asked for, raised to two frames and held to ten seconds.
pub proof fn law_buffer_in_effect(ms: u32)
    ensures
        ms <= 40 ==> effective_buffer_ms(ms) == 40,
        40 <= ms <= 10_000 ==> effective_buffer_ms(ms) == ms,
        ms >= 10_000 ==> effective_buffer_ms(ms) == 10_000,
{
}

/// A group after packets were put in, one after the other, each with its channel.
pub open spec fn filled(g: GroupView, puts: Seq<(int, Seq<u8>)>) -> GroupView
    decreases puts.len(),
{
    if puts.len() == 0 {
        g
    } else {
        filled(g, puts.drop_last()).with(puts.last().0, puts.last().1)
    }
}

/// Whether a packet of a channel was put in.
pub open spec fn was_put(puts: Seq<(int, Seq<u8>)>, ch: int) -> bool {
    exists|k: int| 0 <= k < puts.len() && (#[trigger] puts[k]).0 == ch
}

proof fn lemma_filled(n: int, start: u64, puts: Seq<(int, Seq<u8>)>)
    requires
        forall|k: int| 0 <= k < puts.len() ==> 0 <= (#[trigger] puts[k]).0,
    ensures
        ({
            let g = filled(GroupView::fresh(n, start), puts);
            &&& g.packets.len() == 64
            &&& g.received_at == start
            &&& g.expected == GroupView::fresh(n, start).expected
            &&& forall|ch: int| 0 <= ch < 64 ==> (#[trigger] g.packets[ch] is Some <==> was_put(
                puts,
                ch,
            ))
        }),
    decreases puts.len(),
{
    if puts.len() > 0 {
        let before = puts.drop_last();
        assert forall|k: int| 0 <= k < before.len() implies 0 <= (#[trigger] before[k]).0 by {
            assert(before[k] == puts[k]);
        }
        lemma_filled(n, start, before);
        let last = puts[puts.len() - 1];
        assert(0 <= last.0);
        let g0 = filled(GroupView::fresh(n, start), before);
        let g = filled(GroupView::fresh(n, start), puts);
        assert forall|ch: int| 0 <= ch < 64 implies (#[trigger] g.packets[ch] is Some <==> was_put(
            puts,
            ch,
        )) by {
            assert(g0.packets[ch] is Some <==> was_put(before, ch));
            if was_put(before, ch) {
                let k = choose|k: int| 0 <= k < before.len() && (#[trigger] before[k]).0 == ch;
                assert(puts[k].0 == ch);
            }
            if was_put(puts, ch) && last.0 != ch {
                let k = choose|k: int| 0 <= k < puts.len() && (#[trigger] puts[k]).0 == ch;
                assert(before[k].0 == ch);
            }
        }
    }
}

/// A group waits for every channel that the other end has told of: before ten milliseconds are over
/// it is ready exactly when a packet of each of these channels was put in, and afterwards it is ready
/// whatever has come.
pub proof fn law_group_waits_for_every_channel(
    n: int,
    start: u64,
    puts: Seq<(int, Seq<u8>)>,
    now: u64,
)
    requires
        0 <= n <= 64,
        forall|k: int| 0 <= k < puts.len() ==> 0 <= (#[trigger] puts[k]).0,
    ensures
        ({
            let g = filled(GroupView::fresh(n, start), puts);
            &&& now - start < 10_000_000 ==> (g.is_ready(now) <==> forall|ch: int|
                0 <= ch < n ==> #[trigger] was_put(puts, ch))
            &&& now - start >= 10_000_000 ==> g.is_ready(now)
            &&& g.is_complete() <==> forall|ch: int| 0 <= ch < n ==> #[trigger] was_put(puts, ch)
        }),
{
    lemma_filled(n, start, puts);
    let g = filled(GroupView::fresh(n, start), puts);
    if g.is_complete() {
        assert forall|ch: int| 0 <= ch < n implies #[trigger] was_put(puts, ch) by {
            assert(g.expected.contains(ch as u8));
            assert(g.packets[ch] is Some);
        }
    }
    if forall|ch: int| 0 <= ch < n ==> #[trigger] was_put(puts, ch) {
        assert forall|ch: u8| #[trigger] g.expected.contains(ch) implies g.packets[ch as int] is Some by {
            assert(was_put(puts, ch as int));
        }
    }
}

/// A group holds for a channel the packet that was put in last.
pub proof fn law_group_holds_what_was_put(
    n: int,
    start: u64,
    puts: Seq<(int, Seq<u8>)>,
    k: int,
)
    requires
        0 <= k < puts.len(),
        forall|j: int| 0 <= j < puts.len() ==> 0 <= (#[trigger] puts[j]).0,
        puts[k].0 < 64,
        forall|j: int| k < j < puts.len() ==> (#[trigger] puts[j]).0 != puts[k].0,
    ensures
        filled(GroupView::fresh(n, start), puts).packets[puts[k].0] == Some(puts[k].1),
    decreases puts.len(),
{
    let before = puts.drop_last();
    assert forall|j: int| 0 <= j < before.len() implies 0 <= (#[trigger] before[j]).0 by {
        assert(before[j] == puts[j]);
    }
    lemma_filled(n, start, before);
    if k < puts.len() - 1 {
        assert(before[k] == puts[k]);
        assert forall|j: int| k < j < before.len() implies (#[trigger] before[j]).0 != before[k].0 by {
            assert(before[j] == puts[j]);
        }
        law_group_holds_what_was_put(n, start, before, k);
        assert(puts[puts.len() - 1].0 != puts[k].0);
        assert(0 <= puts[puts.len() - 1].0);
    }
}

/// A group that leaves before ten milliseconds are over holds a packet of every channel that it
/// expects; and what leaves is what was there, oldest first, nothing twice and nothing lost.
pub proof fn law_what_leaves_is_whole_or_late(
    before: Map<u32, GroupView>,
    now: u64,
    out: Seq<(u32, GroupView)>,
    after: Map<u32, GroupView>,
    n: int,
    i: int,
)
    requires
        drained(before, now, out, after),
        0 <= i < out.len(),
        0 <= n <= 64,
        forall|ch: u8| ch < n ==> #[trigger] out[i].1.expected.contains(ch),
    ensures
        now - out[i].1.received_at >= 10_000_000 || forall|ch: int|
            0 <= ch < n ==> #[trigger] out[i].1.packets[ch] is Some,
        before.contains_key(out[i].0) && before[out[i].0] == out[i].1,
        !after.contains_key(out[i].0),
        forall|j: int| i < j < out.len() ==> out[i].0 < (#[trigger] out[j]).0,
        forall|ts: u32| #[trigger] after.contains_key(ts) ==> out[i].0 < ts,
        forall|ts: u32| #[trigger]
            before.contains_key(ts) ==> after.contains_key(ts) || exists|j: int|
                0 <= j < out.len() && (#[trigger] out[j]).0 == ts,
{
    assert(out[i].1.is_ready(now));
    if now - out[i].1.received_at < 10_000_000 {
        assert forall|ch: int| 0 <= ch < n implies #[trigger] out[i].1.packets[ch] is Some by {
            assert(out[i].1.expected.contains(ch as u8));
        }
    }
    if after.contains_key(out[i].0) {
        assert(out[i].0 < out[i].0);
    }
}

/// To put a packet in does not make its group wait longer, and leaves the other groups and the other
/// channels as they were; a moment that had no group gets one that waits from now on.
pub proof fn law_packet_joins_its_group(
    m: Map<u32, GroupView>,
    ts: u32,
    n: int,
    channel: int,
    payload: Seq<u8>,
    now: u64,
)
    requires
        groups_wf(m),
        0 <= n <= 64,
        0 <= channel < 64,
    ensures
        ({
            let after = with_packet(m, ts, n, channel, payload, now);
            &&& forall|k: u32| k != ts ==> (#[trigger] after.contains_key(k) <==> m.contains_key(k))
            &&& forall|k: u32| k != ts && m.contains_key(k) ==> #[trigger] after[k] == m[k]
            &&& after.contains_key(ts)
            &&& after[ts].packets.len() == 64
            &&& after[ts].packets[channel] == Some(payload)
            &&& m.contains_key(ts) ==> after[ts].received_at == m[ts].received_at
                && after[ts].expected == m[ts].expected
            &&& !m.contains_key(ts) ==> after[ts].received_at == now && forall|ch: u8| #[trigger]
                after[ts].expected.contains(ch) <==> ch < n
            &&& forall|ch: int|
                0 <= ch < 64 && ch != channel ==> #[trigger] after[ts].packets[ch] == (
                if m.contains_key(ts) {
                    m[ts].packets[ch]
                } else {
                    None
                })
        }),
{
    if m.contains_key(ts) {
        assert(m[ts].wf());
    }
}

/// A group expects the channels that the other end has told of, of the 64 that there can be, and has
/// none of them yet.
pub proof fn law_group_starts_empty(n: int, now: u64, ch: u8)
    ensures
        GroupView::fresh(n, now).expected.contains(ch) <==> ch < n && ch < 64,
        GroupView::fresh(n, now).received_at == now,
        ch < 64 ==> GroupView::fresh(n, now).packets[ch as int] is None,
        GroupView::fresh(n, now).packets.len() == 64,
{
}

} // verus!
