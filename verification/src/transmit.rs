//! The send side: which sources a channel mixes, which packets a frame becomes, and when the next
//! frame is due.

use crate::constants::{
    FRAME_SAMPLES, SAMPLE_RATE, TX_SRC_EBU_L, TX_SRC_EBU_R, TX_SRC_INPUT_BASE,
};
use crate::link::packet_views;
use crate::packet::{build_packet, media_bytes};
use crate::routing::{
    code_of_bit, endpoint_channel, has_bit, law_channel_sends_what_is_routed,
    law_endpoint_roundtrip, law_remote_endpoint_roundtrip, remote_endpoint_name, send_bit, send_mask,
    source_code_from_bit_index, stream_endpoint,
};
use crate::state::RouteView;
use crate::text::decimal;
use std::collections::VecDeque;
use vstd::prelude::*;

verus! {

// ---------------------------------------------------------------------------------------------
// Capture rings

/// A ring after one more value: it drops its oldest value first where it is full.
pub open spec fn pushed<T>(ring: Seq<T>, capacity: int, v: T) -> Seq<T> {
    if ring.len() >= capacity && ring.len() > 0 {
        ring.skip(1).push(v)
    } else {
        ring.push(v)
    }
}

/// Puts a value into a ring, which drops its oldest value first where it is full.
pub fn push_bounded<T>(ring: &mut VecDeque<T>, capacity: usize, v: T)
    requires
        capacity > 0,
        old(ring)@.len() <= capacity,
    ensures
        final(ring)@ == pushed(old(ring)@, capacity as int, v),
        final(ring)@.len() <= capacity,
{
    if ring.len() >= capacity {
        let _ = ring.pop_front();
    }
    ring.push_back(v);
    assert(ring@ =~= pushed(old(ring)@, capacity as int, v));
}

/// Takes the `n` oldest values out of a ring, filled up with `silence` where there are fewer.
pub fn take_frame<T: Copy>(ring: &mut VecDeque<T>, n: usize, silence: T) -> (r: Vec<T>)
    ensures
        r@ == Seq::new(
            n as nat,
            |i: int| if i < old(ring)@.len() {
                old(ring)@[i]
            } else {
                silence
            },
        ),
        final(ring)@ == if n < old(ring)@.len() {
            old(ring)@.skip(n as int)
        } else {
            Seq::empty()
        },
{
    let ghost all = ring@;
    let mut out: Vec<T> = Vec::new();
    for i in 0..n
        invariant
            out@.len() == i,
            forall|j: int|
                0 <= j < i ==> #[trigger] out@[j] == if j < all.len() {
                    all[j]
                } else {
                    silence
                },
            ring@ == if i < all.len() {
                all.skip(i as int)
            } else {
                Seq::empty()
            },
    {
        match ring.pop_front() {
            Some(v) => {
                out.push(v);
            },
            None => {
                out.push(silence);
            },
        }
        assert(ring@ =~= if i + 1 < all.len() {
            all.skip(i + 1)
        } else {
            Seq::empty()
        });
    }
    assert(out@ =~= Seq::new(
        n as nat,
        |i: int| if i < all.len() {
            all[i]
        } else {
            silence
        },
    ));
    out
}

// ---------------------------------------------------------------------------------------------
// What a channel mixes

/// A source of a send channel.
#[derive(Clone, Copy, Debug, PartialEq, Eq, Structural)]
pub enum TxSource {
    /// A line-up tone, by its source code.
    Tone(usize),
    /// A physical input, by its number.
    Input(usize),
}

/// The source that a bit stands for, where there are `inputs` inputs.
pub open spec fn source_at(b: int, inputs: int) -> Option<TxSource> {
    match code_of_bit(b) {
        Some(code) => if code == TX_SRC_EBU_L || code == TX_SRC_EBU_R {
            Some(TxSource::Tone(code as usize))
        } else if code - TX_SRC_INPUT_BASE < inputs {
            Some(TxSource::Input((code - TX_SRC_INPUT_BASE) as usize))
        } else {
            None
        },
        None => None,
    }
}

/// The source that a bit of a mask adds.
pub open spec fn source_of_bit(mask: u64, inputs: int, b: int) -> Option<TxSource> {
    if has_bit(mask, b) {
        source_at(b, inputs)
    } else {
        None
    }
}

/// The sources of the first `n` bits, in their order.
pub open spec fn sources_below(mask: u64, inputs: int, n: int) -> Seq<TxSource>
    decreases n,
{
    if n <= 0 {
        Seq::empty()
    } else {
        match source_of_bit(mask, inputs, n - 1) {
            Some(source) => sources_below(mask, inputs, n - 1).push(source),
            None => sources_below(mask, inputs, n - 1),
        }
    }
}

/// The sources that a send channel mixes, in the order of their bits; inputs that are not there are
/// left out.
pub fn sources_in_mask(mask: u64, inputs: usize) -> (r: Vec<TxSource>)
    ensures
        r@ == sources_below(mask, inputs as int, 64),
{
    let mut out: Vec<TxSource> = Vec::new();
    for bit in 0..64usize
        invariant
            out@ == sources_below(mask, inputs as int, bit as int),
    {
        let n: u64 = bit as u64;
        assert((mask & (1u64 << n) != 0) == ((mask >> n) & 1 == 1)) by (bit_vector)
            requires
                n < 64,
        ;
        if mask & (1u64 << n) != 0 {
            if let Some(code) = source_code_from_bit_index(bit) {
                if code == TX_SRC_EBU_L || code == TX_SRC_EBU_R {
                    out.push(TxSource::Tone(code));
                } else if code - TX_SRC_INPUT_BASE < inputs {
                    out.push(TxSource::Input(code - TX_SRC_INPUT_BASE));
                }
            }
        }
    }
    out
}

/// Whether a line-up tone sounds at a sample: the right one always does; the left one rests for the
/// first quarter of a second in every three, by which the sides are told apart.
pub fn tone_sounds(source_code: usize, sample_index: u64) -> (r: bool)
    ensures
        r == (source_code == TX_SRC_EBU_R || (source_code == TX_SRC_EBU_L && sample_index as int % (
        3 * SAMPLE_RATE as int) >= SAMPLE_RATE / 4)),
        r == (source_code == 101 || (source_code == 100 && sample_index as int % 144_000 >= 12_000)),
{
    source_code == TX_SRC_EBU_R || (source_code == TX_SRC_EBU_L && sample_index % 144_000 >= 12_000)
}

proof fn lemma_sources_below(mask: u64, inputs: int, n: int, source: TxSource)
    requires
        0 <= n,
    ensures
        sources_below(mask, inputs, n).contains(source) <==> exists|b: int|
            0 <= b < n && #[trigger] source_of_bit(mask, inputs, b) == Some(source),
    decreases n,
{
    if n > 0 {
        let before = sources_below(mask, inputs, n - 1);
        let all = sources_below(mask, inputs, n);
        lemma_sources_below(mask, inputs, n - 1, source);
        let last = source_of_bit(mask, inputs, n - 1);
        if all.contains(source) && last != Some(source) {
            let i = choose|i: int| 0 <= i < all.len() && all[i] == source;
            assert(before[i] == source);
            assert(before.contains(source));
        }
        if before.contains(source) {
            let i = choose|i: int| 0 <= i < before.len() && before[i] == source;
            assert(all[i] == source);
        }
        if last == Some(source) {
            assert(all[before.len() as int] == source);
        }
    }
}

/// A send channel mixes a source exactly when some route joins the two, among the sources that have
/// a bit and are there.
pub proof fn law_channel_mixes_what_is_routed(
    routes: Seq<RouteView>,
    dst: int,
    inputs: int,
    source: TxSource,
)
    ensures
        sources_below(send_mask(routes, dst), inputs, 64).contains(source) <==> exists|i: int|
            0 <= i < routes.len() && (send_bit(#[trigger] routes[i], dst) matches Some(b)
                && source_at(b, inputs) == Some(source)),
{
    let mask = send_mask(routes, dst);
    lemma_sources_below(mask, inputs, 64, source);
    if sources_below(mask, inputs, 64).contains(source) {
        let b = choose|b: int|
            0 <= b < 64 && #[trigger] source_of_bit(mask, inputs, b) == Some(source);
        law_channel_sends_what_is_routed(routes, dst, b);
        let i = choose|i: int| 0 <= i < routes.len() && send_bit(#[trigger] routes[i], dst) == Some(b);
        assert(send_bit(routes[i], dst) == Some(b));
    }
    if exists|i: int|
        0 <= i < routes.len() && (send_bit(#[trigger] routes[i], dst) matches Some(b) && source_at(
            b,
            inputs,
        ) == Some(source)) {
        let i = choose|i: int|
            0 <= i < routes.len() && (send_bit(#[trigger] routes[i], dst) matches Some(b)
                && source_at(b, inputs) == Some(source));
        let b = send_bit(routes[i], dst)->0;
        law_channel_sends_what_is_routed(routes, dst, b);
        assert(source_of_bit(mask, inputs, b) == Some(source));
    }
}

// ---------------------------------------------------------------------------------------------
// Packets of a frame

/// The send side towards one remote.
pub struct RemoteTx {
    /// The channels that this remote gets.
    pub channels_to_send: Vec<usize>,
    /// The count of the next packet of each channel.
    pub seqs: Vec<u16>,
}

/// Whether some source is routed to a channel, where `masks` are the sources of each.
pub open spec fn is_routed(masks: Seq<usize>, ch: int) -> bool {
    0 <= ch < masks.len() && masks[ch] != 0
}

/// Which of the channels are encoded: those to which some source is routed.
pub fn channels_to_encode(masks: &[usize], num_channels: usize) -> (r: Vec<bool>)
    ensures
        r@ == Seq::new(num_channels as nat, |ch: int| is_routed(masks@, ch)),
        forall|ch: int|
            0 <= ch < num_channels ==> #[trigger] r@[ch] == (ch < masks@.len() && masks@[ch] != 0),
{
    let mut out: Vec<bool> = Vec::new();
    for ch in 0..num_channels
        invariant
            out@ == Seq::new(ch as nat, |i: int| is_routed(masks@, i)),
    {
        out.push(ch < masks.len() && masks[ch] != 0);
        assert(out@ =~= Seq::new((ch + 1) as nat, |i: int| is_routed(masks@, i)));
    }
    out
}

/// Whether a channel is sent: it exists, some source is routed to it, and its encoder gave something.
pub open spec fn is_sent(masks: Seq<usize>, encoded: Seq<Vec<u8>>, ch: usize) -> bool {
    ch < encoded.len() && is_routed(masks, ch as int) && encoded[ch as int]@.len() > 0
}

/// The packets of the first `n` channels that a remote gets, and the counts behind them.
pub open spec fn frame_packets(
    wanted: Seq<usize>,
    masks: Seq<usize>,
    encoded: Seq<Vec<u8>>,
    seqs: Seq<u16>,
    ts: u32,
    n: int,
) -> (Seq<Seq<u8>>, Seq<u16>)
    decreases n,
{
    if n <= 0 {
        (Seq::empty(), seqs)
    } else {
        let (packets, counts) = frame_packets(wanted, masks, encoded, seqs, ts, n - 1);
        let ch = wanted[n - 1];
        if is_sent(masks, encoded, ch) {
            (
                packets.push(
                    media_bytes(counts[ch as int], ts, ch as u8, encoded[ch as int]@),
                ),
                counts.update(ch as int, counts[ch as int].wrapping_add(1)),
            )
        } else {
            (packets, counts)
        }
    }
}

impl RemoteTx {
    /// The send side towards a remote that gets these channels.
    pub fn new(channels_to_send: Vec<usize>, num_channels: usize) -> (r: Self)
        ensures
            r.channels_to_send == channels_to_send,
            r.seqs@ == Seq::new(num_channels as nat, |i: int| 0u16),
    {
        let mut seqs: Vec<u16> = Vec::new();
        for i in 0..num_channels
            invariant
                seqs@.len() == i,
                forall|j: int| 0 <= j < i ==> seqs@[j] == 0,
        {
            seqs.push(0);
        }
        assert(seqs@ =~= Seq::new(num_channels as nat, |i: int| 0u16));
        RemoteTx { channels_to_send, seqs }
    }

    /// The packets that a frame becomes for this remote: one for each channel that it gets, that
    /// exists, to which some source is routed and that has something to send. Each channel has its
    /// own count, which goes on by one.
    pub fn packets(&mut self, masks: &[usize], encoded: &[Vec<u8>], ts: u32) -> (r: Vec<Vec<u8>>)
        requires
            old(self).seqs@.len() == encoded@.len(),
        ensures
            (packet_views(r@), final(self).seqs@) == frame_packets(
                old(self).channels_to_send@,
                masks@,
                encoded@,
                old(self).seqs@,
                ts,
                old(self).channels_to_send@.len() as int,
            ),
            final(self).channels_to_send == old(self).channels_to_send,
            final(self).seqs@.len() == old(self).seqs@.len(),
    {
        let mut out: Vec<Vec<u8>> = Vec::new();
        let ghost wanted = self.channels_to_send@;
        let ghost counts = self.seqs@;
        assert(packet_views(out@) =~= Seq::<Seq<u8>>::empty());
        let count: usize = self.channels_to_send.len();
        for i in 0..count
            invariant
                count == wanted.len(),
                wanted == self.channels_to_send@,
                self.channels_to_send == old(self).channels_to_send,
                self.seqs@.len() == encoded@.len(),
                (packet_views(out@), self.seqs@) == frame_packets(
                    wanted,
                    masks@,
                    encoded@,
                    counts,
                    ts,
                    i as int,
                ),
        {
            let ch: usize = self.channels_to_send[i];
            if ch < encoded.len() && ch < masks.len() && masks[ch] != 0 && encoded[ch].len() > 0 {
                let ghost before = out@;
                let seq: u16 = self.seqs[ch];
                let pkt = build_packet(seq, ts, ch as u8, encoded[ch].as_slice());
                assert(packet_views(before.push(pkt)) =~= packet_views(before).push(pkt@));
                out.push(pkt);
                self.seqs.set(ch, seq.wrapping_add(1));
            }
        }
        out
    }
}

/// The timestamp of the next frame.
pub fn next_timestamp(ts: u32) -> (r: u32)
    ensures
        r == ts.wrapping_add(960),
        (ts + FRAME_SAMPLES) % 0x1_0000_0000 == r,
{
    ts.wrapping_add(FRAME_SAMPLES as u32)
}

proof fn lemma_counts_kept(
    wanted: Seq<usize>,
    masks: Seq<usize>,
    encoded: Seq<Vec<u8>>,
    seqs: Seq<u16>,
    ts: u32,
    n: int,
    ch: int,
)
    requires
        0 <= n <= wanted.len(),
        seqs.len() == encoded.len(),
        forall|i: int| 0 <= i < n ==> wanted[i] != ch,
    ensures
        frame_packets(wanted, masks, encoded, seqs, ts, n).1.len() == seqs.len(),
        0 <= ch < seqs.len() ==> frame_packets(wanted, masks, encoded, seqs, ts, n).1[ch] == seqs[ch],
    decreases n,
{
    if n > 0 {
        lemma_counts_kept(wanted, masks, encoded, seqs, ts, n - 1, ch);
    }
}

/// A channel that a remote does not get is not counted for it: its count stays as it was.
pub proof fn law_other_counts_stay(
    wanted: Seq<usize>,
    masks: Seq<usize>,
    encoded: Seq<Vec<u8>>,
    seqs: Seq<u16>,
    ts: u32,
    ch: int,
)
    requires
        seqs.len() == encoded.len(),
        0 <= ch < seqs.len(),
        forall|i: int| 0 <= i < wanted.len() ==> wanted[i] != ch,
    ensures
        frame_packets(wanted, masks, encoded, seqs, ts, wanted.len() as int).1[ch] == seqs[ch],
{
    lemma_counts_kept(wanted, masks, encoded, seqs, ts, wanted.len() as int, ch);
}

// ---------------------------------------------------------------------------------------------
// Pacing

/// The next moment at which a frame is due, in nanoseconds: a frame after `deadline`, and more
/// frames later until it lies no more than a frame before `now`.
pub fn next_deadline(deadline: u64, frame: u64, now: u64) -> (r: u64)
    requires
        frame > 0,
        deadline + 2 * frame <= u64::MAX,
        now + frame <= u64::MAX,
    ensures
        exists|k: int| k >= 1 && r == deadline + #[trigger] (k * frame),
        r + frame >= now,
        r == deadline + frame || r < now,
{
    let mut next: u64 = deadline + frame;
    assert(next == deadline + 1 * frame);
    let ghost mut k: int = 1;
    while next + frame < now
        invariant
            frame > 0,
            k >= 1,
            next == deadline + k * frame,
            next + frame <= u64::MAX,
            now + frame <= u64::MAX,
            next == deadline + frame || next < now,
        decreases now - next,
    {
        assert((k + 1) * frame == k * frame + frame) by (nonlinear_arith);
        next = next + frame;
        proof {
            k = k + 1;
        }
    }
    assert(next == deadline + #[trigger] (k * frame));
    next
}

/// What to do while a moment has not come.
#[derive(Clone, Copy, Debug, PartialEq, Eq, Structural)]
pub enum Wait {
    Done,
    /// Sleep this many nanoseconds.
    Sleep(u64),
    Yield,
}

/// What to do at `now` to wait for `deadline`, both in nanoseconds: sleep up to a millisecond before
/// it, then give way.
pub fn wait_step(now: u64, deadline: u64) -> (r: Wait)
    ensures
        r == if now >= deadline {
            Wait::Done
        } else if deadline - now > 2_000_000 {
            Wait::Sleep((deadline - now - 1_000_000) as u64)
        } else {
            Wait::Yield
        },
{
    if now >= deadline {
        Wait::Done
    } else {
        let remaining: u64 = deadline - now;
        if remaining > 2_000_000 {
            Wait::Sleep(remaining - 1_000_000)
        } else {
            Wait::Yield
        }
    }
}

// ---------------------------------------------------------------------------------------------
// Laws

/// A ring ends with what was put in last, and keeps of what it held the newest that there is room for,
/// in order.
pub proof fn law_ring_keeps_the_newest<T>(ring: Seq<T>, capacity: int, v: T)
    requires
        0 < capacity,
        ring.len() <= capacity,
    ensures
        pushed(ring, capacity, v).last() == v,
        ring.len() < capacity ==> pushed(ring, capacity, v).len() == ring.len() + 1 && forall|i: int|
            0 <= i < ring.len() ==> pushed(ring, capacity, v)[i] == #[trigger] ring[i],
        ring.len() == capacity ==> pushed(ring, capacity, v).len() == capacity && forall|i: int|
            1 <= i < capacity ==> pushed(ring, capacity, v)[i - 1] == #[trigger] ring[i],
{
}

/// A channel mixes a physical input that is there where a route joins the two, and each tone where a
/// route joins the tone and the channel.
pub proof fn law_channel_mixes_its_routes(
    routes: Seq<RouteView>,
    i: int,
    idx: nat,
    dst: int,
    k: nat,
    inputs: int,
)
    requires
        0 <= i < routes.len(),
        idx <= usize::MAX,
        0 <= dst < 64,
        routes[i].destination == "stream:"@ + decimal(idx) + ":ch:"@ + decimal(dst as nat),
    ensures
        ({
            let mixed = sources_below(send_mask(routes, dst), inputs, 64);
            &&& k < 62 && k < inputs && routes[i].source == "input:"@ + decimal(k) ==> mixed.contains(
                TxSource::Input(k as usize),
            )
            &&& routes[i].source == "ebu:l"@ ==> mixed.contains(TxSource::Tone(100))
            &&& routes[i].source == "ebu:r"@ ==> mixed.contains(TxSource::Tone(101))
        }),
{
    law_remote_endpoint_roundtrip("stream:"@, idx, dst as nat);
    assert(remote_endpoint_name("stream:"@, idx, dst as nat) == routes[i].destination);
    reveal_strlit("ebu:l");
    reveal_strlit("ebu:r");
    reveal_strlit("input:");
    assert("ebu:l"@[4] != "ebu:r"@[4]);
    if k < 62 && k < inputs && routes[i].source == "input:"@ + decimal(k) {
        law_endpoint_roundtrip("input:"@, k);
        assert(("input:"@ + decimal(k))[0] == 'i');
        assert("ebu:l"@[0] == 'e' && "ebu:r"@[0] == 'e');
        assert(send_bit(routes[i], dst) == Some(2 + k as int));
        assert(source_at(2 + k as int, inputs) == Some(TxSource::Input(k as usize)));
        law_channel_mixes_what_is_routed(routes, dst, inputs, TxSource::Input(k as usize));
    }
    if routes[i].source == "ebu:l"@ {
        assert(send_bit(routes[i], dst) == Some(0int));
        law_channel_mixes_what_is_routed(routes, dst, inputs, TxSource::Tone(100));
    }
    if routes[i].source == "ebu:r"@ {
        assert(send_bit(routes[i], dst) == Some(1int));
        law_channel_mixes_what_is_routed(routes, dst, inputs, TxSource::Tone(101));
    }
}

/// A channel mixes nothing that no route joins to it, and no input that is not there.
pub proof fn law_channel_mixes_nothing_else(
    routes: Seq<RouteView>,
    dst: int,
    inputs: int,
    source: TxSource,
)
    requires
        sources_below(send_mask(routes, dst), inputs, 64).contains(source),
    ensures
        exists|i: int|
            0 <= i < routes.len() && (stream_endpoint((#[trigger] routes[i]).destination) matches Some(
                named,
            ) && named.1 == dst) && match source {
                TxSource::Tone(code) => (code == 100 && routes[i].source == "ebu:l"@) || (code == 101
                    && routes[i].source == "ebu:r"@),
                TxSource::Input(k) => k < inputs && endpoint_channel(routes[i].source, "input:"@)
                    == Some(k as nat),
            },
{
    law_channel_mixes_what_is_routed(routes, dst, inputs, source);
    let i = choose|i: int|
        0 <= i < routes.len() && (send_bit(#[trigger] routes[i], dst) matches Some(b) && source_at(
            b,
            inputs,
        ) == Some(source));
    assert(stream_endpoint(routes[i].destination) is Some);
}

/// No source is mixed twice into a channel.
pub proof fn law_sources_are_mixed_once(mask: u64, inputs: int, n: int)
    requires
        0 <= n <= 64,
    ensures
        sources_below(mask, inputs, n).no_duplicates(),
    decreases n,
{
    if n > 0 {
        law_sources_are_mixed_once(mask, inputs, n - 1);
        let before = sources_below(mask, inputs, n - 1);
        if let Some(last) = source_of_bit(mask, inputs, n - 1) {
            lemma_sources_below(mask, inputs, n - 1, last);
            if before.contains(last) {
                let b = choose|b: int|
                    0 <= b < n - 1 && #[trigger] source_of_bit(mask, inputs, b) == Some(last);
                assert(source_at(b, inputs) == source_at(n - 1, inputs));
            }
            assert forall|i: int, j: int|
                0 <= i < before.len() + 1 && 0 <= j < before.len() + 1 && i != j implies before.push(
                last,
            )[i] != before.push(last)[j] by {
                assert(i < before.len() ==> before.contains(before[i]));
                assert(j < before.len() ==> before.contains(before[j]));
            }
        }
    }
}

} // verus!
