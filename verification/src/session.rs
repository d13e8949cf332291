//! One link as a whole: which packets are its own, what each does, and what is reported of it.

use crate::constants::{FRAME_SAMPLES, WARNING_INTERVAL_NS};
use crate::jitter::{drained, drained_views, FrameGroup};
use crate::link::{link_step, packet_views, LinkConfig, LinkSetup, LinkState, LinkView, ResetReason};
use crate::packet::{
    handshake_of, media_of, parse_handshake_packet, parse_packet, HandshakePacket, HandshakeView,
};
use crate::state::PeerAddr;
use crate::stream::{
    active_channels, active_count, after_drain, media_step, Placed, StreamState, StreamView,
};
use crate::text::texts;
use vstd::prelude::*;

verus! {

// ---------------------------------------------------------------------------------------------
// Receiving

/// One link as a whole.
pub struct Session {
    pub config: LinkConfig,
    /// Whether the channels of a moment are played together.
    pub phase_lock: bool,
    pub link: LinkState,
    pub stream: StreamState,
    /// The count of resets up to which the receive side has followed.
    pub observed_epoch: u64,
}

/// What is around when a packet comes.
#[derive(Clone, Copy, Debug)]
pub struct Arrival {
    pub src: PeerAddr,
    /// The wall clock in milliseconds.
    pub now_ms: u64,
    /// The wall clock in microseconds.
    pub now_us: u64,
    /// A steady clock in nanoseconds.
    pub now_ns: u64,
    /// Whether the output still throws old samples away.
    pub flushing: bool,
}

/// What a packet brings about outside the session.
pub struct Received {
    /// What to send back to where the packet came from.
    pub sends: Vec<Vec<u8>>,
    /// Whether decoders and playback start anew.
    pub reset: Option<ResetReason>,
    /// The timestamp by which the jitter of arrival is measured, if it was audio.
    pub heard: Option<u32>,
    /// The channel and the payload that is to be decoded at once.
    pub decode: Option<(usize, Vec<u8>)>,
    /// Whether audio was taken in.
    pub accepted: bool,
}

/// What a packet brings about outside the session.
#[verifier::ext_equal]
pub struct ReceivedView {
    pub sends: Seq<Seq<u8>>,
    pub reset: Option<ResetReason>,
    pub heard: Option<u32>,
    pub decode: Option<(int, Seq<u8>)>,
    pub accepted: bool,
}

impl View for Received {
    type V = ReceivedView;

    open spec fn view(&self) -> ReceivedView {
        ReceivedView {
            sends: packet_views(self.sends@),
            reset: self.reset,
            heard: self.heard,
            decode: match self.decode {
                Some((ch, payload)) => Some((ch as int, payload@)),
                None => None,
            },
            accepted: self.accepted,
        }
    }
}

impl ReceivedView {
    /// Nothing.
    pub open spec fn nothing() -> ReceivedView {
        ReceivedView {
            sends: Seq::empty(),
            reset: None,
            heard: None,
            decode: None,
            accepted: false,
        }
    }
}

/// The parts of a session that packets change.
#[verifier::ext_equal]
pub struct SessionView {
    pub link: LinkView,
    pub stream: StreamView,
}

impl View for Session {
    type V = SessionView;

    open spec fn view(&self) -> SessionView {
        SessionView { link: self.link@, stream: self.stream@ }
    }
}

/// What a packet does to a session, and what it brings about.
pub open spec fn receive_step(
    c: LinkSetup,
    phase_lock: bool,
    s: SessionView,
    data: Seq<u8>,
    at: Arrival,
    labels: Seq<Seq<char>>,
) -> (SessionView, ReceivedView) {
    if s.link.is_stranger(c, at.src) {
        (
            SessionView { link: s.link.with_conflict(at.src), ..s },
            ReceivedView::nothing(),
        )
    } else if handshake_of(data) is Some {
        let (link, reply) = link_step(
            c,
            s.link,
            handshake_of(data)->0,
            at.src,
            at.now_ms,
            at.now_us,
            labels,
        );
        (
            SessionView {
                link,
                stream: if reply.reset is Some {
                    StreamView::fresh()
                } else {
                    s.stream
                },
            },
            ReceivedView { sends: reply.sends, reset: reply.reset, ..ReceivedView::nothing() },
        )
    } else if (!c.initiator && !s.link.connected) || media_of(data) is None {
        (s, ReceivedView::nothing())
    } else {
        let link = LinkView { last_audio_ms: at.now_ms, ..s.link };
        let p = media_of(data)->0;
        if at.flushing {
            (SessionView { link, ..s }, ReceivedView::nothing())
        } else {
            let (stream, outcome) = media_step(
                s.stream,
                p,
                data.len() as u64,
                phase_lock,
                link.remote_channels,
                at.now_ns,
            );
            (
                SessionView { link, stream },
                ReceivedView {
                    sends: Seq::empty(),
                    reset: if outcome.restarted {
                        Some(ResetReason::RtpRestart)
                    } else {
                        None
                    },
                    heard: Some(p.timestamp),
                    decode: if outcome.placed == Placed::DecodeNow {
                        Some((p.channel as int, p.opus))
                    } else {
                        None
                    },
                    accepted: outcome.placed != Placed::Dropped,
                },
            )
        }
    }
}

fn nothing() -> (r: Received)
    ensures
        r@ == ReceivedView::nothing(),
{
    let r = Received {
        sends: Vec::new(),
        reset: None,
        heard: None,
        decode: None,
        accepted: false,
    };
    assert(r@ =~= ReceivedView::nothing());
    r
}

impl Session {
    /// A session that has heard nothing yet.
    pub fn new(config: LinkConfig, phase_lock: bool) -> (r: Self)
        ensures
            r.config == config,
            r.phase_lock == phase_lock,
            r@ == (SessionView {
                link: LinkView::fresh(config.num_channels as int),
                stream: StreamView::fresh(),
            }),
            r.observed_epoch == 0,
            r.wf(),
    {
        let link = LinkState::new(config.num_channels);
        Session { config, phase_lock, link, stream: StreamState::new(), observed_epoch: 0 }
    }

    /// The receive side has a place for every channel.
    pub open spec fn wf(self) -> bool {
        self.stream@.wf()
    }

    /// Takes in a packet that came on the socket.
    pub fn receive(&mut self, data: &[u8], at: Arrival, labels: &[String]) -> (r: Received)
        requires
            old(self).wf(),
        ensures
            (final(self)@, r@) == receive_step(
                old(self).config@,
                old(self).phase_lock,
                old(self)@,
                data@,
                at,
                texts(labels@),
            ),
            final(self).wf(),
            final(self).config == old(self).config,
            final(self).phase_lock == old(self).phase_lock,
            final(self).observed_epoch == old(self).observed_epoch,
    {
        if self.link.refuse_stranger(&self.config, at.src) {
            return nothing();
        }
        if let Some(pkt) = parse_handshake_packet(data) {
            let reply = self.link.on_handshake(
                &self.config,
                pkt,
                at.src,
                at.now_ms,
                at.now_us,
                labels,
            );
            if reply.reset.is_some() {
                self.stream.reset();
            }
            return Received {
                sends: reply.sends,
                reset: reply.reset,
                heard: None,
                decode: None,
                accepted: false,
            };
        }
        if !self.config.is_initiator && !self.link.connected {
            return nothing();
        }
        let p = match parse_packet(data) {
            Some(p) => p,
            None => {
                return nothing();
            },
        };
        self.link.last_audio_ms = at.now_ms;
        if at.flushing {
            return nothing();
        }
        let outcome = self.stream.on_media(
            &p,
            data.len() as u64,
            self.phase_lock,
            self.link.remote_channels,
            at.now_ns,
        );
        let mut r = nothing();
        if outcome.restarted {
            r.reset = Some(ResetReason::RtpRestart);
        }
        r.heard = Some(p.timestamp);
        match outcome.placed {
            Placed::Dropped => {},
            Placed::Grouped => {
                r.accepted = true;
            },
            Placed::DecodeNow => {
                let mut payload: Vec<u8> = Vec::new();
                payload.extend_from_slice(p.opus_payload);
                assert(payload@ =~= p.opus_payload@);
                r.decode = Some((p.channel as usize, payload));
                r.accepted = true;
            },
        }
        assert(r@ =~= (ReceivedView {
            sends: Seq::empty(),
            reset: if outcome.restarted {
                Some(ResetReason::RtpRestart)
            } else {
                None
            },
            heard: Some(p@.timestamp),
            decode: if outcome.placed == Placed::DecodeNow {
                Some((p@.channel as int, p@.opus))
            } else {
                None
            },
            accepted: outcome.placed != Placed::Dropped,
        }));
        r
    }

    /// Follows the resets that the watchdog and the network have asked for. Returns whether the
    /// receive side has started anew.
    pub fn follow_epoch(&mut self) -> (r: bool)
        requires
            old(self).wf(),
        ensures
            r == (old(self).link.reset_epoch != old(self).observed_epoch),
            final(self).observed_epoch == old(self).link.reset_epoch,
            final(self)@ == if r {
                SessionView {
                    link: LinkView { known_metadata: None, ..old(self)@.link },
                    stream: StreamView::fresh(),
                }
            } else {
                old(self)@
            },
            final(self).wf(),
            final(self).config == old(self).config,
            final(self).phase_lock == old(self).phase_lock,
    {
        if self.link.reset_epoch == self.observed_epoch {
            return false;
        }
        self.observed_epoch = self.link.reset_epoch;
        self.link.known_metadata = None;
        self.stream.reset();
        true
    }

    /// Takes out the groups that are to be played, oldest first; without phase lock there are none.
    pub fn drain(&mut self, now_ns: u64) -> (r: Vec<(u32, FrameGroup)>)
        requires
            old(self).wf(),
        ensures
            final(self).wf(),
            final(self).link == old(self).link,
            final(self).config == old(self).config,
            final(self).phase_lock == old(self).phase_lock,
            final(self).observed_epoch == old(self).observed_epoch,
            !old(self).phase_lock ==> r@.len() == 0 && final(self).stream == old(self).stream,
            old(self).phase_lock ==> {
                &&& drained(
                    old(self)@.stream.groups,
                    now_ns,
                    drained_views(r@),
                    final(self)@.stream.groups,
                )
                &&& final(self)@.stream == after_drain(
                    old(self)@.stream,
                    drained_views(r@),
                    final(self)@.stream.groups,
                )
            },
    {
        if !self.phase_lock {
            return Vec::new();
        }
        self.stream.drain(self.link.remote_channels, now_ns)
    }
}

/// Whether the ring of a channel is waited for and watched: every channel that the other end has
/// told of where channels are played together, for those that do not come are concealed. Where each
/// is decoded on its own, those of which a packet has come, as nothing comes of a channel to which
/// nothing is routed; before the first packet all of them.
pub open spec fn is_in_play(s: SessionView, phase_lock: bool, ch: int) -> bool {
    let active = active_channels(s.link.remote_channels);
    0 <= ch < active && (phase_lock || s.stream.last_seq[ch] is Some || forall|j: int|
        0 <= j < active ==> #[trigger] s.stream.last_seq[j] is None)
}

impl Session {
    /// Which of the channels that the other end has told of are waited for and watched.
    pub fn channels_in_play(&self) -> (r: Vec<bool>)
        requires
            self.wf(),
        ensures
            r@ == Seq::new(
                active_channels(self@.link.remote_channels) as nat,
                |ch: int| is_in_play(self@, self.phase_lock, ch),
            ),
    {
        let active: usize = active_count(self.link.remote_channels);
        let mut all: bool = true;
        for ch in 0..active
            invariant
                active == active_channels(self@.link.remote_channels),
                self.wf(),
                all == forall|j: int| 0 <= j < ch ==> #[trigger] self@.stream.last_seq[j] is None,
        {
            if self.stream.last_seq[ch].is_some() {
                assert(self@.stream.last_seq[ch as int] is Some);
                all = false;
            }
        }
        let mut out: Vec<bool> = Vec::new();
        for ch in 0..active
            invariant
                active == active_channels(self@.link.remote_channels),
                self.wf(),
                all == forall|j: int| 0 <= j < active ==> #[trigger] self@.stream.last_seq[j] is None,
                out@ == Seq::new(ch as nat, |i: int| is_in_play(self@, self.phase_lock, i)),
        {
            out.push(self.phase_lock || all || self.stream.last_seq[ch].is_some());
            assert(out@ =~= Seq::new(
                (ch + 1) as nat,
                |i: int| is_in_play(self@, self.phase_lock, i),
            ));
        }
        out
    }
}

/// The fills of the rings of the channels in play.
pub open spec fn fills_of(in_play: Seq<bool>, occupied: Seq<usize>) -> Seq<usize>
    decreases occupied.len(),
{
    if occupied.len() == 0 {
        Seq::empty()
    } else {
        let before = fills_of(in_play, occupied.drop_last());
        if occupied.len() <= in_play.len() && in_play[occupied.len() - 1] {
            before.push(occupied.last())
        } else {
            before
        }
    }
}

/// The fills of the rings of the channels in play, in their order.
pub fn fills_in_play(in_play: &[bool], occupied: &[usize]) -> (r: Vec<usize>)
    ensures
        r@ == fills_of(in_play@, occupied@),
{
    let mut out: Vec<usize> = Vec::new();
    for ch in 0..occupied.len()
        invariant
            out@ == fills_of(in_play@, occupied@.take(ch as int)),
    {
        assert(occupied@.take(ch + 1).drop_last() =~= occupied@.take(ch as int));
        if ch < in_play.len() && in_play[ch] {
            out.push(occupied[ch]);
        }
    }
    assert(occupied@.take(occupied@.len() as int) =~= occupied@);
    out
}

/// A stranger cannot disturb a responder that is bound: whatever they send, nothing is answered and
/// only the conflict is noted.
pub proof fn law_stranger_is_ignored(
    c: LinkSetup,
    phase_lock: bool,
    s: SessionView,
    data: Seq<u8>,
    at: Arrival,
    labels: Seq<Seq<char>>,
    bound: PeerAddr,
)
    requires
        !c.initiator,
        s.link.established == Some(bound),
        at.src != bound,
    ensures
        ({
            let (after, out) = receive_step(c, phase_lock, s, data, at, labels);
            &&& out == ReceivedView::nothing()
            &&& after.stream == s.stream
            &&& after.link == s.link.with_conflict(at.src)
            &&& after.link.connected == s.link.connected
            &&& after.link.established == s.link.established
        }),
{
}

/// Audio plays no part before the handshake: it does nothing to a responder that is not connected.
pub proof fn law_no_audio_before_handshake(
    c: LinkSetup,
    phase_lock: bool,
    s: SessionView,
    data: Seq<u8>,
    at: Arrival,
    labels: Seq<Seq<char>>,
)
    requires
        !c.initiator,
        !s.link.connected,
        s.link.established is None,
        handshake_of(data) is None,
    ensures
        receive_step(c, phase_lock, s, data, at, labels) == (s, ReceivedView::nothing()),
{
}

/// Audio never changes who is connected to whom, and is never answered.
pub proof fn law_audio_is_not_answered(
    c: LinkSetup,
    phase_lock: bool,
    s: SessionView,
    data: Seq<u8>,
    at: Arrival,
    labels: Seq<Seq<char>>,
)
    requires
        handshake_of(data) is None,
    ensures
        ({
            let (after, out) = receive_step(c, phase_lock, s, data, at, labels);
            &&& out.sends.len() == 0
            &&& after.link.connected == s.link.connected
            &&& after.link.established == s.link.established
            &&& after.link.remote_channels == s.link.remote_channels
            &&& after.link.known_metadata == s.link.known_metadata
        }),
{
}

/// Whatever makes the receive side start anew, nothing of the old session is left in it.
pub proof fn law_reset_leaves_nothing(
    c: LinkSetup,
    phase_lock: bool,
    s: SessionView,
    data: Seq<u8>,
    at: Arrival,
    labels: Seq<Seq<char>>,
    ts: u32,
)
    requires
        receive_step(c, phase_lock, s, data, at, labels).1.reset is Some,
    ensures
        ({
            let (after, out) = receive_step(c, phase_lock, s, data, at, labels);
            &&& out.reset != Some(ResetReason::RtpRestart) ==> after.stream == StreamView::fresh()
            &&& after.stream.last_drained_ts is None
            &&& after.stream.groups.contains_key(ts) ==> out.heard == Some(ts)
        }),
{
}

// ---------------------------------------------------------------------------------------------
// Playback

/// How many samples per channel the output throws away when the receive side starts anew, where the
/// fullest ring in play holds `old_fill`; none if the rings are empty.
pub open spec fn flush_after_reset(old_fill: int) -> Option<int> {
    if old_fill <= 0 {
        None
    } else if old_fill + FRAME_SAMPLES > usize::MAX {
        Some(usize::MAX as int)
    } else {
        Some(old_fill + FRAME_SAMPLES)
    }
}

/// How many samples per channel the output throws away when the receive side starts anew.
pub fn flush_samples_after_reset(old_fill: usize) -> (r: Option<usize>)
    ensures
        match r {
            Some(n) => flush_after_reset(old_fill as int) == Some(n as int),
            None => flush_after_reset(old_fill as int) is None,
        },
{
    if old_fill == 0 {
        None
    } else {
        Some(old_fill.saturating_add(FRAME_SAMPLES))
    }
}

/// The fill of the fullest of some rings; zero where there is none.
pub open spec fn fullest(occupied: Seq<usize>) -> usize
    decreases occupied.len(),
{
    if occupied.len() == 0 {
        0
    } else if fullest(occupied.drop_last()) >= occupied.last() {
        fullest(occupied.drop_last())
    } else {
        occupied.last()
    }
}

/// The fill of the fullest ring of the channels in play.
pub fn fullest_ring(occupied: &[usize], remote_channels: usize) -> (r: usize)
    ensures
        r == fullest(
            if active_channels(remote_channels as int) < occupied@.len() {
                occupied@.take(active_channels(remote_channels as int))
            } else {
                occupied@
            },
        ),
{
    let mut active: usize = active_count(remote_channels);
    if active > occupied.len() {
        active = occupied.len();
    }
    let mut fill: usize = 0;
    for i in 0..active
        invariant
            active <= occupied@.len(),
            fill == fullest(occupied@.take(i as int)),
    {
        assert(occupied@.take(i + 1).drop_last() =~= occupied@.take(i as int));
        if occupied[i] > fill {
            fill = occupied[i];
        }
    }
    assert(active == occupied@.len() ==> occupied@.take(active as int) =~= occupied@);
    fill
}

/// Whether playback can begin: it has not yet, and the ring of every channel in play holds
/// `prime_samples`.
pub fn is_primed(started: bool, occupied: &[usize], remote_channels: usize, prime_samples: usize) -> (r:
    bool)
    ensures
        r <==> !started && forall|ch: int|
            0 <= ch < active_channels(remote_channels as int) && ch < occupied@.len()
                ==> occupied@[ch] >= prime_samples,
{
    if started {
        return false;
    }
    let active: usize = active_count(remote_channels);
    for ch in 0..occupied.len()
        invariant
            active == active_channels(remote_channels as int),
            forall|j: int| 0 <= j < ch && j < active ==> occupied@[j] >= prime_samples,
    {
        if ch < active && occupied[ch] < prime_samples {
            assert(occupied@[ch as int] < prime_samples);
            return false;
        }
    }
    true
}

// ---------------------------------------------------------------------------------------------
// Which session a packet is for

/// The token by which a packet names a link.
pub open spec fn named_token(pkt: HandshakeView) -> Option<Seq<u8>> {
    match pkt {
        HandshakeView::Probe { sender_token: _, expected_peer } => Some(expected_peer),
        HandshakeView::Accept { token } => Some(token),
        HandshakeView::Confirm { token } => Some(token),
        _ => None,
    }
}

/// The first session with this token.
pub open spec fn first_with_token(tokens: Seq<[u8; 16]>, token: Seq<u8>) -> Option<int>
    decreases tokens.len(),
{
    if tokens.len() == 0 {
        None
    } else {
        match first_with_token(tokens.drop_last(), token) {
            Some(i) => Some(i),
            None => if tokens.last()@ == token {
                Some(tokens.len() - 1)
            } else {
                None
            },
        }
    }
}

/// The session that a packet asks for by its token.
pub open spec fn asked_session(tokens: Seq<[u8; 16]>, data: Seq<u8>) -> Option<int> {
    match handshake_of(data) {
        Some(pkt) => match named_token(pkt) {
            Some(token) => first_with_token(tokens, token),
            None => None,
        },
        None => None,
    }
}

/// Hands packets that come on one socket to the session they are for.
pub struct Demux {
    /// The token of each session.
    pub tokens: Vec<[u8; 16]>,
    /// The addresses that have shown a token, each with its session.
    pub known: Vec<(PeerAddr, usize)>,
}

impl View for Demux {
    type V = Map<PeerAddr, int>;

    /// The session of each address that has shown a token.
    open spec fn view(&self) -> Map<PeerAddr, int> {
        known_map(self.known@)
    }
}

/// The sessions of some addresses; an address that stands there twice has the first.
pub open spec fn known_map(known: Seq<(PeerAddr, usize)>) -> Map<PeerAddr, int>
    decreases known.len(),
{
    if known.len() == 0 {
        Map::empty()
    } else {
        let before = known_map(known.drop_last());
        if before.contains_key(known.last().0) {
            before
        } else {
            before.insert(known.last().0, known.last().1 as int)
        }
    }
}

proof fn lemma_known_map(known: Seq<(PeerAddr, usize)>, n: int, src: PeerAddr)
    requires
        0 <= n <= known.len(),
    ensures
        known_map(known.take(n)).contains_key(src) ==> known_map(known).contains_key(src)
            && known_map(known)[src] == known_map(known.take(n))[src],
    decreases known.len() - n,
{
    if n < known.len() {
        lemma_known_map(known, n + 1, src);
        assert(known.take(n + 1).drop_last() =~= known.take(n));
    } else {
        assert(known.take(n) =~= known);
    }
}

fn session_with_token(tokens: &[[u8; 16]], token: &[u8; 16]) -> (r: Option<usize>)
    ensures
        match r {
            Some(i) => i < tokens@.len() && first_with_token(tokens@, token@) == Some(i as int),
            None => first_with_token(tokens@, token@) is None,
        },
{
    for i in 0..tokens.len()
        invariant
            first_with_token(tokens@.take(i as int), token@) is None,
    {
        assert(tokens@.take(i + 1).drop_last() =~= tokens@.take(i as int));
        let mut same: bool = true;
        for k in 0..16usize
            invariant
                i < tokens@.len(),
                same == (forall|j: int| 0 <= j < k ==> tokens@[i as int]@[j] == token@[j]),
        {
            if tokens[i][k] != token[k] {
                same = false;
            }
        }
        if same {
            assert(tokens@[i as int]@ =~= token@);
            proof {
                lemma_first_stays(tokens@, i + 1, token@);
            }
            return Some(i);
        }
    }
    assert(tokens@.take(tokens@.len() as int) =~= tokens@);
    None
}

proof fn lemma_first_stays(tokens: Seq<[u8; 16]>, n: int, token: Seq<u8>)
    requires
        0 <= n <= tokens.len(),
    ensures
        first_with_token(tokens.take(n), token) is Some ==> first_with_token(tokens, token)
            == first_with_token(tokens.take(n), token),
    decreases tokens.len() - n,
{
    if n < tokens.len() {
        lemma_first_stays(tokens, n + 1, token);
        assert(tokens.take(n + 1).drop_last() =~= tokens.take(n));
    } else {
        assert(tokens.take(n) =~= tokens);
    }
}

impl Demux {
    /// A demultiplexer of the sessions with these tokens; no address is known.
    pub fn new(tokens: Vec<[u8; 16]>) -> (r: Self)
        ensures
            r.tokens == tokens,
            r@ == Map::<PeerAddr, int>::empty(),
            r.wf(),
    {
        let r = Demux { tokens, known: Vec::new() };
        assert(r@ =~= Map::<PeerAddr, int>::empty());
        r
    }

    /// Every address that is known stands for one of the sessions.
    pub open spec fn wf(self) -> bool {
        forall|i: int| 0 <= i < self.known@.len() ==> (#[trigger] self.known@[i]).1 < self.tokens@.len()
    }

    /// The session that a packet is for. An address that is known keeps its session; another is
    /// known from the first packet on with which it shows a token.
    pub fn route(&mut self, src: PeerAddr, data: &[u8]) -> (r: Option<usize>)
        requires
            old(self).wf(),
        ensures
            final(self).wf(),
            final(self).tokens == old(self).tokens,
            r matches Some(i) ==> i < old(self).tokens@.len(),
            old(self)@.contains_key(src) ==> {
                &&& r is Some
                &&& r->0 as int == old(self)@[src]
                &&& final(self)@ == old(self)@
            },
            !old(self)@.contains_key(src) ==> match asked_session(old(self).tokens@, data@) {
                Some(i) => r is Some && r->0 as int == i && final(self)@ == old(self)@.insert(src, i),
                None => r is None && final(self)@ == old(self)@,
            },
    {
        for i in 0..self.known.len()
            invariant
                *self == *old(self),
                self.wf(),
                !known_map(self.known@.take(i as int)).contains_key(src),
        {
            assert(self.known@.take(i + 1).drop_last() =~= self.known@.take(i as int));
            if self.known[i].0 == src {
                proof {
                    lemma_known_map(self.known@, i + 1, src);
                }
                return Some(self.known[i].1);
            }
        }
        assert(self.known@.take(self.known@.len() as int) =~= self.known@);
        let token: [u8; 16] = match parse_handshake_packet(data) {
            Some(HandshakePacket::Probe { sender_token: _, expected_peer }) => expected_peer,
            Some(HandshakePacket::Accept { token }) => token,
            Some(HandshakePacket::Confirm { token }) => token,
            _ => {
                return None;
            },
        };
        let found = session_with_token(self.tokens.as_slice(), &token);
        if let Some(i) = found {
            self.known.push((src, i));
            assert(self.known@.drop_last() =~= old(self).known@);
        }
        found
    }
}

// ---------------------------------------------------------------------------------------------
// What is reported

/// The totals that were reported last.
#[derive(Clone, Copy, Debug, PartialEq, Eq)]
pub struct StatsMarks {
    pub decoded: u64,
    pub media: u64,
    pub rx_bytes: u64,
    pub plc: u64,
    pub lost: u64,
    pub underflows: u64,
    pub overflows: u64,
}

/// What has come since the last report.
#[derive(Clone, Copy, Debug, PartialEq, Eq)]
pub struct StatsReport {
    pub frames: u64,
    pub packets: u64,
    pub bytes: u64,
    pub plc: u64,
    pub lost: u64,
    pub underflows: u64,
    pub overflows: u64,
    /// Packets that were sent, as far as can be told: those that came and those that are missing.
    pub expected: u64,
}

/// What has been added; zero where the total has gone back.
pub open spec fn added(now: u64, before: u64) -> u64 {
    if now >= before {
        (now - before) as u64
    } else {
        0
    }
}

impl StatsMarks {
    /// No totals yet.
    pub fn new() -> (r: Self)
        ensures
            r == (StatsMarks {
                decoded: 0,
                media: 0,
                rx_bytes: 0,
                plc: 0,
                lost: 0,
                underflows: 0,
                overflows: 0,
            }),
    {
        StatsMarks {
            decoded: 0,
            media: 0,
            rx_bytes: 0,
            plc: 0,
            lost: 0,
            underflows: 0,
            overflows: 0,
        }
    }

    /// The receive side starts anew; underflows so far are not reported again.
    pub fn reset(&mut self, underflows: u64)
        ensures
            *final(self) == (StatsMarks {
                decoded: 0,
                media: 0,
                rx_bytes: 0,
                plc: 0,
                lost: 0,
                underflows,
                overflows: old(self).overflows,
            }),
    {
        self.decoded = 0;
        self.media = 0;
        self.rx_bytes = 0;
        self.plc = 0;
        self.lost = 0;
        self.underflows = underflows;
    }

    /// What has come since the last report; the totals are taken down for the next.
    pub fn report(&mut self, stream: &StreamState, underflows: u64, overflows: u64) -> (r: StatsReport)
        ensures
            r.frames == added(stream.decoded_total, old(self).decoded),
            r.packets == added(stream.media_total, old(self).media),
            r.bytes == added(stream.rx_bytes_total, old(self).rx_bytes),
            r.plc == added(stream.plc_total, old(self).plc),
            r.lost == added(stream.lost_total, old(self).lost),
            r.underflows == added(underflows, old(self).underflows),
            r.overflows == added(overflows, old(self).overflows),
            r.expected == if r.packets + r.lost <= u64::MAX {
                r.packets + r.lost
            } else {
                u64::MAX as int
            },
            *final(self) == (StatsMarks {
                decoded: stream.decoded_total,
                media: stream.media_total,
                rx_bytes: stream.rx_bytes_total,
                plc: stream.plc_total,
                lost: stream.lost_total,
                underflows,
                overflows,
            }),
    {
        let packets: u64 = stream.media_total.saturating_sub(self.media);
        let lost: u64 = stream.lost_total.saturating_sub(self.lost);
        let r = StatsReport {
            frames: stream.decoded_total.saturating_sub(self.decoded),
            packets,
            bytes: stream.rx_bytes_total.saturating_sub(self.rx_bytes),
            plc: stream.plc_total.saturating_sub(self.plc),
            lost,
            underflows: underflows.saturating_sub(self.underflows),
            overflows: overflows.saturating_sub(self.overflows),
            expected: packets.saturating_add(lost),
        };
        self.decoded = stream.decoded_total;
        self.media = stream.media_total;
        self.rx_bytes = stream.rx_bytes_total;
        self.plc = stream.plc_total;
        self.lost = stream.lost_total;
        self.underflows = underflows;
        self.overflows = overflows;
        r
    }
}

/// The buffer that is recommended, where `jitter_ms` is four times the jitter that is rarely
/// exceeded, in whole milliseconds.
pub fn recommended_buffer_ms(jitter_ms: u32) -> (r: u32)
    ensures
        80 <= r <= 500,
        80 <= jitter_ms <= 500 ==> r == jitter_ms,
        jitter_ms < 80 ==> r == 80,
        jitter_ms > 500 ==> r == 500,
{
    if jitter_ms < 80 {
        80
    } else if jitter_ms > 500 {
        500
    } else {
        jitter_ms
    }
}

/// Whether the receive buffer has run too full: it holds more than three times what it should.
pub fn buffer_high(fill_ms: usize, target_ms: u32) -> (r: bool)
    ensures
        r == (fill_ms > 3 * target_ms),
{
    fill_ms as u64 > 3 * target_ms as u64
}

/// Whether a warning is given at `now` that was last given at `last`, both in nanoseconds: no more
/// than one in ten seconds.
pub fn warning_due(last: Option<u64>, now: u64) -> (r: bool)
    ensures
        r == match last {
            Some(then) => now - then >= WARNING_INTERVAL_NS,
            None => true,
        },
        r <==> (last matches Some(then) ==> now - then >= 10_000_000_000),
{
    match last {
        Some(then) => now >= then && now - then >= WARNING_INTERVAL_NS,
        None => true,
    }
}

// ---------------------------------------------------------------------------------------------
// What a packet does

/// A handshake packet is the link's: the link takes it, what the link answers is sent, and the receive
/// side starts anew where the link says so and is untouched otherwise. No audio comes of it.
pub proof fn law_handshakes_go_to_the_link(
    c: LinkSetup,
    phase_lock: bool,
    s: SessionView,
    data: Seq<u8>,
    at: Arrival,
    labels: Seq<Seq<char>>,
)
    requires
        c.initiator || s.link.established is None || s.link.established == Some(at.src),
        handshake_of(data) is Some,
    ensures
        ({
            let (after, out) = receive_step(c, phase_lock, s, data, at, labels);
            let (link, reply) = link_step(
                c,
                s.link,
                handshake_of(data)->0,
                at.src,
                at.now_ms,
                at.now_us,
                labels,
            );
            &&& after.link == link
            &&& out.sends == reply.sends
            &&& out.reset == reply.reset
            &&& reply.reset is None ==> after.stream == s.stream
            &&& reply.reset is Some ==> after.stream == StreamView::fresh()
            &&& out.heard is None && out.decode is None && !out.accepted
        }),
{
}

/// Audio is the receive side's, at an end that calls and at one that is connected: the watchdog hears
/// it, and unless the rings are being emptied the receive side takes the packet, with as many channels
/// as the link has learnt. Nothing else of the link changes and nothing is answered.
pub proof fn law_audio_goes_to_the_stream(
    c: LinkSetup,
    phase_lock: bool,
    s: SessionView,
    data: Seq<u8>,
    at: Arrival,
    labels: Seq<Seq<char>>,
)
    requires
        c.initiator || (s.link.connected && (s.link.established is None || s.link.established == Some(
            at.src,
        ))),
        handshake_of(data) is None,
        media_of(data) is Some,
    ensures
        ({
            let p = media_of(data)->0;
            let (after, out) = receive_step(c, phase_lock, s, data, at, labels);
            &&& after.link.last_audio_ms == at.now_ms
            &&& (LinkView { last_audio_ms: s.link.last_audio_ms, ..after.link }) == s.link
            &&& out.sends.len() == 0
            &&& at.flushing ==> after.stream == s.stream && out.heard is None && out.decode is None
                && out.reset is None && !out.accepted
            &&& !at.flushing ==> {
                let (stream, outcome) = media_step(
                    s.stream,
                    p,
                    data.len() as u64,
                    phase_lock,
                    s.link.remote_channels,
                    at.now_ns,
                );
                &&& after.stream == stream
                &&& out.heard == Some(p.timestamp)
                &&& out.reset == if outcome.restarted {
                    Some(ResetReason::RtpRestart)
                } else {
                    None
                }
                &&& out.decode is Some <==> outcome.placed == Placed::DecodeNow
                &&& out.decode matches Some(d) ==> d == (p.channel as int, p.opus)
                &&& out.accepted <==> outcome.placed != Placed::Dropped
            }
        }),
{
}

/// Audio is passed over by an end that waits and has no peer, and so is what is neither audio nor a
/// handshake.
pub proof fn law_other_packets_are_passed_over(
    c: LinkSetup,
    phase_lock: bool,
    s: SessionView,
    data: Seq<u8>,
    at: Arrival,
    labels: Seq<Seq<char>>,
)
    requires
        c.initiator || s.link.established is None || s.link.established == Some(at.src),
        handshake_of(data) is None,
        media_of(data) is None || (!c.initiator && !s.link.connected),
    ensures
        ({
            let (after, out) = receive_step(c, phase_lock, s, data, at, labels);
            &&& after == s
            &&& out.sends.len() == 0
            &&& out.heard is None && out.decode is None && out.reset is None && !out.accepted
        }),
{
}

// ---------------------------------------------------------------------------------------------
// Rings

/// Where the channels of a moment are played together, all that the other end has are in play.
/// Otherwise those that were heard are, or all as long as none was.
pub proof fn law_which_channels_are_in_play(s: SessionView, ch: int, other: int)
    requires
        1 <= s.link.remote_channels <= 64,
        0 <= ch < s.link.remote_channels,
        0 <= other < s.link.remote_channels,
    ensures
        is_in_play(s, true, ch),
        s.stream.last_seq[ch] is Some ==> is_in_play(s, false, ch),
        s.stream.last_seq[ch] is None && s.stream.last_seq[other] is Some ==> !is_in_play(
            s,
            false,
            ch,
        ),
        (forall|j: int|
            0 <= j < s.link.remote_channels ==> #[trigger] s.stream.last_seq[j] is None) ==> is_in_play(
            s,
            false,
            ch,
        ),
        !is_in_play(s, true, s.link.remote_channels) && !is_in_play(s, false, s.link.remote_channels),
{
    crate::stream::law_channels_in_play(s.link.remote_channels);
}

/// How full the rings are that are in play, in their order: one more ring adds what it holds where it is
/// in play, and nothing otherwise.
pub proof fn law_fills_go_ring_by_ring(in_play: Seq<bool>, occupied: Seq<usize>, v: usize)
    ensures
        fills_of(in_play, Seq::empty()).len() == 0,
        occupied.len() < in_play.len() && in_play[occupied.len() as int] ==> fills_of(
            in_play,
            occupied.push(v),
        ) == fills_of(in_play, occupied).push(v),
        occupied.len() >= in_play.len() || !in_play[occupied.len() as int] ==> fills_of(
            in_play,
            occupied.push(v),
        ) == fills_of(in_play, occupied),
{
    assert(occupied.push(v).drop_last() =~= occupied);
}

/// Where every ring is in play, every ring counts.
pub proof fn law_fills_of_rings_all_in_play(in_play: Seq<bool>, occupied: Seq<usize>)
    requires
        occupied.len() <= in_play.len(),
        forall|ch: int| 0 <= ch < in_play.len() ==> #[trigger] in_play[ch],
    ensures
        fills_of(in_play, occupied) == occupied,
    decreases occupied.len(),
{
    if occupied.len() > 0 {
        let front = occupied.drop_last();
        law_fills_of_rings_all_in_play(in_play, front);
        law_fills_go_ring_by_ring(in_play, front, occupied.last());
        assert(front.push(occupied.last()) =~= occupied);
    } else {
        assert(occupied =~= Seq::<usize>::empty());
    }
}

/// After a reset as much is thrown away as was there, and a frame more; and nothing where nothing was.
pub proof fn law_reset_empties_the_rings(old_fill: int)
    ensures
        old_fill == 0 ==> flush_after_reset(old_fill) is None,
        0 < old_fill && old_fill + 960 <= usize::MAX ==> flush_after_reset(old_fill) == Some(
            old_fill + 960,
        ),
        old_fill + 960 > usize::MAX ==> flush_after_reset(old_fill) == Some(usize::MAX as int),
{
}

/// The fullest ring holds as much as some ring and no less than any.
pub proof fn law_fullest_ring(occupied: Seq<usize>)
    ensures
        forall|ch: int| 0 <= ch < occupied.len() ==> fullest(occupied) >= #[trigger] occupied[ch],
        occupied.len() > 0 ==> occupied.contains(fullest(occupied)),
        occupied.len() == 0 ==> fullest(occupied) == 0,
    decreases occupied.len(),
{
    if occupied.len() > 0 {
        let front = occupied.drop_last();
        law_fullest_ring(front);
        assert forall|ch: int| 0 <= ch < occupied.len() implies fullest(occupied)
            >= #[trigger] occupied[ch] by {
            if ch < front.len() {
                assert(front[ch] == occupied[ch]);
            }
        }
        if fullest(front) >= occupied.last() && front.len() > 0 {
            let i = choose|i: int| 0 <= i < front.len() && front[i] == fullest(front);
            assert(occupied[i] == fullest(occupied));
        } else {
            assert(occupied[occupied.len() - 1] == fullest(occupied));
        }
    }
}

// ---------------------------------------------------------------------------------------------
// Which session a packet is for

/// The session that a token names is the first that has it.
pub proof fn law_token_names_the_first(tokens: Seq<[u8; 16]>, token: Seq<u8>)
    ensures
        first_with_token(tokens, token) matches Some(i) ==> 0 <= i < tokens.len() && tokens[i]@ == token
            && forall|j: int| 0 <= j < i ==> (#[trigger] tokens[j])@ != token,
        first_with_token(tokens, token) is None ==> forall|j: int|
            0 <= j < tokens.len() ==> (#[trigger] tokens[j])@ != token,
    decreases tokens.len(),
{
    if tokens.len() > 0 {
        let front = tokens.drop_last();
        law_token_names_the_first(front, token);
        assert forall|j: int| 0 <= j < front.len() implies front[j] == #[trigger] tokens[j] by {}
    }
}

/// A packet asks for the session whose token it shows: a probe the token that it expects of its peer,
/// an accept and a confirm the token that they carry. Whatever else comes asks for none.
pub proof fn law_packets_ask_for_their_session(tokens: Seq<[u8; 16]>, data: Seq<u8>, i: int)
    requires
        0 <= i < tokens.len(),
        forall|j: int| 0 <= j < i ==> (#[trigger] tokens[j])@ != tokens[i]@,
    ensures
        handshake_of(data) matches Some(HandshakeView::Probe { sender_token: _, expected_peer })
            ==> (expected_peer == tokens[i]@ ==> asked_session(tokens, data) == Some(i)),
        handshake_of(data) matches Some(HandshakeView::Accept { token }) ==> (token == tokens[i]@
            ==> asked_session(tokens, data) == Some(i)),
        handshake_of(data) matches Some(HandshakeView::Confirm { token }) ==> (token == tokens[i]@
            ==> asked_session(tokens, data) == Some(i)),
        handshake_of(data) is None ==> asked_session(tokens, data) is None,
        handshake_of(data) matches Some(pkt) ==> (!(pkt is Probe || pkt is Accept || pkt is Confirm)
            ==> asked_session(tokens, data) is None),
{
    law_token_names_the_first(tokens, tokens[i]@);
}

/// An address belongs to the session that it was first noted for, and to none before.
pub proof fn law_first_note_counts(known: Seq<(PeerAddr, usize)>, src: PeerAddr)
    ensures
        known_map(known).contains_key(src) <==> exists|i: int|
            0 <= i < known.len() && (#[trigger] known[i]).0 == src,
        forall|i: int|
            0 <= i < known.len() && (#[trigger] known[i]).0 == src && (forall|j: int|
                0 <= j < i ==> (#[trigger] known[j]).0 != src) ==> known_map(known)[src] == known[i].1,
    decreases known.len(),
{
    if known.len() > 0 {
        let front = known.drop_last();
        law_first_note_counts(front, src);
        assert forall|i: int| 0 <= i < front.len() implies front[i] == #[trigger] known[i] by {}
        let before = known_map(front);
        if before.contains_key(src) {
            let i = choose|i: int| 0 <= i < front.len() && (#[trigger] front[i]).0 == src;
            assert(known[i].0 == src);
        }
        if known.last().0 == src {
            assert(known[known.len() - 1].0 == src);
        }
        assert forall|i: int|
            0 <= i < known.len() && (#[trigger] known[i]).0 == src && (forall|j: int|
                0 <= j < i ==> (#[trigger] known[j]).0 != src) implies known_map(known)[src]
            == known[i].1 by {
            if i < front.len() {
                assert(front[i].0 == src);
                assert forall|j: int| 0 <= j < i implies (#[trigger] front[j]).0 != src by {
                    assert(known[j].0 != src);
                }
            } else {
                assert(!before.contains_key(src)) by {
                    if before.contains_key(src) {
                        let k = choose|k: int| 0 <= k < front.len() && (#[trigger] front[k]).0 == src;
                        assert(known[k].0 == src);
                    }
                }
            }
        }
    }
}

/// What has been added to a count since it was noted; nothing where the count has started anew.
pub proof fn law_added_since(now: u64, before: u64)
    ensures
        now >= before ==> added(now, before) + before == now,
        now < before ==> added(now, before) == 0,
{
}

} // verus!
