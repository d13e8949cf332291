//! The handshake and keepalive rules of one link.

use crate::announce::law_announcement_arrives;
use crate::constants::{MAX_CHANNELS, STALE_MS};
use crate::metadata::{channel_list, MetadataView, RemoteMetadata};
use crate::packet::{
    build_accept_packet, build_confirm_packet, build_metadata_packet_with_labels,
    build_probe_packet, build_rtt_ping, build_rtt_pong, control_bytes, handshake_of,
    law_accept_roundtrip, law_confirm_roundtrip, law_probe_roundtrip, law_rtt_ping_roundtrip,
    law_rtt_pong_roundtrip, metadata_bytes, HandshakePacket, HandshakeView,
};
use crate::state::{age, PeerAddr};
use crate::text::{decimal, texts};
use crate::wire::be64;
use vstd::prelude::*;
use vstd::utf8::encode_utf8;

verus! {

// ---------------------------------------------------------------------------------------------
// Setup and state

/// What a link is set up with.
pub struct LinkConfig {
    /// Whether this end knows the address of the other and calls it.
    pub is_initiator: bool,
    pub shared_token: [u8; 16],
    pub device_name_token: [u8; 16],
    pub node_id: String,
    pub num_channels: usize,
}

/// What a link is set up with.
pub struct LinkSetup {
    pub initiator: bool,
    pub token: Seq<u8>,
    pub name_token: Seq<u8>,
    pub channels: int,
}

impl View for LinkConfig {
    type V = LinkSetup;

    open spec fn view(&self) -> LinkSetup {
        LinkSetup {
            initiator: self.is_initiator,
            token: self.shared_token@,
            name_token: self.device_name_token@,
            channels: self.num_channels as int,
        }
    }
}

/// Why the receive side starts anew.
#[derive(Clone, Copy, Debug, PartialEq, Eq, Structural)]
pub enum ResetReason {
    Watchdog,
    NewHandshake,
    Accepted,
    Confirmed,
    ChannelLayout,
    RtpRestart,
}

impl ResetReason {
    /// The reason in words.
    pub open spec fn words(self) -> Seq<char> {
        match self {
            ResetReason::Watchdog => "epoch/watchdog reset"@,
            ResetReason::NewHandshake => "new handshake"@,
            ResetReason::Accepted => "accepted"@,
            ResetReason::Confirmed => "confirmed"@,
            ResetReason::ChannelLayout => "channel layout changed"@,
            ResetReason::RtpRestart => "RTP restart"@,
        }
    }

    /// The reason in words.
    pub fn as_str(self) -> (r: &'static str)
        ensures
            r@ == self.words(),
    {
        match self {
            ResetReason::Watchdog => "epoch/watchdog reset",
            ResetReason::NewHandshake => "new handshake",
            ResetReason::Accepted => "accepted",
            ResetReason::Confirmed => "confirmed",
            ResetReason::ChannelLayout => "channel layout changed",
            ResetReason::RtpRestart => "RTP restart",
        }
    }
}

/// What an end knows of a link.
pub struct LinkState {
    pub connected: bool,
    /// The address that a responder is bound to.
    pub established: Option<PeerAddr>,
    /// The address that a rendezvous service has named.
    pub punch_target: Option<PeerAddr>,
    /// The first address from which somebody else tried.
    pub conflict: Option<PeerAddr>,
    pub last_control_ms: u64,
    pub last_audio_ms: u64,
    /// Round-trip time in tenths of a millisecond.
    pub rtt_us10: u32,
    pub remote_channels: usize,
    /// What the other end last said of itself, kept when the link goes down.
    pub remote_metadata: Option<RemoteMetadata>,
    /// What the other end has said of itself since the link came up.
    pub known_metadata: Option<RemoteMetadata>,
    /// Counts what makes the receive side start anew.
    pub reset_epoch: u64,
}

/// What an end knows of a link.
#[verifier::ext_equal]
pub struct LinkView {
    pub connected: bool,
    pub established: Option<PeerAddr>,
    pub punch_target: Option<PeerAddr>,
    pub conflict: Option<PeerAddr>,
    pub last_control_ms: u64,
    pub last_audio_ms: u64,
    pub rtt_us10: u32,
    pub remote_channels: int,
    pub remote_metadata: Option<MetadataView>,
    pub known_metadata: Option<MetadataView>,
    pub reset_epoch: u64,
}

/// What was said, if anything was.
pub open spec fn optional_metadata(m: Option<RemoteMetadata>) -> Option<MetadataView> {
    match m {
        Some(m) => Some(m@),
        None => None,
    }
}

impl View for LinkState {
    type V = LinkView;

    open spec fn view(&self) -> LinkView {
        LinkView {
            connected: self.connected,
            established: self.established,
            punch_target: self.punch_target,
            conflict: self.conflict,
            last_control_ms: self.last_control_ms,
            last_audio_ms: self.last_audio_ms,
            rtt_us10: self.rtt_us10,
            remote_channels: self.remote_channels as int,
            remote_metadata: optional_metadata(self.remote_metadata),
            known_metadata: optional_metadata(self.known_metadata),
            reset_epoch: self.reset_epoch,
        }
    }
}

/// What an end does in answer to a packet: the packets that it sends back, and whether its receive
/// side starts anew.
#[derive(Debug)]
pub struct Reply {
    pub sends: Vec<Vec<u8>>,
    pub reset: Option<ResetReason>,
}

/// What an end does in answer to a packet.
#[verifier::ext_equal]
pub struct ReplyView {
    pub sends: Seq<Seq<u8>>,
    pub reset: Option<ResetReason>,
}

/// The bytes of some packets.
pub open spec fn packet_views(v: Seq<Vec<u8>>) -> Seq<Seq<u8>> {
    Seq::new(v.len(), |i: int| v[i]@)
}

impl View for Reply {
    type V = ReplyView;

    open spec fn view(&self) -> ReplyView {
        ReplyView { sends: packet_views(self.sends@), reset: self.reset }
    }
}

// ---------------------------------------------------------------------------------------------
// The rules

/// The packet with which a link is accepted.
pub open spec fn accept_bytes(token: Seq<u8>) -> Seq<u8> {
    control_bytes(0x09, token)
}

/// The packet with which a link is confirmed.
pub open spec fn confirm_bytes(token: Seq<u8>) -> Seq<u8> {
    control_bytes(0x08, token + token)
}

/// The packet with which the other end is called.
pub open spec fn probe_bytes(c: LinkSetup) -> Seq<u8> {
    control_bytes(0x07, c.name_token + c.token)
}

/// The packet with which an end tells its channels.
pub open spec fn labels_bytes(c: LinkSetup, labels: Seq<Seq<char>>) -> Seq<u8> {
    metadata_bytes(c.name_token, channel_list(labels, c.channels))
}

impl LinkView {
    /// A link that has heard nothing yet.
    pub open spec fn fresh(channels: int) -> LinkView {
        LinkView {
            connected: false,
            established: None,
            punch_target: None,
            conflict: None,
            last_control_ms: 0,
            last_audio_ms: 0,
            rtt_us10: 0,
            remote_channels: channels,
            remote_metadata: None,
            known_metadata: None,
            reset_epoch: 0,
        }
    }

    /// A responder that is connected is bound to an address; the other end has at least one channel
    /// and no more than a link carries, and as many as it has told of since the link came up.
    pub open spec fn wf(self, c: LinkSetup) -> bool {
        &&& self.connected && !c.initiator ==> self.established is Some
        &&& 1 <= self.remote_channels <= MAX_CHANNELS
        &&& self.known_metadata matches Some(m) ==> m.channels == self.remote_channels
    }

    /// Whether a packet comes from somebody else than the end that a responder is bound to.
    pub open spec fn is_stranger(self, c: LinkSetup, src: PeerAddr) -> bool {
        !c.initiator && self.established is Some && self.established != Some(src)
    }

    /// The link after a stranger has tried.
    pub open spec fn with_conflict(self, src: PeerAddr) -> LinkView {
        LinkView {
            conflict: if self.conflict is None {
                Some(src)
            } else {
                self.conflict
            },
            ..self
        }
    }

    /// The link after a handshake packet with the right token: a responder is bound to where it
    /// came from.
    pub open spec fn heard(self, c: LinkSetup, src: PeerAddr, now_ms: u64) -> LinkView {
        let bound = if c.initiator || self.established is Some {
            self
        } else {
            LinkView { established: Some(src), punch_target: None, ..self }
        };
        LinkView { last_control_ms: now_ms, ..bound }
    }

    /// The link as it comes up.
    pub open spec fn up(self) -> LinkView {
        LinkView { connected: true, known_metadata: None, conflict: None, ..self }
    }

    /// The link after the other end has spoken of itself.
    pub open spec fn told(self, m: MetadataView) -> LinkView {
        LinkView {
            remote_channels: m.channels,
            remote_metadata: Some(m),
            known_metadata: Some(m),
            ..self
        }
    }

    /// The number of channels that the other end is taken to have.
    pub open spec fn channels_so_far(self) -> int {
        match self.known_metadata {
            Some(m) => m.channels,
            None => self.remote_channels,
        }
    }
}

/// No answer.
pub open spec fn silence() -> ReplyView {
    ReplyView { sends: Seq::empty(), reset: None }
}

/// What is said, held to the number of channels that a link carries.
pub open spec fn bounded(m: MetadataView) -> MetadataView {
    MetadataView {
        channels: if m.channels < MAX_CHANNELS {
            m.channels
        } else {
            MAX_CHANNELS as int
        },
        ..m
    }
}

/// A round-trip time in tenths of a millisecond, as many as 32 bits hold of them.
pub open spec fn round_trip(sent_us: u64, now_us: u64) -> u32 {
    ((now_us - sent_us) * 10 / 1000) as u32
}

/// What a packet that is no audio does to a link, and how it is answered.
pub open spec fn link_step(
    c: LinkSetup,
    l: LinkView,
    pkt: HandshakeView,
    src: PeerAddr,
    now_ms: u64,
    now_us: u64,
    labels: Seq<Seq<char>>,
) -> (LinkView, ReplyView) {
    let heard = l.heard(c, src, now_ms);
    let noted = LinkView { last_control_ms: now_ms, ..l };
    match pkt {
        HandshakeView::Probe { sender_token: _, expected_peer } => if expected_peer != c.token {
            (l, silence())
        } else if l.connected {
            (heard, ReplyView { sends: seq![confirm_bytes(c.token)], reset: None })
        } else {
            (
                heard.up(),
                ReplyView {
                    sends: seq![
                        accept_bytes(c.token),
                        confirm_bytes(c.token),
                        labels_bytes(c, labels),
                    ],
                    reset: Some(ResetReason::NewHandshake),
                },
            )
        },
        HandshakeView::Accept { token } => if token != c.token {
            (l, silence())
        } else {
            (
                if l.connected {
                    heard
                } else {
                    heard.up()
                },
                ReplyView {
                    sends: seq![confirm_bytes(c.token), labels_bytes(c, labels)],
                    reset: if l.connected {
                        None
                    } else {
                        Some(ResetReason::Accepted)
                    },
                },
            )
        },
        HandshakeView::Confirm { token } => if token != c.token {
            (l, silence())
        } else if l.connected {
            (heard, silence())
        } else {
            (
                heard.up(),
                ReplyView { sends: Seq::empty(), reset: Some(ResetReason::Confirmed) },
            )
        },
        HandshakeView::Metadata(m) => if m.channels == 0 || !l.connected {
            (l, silence())
        } else if l.known_metadata == Some(bounded(m)) {
            (noted, silence())
        } else {
            (
                noted.told(bounded(m)),
                ReplyView {
                    sends: Seq::empty(),
                    reset: if bounded(m).channels != l.channels_so_far() {
                        Some(ResetReason::ChannelLayout)
                    } else {
                        None
                    },
                },
            )
        },
        HandshakeView::RttPing { timestamp_us } => if !l.connected {
            (l, silence())
        } else {
            (
                noted,
                ReplyView {
                    sends: seq![control_bytes(0x0c, be64(timestamp_us))],
                    reset: None,
                },
            )
        },
        HandshakeView::RttPong { timestamp_us } => if !l.connected {
            (l, silence())
        } else if now_us >= timestamp_us {
            (LinkView { rtt_us10: round_trip(timestamp_us, now_us), ..noted }, silence())
        } else {
            (noted, silence())
        },
    }
}

fn same_token(a: &[u8; 16], b: &[u8; 16]) -> (r: bool)
    ensures
        r == (a@ == b@),
{
    for i in 0..16usize
        invariant
            forall|j: int| 0 <= j < i ==> a@[j] == b@[j],
    {
        if a[i] != b[i] {
            return false;
        }
    }
    assert(a@ =~= b@);
    true
}

fn no_answer() -> (r: Reply)
    ensures
        r@ == silence(),
{
    let r = Reply { sends: Vec::new(), reset: None };
    assert(r@ =~= silence());
    r
}

fn tenths(sent_us: u64, now_us: u64) -> (r: u32)
    requires
        sent_us <= now_us,
    ensures
        r == round_trip(sent_us, now_us),
{
    let d: u64 = now_us - sent_us;
    assert((d * 10) / 1000 == d / 100);
    (d / 100) as u32
}

impl LinkState {
    /// A link that has heard nothing yet.
    pub fn new(num_channels: usize) -> (r: Self)
        ensures
            r@ == LinkView::fresh(num_channels as int),
    {
        LinkState {
            connected: false,
            established: None,
            punch_target: None,
            conflict: None,
            last_control_ms: 0,
            last_audio_ms: 0,
            rtt_us10: 0,
            remote_channels: num_channels,
            remote_metadata: None,
            known_metadata: None,
            reset_epoch: 0,
        }
    }

    /// Whether a packet comes from a stranger, which is noted.
    pub fn refuse_stranger(&mut self, c: &LinkConfig, src: PeerAddr) -> (r: bool)
        ensures
            r == old(self)@.is_stranger(c@, src),
            final(self)@ == if r {
                old(self)@.with_conflict(src)
            } else {
                old(self)@
            },
    {
        if c.is_initiator {
            return false;
        }
        match self.established {
            Some(known) => {
                if known == src {
                    return false;
                }
                if self.conflict.is_none() {
                    self.conflict = Some(src);
                }
                true
            },
            None => false,
        }
    }

    fn hear(&mut self, c: &LinkConfig, src: PeerAddr, now_ms: u64)
        ensures
            final(self)@ == old(self)@.heard(c@, src, now_ms),
    {
        if !c.is_initiator && self.established.is_none() {
            self.established = Some(src);
            self.punch_target = None;
        }
        self.last_control_ms = now_ms;
    }

    fn come_up(&mut self)
        ensures
            final(self)@ == old(self)@.up(),
    {
        self.connected = true;
        self.known_metadata = None;
        self.conflict = None;
    }

    fn on_probe(&mut self, c: &LinkConfig, src: PeerAddr, now_ms: u64, labels: &[String]) -> (r: Reply)
        ensures
            forall|sender: Seq<u8>, now_us: u64|
                (final(self)@, r@) == #[trigger] link_step(
                    c@,
                    old(self)@,
                    HandshakeView::Probe { sender_token: sender, expected_peer: c@.token },
                    src,
                    now_ms,
                    now_us,
                    texts(labels@),
                ),
    {
        self.hear(c, src, now_ms);
        let mut sends: Vec<Vec<u8>> = Vec::new();
        if self.connected {
            sends.push(build_confirm_packet(&c.shared_token));
            assert(packet_views(sends@) =~= seq![confirm_bytes(c@.token)]);
            return Reply { sends, reset: None };
        }
        sends.push(build_accept_packet(&c.shared_token));
        sends.push(build_confirm_packet(&c.shared_token));
        sends.push(
            build_metadata_packet_with_labels(
                &c.device_name_token,
                c.num_channels,
                c.node_id.as_str(),
                labels,
            ),
        );
        self.come_up();
        assert(packet_views(sends@) =~= seq![
            accept_bytes(c@.token),
            confirm_bytes(c@.token),
            labels_bytes(c@, texts(labels@)),
        ]);
        Reply { sends, reset: Some(ResetReason::NewHandshake) }
    }

    fn on_accept(&mut self, c: &LinkConfig, src: PeerAddr, now_ms: u64, labels: &[String]) -> (r:
        Reply)
        ensures
            forall|now_us: u64|
                (final(self)@, r@) == #[trigger] link_step(
                    c@,
                    old(self)@,
                    HandshakeView::Accept { token: c@.token },
                    src,
                    now_ms,
                    now_us,
                    texts(labels@),
                ),
    {
        self.hear(c, src, now_ms);
        let mut sends: Vec<Vec<u8>> = Vec::new();
        sends.push(build_confirm_packet(&c.shared_token));
        sends.push(
            build_metadata_packet_with_labels(
                &c.device_name_token,
                c.num_channels,
                c.node_id.as_str(),
                labels,
            ),
        );
        assert(packet_views(sends@) =~= seq![
            confirm_bytes(c@.token),
            labels_bytes(c@, texts(labels@)),
        ]);
        if self.connected {
            Reply { sends, reset: None }
        } else {
            self.come_up();
            Reply { sends, reset: Some(ResetReason::Accepted) }
        }
    }

    fn on_metadata(&mut self, meta: RemoteMetadata, now_ms: u64) -> (r: Reply)
        requires
            old(self).connected,
            meta.channels > 0,
        ensures
            forall|c: LinkSetup, src: PeerAddr, now_us: u64, labels: Seq<Seq<char>>|
                (final(self)@, r@) == #[trigger] link_step(
                    c,
                    old(self)@,
                    HandshakeView::Metadata(meta@),
                    src,
                    now_ms,
                    now_us,
                    labels,
                ),
    {
        self.last_control_ms = now_ms;
        let mut meta = meta;
        let ghost said = meta@;
        if meta.channels > MAX_CHANNELS {
            meta.channels = MAX_CHANNELS;
        }
        assert(meta@ =~= bounded(said));
        let mut known: usize = self.remote_channels;
        if let Some(m) = &self.known_metadata {
            if m.same(&meta) {
                return no_answer();
            }
            known = m.channels;
        }
        let changed: bool = meta.channels != known;
        self.remote_channels = meta.channels;
        let kept = meta.clone();
        self.remote_metadata = Some(kept);
        self.known_metadata = Some(meta);
        let r = Reply {
            sends: Vec::new(),
            reset: if changed {
                Some(ResetReason::ChannelLayout)
            } else {
                None
            },
        };
        assert(packet_views(r.sends@) =~= Seq::<Seq<u8>>::empty());
        r
    }

    /// Takes in a packet that is no audio.
    pub fn on_handshake(
        &mut self,
        c: &LinkConfig,
        pkt: HandshakePacket,
        src: PeerAddr,
        now_ms: u64,
        now_us: u64,
        labels: &[String],
    ) -> (r: Reply)
        ensures
            (final(self)@, r@) == link_step(
                c@,
                old(self)@,
                pkt@,
                src,
                now_ms,
                now_us,
                texts(labels@),
            ),
    {
        match pkt {
            HandshakePacket::Probe { sender_token: _, expected_peer } => {
                if !same_token(&expected_peer, &c.shared_token) {
                    return no_answer();
                }
                self.on_probe(c, src, now_ms, labels)
            },
            HandshakePacket::Accept { token } => {
                if !same_token(&token, &c.shared_token) {
                    return no_answer();
                }
                self.on_accept(c, src, now_ms, labels)
            },
            HandshakePacket::Confirm { token } => {
                if !same_token(&token, &c.shared_token) {
                    return no_answer();
                }
                self.hear(c, src, now_ms);
                let mut r = no_answer();
                if !self.connected {
                    self.come_up();
                    r.reset = Some(ResetReason::Confirmed);
                    assert(r@ =~= (ReplyView {
                        sends: Seq::empty(),
                        reset: Some(ResetReason::Confirmed),
                    }));
                }
                r
            },
            HandshakePacket::Metadata(meta) => {
                if meta.channels == 0 || !self.connected {
                    return no_answer();
                }
                self.on_metadata(meta, now_ms)
            },
            HandshakePacket::RttPing { timestamp_us } => {
                if !self.connected {
                    return no_answer();
                }
                self.last_control_ms = now_ms;
                let mut sends: Vec<Vec<u8>> = Vec::new();
                sends.push(build_rtt_pong(timestamp_us));
                assert(packet_views(sends@) =~= seq![control_bytes(0x0c, be64(timestamp_us))]);
                Reply { sends, reset: None }
            },
            HandshakePacket::RttPong { timestamp_us } => {
                if !self.connected {
                    return no_answer();
                }
                self.last_control_ms = now_ms;
                if now_us >= timestamp_us {
                    self.rtt_us10 = tenths(timestamp_us, now_us);
                }
                no_answer()
            },
        }
    }
}

// ---------------------------------------------------------------------------------------------
// Keepalive and watchdog

impl LinkView {
    /// When anything was last heard.
    pub open spec fn last_heard_ms(self) -> u64 {
        if self.last_control_ms >= self.last_audio_ms {
            self.last_control_ms
        } else {
            self.last_audio_ms
        }
    }

    /// Whether the link is up and nothing was heard for too long.
    pub open spec fn is_stale(self, now_ms: u64) -> bool {
        self.connected && self.last_heard_ms() > 0 && age(now_ms, self.last_heard_ms()) > STALE_MS
    }

    /// The link as it goes down for want of packets: a responder can be bound anew.
    pub open spec fn down(self, c: LinkSetup) -> LinkView {
        LinkView {
            established: if c.initiator {
                self.established
            } else {
                None
            },
            connected: false,
            last_control_ms: 0,
            last_audio_ms: 0,
            rtt_us10: 0,
            reset_epoch: self.reset_epoch.wrapping_add(1),
            ..self
        }
    }

    /// Where to send: to the end that is bound, else to where a rendezvous points, else to the
    /// address that was set up.
    pub open spec fn target(self, configured: Option<PeerAddr>) -> Option<PeerAddr> {
        if self.established is Some {
            self.established
        } else if self.punch_target is Some {
            self.punch_target
        } else {
            configured
        }
    }

    /// Whether packets go to another address than the one that was set up.
    pub open spec fn is_detoured(self, configured: Option<PeerAddr>) -> bool {
        configured is Some && self.target(configured) != configured
    }

    /// The link after a rendezvous has named an address: a link that is not up lets go of the end
    /// that it was bound to.
    pub open spec fn pointed_at(self, addr: PeerAddr) -> LinkView {
        LinkView {
            punch_target: Some(addr),
            established: if self.connected {
                self.established
            } else {
                None
            },
            ..self
        }
    }

    /// The link after the network interfaces have changed.
    pub open spec fn unplugged(self) -> LinkView {
        LinkView {
            connected: false,
            reset_epoch: self.reset_epoch.wrapping_add(1),
            ..self
        }
    }
}

/// What the watchdog does at a tick.
#[derive(Debug)]
pub struct Tick {
    /// Whether the link went down for want of packets.
    pub stale: bool,
    /// Where to send.
    pub target: Option<PeerAddr>,
    /// What to send there.
    pub sends: Vec<Vec<u8>>,
}

/// What is sent at a tick: a probe to wherever the other end may be, and a round-trip request once
/// the link is up.
pub open spec fn tick_sends(c: LinkSetup, l: LinkView, target: Option<PeerAddr>, now_us: u64) -> Seq<
    Seq<u8>,
> {
    if target is None {
        Seq::empty()
    } else if l.connected {
        seq![probe_bytes(c), control_bytes(0x0b, be64(now_us))]
    } else {
        seq![probe_bytes(c)]
    }
}

impl LinkState {
    /// Where to send.
    pub fn send_target(&self, configured: Option<PeerAddr>) -> (r: Option<PeerAddr>)
        ensures
            r == self@.target(configured),
    {
        if self.established.is_some() {
            self.established
        } else if self.punch_target.is_some() {
            self.punch_target
        } else {
            configured
        }
    }

    /// Whether packets go to another address than the one that was set up.
    pub fn detoured(&self, configured: Option<PeerAddr>) -> (r: bool)
        ensures
            r == self@.is_detoured(configured),
    {
        match (configured, self.send_target(configured)) {
            (Some(direct), Some(target)) => target != direct,
            _ => false,
        }
    }

    /// One turn of the watchdog: a link that is stale goes down; any other is probed.
    pub fn tick(
        &mut self,
        c: &LinkConfig,
        configured: Option<PeerAddr>,
        now_ms: u64,
        now_us: u64,
    ) -> (r: Tick)
        ensures
            r.stale == old(self)@.is_stale(now_ms),
            r.stale == (old(self).connected && (old(self).last_control_ms > 0
                || old(self).last_audio_ms > 0) && now_ms - old(self).last_control_ms > 15_000
                && now_ms - old(self).last_audio_ms > 15_000),
            r.stale ==> {
                &&& final(self)@ == old(self)@.down(c@)
                &&& r.target is None
                &&& r.sends@.len() == 0
            },
            !r.stale ==> {
                &&& final(self)@ == old(self)@
                &&& r.target == old(self)@.target(configured)
                &&& packet_views(r.sends@) == tick_sends(c@, old(self)@, r.target, now_us)
            },
    {
        let last_any: u64 = if self.last_control_ms >= self.last_audio_ms {
            self.last_control_ms
        } else {
            self.last_audio_ms
        };
        let mut sends: Vec<Vec<u8>> = Vec::new();
        if self.connected && last_any > 0 && now_ms.saturating_sub(last_any) > STALE_MS {
            if !c.is_initiator {
                self.established = None;
            }
            self.connected = false;
            self.last_control_ms = 0;
            self.last_audio_ms = 0;
            self.rtt_us10 = 0;
            self.reset_epoch = self.reset_epoch.wrapping_add(1);
            return Tick { stale: true, target: None, sends };
        }
        let target = self.send_target(configured);
        if target.is_some() {
            sends.push(build_probe_packet(&c.device_name_token, &c.shared_token));
            if self.connected {
                sends.push(build_rtt_ping(now_us));
            }
        }
        assert(packet_views(sends@) =~= tick_sends(c@, self@, target, now_us));
        Tick { stale: false, target, sends }
    }

    /// A rendezvous service has named the address of the other end. Returns whether the socket is
    /// to be let go of an end that it was bound to.
    pub fn point_at(&mut self, addr: PeerAddr) -> (r: bool)
        ensures
            final(self)@ == old(self)@.pointed_at(addr),
            r == (!old(self).connected && old(self).established is Some),
    {
        self.punch_target = Some(addr);
        if !self.connected && self.established.is_some() {
            self.established = None;
            return true;
        }
        false
    }

    /// The network interfaces have changed.
    pub fn network_changed(&mut self)
        ensures
            final(self)@ == old(self)@.unplugged(),
    {
        self.connected = false;
        self.reset_epoch = self.reset_epoch.wrapping_add(1);
    }
}

// ---------------------------------------------------------------------------------------------
// Laws

/// What holds of a link holds from the start and goes on to hold, whatever comes and whatever the
/// clock says.
pub proof fn law_link_stays_well_formed(
    c: LinkSetup,
    l: LinkView,
    pkt: HandshakeView,
    src: PeerAddr,
    now_ms: u64,
    now_us: u64,
    labels: Seq<Seq<char>>,
)
    requires
        l.wf(c),
        pkt matches HandshakeView::Metadata(m) ==> m.channels >= 0,
    ensures
        1 <= c.channels <= MAX_CHANNELS ==> LinkView::fresh(c.channels).wf(c),
        link_step(c, l, pkt, src, now_ms, now_us, labels).0.wf(c),
        l.with_conflict(src).wf(c),
        l.down(c).wf(c),
        l.pointed_at(src).wf(c),
        l.unplugged().wf(c),
{
}

/// Whether a packet carries the token of the link.
pub open spec fn shows_token(c: LinkSetup, pkt: HandshakeView) -> bool {
    match pkt {
        HandshakeView::Probe { sender_token: _, expected_peer } => expected_peer == c.token,
        HandshakeView::Accept { token } => token == c.token,
        HandshakeView::Confirm { token } => token == c.token,
        _ => false,
    }
}

/// A link that is down answers nothing and changes in nothing unless it is shown its token.
pub proof fn law_token_is_needed(
    c: LinkSetup,
    l: LinkView,
    pkt: HandshakeView,
    src: PeerAddr,
    now_ms: u64,
    now_us: u64,
    labels: Seq<Seq<char>>,
)
    requires
        !l.connected,
        !shows_token(c, pkt),
    ensures
        link_step(c, l, pkt, src, now_ms, now_us, labels) == (l, silence()),
{
}

/// A link that is shown its token is up afterwards, a responder is bound to where the packet came
/// from if it was bound to nobody, and the receive side starts anew exactly when the link was down.
pub proof fn law_token_brings_up(
    c: LinkSetup,
    l: LinkView,
    pkt: HandshakeView,
    src: PeerAddr,
    now_ms: u64,
    now_us: u64,
    labels: Seq<Seq<char>>,
)
    requires
        shows_token(c, pkt),
    ensures
        ({
            let (after, reply) = link_step(c, l, pkt, src, now_ms, now_us, labels);
            &&& after.connected
            &&& after.last_control_ms == now_ms
            &&& !c.initiator && l.established is None ==> after.established == Some(src)
            &&& reply.reset is Some <==> !l.connected
            &&& !l.connected ==> after.conflict is None
        }),
{
}

/// Only the watchdog and a change of the network take a link down: no packet does.
pub proof fn law_no_packet_takes_down(
    c: LinkSetup,
    l: LinkView,
    pkt: HandshakeView,
    src: PeerAddr,
    now_ms: u64,
    now_us: u64,
    labels: Seq<Seq<char>>,
)
    requires
        l.connected,
    ensures
        link_step(c, l, pkt, src, now_ms, now_us, labels).0.connected,
{
}

/// What was learnt of the other end outlives the link: going down keeps its channels and labels.
pub proof fn law_metadata_outlives_link(c: LinkSetup, l: LinkView)
    ensures
        l.down(c).remote_metadata == l.remote_metadata,
        l.down(c).remote_channels == l.remote_channels,
        l.unplugged().remote_metadata == l.remote_metadata,
        l.up().remote_metadata == l.remote_metadata,
{
}

/// A link on which something was heard within the last fifteen seconds is not stale.
pub proof fn law_heard_is_not_stale(l: LinkView, now_ms: u64)
    requires
        age(now_ms, l.last_heard_ms()) <= STALE_MS,
    ensures
        !l.is_stale(now_ms),
{
}

/// A probe brings both ends up: the responder that gets it, and the caller that gets the answer.
/// From then on each answers the other's keepalive with a confirmation and nothing starts anew.
pub proof fn law_probe_brings_both_up(
    caller: LinkSetup,
    responder: LinkSetup,
    a: LinkView,
    b: LinkView,
    caller_addr: PeerAddr,
    responder_addr: PeerAddr,
    now_ms: u64,
    now_us: u64,
    labels: Seq<Seq<char>>,
)
    requires
        caller.token.len() == 16,
        caller.name_token.len() == 16,
        caller.token == responder.token,
        caller.initiator,
        !responder.initiator,
        !a.connected,
        !b.connected,
        b.established is None,
    ensures
        ({
            let probe = handshake_of(probe_bytes(caller));
            &&& probe is Some
            &&& ({
                let (b1, answer) = link_step(
                    responder,
                    b,
                    probe->0,
                    caller_addr,
                    now_ms,
                    now_us,
                    labels,
                );
                let accept = handshake_of(answer.sends[0]);
                &&& b1.connected
                &&& b1.established == Some(caller_addr)
                &&& answer.sends.len() == 3
                &&& accept is Some
                &&& ({
                    let (a1, reply) = link_step(
                        caller,
                        a,
                        accept->0,
                        responder_addr,
                        now_ms,
                        now_us,
                        labels,
                    );
                    let (b2, keepalive) = link_step(
                        responder,
                        b1,
                        probe->0,
                        caller_addr,
                        now_ms,
                        now_us,
                        labels,
                    );
                    &&& a1.connected
                    &&& reply.reset == Some(ResetReason::Accepted)
                    &&& b2 == b1
                    &&& keepalive == (ReplyView {
                        sends: seq![confirm_bytes(responder.token)],
                        reset: None,
                    })
                    &&& handshake_of(keepalive.sends[0]) == Some(
                        HandshakeView::Confirm { token: caller.token },
                    )
                    &&& link_step(
                        caller,
                        a1,
                        handshake_of(keepalive.sends[0])->0,
                        responder_addr,
                        now_ms,
                        now_us,
                        labels,
                    ).1 == silence()
                })
            })
        }),
{
    law_probe_roundtrip(caller.name_token, caller.token);
    law_accept_roundtrip(responder.token);
    law_confirm_roundtrip(responder.token);
}

/// The time that a round-trip request and its answer take is measured, by the clock of the end that
/// asked alone.
pub proof fn law_round_trip_is_measured(
    asking: LinkSetup,
    asked: LinkSetup,
    a: LinkView,
    b: LinkView,
    asking_addr: PeerAddr,
    asked_addr: PeerAddr,
    now_ms: u64,
    sent_us: u64,
    their_us: u64,
    now_us: u64,
    labels: Seq<Seq<char>>,
)
    requires
        a.connected,
        b.connected,
        sent_us <= now_us,
    ensures
        ({
            let ping = handshake_of(control_bytes(0x0b, be64(sent_us)));
            &&& ping is Some
            &&& ({
                let answer = link_step(asked, b, ping->0, asking_addr, now_ms, their_us, labels).1;
                let pong = handshake_of(answer.sends[0]);
                &&& answer.sends.len() == 1
                &&& pong is Some
                &&& link_step(asking, a, pong->0, asked_addr, now_ms, now_us, labels).0.rtt_us10
                    == round_trip(sent_us, now_us)
            })
        }),
{
    law_rtt_ping_roundtrip(sent_us);
    law_rtt_pong_roundtrip(sent_us);
}

/// What the other end says of its channels is taken over at once, and the receive side starts anew
/// where their number has changed.
pub proof fn law_channels_follow_the_other_end(
    c: LinkSetup,
    l: LinkView,
    m: MetadataView,
    src: PeerAddr,
    now_ms: u64,
    now_us: u64,
    labels: Seq<Seq<char>>,
)
    requires
        l.wf(c),
        l.connected,
        m.channels > 0,
    ensures
        ({
            let (after, reply) = link_step(
                c,
                l,
                HandshakeView::Metadata(m),
                src,
                now_ms,
                now_us,
                labels,
            );
            &&& after.remote_channels == bounded(m).channels
            &&& after.known_metadata == Some(bounded(m))
            &&& reply.reset is Some <==> after.remote_channels != l.remote_channels
        }),
{
}

/// A responder whose link has gone stale can be called from anywhere: the next packet that shows the
/// token brings the link up and binds it to where that packet came from.
pub proof fn law_stale_responder_is_free(
    c: LinkSetup,
    l: LinkView,
    pkt: HandshakeView,
    src: PeerAddr,
    now_ms: u64,
    now_us: u64,
    labels: Seq<Seq<char>>,
)
    requires
        !c.initiator,
        shows_token(c, pkt),
    ensures
        !l.down(c).is_stranger(c, src),
        ({
            let (after, reply) = link_step(c, l.down(c), pkt, src, now_ms, now_us, labels);
            after.connected && after.established == Some(src) && reply.reset is Some
        }),
{
}

/// The watchdog goes by whatever came last: a link that is up is not stale while a control packet or
/// audio came within the last fifteen seconds, and is once both lie further back, if anything came at
/// all. A link that is down is never stale.
pub proof fn law_watchdog_hears_both(l: LinkView, now_ms: u64)
    ensures
        now_ms - l.last_control_ms <= 15_000 ==> !l.is_stale(now_ms),
        now_ms - l.last_audio_ms <= 15_000 ==> !l.is_stale(now_ms),
        l.connected && (l.last_control_ms > 0 || l.last_audio_ms > 0) && now_ms - l.last_control_ms
            > 15_000 && now_ms - l.last_audio_ms > 15_000 ==> l.is_stale(now_ms),
        !l.connected ==> !l.is_stale(now_ms),
        l.last_control_ms == 0 && l.last_audio_ms == 0 ==> !l.is_stale(now_ms),
{
}

/// A link that goes down forgets when it heard what and how long a round trip takes, a responder lets
/// go of the end it was bound to and an initiator does not, and the receive side is told to start
/// anew. What is known of the other end stays.
pub proof fn law_link_goes_down(c: LinkSetup, l: LinkView)
    ensures
        ({
            let after = l.down(c);
            &&& !after.connected
            &&& after.last_control_ms == 0 && after.last_audio_ms == 0 && after.rtt_us10 == 0
            &&& c.initiator ==> after.established == l.established
            &&& !c.initiator ==> after.established is None
            &&& after.reset_epoch == (l.reset_epoch + 1) % 0x1_0000_0000_0000_0000
            &&& after.punch_target == l.punch_target && after.conflict == l.conflict
            &&& after.remote_channels == l.remote_channels
            &&& after.remote_metadata == l.remote_metadata
            &&& after.known_metadata == l.known_metadata
        }),
{
}

/// A link that starts is down, bound to nobody, and takes the other end to have as many channels as
/// it has itself.
pub proof fn law_link_starts(n: int)
    ensures
        ({
            let l = LinkView::fresh(n);
            &&& !l.connected
            &&& l.established is None && l.punch_target is None && l.conflict is None
            &&& l.last_control_ms == 0 && l.last_audio_ms == 0 && l.rtt_us10 == 0
            &&& l.remote_channels == n
            &&& l.remote_metadata is None && l.known_metadata is None
            &&& l.reset_epoch == 0
        }),
{
}

/// Packets go to the end that is bound; without one to where a rendezvous points; without that to the
/// address that was set up. They take a detour where that is another than the one that was set up.
pub proof fn law_where_packets_go(l: LinkView, configured: Option<PeerAddr>, a: PeerAddr, b: PeerAddr)
    ensures
        l.established == Some(a) ==> l.target(configured) == Some(a),
        l.established is None && l.punch_target == Some(a) ==> l.target(configured) == Some(a),
        l.established is None && l.punch_target is None ==> l.target(configured) == configured,
        configured is None ==> !l.is_detoured(configured),
        configured == Some(b) && l.target(configured) == Some(a) ==> (l.is_detoured(configured)
            <==> a != b),
{
}

/// An address that a rendezvous names is where a link that is down sends from then on; a link that is
/// up stays bound.
pub proof fn law_rendezvous_points(l: LinkView, addr: PeerAddr, configured: Option<PeerAddr>)
    ensures
        ({
            let after = l.pointed_at(addr);
            &&& !l.connected ==> after.target(configured) == Some(addr)
            &&& l.connected ==> after.established == l.established
            &&& after.punch_target == Some(addr)
            &&& after == (LinkView {
                punch_target: after.punch_target,
                established: after.established,
                ..l
            })
        }),
{
}

/// A change of the network takes a link down and tells the receive side to start anew; nothing else
/// changes.
pub proof fn law_network_change_takes_down(l: LinkView)
    ensures
        ({
            let after = l.unplugged();
            &&& !after.connected
            &&& after.reset_epoch == (l.reset_epoch + 1) % 0x1_0000_0000_0000_0000
            &&& after == (LinkView { connected: false, reset_epoch: after.reset_epoch, ..l })
        }),
{
}

/// Who is a stranger: everybody but the end that a responder is bound to. An initiator and a responder
/// that is bound to nobody know no strangers. The first stranger is remembered, and nothing else
/// changes.
pub proof fn law_strangers(c: LinkSetup, l: LinkView, src: PeerAddr, bound: PeerAddr)
    ensures
        c.initiator ==> !l.is_stranger(c, src),
        l.established is None ==> !l.is_stranger(c, src),
        !c.initiator && l.established == Some(bound) ==> (l.is_stranger(c, src) <==> src != bound),
        l.conflict is None ==> l.with_conflict(src).conflict == Some(src),
        l.conflict is Some ==> l.with_conflict(src) == l,
        l.with_conflict(src) == (LinkView { conflict: l.with_conflict(src).conflict, ..l }),
{
}

/// What is sent at a tick is understood at the other end: nothing where there is nowhere to send; else
/// a probe with the two tokens, and on a link that is up a round-trip request with the time.
pub proof fn law_tick_probes(
    c: LinkSetup,
    l: LinkView,
    target: Option<PeerAddr>,
    now_us: u64,
)
    requires
        c.token.len() == 16,
        c.name_token.len() == 16,
    ensures
        ({
            let sends = tick_sends(c, l, target, now_us);
            &&& target is None ==> sends.len() == 0
            &&& target is Some ==> sends.len() == (if l.connected {
                2int
            } else {
                1int
            }) && handshake_of(sends[0]) == Some(
                HandshakeView::Probe { sender_token: c.name_token, expected_peer: c.token },
            )
            &&& target is Some && l.connected ==> handshake_of(sends[1]) == Some(
                HandshakeView::RttPing { timestamp_us: now_us },
            )
        }),
{
    law_probe_roundtrip(c.name_token, c.token);
    law_rtt_ping_roundtrip(now_us);
}

/// What a packet that shows the token does to a link, field by field.
pub proof fn law_token_binds(
    c: LinkSetup,
    l: LinkView,
    pkt: HandshakeView,
    src: PeerAddr,
    now_ms: u64,
    now_us: u64,
    labels: Seq<Seq<char>>,
)
    requires
        shows_token(c, pkt),
    ensures
        ({
            let after = link_step(c, l, pkt, src, now_ms, now_us, labels).0;
            let binds = !c.initiator && l.established is None;
            &&& after.connected
            &&& after.last_control_ms == now_ms
            &&& after.last_audio_ms == l.last_audio_ms
            &&& after.established == if binds {
                Some(src)
            } else {
                l.established
            }
            &&& after.punch_target == if binds {
                None
            } else {
                l.punch_target
            }
            &&& after.conflict == if l.connected {
                l.conflict
            } else {
                None
            }
            &&& after.known_metadata == if l.connected {
                l.known_metadata
            } else {
                None
            }
            &&& after.remote_metadata == l.remote_metadata
            &&& after.remote_channels == l.remote_channels
            &&& after.rtt_us10 == l.rtt_us10
            &&& after.reset_epoch == l.reset_epoch
        }),
{
}

/// A packet with another token than that of the link does nothing and is not answered.
pub proof fn law_wrong_token_is_ignored(
    c: LinkSetup,
    l: LinkView,
    pkt: HandshakeView,
    src: PeerAddr,
    now_ms: u64,
    now_us: u64,
    labels: Seq<Seq<char>>,
)
    requires
        pkt is Probe || pkt is Accept || pkt is Confirm,
        !shows_token(c, pkt),
    ensures
        ({
            let (after, reply) = link_step(c, l, pkt, src, now_ms, now_us, labels);
            after == l && reply.sends.len() == 0 && reply.reset is None
        }),
{
}

/// Whether `packet` is understood as what an end tells of its channels: as many as it has, with the
/// names that were set, those that are missing filled up.
pub open spec fn tells_channels(packet: Seq<u8>, n: int, labels: Seq<Seq<char>>) -> bool {
    handshake_of(packet) matches Some(HandshakeView::Metadata(m)) && m.channels == n
        && m.labels.len() == n && forall|ch: int|
        0 <= ch < n ==> #[trigger] m.labels[ch] == if ch < labels.len() {
            labels[ch]
        } else {
            "Ch "@ + decimal((ch + 1) as nat)
        }
}

/// Whether what an end tells of its channels fits into a packet.
pub open spec fn fits_packet(c: LinkSetup, labels: Seq<Seq<char>>) -> bool {
    16 + encode_utf8(channel_list(labels, c.channels)).len() < 0x1_0000
}

proof fn lemma_labels_are_told(c: LinkSetup, labels: Seq<Seq<char>>)
    requires
        c.name_token.len() == 16,
        0 <= c.channels <= 64,
        fits_packet(c, labels),
    ensures
        tells_channels(labels_bytes(c, labels), c.channels, labels),
{
    law_announcement_arrives(c.name_token, labels, c.channels);
}

/// How a probe with the token is answered: on a link that is up with a confirmation; else with an
/// acceptance, a confirmation and the channels, and the receive side starts anew.
pub proof fn law_probe_is_answered(
    c: LinkSetup,
    l: LinkView,
    sender: Seq<u8>,
    src: PeerAddr,
    now_ms: u64,
    now_us: u64,
    labels: Seq<Seq<char>>,
)
    requires
        c.token.len() == 16,
        c.name_token.len() == 16,
        0 <= c.channels <= 64,
        fits_packet(c, labels),
    ensures
        ({
            let pkt = HandshakeView::Probe { sender_token: sender, expected_peer: c.token };
            let reply = link_step(c, l, pkt, src, now_ms, now_us, labels).1;
            &&& l.connected ==> reply.sends.len() == 1 && handshake_of(reply.sends[0]) == Some(
                HandshakeView::Confirm { token: c.token },
            ) && reply.reset is None
            &&& !l.connected ==> reply.sends.len() == 3 && handshake_of(reply.sends[0]) == Some(
                HandshakeView::Accept { token: c.token },
            ) && handshake_of(reply.sends[1]) == Some(HandshakeView::Confirm { token: c.token })
                && tells_channels(reply.sends[2], c.channels, labels) && reply.reset == Some(
                ResetReason::NewHandshake,
            )
        }),
{
    law_accept_roundtrip(c.token);
    law_confirm_roundtrip(c.token);
    lemma_labels_are_told(c, labels);
}

/// How an acceptance with the token is answered: with a confirmation and the channels; the receive
/// side starts anew where the link was down.
pub proof fn law_accept_is_answered(
    c: LinkSetup,
    l: LinkView,
    src: PeerAddr,
    now_ms: u64,
    now_us: u64,
    labels: Seq<Seq<char>>,
)
    requires
        c.token.len() == 16,
        c.name_token.len() == 16,
        0 <= c.channels <= 64,
        fits_packet(c, labels),
    ensures
        ({
            let pkt = HandshakeView::Accept { token: c.token };
            let reply = link_step(c, l, pkt, src, now_ms, now_us, labels).1;
            &&& reply.sends.len() == 2
            &&& handshake_of(reply.sends[0]) == Some(HandshakeView::Confirm { token: c.token })
            &&& tells_channels(reply.sends[1], c.channels, labels)
            &&& reply.reset == if l.connected {
                None
            } else {
                Some(ResetReason::Accepted)
            }
        }),
{
    law_confirm_roundtrip(c.token);
    lemma_labels_are_told(c, labels);
}

/// A confirmation with the token is not answered; the receive side starts anew where the link was
/// down.
pub proof fn law_confirm_is_not_answered(
    c: LinkSetup,
    l: LinkView,
    src: PeerAddr,
    now_ms: u64,
    now_us: u64,
    labels: Seq<Seq<char>>,
)
    ensures
        ({
            let pkt = HandshakeView::Confirm { token: c.token };
            let reply = link_step(c, l, pkt, src, now_ms, now_us, labels).1;
            &&& reply.sends.len() == 0
            &&& reply.reset == if l.connected {
                None
            } else {
                Some(ResetReason::Confirmed)
            }
        }),
{
}

/// What an end that is connected learns of the other's channels: as many as it tells, up to 64, with
/// their names; the receive side starts anew exactly where their number is another than before.
pub proof fn law_channels_are_learnt(
    c: LinkSetup,
    l: LinkView,
    m: MetadataView,
    src: PeerAddr,
    now_ms: u64,
    now_us: u64,
    labels: Seq<Seq<char>>,
)
    requires
        l.wf(c),
        l.connected,
        m.channels > 0,
    ensures
        ({
            let (after, reply) = link_step(
                c,
                l,
                HandshakeView::Metadata(m),
                src,
                now_ms,
                now_us,
                labels,
            );
            &&& after.remote_channels == if m.channels <= 64 {
                m.channels
            } else {
                64
            }
            &&& after.known_metadata matches Some(k) && k.labels == m.labels && k.node_id
                == m.node_id && k.channels == after.remote_channels
            &&& l.known_metadata is None || l.known_metadata != after.known_metadata
                ==> after.remote_metadata == after.known_metadata
            &&& l.known_metadata == after.known_metadata ==> after.remote_metadata
                == l.remote_metadata
            &&& after.last_control_ms == now_ms
            &&& after == (LinkView {
                remote_channels: after.remote_channels,
                known_metadata: after.known_metadata,
                remote_metadata: after.remote_metadata,
                last_control_ms: now_ms,
                ..l
            })
            &&& reply.sends.len() == 0
            &&& reply.reset == if after.remote_channels == l.remote_channels {
                None
            } else {
                Some(ResetReason::ChannelLayout)
            }
        }),
{
}

/// On a link that is down, or where no channels are told, what the other end tells is passed over.
pub proof fn law_channels_are_passed_over(
    c: LinkSetup,
    l: LinkView,
    m: MetadataView,
    src: PeerAddr,
    now_ms: u64,
    now_us: u64,
    labels: Seq<Seq<char>>,
)
    requires
        !l.connected || m.channels == 0,
    ensures
        ({
            let (after, reply) = link_step(
                c,
                l,
                HandshakeView::Metadata(m),
                src,
                now_ms,
                now_us,
                labels,
            );
            after == l && reply.sends.len() == 0 && reply.reset is None
        }),
{
}

/// A round-trip request on a link that is up is answered with its own timestamp; the answer gives the
/// time in tenths of a millisecond, as far as 32 bits hold it. Both count as a sign of life and change
/// nothing else. On a link that is down both are passed over.
pub proof fn law_round_trips(
    c: LinkSetup,
    l: LinkView,
    sent_us: u64,
    src: PeerAddr,
    now_ms: u64,
    now_us: u64,
    labels: Seq<Seq<char>>,
)
    ensures
        ({
            let ping = HandshakeView::RttPing { timestamp_us: sent_us };
            let pong = HandshakeView::RttPong { timestamp_us: sent_us };
            let (a, answer) = link_step(c, l, ping, src, now_ms, now_us, labels);
            let (b, quiet) = link_step(c, l, pong, src, now_ms, now_us, labels);
            &&& answer.reset is None && quiet.reset is None && quiet.sends.len() == 0
            &&& !l.connected ==> a == l && b == l && answer.sends.len() == 0
            &&& l.connected ==> {
                &&& answer.sends.len() == 1
                &&& handshake_of(answer.sends[0]) == Some(pong)
                &&& a == (LinkView { last_control_ms: now_ms, ..l })
                &&& b == (LinkView { last_control_ms: now_ms, rtt_us10: b.rtt_us10, ..l })
                &&& now_us < sent_us ==> b.rtt_us10 == l.rtt_us10
                &&& sent_us <= now_us < sent_us + 400_000_000_000 ==> b.rtt_us10 * 100 <= now_us
                    - sent_us < b.rtt_us10 * 100 + 100
            }
        }),
{
    law_rtt_pong_roundtrip(sent_us);
}

/// The whole handshake: a probe of the caller, and the answers to it and to these, make both ends
/// connected, bind the responder to the caller, and tell each end the channels of the other and their
/// names.
pub proof fn law_handshake_introduces_both(
    caller: LinkSetup,
    responder: LinkSetup,
    a: LinkView,
    b: LinkView,
    caller_addr: PeerAddr,
    responder_addr: PeerAddr,
    now_ms: u64,
    now_us: u64,
    caller_labels: Seq<Seq<char>>,
    responder_labels: Seq<Seq<char>>,
    ch: int,
)
    requires
        caller.token.len() == 16,
        caller.name_token.len() == 16,
        responder.name_token.len() == 16,
        caller.token == responder.token,
        caller.initiator,
        !responder.initiator,
        !a.connected,
        !b.connected,
        b.established is None,
        1 <= caller.channels <= 64,
        1 <= responder.channels <= 64,
        fits_packet(caller, caller_labels),
        fits_packet(responder, responder_labels),
    ensures
        ({
            let probe = handshake_of(tick_sends(caller, a, Some(responder_addr), now_us)[0])->0;
            let (b1, answer) = link_step(
                responder,
                b,
                probe,
                caller_addr,
                now_ms,
                now_us,
                responder_labels,
            );
            let (a1, reply) = link_step(
                caller,
                a,
                handshake_of(answer.sends[0])->0,
                responder_addr,
                now_ms,
                now_us,
                caller_labels,
            );
            let (a2, more) = link_step(
                caller,
                a1,
                handshake_of(answer.sends[2])->0,
                responder_addr,
                now_ms,
                now_us,
                caller_labels,
            );
            let (b2, last) = link_step(
                responder,
                b1,
                handshake_of(reply.sends[1])->0,
                caller_addr,
                now_ms,
                now_us,
                responder_labels,
            );
            &&& answer.sends.len() == 3 && reply.sends.len() == 2
            &&& a2.connected && b2.connected
            &&& b2.established == Some(caller_addr)
            &&& a2.remote_channels == responder.channels
            &&& b2.remote_channels == caller.channels
            &&& 0 <= ch < caller.channels && ch < caller_labels.len() ==> b2.remote_metadata is Some
                && b2.remote_metadata->0.labels[ch] == caller_labels[ch]
            &&& 0 <= ch < responder.channels && ch < responder_labels.len()
                ==> a2.remote_metadata is Some && a2.remote_metadata->0.labels[ch]
                == responder_labels[ch]
        }),
{
    law_tick_probes(caller, a, Some(responder_addr), now_us);
    law_probe_roundtrip(caller.name_token, caller.token);
    law_accept_roundtrip(responder.token);
    law_confirm_roundtrip(caller.token);
    law_announcement_arrives(caller.name_token, caller_labels, caller.channels);
    law_announcement_arrives(responder.name_token, responder_labels, responder.channels);
}

/// Why a link starts anew, in words.
pub proof fn law_words_for_resets()
    ensures
        ResetReason::Watchdog.words() == "epoch/watchdog reset"@,
        ResetReason::NewHandshake.words() == "new handshake"@,
        ResetReason::Accepted.words() == "accepted"@,
        ResetReason::Confirmed.words() == "confirmed"@,
        ResetReason::ChannelLayout.words() == "channel layout changed"@,
        ResetReason::RtpRestart.words() == "RTP restart"@,
{
}

} // verus!
