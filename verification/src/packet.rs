//! The packets of a link: audio frames, handshake and round-trip control.
//!
//! Every packet begins with a twelve-byte header: `80 69`, a sequence number, a timestamp on a
//! 48 kHz clock, and the payload class. Two bytes behind the header tell the packets of a class
//! apart.

use crate::constants::{PORT, SSRC_CONTROL, SSRC_MEDIA, SSRC_METADATA};
use crate::metadata::{
    channel_list, channel_list_text, metadata_of, parse_channel_metadata, MetadataView,
    RemoteMetadata,
};
use crate::text::{
    before_suffix, chars_of, decimal, decimal_text, strip_suffix, text_from_utf8, text_of, texts,
};
use crate::wire::{
    be16, be16_value, be32, be32_value, be64, be64_value, get_be16, get_be32, get_be64,
    law_most_significant_byte_first, law_read_most_significant_byte_first, lemma_be16_roundtrip,
    lemma_be32_roundtrip, lemma_be64_roundtrip, put_be16, put_be32, put_be64, put_bytes,
};
use vstd::prelude::*;
use vstd::utf8::{
    decode_utf8, encode_utf8, encode_utf8_decode_utf8, encode_utf8_valid_utf8, valid_utf8,
};

verus! {

// ---------------------------------------------------------------------------------------------
// Header

/// The header of a packet.
pub open spec fn header_bytes(seq: u16, timestamp: u32, ssrc: u32) -> Seq<u8> {
    seq![0x80u8, 0x69u8] + be16(seq) + be32(timestamp) + be32(ssrc)
}

/// Whether `data` begins as a packet of the class `ssrc` and the kind `kind` does.
pub open spec fn is_kind(data: Seq<u8>, ssrc: u32, kind: u8) -> bool {
    &&& data.len() >= 14
    &&& data[0] == 0x80
    &&& data[1] == 0x69
    &&& be32_value(data.subrange(8, 12)) == ssrc
    &&& data[12] == 0x09
    &&& data[13] == kind
}

/// What a header and the two bytes behind it say when they are read back.
proof fn lemma_header(seq: u16, timestamp: u32, ssrc: u32, kind: u8, rest: Seq<u8>)
    ensures
        header_bytes(seq, timestamp, ssrc).len() == 12,
        ({
            let p = header_bytes(seq, timestamp, ssrc) + seq![0x09u8, kind] + rest;
            &&& is_kind(p, ssrc, kind)
            &&& p.len() == 14 + rest.len()
            &&& be16_value(p.subrange(2, 4)) == seq
            &&& be32_value(p.subrange(4, 8)) == timestamp
            &&& p.skip(14) == rest
        }),
{
    lemma_be16_roundtrip(seq);
    lemma_be32_roundtrip(timestamp);
    lemma_be32_roundtrip(ssrc);
    let p = header_bytes(seq, timestamp, ssrc) + seq![0x09u8, kind] + rest;
    assert(p.subrange(2, 4) =~= be16(seq));
    assert(p.subrange(4, 8) =~= be32(timestamp));
    assert(p.subrange(8, 12) =~= be32(ssrc));
    assert(p.skip(14) =~= rest);
}

fn put_header(out: &mut Vec<u8>, seq: u16, timestamp: u32, ssrc: u32)
    ensures
        final(out)@ == old(out)@ + header_bytes(seq, timestamp, ssrc),
{
    out.push(0x80);
    out.push(0x69);
    put_be16(out, seq);
    put_be32(out, timestamp);
    put_be32(out, ssrc);
    assert(out@ =~= old(out)@ + header_bytes(seq, timestamp, ssrc));
}

/// The header of a packet that carries neither a sequence number nor a timestamp.
pub fn rtp_header(ssrc: u32) -> (r: Vec<u8>)
    ensures
        r@ == header_bytes(0, 0, ssrc),
{
    let mut pkt: Vec<u8> = Vec::with_capacity(64);
    put_header(&mut pkt, 0, 0, ssrc);
    assert(pkt@ =~= header_bytes(0, 0, ssrc));
    pkt
}

/// The number in the four bytes at `offset`, if `data` holds them all.
pub fn be_u32_at(data: &[u8], offset: usize) -> (r: Option<u32>)
    ensures
        r == (if offset + 4 <= data@.len() {
            Some(be32_value(data@.subrange(offset as int, offset + 4)))
        } else {
            None
        }),
{
    if data.len() >= 4 && offset <= data.len() - 4 {
        Some(get_be32(data, offset))
    } else {
        None
    }
}

/// The sixteen bytes at `offset`, if `data` holds them all.
pub fn copy_token(data: &[u8], offset: usize) -> (r: Option<[u8; 16]>)
    ensures
        r is Some <==> offset + 16 <= data@.len(),
        r matches Some(t) ==> t@ == data@.subrange(offset as int, offset + 16),
{
    if data.len() >= 16 && offset <= data.len() - 16 {
        let mut t: [u8; 16] = [0u8; 16];
        for i in 0..16usize
            invariant
                offset + 16 <= data.len(),
                forall|j: int| 0 <= j < i ==> t@[j] == data@[offset + j],
        {
            t[i] = data[offset + i];
        }
        assert(t@ =~= data@.subrange(offset as int, offset + 16));
        Some(t)
    } else {
        None
    }
}

// ---------------------------------------------------------------------------------------------
// Audio

/// The bytes of the packet that carries one mono frame of one channel.
pub open spec fn media_bytes(seq: u16, timestamp: u32, channel: u8, opus: Seq<u8>) -> Seq<u8> {
    header_bytes(seq, timestamp, SSRC_MEDIA) + seq![0x09u8, 0x06u8] + (seq![0u8, 0u8, 0u8, 0u8]
        + seq![channel] + opus)
}

/// The packet that carries one mono frame of one channel.
pub fn build_packet(seq: u16, timestamp: u32, channel: u8, opus: &[u8]) -> (r: Vec<u8>)
    ensures
        r@ == media_bytes(seq, timestamp, channel, opus@),
{
    let mut pkt: Vec<u8> = Vec::new();
    put_header(&mut pkt, seq, timestamp, SSRC_MEDIA);
    pkt.push(0x09);
    pkt.push(0x06);
    pkt.push(0x00);
    pkt.push(0x00);
    pkt.push(0x00);
    pkt.push(0x00);
    pkt.push(channel);
    put_bytes(&mut pkt, opus);
    assert(pkt@ =~= media_bytes(seq, timestamp, channel, opus@));
    pkt
}

/// An audio packet, taken apart.
#[derive(Clone, Copy)]
pub struct MediaPacket<'a> {
    pub seq: u16,
    pub timestamp: u32,
    pub channel: u8,
    pub opus_payload: &'a [u8],
}

/// What an audio packet carries.
pub struct MediaView {
    pub seq: u16,
    pub timestamp: u32,
    pub channel: u8,
    pub opus: Seq<u8>,
}

impl<'a> View for MediaPacket<'a> {
    type V = MediaView;

    open spec fn view(&self) -> MediaView {
        MediaView {
            seq: self.seq,
            timestamp: self.timestamp,
            channel: self.channel,
            opus: self.opus_payload@,
        }
    }
}

/// What `data` carries if it is an audio packet.
#[verifier::opaque]
pub open spec fn media_of(data: Seq<u8>) -> Option<MediaView> {
    if data.len() >= 19 && is_kind(data, SSRC_MEDIA, 0x06) {
        Some(
            MediaView {
                seq: be16_value(data.subrange(2, 4)),
                timestamp: be32_value(data.subrange(4, 8)),
                channel: data[18],
                opus: data.skip(19),
            },
        )
    } else {
        None
    }
}

/// Takes an audio packet apart; `None` where `data` is none.
pub fn parse_packet(data: &[u8]) -> (r: Option<MediaPacket<'_>>)
    ensures
        r is Some <==> media_of(data@) is Some,
        r matches Some(p) ==> media_of(data@) == Some(p@),
{
    proof {
        reveal(media_of);
    }
    if data.len() < 19 {
        return None;
    }
    if data[0] != 0x80 || data[1] != 0x69 {
        return None;
    }
    if get_be32(data, 8) != SSRC_MEDIA {
        return None;
    }
    if data[12] != 0x09 || data[13] != 0x06 {
        return None;
    }
    let opus_payload = vstd::slice::slice_subrange(data, 19, data.len());
    assert(opus_payload@ =~= data@.skip(19));
    Some(
        MediaPacket {
            seq: get_be16(data, 2),
            timestamp: get_be32(data, 4),
            channel: data[18],
            opus_payload,
        },
    )
}

/// An audio packet that was built is taken apart into what it was built from.
pub proof fn law_media_roundtrip(seq: u16, timestamp: u32, channel: u8, opus: Seq<u8>)
    ensures
        media_of(media_bytes(seq, timestamp, channel, opus)) == Some(
            MediaView { seq, timestamp, channel, opus },
        ),
{
    reveal(media_of);
    let rest = seq![0u8, 0u8, 0u8, 0u8] + seq![channel] + opus;
    lemma_header(seq, timestamp, SSRC_MEDIA, 0x06, rest);
    let p = media_bytes(seq, timestamp, channel, opus);
    assert(p[18] == p.skip(14)[4]);
    assert(p.skip(19) =~= opus) by {
        assert(p.skip(19) =~= p.skip(14).skip(5));
        assert(rest.skip(5) =~= opus);
    }
}

// ---------------------------------------------------------------------------------------------
// Control

/// The bytes of a control packet of the given kind: seven zero bytes, then `body`.
pub open spec fn control_bytes(kind: u8, body: Seq<u8>) -> Seq<u8> {
    header_bytes(0, 0, SSRC_CONTROL) + seq![0x09u8, kind] + (seq![
        0u8,
        0u8,
        0u8,
        0u8,
        0u8,
        0u8,
        0u8,
    ] + body)
}

fn control_packet(kind: u8) -> (r: Vec<u8>)
    ensures
        r@ == control_bytes(kind, Seq::empty()),
{
    let mut pkt = rtp_header(SSRC_CONTROL);
    pkt.push(0x09);
    pkt.push(kind);
    for i in 0..7usize
        invariant
            pkt@.len() == 14 + i,
            pkt@.take(14) == header_bytes(0, 0, SSRC_CONTROL) + seq![0x09u8, kind],
            forall|j: int| 14 <= j < pkt@.len() ==> pkt@[j] == 0u8,
    {
        pkt.push(0x00);
        assert(pkt@.take(14) =~= header_bytes(0, 0, SSRC_CONTROL) + seq![0x09u8, kind]);
    }
    assert(pkt@ =~= control_bytes(kind, Seq::empty())) by {
        let want = control_bytes(kind, Seq::empty());
        assert(want.take(14) =~= header_bytes(0, 0, SSRC_CONTROL) + seq![0x09u8, kind]);
        assert forall|j: int| 0 <= j < want.len() implies pkt@[j] == want[j] by {
            if j < 14 {
                assert(pkt@[j] == pkt@.take(14)[j]);
                assert(want[j] == want.take(14)[j]);
            }
        }
    }
    pkt
}

/// The packet that asks for a link, and keeps an established one alive.
pub fn build_probe_packet(device_name_token: &[u8; 16], shared_token: &[u8; 16]) -> (r: Vec<u8>)
    ensures
        r@ == control_bytes(0x07, device_name_token@ + shared_token@),
{
    let mut pkt = control_packet(0x07);
    put_bytes(&mut pkt, device_name_token.as_slice());
    put_bytes(&mut pkt, shared_token.as_slice());
    assert(pkt@ =~= control_bytes(0x07, device_name_token@ + shared_token@));
    pkt
}

/// The packet that accepts a link.
pub fn build_accept_packet(shared_token: &[u8; 16]) -> (r: Vec<u8>)
    ensures
        r@ == control_bytes(0x09, shared_token@),
{
    let mut pkt = control_packet(0x09);
    put_bytes(&mut pkt, shared_token.as_slice());
    assert(pkt@ =~= control_bytes(0x09, shared_token@));
    pkt
}

/// The packet that confirms a link.
pub fn build_confirm_packet(shared_token: &[u8; 16]) -> (r: Vec<u8>)
    ensures
        r@ == control_bytes(0x08, shared_token@ + shared_token@),
{
    let mut pkt = control_packet(0x08);
    put_bytes(&mut pkt, shared_token.as_slice());
    put_bytes(&mut pkt, shared_token.as_slice());
    assert(pkt@ =~= control_bytes(0x08, shared_token@ + shared_token@));
    pkt
}

/// The packet that asks for a round-trip answer.
pub fn build_rtt_ping(timestamp_us: u64) -> (r: Vec<u8>)
    ensures
        r@ == control_bytes(0x0b, be64(timestamp_us)),
{
    let mut pkt = control_packet(0x0b);
    put_be64(&mut pkt, timestamp_us);
    assert(pkt@ =~= control_bytes(0x0b, be64(timestamp_us)));
    pkt
}

/// The answer to a round-trip request, with the timestamp of the request.
pub fn build_rtt_pong(timestamp_us: u64) -> (r: Vec<u8>)
    ensures
        r@ == control_bytes(0x0c, be64(timestamp_us)),
{
    let mut pkt = control_packet(0x0c);
    put_be64(&mut pkt, timestamp_us);
    assert(pkt@ =~= control_bytes(0x0c, be64(timestamp_us)));
    pkt
}

/// A packet that is no audio.
#[derive(Debug)]
pub enum HandshakePacket {
    Probe { sender_token: [u8; 16], expected_peer: [u8; 16] },
    Accept { token: [u8; 16] },
    Confirm { token: [u8; 16] },
    Metadata(RemoteMetadata),
    RttPing { timestamp_us: u64 },
    RttPong { timestamp_us: u64 },
}

/// What a packet that is no audio says.
pub enum HandshakeView {
    Probe { sender_token: Seq<u8>, expected_peer: Seq<u8> },
    Accept { token: Seq<u8> },
    Confirm { token: Seq<u8> },
    Metadata(MetadataView),
    RttPing { timestamp_us: u64 },
    RttPong { timestamp_us: u64 },
}

impl View for HandshakePacket {
    type V = HandshakeView;

    open spec fn view(&self) -> HandshakeView {
        match *self {
            HandshakePacket::Probe { sender_token, expected_peer } => HandshakeView::Probe {
                sender_token: sender_token@,
                expected_peer: expected_peer@,
            },
            HandshakePacket::Accept { token } => HandshakeView::Accept { token: token@ },
            HandshakePacket::Confirm { token } => HandshakeView::Confirm { token: token@ },
            HandshakePacket::Metadata(m) => HandshakeView::Metadata(m@),
            HandshakePacket::RttPing { timestamp_us } => HandshakeView::RttPing { timestamp_us },
            HandshakePacket::RttPong { timestamp_us } => HandshakeView::RttPong { timestamp_us },
        }
    }
}

/// Where the channel list of a metadata packet ends: the length field counts the sixteen bytes of
/// the token and the list; a smaller value stands for the whole packet.
pub open spec fn metadata_end(data: Seq<u8>) -> int {
    let body_len = be16_value(data.subrange(18, 20)) as int;
    if body_len >= 16 && 37 + body_len - 16 < data.len() {
        37 + body_len - 16
    } else {
        data.len() as int
    }
}

/// What `data` says if it is a packet that is no audio.
#[verifier::opaque]
pub open spec fn handshake_of(data: Seq<u8>) -> Option<HandshakeView> {
    if is_kind(data, SSRC_CONTROL, 0x07) && data.len() >= 53 {
        Some(
            HandshakeView::Probe {
                sender_token: data.subrange(21, 37),
                expected_peer: data.subrange(37, 53),
            },
        )
    } else if is_kind(data, SSRC_CONTROL, 0x09) && data.len() >= 37 {
        Some(HandshakeView::Accept { token: data.subrange(21, 37) })
    } else if is_kind(data, SSRC_CONTROL, 0x08) && data.len() >= 53 {
        Some(HandshakeView::Confirm { token: data.subrange(21, 37) })
    } else if is_kind(data, SSRC_METADATA, 0x0a) && data.len() >= 37 {
        let list = data.subrange(37, metadata_end(data));
        if valid_utf8(list) {
            Some(HandshakeView::Metadata(metadata_of(decode_utf8(list))))
        } else {
            None
        }
    } else if is_kind(data, SSRC_CONTROL, 0x0b) && data.len() >= 29 {
        Some(HandshakeView::RttPing { timestamp_us: be64_value(data.subrange(21, 29)) })
    } else if is_kind(data, SSRC_CONTROL, 0x0c) && data.len() >= 29 {
        Some(HandshakeView::RttPong { timestamp_us: be64_value(data.subrange(21, 29)) })
    } else {
        None
    }
}

fn token_at(data: &[u8], at: usize) -> (r: [u8; 16])
    requires
        at + 16 <= data.len(),
    ensures
        r@ == data@.subrange(at as int, at + 16),
{
    match copy_token(data, at) {
        Some(t) => t,
        None => [0u8; 16],
    }
}

/// Takes a packet that is no audio apart; `None` where `data` is none.
pub fn parse_handshake_packet(data: &[u8]) -> (r: Option<HandshakePacket>)
    ensures
        r is Some <==> handshake_of(data@) is Some,
        r matches Some(p) ==> handshake_of(data@) == Some(p@),
{
    proof {
        reveal(handshake_of);
    }
    if data.len() < 14 || data[0] != 0x80 || data[1] != 0x69 || data[12] != 0x09 {
        return None;
    }
    let ssrc: u32 = get_be32(data, 8);
    let kind: u8 = data[13];
    if ssrc == SSRC_CONTROL {
        if kind == 0x07 && data.len() >= 53 {
            Some(
                HandshakePacket::Probe {
                    sender_token: token_at(data, 21),
                    expected_peer: token_at(data, 37),
                },
            )
        } else if kind == 0x09 && data.len() >= 37 {
            Some(HandshakePacket::Accept { token: token_at(data, 21) })
        } else if kind == 0x08 && data.len() >= 53 {
            Some(HandshakePacket::Confirm { token: token_at(data, 21) })
        } else if kind == 0x0b && data.len() >= 29 {
            Some(HandshakePacket::RttPing { timestamp_us: get_be64(data, 21) })
        } else if kind == 0x0c && data.len() >= 29 {
            Some(HandshakePacket::RttPong { timestamp_us: get_be64(data, 21) })
        } else {
            None
        }
    } else if ssrc == SSRC_METADATA && kind == 0x0a && data.len() >= 37 {
        let body_len: usize = get_be16(data, 18) as usize;
        let end: usize = if body_len >= 16 && body_len - 16 < data.len() - 37 {
            37 + (body_len - 16)
        } else {
            data.len()
        };
        let list = vstd::slice::slice_subrange(data, 37, end);
        match text_from_utf8(list) {
            Some(json) => {
                proof {
                    encode_utf8_decode_utf8(json@);
                }
                Some(HandshakePacket::Metadata(parse_channel_metadata(json.as_str())))
            },
            None => None,
        }
    } else {
        None
    }
}

// ---------------------------------------------------------------------------------------------
// Channel metadata

/// What a metadata packet holds behind its two kind bytes: flags, the length of token and list
/// modulo 65536, a zero byte, the token, and the list.
pub open spec fn metadata_body(device_name_token: Seq<u8>, list: Seq<u8>) -> Seq<u8> {
    seq![0u8, 1u8, 1u8, 0u8] + be16(((16 + list.len()) % 0x1_0000) as u16) + seq![0u8]
        + device_name_token + list
}

/// The bytes of the packet that carries the channel list `json`.
pub open spec fn metadata_bytes(device_name_token: Seq<u8>, json: Seq<char>) -> Seq<u8> {
    header_bytes(0, 0, SSRC_METADATA) + seq![0x09u8, 0x0au8] + metadata_body(
        device_name_token,
        encode_utf8(json),
    )
}

/// The packet that tells the other end the number of channels and their labels. A channel that
/// `labels` does not reach gets the label `Ch` and its number. The name of the node is not sent:
/// the token stands for it.
pub fn build_metadata_packet_with_labels(
    device_name_token: &[u8; 16],
    num_channels: usize,
    _node_id: &str,
    labels: &[String],
) -> (r: Vec<u8>)
    ensures
        r@ == metadata_bytes(
            device_name_token@,
            channel_list(texts(labels@), num_channels as int),
        ),
{
    let json = channel_list_text(labels, num_channels);
    let list = json.as_str().as_bytes();
    let len16: u16 = ((16 + list.len() % 0x1_0000) % 0x1_0000) as u16;
    assert(len16 == ((16 + list@.len()) % 0x1_0000) as u16);
    let flags: [u8; 4] = [0x00, 0x01, 0x01, 0x00];
    let mut pkt = rtp_header(SSRC_METADATA);
    pkt.push(0x09);
    pkt.push(0x0a);
    let ghost head = pkt@;
    assert(head =~= header_bytes(0, 0, SSRC_METADATA) + seq![0x09u8, 0x0au8]);
    put_bytes(&mut pkt, flags.as_slice());
    put_be16(&mut pkt, len16);
    pkt.push(0x00);
    put_bytes(&mut pkt, device_name_token.as_slice());
    put_bytes(&mut pkt, list);
    proof {
        assert(flags@ =~= seq![0u8, 1u8, 1u8, 0u8]);
        let body = metadata_body(device_name_token@, list@);
        assert(pkt@ =~= head + body);
    }
    pkt
}

/// The metadata packet of channels that have no labels of their own.
pub fn build_metadata_packet(
    device_name_token: &[u8; 16],
    num_channels: usize,
    node_id: &str,
) -> (r: Vec<u8>)
    ensures
        r@ == metadata_bytes(
            device_name_token@,
            channel_list(Seq::empty(), num_channels as int),
        ),
{
    let labels: Vec<String> = Vec::new();
    assert(texts(labels@) =~= Seq::<Seq<char>>::empty());
    build_metadata_packet_with_labels(device_name_token, num_channels, node_id, labels.as_slice())
}

// ---------------------------------------------------------------------------------------------
// Hosts

/// A host without the port of an endpoint behind it.
pub open spec fn host_only(value: Seq<char>) -> Seq<char> {
    match before_suffix(value, ":"@ + decimal(PORT as nat)) {
        Some(host) => host,
        None => value,
    }
}

/// A host without the port of an endpoint behind it.
pub fn split_host_port(value: &str) -> (r: String)
    ensures
        r@ == host_only(value@),
{
    let mut port = ":".to_string();
    port.append(decimal_text(PORT as u64).as_str());
    let suffix = chars_of(port.as_str());
    let chars = chars_of(value);
    match strip_suffix(chars.as_slice(), suffix.as_slice()) {
        Some(host) => text_of(host),
        None => value.to_string(),
    }
}

// ---------------------------------------------------------------------------------------------
// Laws

/// What a control packet holds behind its seven zero bytes.
proof fn lemma_control(kind: u8, body: Seq<u8>)
    ensures
        is_kind(control_bytes(kind, body), SSRC_CONTROL, kind),
        control_bytes(kind, body).len() == 21 + body.len(),
        control_bytes(kind, body).skip(21) == body,
{
    let zeros = seq![0u8, 0u8, 0u8, 0u8, 0u8, 0u8, 0u8];
    lemma_header(0, 0, SSRC_CONTROL, kind, zeros + body);
    let p = control_bytes(kind, body);
    assert(p.skip(21) =~= p.skip(14).skip(7));
    assert((zeros + body).skip(7) =~= body);
}

/// A probe that was built is taken apart into the two tokens it was built from.
pub proof fn law_probe_roundtrip(device_name_token: Seq<u8>, shared_token: Seq<u8>)
    requires
        device_name_token.len() == 16,
        shared_token.len() == 16,
    ensures
        handshake_of(control_bytes(0x07, device_name_token + shared_token)) == Some(
            HandshakeView::Probe { sender_token: device_name_token, expected_peer: shared_token },
        ),
{
    reveal(handshake_of);
    let body = device_name_token + shared_token;
    lemma_control(0x07, body);
    let p = control_bytes(0x07, body);
    assert(p.subrange(21, 37) =~= p.skip(21).take(16));
    assert(p.subrange(37, 53) =~= p.skip(21).skip(16));
    assert(body.take(16) =~= device_name_token);
    assert(body.skip(16) =~= shared_token);
}

/// An acceptance that was built is taken apart into the token it was built from.
pub proof fn law_accept_roundtrip(shared_token: Seq<u8>)
    requires
        shared_token.len() == 16,
    ensures
        handshake_of(control_bytes(0x09, shared_token)) == Some(
            HandshakeView::Accept { token: shared_token },
        ),
{
    reveal(handshake_of);
    lemma_control(0x09, shared_token);
    let p = control_bytes(0x09, shared_token);
    assert(p.subrange(21, 37) =~= p.skip(21));
}

/// A confirmation that was built is taken apart into the token it was built from.
pub proof fn law_confirm_roundtrip(shared_token: Seq<u8>)
    requires
        shared_token.len() == 16,
    ensures
        handshake_of(control_bytes(0x08, shared_token + shared_token)) == Some(
            HandshakeView::Confirm { token: shared_token },
        ),
{
    reveal(handshake_of);
    let body = shared_token + shared_token;
    lemma_control(0x08, body);
    let p = control_bytes(0x08, body);
    assert(p.subrange(21, 37) =~= p.skip(21).take(16));
    assert(body.take(16) =~= shared_token);
}

/// A round-trip request that was built is taken apart into its timestamp.
pub proof fn law_rtt_ping_roundtrip(timestamp_us: u64)
    ensures
        handshake_of(control_bytes(0x0b, be64(timestamp_us))) == Some(
            HandshakeView::RttPing { timestamp_us },
        ),
{
    reveal(handshake_of);
    lemma_be64_roundtrip(timestamp_us);
    lemma_control(0x0b, be64(timestamp_us));
    let p = control_bytes(0x0b, be64(timestamp_us));
    assert(p.subrange(21, 29) =~= p.skip(21));
}

/// A round-trip answer that was built is taken apart into its timestamp.
pub proof fn law_rtt_pong_roundtrip(timestamp_us: u64)
    ensures
        handshake_of(control_bytes(0x0c, be64(timestamp_us))) == Some(
            HandshakeView::RttPong { timestamp_us },
        ),
{
    reveal(handshake_of);
    lemma_be64_roundtrip(timestamp_us);
    lemma_control(0x0c, be64(timestamp_us));
    let p = control_bytes(0x0c, be64(timestamp_us));
    assert(p.subrange(21, 29) =~= p.skip(21));
}

/// A metadata packet that was built is taken apart into what its channel list says, as long as
/// its length field can hold the length: up to 65535 bytes of token and list, or a length whose
/// remainder modulo 65536 is too small to be one.
pub proof fn law_metadata_roundtrip(device_name_token: Seq<u8>, json: Seq<char>)
    requires
        device_name_token.len() == 16,
        16 + encode_utf8(json).len() < 0x1_0000 || (16 + encode_utf8(json).len()) % 0x1_0000 < 16,
    ensures
        handshake_of(metadata_bytes(device_name_token, json)) == Some(
            HandshakeView::Metadata(metadata_of(json)),
        ),
{
    reveal(handshake_of);
    let list = encode_utf8(json);
    let body = metadata_body(device_name_token, list);
    let len16 = ((16 + list.len()) % 0x1_0000) as u16;
    lemma_header(0, 0, SSRC_METADATA, 0x0a, body);
    lemma_be16_roundtrip(len16);
    let p = metadata_bytes(device_name_token, json);
    assert(body.subrange(4, 6) =~= be16(len16));
    assert(p.subrange(18, 20) =~= p.skip(14).subrange(4, 6));
    assert(body.len() == 23 + list.len());
    assert(body.skip(23) =~= list);
    assert(p.subrange(37, p.len() as int) =~= p.skip(14).skip(23));
    assert(metadata_end(p) == p.len());
    encode_utf8_valid_utf8(json);
    encode_utf8_decode_utf8(json);
}

/// No packet is both audio and something else: the payload class tells them apart.
pub proof fn law_classes_disjoint(data: Seq<u8>)
    ensures
        !(media_of(data) is Some && handshake_of(data) is Some),
{
    reveal(handshake_of);
    reveal(media_of);
}

// ---------------------------------------------------------------------------------------------
// Layout

/// Whether `data` begins as every packet of a payload class and a kind does: the mark of the
/// protocol, and behind the header the class and the kind.
pub open spec fn opens_as(data: Seq<u8>, class: (u8, u8, u8, u8), kind: u8) -> bool {
    &&& data.len() >= 14
    &&& data[0] == 0x80 && data[1] == 0x69
    &&& data[8] == class.0 && data[9] == class.1 && data[10] == class.2 && data[11] == class.3
    &&& data[12] == 0x09 && data[13] == kind
}

proof fn lemma_header_layout(seq: u16, timestamp: u32, ssrc: u32, rest: Seq<u8>)
    ensures
        ({
            let b = header_bytes(seq, timestamp, ssrc) + rest;
            &&& b.len() == 12 + rest.len()
            &&& b[0] == 0x80 && b[1] == 0x69
            &&& b[2] * 0x100 + b[3] == seq
            &&& b[4] * 0x100_0000 + b[5] * 0x1_0000 + b[6] * 0x100 + b[7] == timestamp
            &&& b[8] * 0x100_0000 + b[9] * 0x1_0000 + b[10] * 0x100 + b[11] == ssrc
            &&& forall|i: int| 12 <= i < b.len() ==> #[trigger] b[i] == rest[i - 12]
        }),
{
    law_most_significant_byte_first(seq, timestamp, 0);
    law_most_significant_byte_first(seq, ssrc, 0);
    let b = header_bytes(seq, timestamp, ssrc) + rest;
    let h = header_bytes(seq, timestamp, ssrc);
    assert(h =~= seq![0x80u8, 0x69u8] + be16(seq) + be32(timestamp) + be32(ssrc));
    assert(b[2] == be16(seq)[0] && b[3] == be16(seq)[1]);
    assert(b[4] == be32(timestamp)[0] && b[5] == be32(timestamp)[1]);
    assert(b[6] == be32(timestamp)[2] && b[7] == be32(timestamp)[3]);
    assert(b[8] == be32(ssrc)[0] && b[9] == be32(ssrc)[1]);
    assert(b[10] == be32(ssrc)[2] && b[11] == be32(ssrc)[3]);
}

/// An audio packet byte by byte: the header with count and timestamp, the class and the kind, the
/// channel at byte 18, and from byte 19 on the frame, whatever its length.
pub proof fn law_media_layout(seq: u16, timestamp: u32, channel: u8, opus: Seq<u8>)
    ensures
        ({
            let b = media_bytes(seq, timestamp, channel, opus);
            &&& b.len() == 19 + opus.len()
            &&& opens_as(b, (0, 1, 0, 0), 0x06)
            &&& b[2] * 0x100 + b[3] == seq
            &&& b[4] * 0x100_0000 + b[5] * 0x1_0000 + b[6] * 0x100 + b[7] == timestamp
            &&& b[14] == 0 && b[15] == 0 && b[16] == 0 && b[17] == 0
            &&& b[18] == channel
            &&& forall|i: int| 0 <= i < opus.len() ==> #[trigger] b[19 + i] == opus[i]
        }),
{
    let rest = seq![0x09u8, 0x06u8] + (seq![0u8, 0u8, 0u8, 0u8] + seq![channel] + opus);
    lemma_header_layout(seq, timestamp, SSRC_MEDIA, rest);
    assert(media_bytes(seq, timestamp, channel, opus) =~= header_bytes(seq, timestamp, SSRC_MEDIA)
        + rest);
}

/// A control packet byte by byte: a header without count and timestamp, the class and the kind, and
/// from byte 21 on the body.
pub proof fn law_control_layout(kind: u8, body: Seq<u8>)
    ensures
        ({
            let b = control_bytes(kind, body);
            &&& b.len() == 21 + body.len()
            &&& opens_as(b, (0, 0, 2, 0), kind)
            &&& forall|i: int| 2 <= i < 8 ==> #[trigger] b[i] == 0
            &&& forall|i: int| 14 <= i < 21 ==> #[trigger] b[i] == 0
            &&& forall|i: int| 0 <= i < body.len() ==> #[trigger] b[21 + i] == body[i]
        }),
{
    let zeros = seq![0u8, 0u8, 0u8, 0u8, 0u8, 0u8, 0u8];
    let rest = seq![0x09u8, kind] + (zeros + body);
    lemma_header_layout(0, 0, SSRC_CONTROL, rest);
    let b = control_bytes(kind, body);
    assert(b =~= header_bytes(0, 0, SSRC_CONTROL) + rest);
}

/// A metadata packet byte by byte: a header without count and timestamp, the class and the kind, the
/// length of token and list at byte 18, the token from byte 21 on, and behind it the list in UTF-8.
pub proof fn law_metadata_layout(device_name_token: Seq<u8>, json: Seq<char>)
    requires
        device_name_token.len() == 16,
    ensures
        ({
            let b = metadata_bytes(device_name_token, json);
            let list = encode_utf8(json);
            &&& b.len() == 37 + list.len()
            &&& opens_as(b, (0, 0, 0, 0), 0x0a)
            &&& forall|i: int| 2 <= i < 8 ==> #[trigger] b[i] == 0
            &&& b[14] == 0 && b[15] == 1 && b[16] == 1 && b[17] == 0
            &&& b[18] * 0x100 + b[19] == (16 + list.len()) % 0x1_0000
            &&& b[20] == 0
            &&& forall|i: int| 0 <= i < 16 ==> #[trigger] b[21 + i] == device_name_token[i]
            &&& forall|i: int| 0 <= i < list.len() ==> #[trigger] b[37 + i] == list[i]
        }),
{
    let list = encode_utf8(json);
    let n = ((16 + list.len()) % 0x1_0000) as u16;
    law_most_significant_byte_first(n, 0, 0);
    let rest = seq![0x09u8, 0x0au8] + metadata_body(device_name_token, list);
    lemma_header_layout(0, 0, SSRC_METADATA, rest);
    let b = metadata_bytes(device_name_token, json);
    assert(b =~= header_bytes(0, 0, SSRC_METADATA) + rest);
    let m = metadata_body(device_name_token, list);
    assert(m[4] == be16(n)[0] && m[5] == be16(n)[1]);
    assert forall|i: int| 0 <= i < 16 implies #[trigger] b[21 + i] == device_name_token[i] by {
        assert(b[21 + i] == m[7 + i]);
    }
    assert forall|i: int| 0 <= i < list.len() implies #[trigger] b[37 + i] == list[i] by {
        assert(b[37 + i] == m[23 + i]);
    }
}

proof fn lemma_kind_layout(data: Seq<u8>, ssrc: u32, class: (u8, u8, u8, u8), kind: u8)
    requires
        ssrc == class.0 * 0x100_0000 + class.1 * 0x1_0000 + class.2 * 0x100 + class.3,
    ensures
        is_kind(data, ssrc, kind) <==> opens_as(data, class, kind),
{
    if data.len() >= 14 {
        let c = data.subrange(8, 12);
        law_read_most_significant_byte_first(data.subrange(0, 2), c, data.subrange(0, 8));
        assert(c[0] == data[8] && c[1] == data[9] && c[2] == data[10] && c[3] == data[11]);
    }
}

/// What is read as audio: every packet of that class and kind that is long enough for a channel, and
/// of it the count, the timestamp, the channel at byte 18 and all that stands behind.
pub proof fn law_media_is_read(data: Seq<u8>)
    ensures
        media_of(data) is Some <==> opens_as(data, (0, 1, 0, 0), 0x06) && data.len() >= 19,
        media_of(data) matches Some(m) ==> {
            &&& m.seq == data[2] * 0x100 + data[3]
            &&& m.timestamp == data[4] * 0x100_0000 + data[5] * 0x1_0000 + data[6] * 0x100 + data[7]
            &&& m.channel == data[18]
            &&& m.opus.len() == data.len() - 19
            &&& forall|i: int| 0 <= i < m.opus.len() ==> #[trigger] m.opus[i] == data[19 + i]
        },
{
    reveal(media_of);
    lemma_kind_layout(data, SSRC_MEDIA, (0, 1, 0, 0), 0x06);
    if data.len() >= 19 {
        law_read_most_significant_byte_first(
            data.subrange(2, 4),
            data.subrange(4, 8),
            data.subrange(0, 8),
        );
    }
}

/// What is read as a probe, an acceptance or a confirmation: every packet of that class and kind that
/// is long enough for its tokens, of which the first stands at byte 21.
pub proof fn law_tokens_are_read(data: Seq<u8>)
    ensures
        opens_as(data, (0, 0, 2, 0), 0x07) && data.len() >= 53 ==> handshake_of(data) == Some(
            HandshakeView::Probe {
                sender_token: data.subrange(21, 37),
                expected_peer: data.subrange(37, 53),
            },
        ),
        opens_as(data, (0, 0, 2, 0), 0x09) && data.len() >= 37 ==> handshake_of(data) == Some(
            HandshakeView::Accept { token: data.subrange(21, 37) },
        ),
        opens_as(data, (0, 0, 2, 0), 0x08) && data.len() >= 53 ==> handshake_of(data) == Some(
            HandshakeView::Confirm { token: data.subrange(21, 37) },
        ),
        handshake_of(data) matches Some(HandshakeView::Probe { sender_token, expected_peer })
            ==> opens_as(data, (0, 0, 2, 0), 0x07) && data.len() >= 53,
        handshake_of(data) matches Some(HandshakeView::Accept { token }) ==> opens_as(
            data,
            (0, 0, 2, 0),
            0x09,
        ) && data.len() >= 37,
        handshake_of(data) matches Some(HandshakeView::Confirm { token }) ==> opens_as(
            data,
            (0, 0, 2, 0),
            0x08,
        ) && data.len() >= 53,
{
    reveal(handshake_of);
    lemma_kind_layout(data, SSRC_CONTROL, (0, 0, 2, 0), 0x07);
    lemma_kind_layout(data, SSRC_CONTROL, (0, 0, 2, 0), 0x08);
    lemma_kind_layout(data, SSRC_CONTROL, (0, 0, 2, 0), 0x09);
}

/// What is read as a round-trip request or its answer, and what timestamp it carries.
pub proof fn law_round_trips_are_read(data: Seq<u8>)
    ensures
        ({
            let t = data[21] * 0x100_0000_0000_0000 + data[22] * 0x1_0000_0000_0000 + data[23]
                * 0x100_0000_0000 + data[24] * 0x1_0000_0000 + data[25] * 0x100_0000 + data[26]
                * 0x1_0000 + data[27] * 0x100 + data[28];
            &&& opens_as(data, (0, 0, 2, 0), 0x0b) && data.len() >= 29 ==> handshake_of(data)
                == Some(HandshakeView::RttPing { timestamp_us: t as u64 })
            &&& opens_as(data, (0, 0, 2, 0), 0x0c) && data.len() >= 29 ==> handshake_of(data)
                == Some(HandshakeView::RttPong { timestamp_us: t as u64 })
        }),
        handshake_of(data) matches Some(HandshakeView::RttPing { timestamp_us }) ==> opens_as(
            data,
            (0, 0, 2, 0),
            0x0b,
        ) && data.len() >= 29,
        handshake_of(data) matches Some(HandshakeView::RttPong { timestamp_us }) ==> opens_as(
            data,
            (0, 0, 2, 0),
            0x0c,
        ) && data.len() >= 29,
{
    reveal(handshake_of);
    lemma_kind_layout(data, SSRC_CONTROL, (0, 0, 2, 0), 0x07);
    lemma_kind_layout(data, SSRC_CONTROL, (0, 0, 2, 0), 0x08);
    lemma_kind_layout(data, SSRC_CONTROL, (0, 0, 2, 0), 0x09);
    lemma_kind_layout(data, SSRC_CONTROL, (0, 0, 2, 0), 0x0b);
    lemma_kind_layout(data, SSRC_CONTROL, (0, 0, 2, 0), 0x0c);
    lemma_kind_layout(data, SSRC_METADATA, (0, 0, 0, 0), 0x0a);
    if data.len() >= 29 {
        law_read_most_significant_byte_first(
            data.subrange(2, 4),
            data.subrange(4, 8),
            data.subrange(21, 29),
        );
    }
}

/// What is read as metadata: every packet of that class and kind that is long enough for a token and
/// whose list is UTF-8. The list begins at byte 37 and goes as far as the length at byte 18 says, or
/// to the end of the packet where that is no length of such a packet.
pub proof fn law_metadata_is_read(data: Seq<u8>, list: Seq<char>, end: int)
    requires
        37 <= end <= data.len(),
        encode_utf8(list) == data.subrange(37, end),
        ({
            let told = data[18] * 0x100 + data[19];
            end == if 16 <= told && 21 + told <= data.len() {
                21 + told
            } else {
                data.len() as int
            }
        }),
    ensures
        opens_as(data, (0, 0, 0, 0), 0x0a) <==> handshake_of(data) is Some && handshake_of(
            data,
        )->0 is Metadata,
        opens_as(data, (0, 0, 0, 0), 0x0a) ==> handshake_of(data) == Some(
            HandshakeView::Metadata(metadata_of(list)),
        ),
{
    reveal(handshake_of);
    lemma_kind_layout(data, SSRC_CONTROL, (0, 0, 2, 0), 0x07);
    lemma_kind_layout(data, SSRC_CONTROL, (0, 0, 2, 0), 0x08);
    lemma_kind_layout(data, SSRC_CONTROL, (0, 0, 2, 0), 0x09);
    lemma_kind_layout(data, SSRC_METADATA, (0, 0, 0, 0), 0x0a);
    law_read_most_significant_byte_first(
        data.subrange(18, 20),
        data.subrange(4, 8),
        data.subrange(0, 8),
    );
    assert(end == metadata_end(data));
    encode_utf8_valid_utf8(list);
    encode_utf8_decode_utf8(list);
}

/// A host is taken without the port of an endpoint that stands behind it, and as it is without one.
pub proof fn law_port_is_taken_off(host: Seq<char>)
    ensures
        host_only(host + ":20102"@) == host,
        (forall|front: Seq<char>| host != #[trigger] (front + ":20102"@)) ==> host_only(host) == host,
{
    reveal_strlit(":20102");
    reveal_strlit(":");
    reveal_with_fuel(decimal, 6);
    let port = ":"@ + decimal(PORT as nat);
    assert(port =~= ":20102"@);
    let whole = host + port;
    assert(whole.skip(whole.len() - port.len()) =~= port);
    assert(whole.take(whole.len() - port.len()) =~= host);
    if before_suffix(host, port) is Some {
        let front = host.take(host.len() - port.len());
        assert(host =~= front + ":20102"@);
    }
}

} // verus!
