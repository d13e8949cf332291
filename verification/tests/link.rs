use audiolink::interfaces::{
    check_interfaces, dotted_text, list_network_interfaces, same_interfaces, InterfaceEntry,
};
use audiolink::link::{LinkConfig, LinkState, ResetReason};
use audiolink::metadata::RemoteMetadata;
use audiolink::packet::{
    build_accept_packet, build_confirm_packet, build_metadata_packet_with_labels,
    build_probe_packet, build_rtt_ping, build_rtt_pong, parse_handshake_packet, HandshakePacket,
};
use audiolink::state::PeerAddr;

const TOKEN: [u8; 16] = [7; 16];
const NAME: [u8; 16] = [9; 16];

fn addr(n: u8) -> PeerAddr {
    PeerAddr {
        v6: false,
        ip: n as u128,
        port: 20102,
        flow: 0,
        scope: 0,
    }
}

fn config(is_initiator: bool) -> LinkConfig {
    LinkConfig {
        is_initiator,
        shared_token: TOKEN,
        device_name_token: NAME,
        node_id: "here".to_string(),
        num_channels: 2,
    }
}

fn labels() -> Vec<String> {
    vec!["L".to_string(), "R".to_string()]
}

fn probe(token: [u8; 16]) -> HandshakePacket {
    parse_handshake_packet(&build_probe_packet(&NAME, &token)).unwrap()
}

fn metadata(n: usize) -> HandshakePacket {
    HandshakePacket::Metadata(RemoteMetadata {
        node_id: None,
        channels: n,
        labels: labels(),
    })
}

fn up(is_initiator: bool) -> LinkState {
    let c = config(is_initiator);
    let mut l = LinkState::new(2);
    l.on_handshake(&c, probe(TOKEN), addr(1), 1_000, 0, &labels());
    assert!(l.connected);
    l
}

#[test]
fn wrong_token_does_nothing() {
    let c = config(false);
    let mut l = LinkState::new(2);
    for p in [
        probe([8; 16]),
        HandshakePacket::Accept { token: [8; 16] },
        HandshakePacket::Confirm { token: [8; 16] },
        metadata(4),
        HandshakePacket::RttPing { timestamp_us: 1 },
        HandshakePacket::RttPong { timestamp_us: 1 },
    ] {
        let r = l.on_handshake(&c, p, addr(1), 5, 5, &labels());
        assert!(r.sends.is_empty());
        assert_eq!(r.reset, None);
        assert!(!l.connected);
        assert_eq!(l.last_control_ms, 0);
        assert_eq!(l.established, None);
    }
}

#[test]
fn probe_brings_up_a_responder() {
    let c = config(false);
    let mut l = LinkState::new(2);
    l.punch_target = Some(addr(3));
    let r = l.on_handshake(&c, probe(TOKEN), addr(1), 1_000, 0, &labels());
    assert_eq!(
        r.sends,
        vec![
            build_accept_packet(&TOKEN),
            build_confirm_packet(&TOKEN),
            build_metadata_packet_with_labels(&NAME, 2, "here", &labels()),
        ]
    );
    assert_eq!(r.reset, Some(ResetReason::NewHandshake));
    assert_eq!(l.established, Some(addr(1)));
    assert_eq!(l.punch_target, None);
    assert_eq!(l.last_control_ms, 1_000);
    let again = l.on_handshake(&c, probe(TOKEN), addr(1), 2_000, 0, &labels());
    assert_eq!(again.sends, vec![build_confirm_packet(&TOKEN)]);
    assert_eq!(again.reset, None);
    assert_eq!(l.last_control_ms, 2_000);
}

#[test]
fn accept_and_confirm_bring_up_an_initiator() {
    let c = config(true);
    let mut l = LinkState::new(2);
    let r = l.on_handshake(&c, HandshakePacket::Accept { token: TOKEN }, addr(1), 7, 0, &labels());
    assert_eq!(r.reset, Some(ResetReason::Accepted));
    assert_eq!(r.sends.len(), 2);
    assert_eq!(r.sends[0], build_confirm_packet(&TOKEN));
    assert!(l.connected);
    assert_eq!(l.established, None);
    let again = l.on_handshake(&c, HandshakePacket::Accept { token: TOKEN }, addr(1), 8, 0, &labels());
    assert_eq!(again.reset, None);
    assert_eq!(again.sends.len(), 2);

    let mut m = LinkState::new(2);
    let r = m.on_handshake(&c, HandshakePacket::Confirm { token: TOKEN }, addr(1), 7, 0, &labels());
    assert_eq!(r.reset, Some(ResetReason::Confirmed));
    assert!(r.sends.is_empty());
    assert!(m.connected);
}

#[test]
fn probe_and_answer_bring_both_ends_up() {
    let caller = config(true);
    let called = config(false);
    let mut a = LinkState::new(2);
    let mut b = LinkState::new(2);
    let tick = a.tick(&caller, Some(addr(2)), 0, 0);
    assert!(!tick.stale);
    assert_eq!(tick.target, Some(addr(2)));
    assert_eq!(tick.sends, vec![build_probe_packet(&NAME, &TOKEN)]);
    let call = parse_handshake_packet(&tick.sends[0]).unwrap();
    let reply = b.on_handshake(&called, call, addr(1), 1, 1, &labels());
    for bytes in &reply.sends {
        let p = parse_handshake_packet(bytes).unwrap();
        a.on_handshake(&caller, p, addr(2), 2, 2, &labels());
    }
    assert!(a.connected && b.connected);
    assert_eq!(a.remote_channels, 2);
    assert_eq!(a.remote_metadata.as_ref().unwrap().labels, labels());
}

#[test]
fn channel_layout_follows_the_other_end() {
    let c = config(false);
    let mut l = up(false);
    let r = l.on_handshake(&c, metadata(3), addr(1), 1_100, 0, &labels());
    assert_eq!(r.reset, Some(ResetReason::ChannelLayout));
    assert_eq!(l.remote_channels, 3);
    let same = l.on_handshake(&c, metadata(3), addr(1), 1_200, 0, &labels());
    assert_eq!(same.reset, None);
    assert_eq!(l.last_control_ms, 1_200);
    let none = l.on_handshake(&c, metadata(0), addr(1), 1_300, 0, &labels());
    assert_eq!(none.reset, None);
    assert_eq!(l.remote_channels, 3);
    assert_eq!(l.last_control_ms, 1_200);
    let many = l.on_handshake(&c, metadata(99), addr(1), 1_400, 0, &labels());
    assert_eq!(many.reset, Some(ResetReason::ChannelLayout));
    assert_eq!(l.remote_channels, 64);
}

#[test]
fn round_trip_time() {
    let c = config(false);
    let mut l = up(false);
    let r = l.on_handshake(&c, HandshakePacket::RttPing { timestamp_us: 42 }, addr(1), 1_001, 0, &labels());
    assert_eq!(r.sends, vec![build_rtt_pong(42)]);
    l.on_handshake(&c, HandshakePacket::RttPong { timestamp_us: 1_000 }, addr(1), 1_002, 13_540, &labels());
    assert_eq!(l.rtt_us10, 125);
    l.on_handshake(&c, HandshakePacket::RttPong { timestamp_us: 9_000 }, addr(1), 1_003, 8_000, &labels());
    assert_eq!(l.rtt_us10, 125);
    let tick = l.tick(&c, None, 1_004, 77);
    assert_eq!(
        tick.sends,
        vec![build_probe_packet(&NAME, &TOKEN), build_rtt_ping(77)]
    );
}

#[test]
fn strangers_are_noted_once() {
    let c = config(false);
    let mut l = up(false);
    assert!(!l.refuse_stranger(&c, addr(1)));
    assert!(l.refuse_stranger(&c, addr(2)));
    assert!(l.refuse_stranger(&c, addr(3)));
    assert_eq!(l.conflict, Some(addr(2)));
    let mut caller = up(true);
    assert!(!caller.refuse_stranger(&config(true), addr(2)));
    assert_eq!(caller.conflict, None);
}

#[test]
fn silence_takes_the_link_down() {
    let c = config(false);
    let mut l = up(false);
    l.on_handshake(&c, metadata(3), addr(1), 1_000, 0, &labels());
    let tick = l.tick(&c, None, 16_000, 0);
    assert!(!tick.stale);
    let tick = l.tick(&c, None, 16_001, 0);
    assert!(tick.stale);
    assert!(tick.sends.is_empty());
    assert!(!l.connected);
    assert_eq!(l.established, None);
    assert_eq!(l.reset_epoch, 1);
    assert_eq!(l.last_control_ms, 0);
    assert!(l.remote_metadata.is_some());
    let tick = l.tick(&c, None, 16_002, 0);
    assert!(!tick.stale && tick.target.is_none() && tick.sends.is_empty());
}

#[test]
fn rendezvous_points_the_link() {
    let mut l = LinkState::new(2);
    assert_eq!(l.send_target(Some(addr(5))), Some(addr(5)));
    assert!(!l.detoured(Some(addr(5))));
    assert!(!l.point_at(addr(6)));
    assert_eq!(l.send_target(Some(addr(5))), Some(addr(6)));
    assert!(l.detoured(Some(addr(5))));
    assert!(!l.detoured(None));
    let mut bound = up(false);
    assert!(!bound.point_at(addr(6)));
    assert_eq!(bound.send_target(None), Some(addr(1)));
    bound.connected = false;
    assert!(bound.point_at(addr(7)));
    assert_eq!(bound.established, None);
    assert_eq!(bound.send_target(None), Some(addr(7)));
}

#[test]
fn reset_reasons_in_words() {
    assert_eq!(ResetReason::Watchdog.as_str(), "epoch/watchdog reset");
    assert_eq!(ResetReason::NewHandshake.as_str(), "new handshake");
    assert_eq!(ResetReason::Accepted.as_str(), "accepted");
    assert_eq!(ResetReason::Confirmed.as_str(), "confirmed");
    assert_eq!(ResetReason::ChannelLayout.as_str(), "channel layout changed");
    assert_eq!(ResetReason::RtpRestart.as_str(), "RTP restart");
}

fn entry(name: &str, ipv4: Option<u32>, loopback: bool, up: bool) -> InterfaceEntry {
    InterfaceEntry {
        name: name.to_string(),
        ipv4,
        loopback,
        up,
    }
}

#[test]
fn interfaces_that_count() {
    assert_eq!(dotted_text(0xc0a8_0105), "192.168.1.5");
    assert_eq!(dotted_text(u32::MAX), "255.255.255.255");
    let list = list_network_interfaces(&[
        entry("lo", Some(0x7f00_0001), true, true),
        entry("en0", Some(0x0a00_0001), false, true),
        entry("en1", None, false, true),
        entry("en2", Some(0x0a00_0002), false, false),
    ]);
    assert_eq!(list.len(), 1);
    assert_eq!(
        (list[0].name.as_str(), list[0].addr.as_str()),
        ("en0", "10.0.0.1")
    );
    let other = list_network_interfaces(&[entry("en0", Some(0x0a00_0009), false, true)]);
    assert!(same_interfaces(&list, &list));
    assert!(!same_interfaces(&list, &other));
    let mut l = up(false);
    assert!(!check_interfaces(&mut l, &list, &list));
    assert!(l.connected);
    assert!(check_interfaces(&mut l, &list, &other));
    assert!(!l.connected);
    assert_eq!(l.reset_epoch, 1);
    assert!(check_interfaces(&mut l, &list, &other));
    assert_eq!(l.reset_epoch, 1);
}
