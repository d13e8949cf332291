use audiolink::link::{LinkConfig, ResetReason};
use audiolink::packet::{
    build_accept_packet, build_metadata_packet, build_packet, build_probe_packet, build_rtt_ping,
};
use audiolink::session::{
    buffer_high, fills_in_play, flush_samples_after_reset, fullest_ring, is_primed,
    recommended_buffer_ms, warning_due, Arrival, Demux, Session, StatsMarks,
};
use audiolink::state::PeerAddr;
use audiolink::stream::{active_count, Placed, StreamState};

const TOKEN: [u8; 16] = [7; 16];
const NAME: [u8; 16] = [9; 16];

fn addr(n: u8) -> PeerAddr {
    PeerAddr {
        v6: false,
        ip: n as u128,
        port: 1,
        flow: 0,
        scope: 0,
    }
}

fn at(src: PeerAddr, ms: u64) -> Arrival {
    Arrival {
        src,
        now_ms: ms,
        now_us: ms * 1_000,
        now_ns: ms * 1_000_000,
        flushing: false,
    }
}

fn session(is_initiator: bool, phase_lock: bool) -> Session {
    let c = LinkConfig {
        is_initiator,
        shared_token: TOKEN,
        device_name_token: NAME,
        node_id: "here".to_string(),
        num_channels: 2,
    };
    Session::new(c, phase_lock)
}

fn connected(phase_lock: bool) -> Session {
    let mut s = session(false, phase_lock);
    let r = s.receive(&build_probe_packet(&NAME, &TOKEN), at(addr(1), 1), &[]);
    assert_eq!(r.reset, Some(ResetReason::NewHandshake));
    assert_eq!(r.sends.len(), 3);
    s
}

fn play(s: &mut Session, seq: u16, ts: u32, ch: u8, ms: u64) -> audiolink::session::Received {
    s.receive(&build_packet(seq, ts, ch, &[ch, 1]), at(addr(1), ms), &[])
}

#[test]
fn audio_before_the_handshake_is_ignored() {
    let mut s = session(false, true);
    let r = play(&mut s, 0, 0, 0, 5);
    assert!(!r.accepted);
    assert_eq!(r.heard, None);
    assert_eq!(s.stream.media_total, 0);
    let mut caller = session(true, true);
    assert!(play(&mut caller, 0, 0, 0, 5).accepted);
}

#[test]
fn strangers_are_ignored() {
    let mut s = connected(true);
    let r = s.receive(&build_packet(0, 0, 0, &[1]), at(addr(2), 9), &[]);
    assert!(!r.accepted && r.sends.is_empty() && r.heard.is_none());
    let r = s.receive(&build_probe_packet(&NAME, &TOKEN), at(addr(2), 9), &[]);
    assert!(r.sends.is_empty());
    assert_eq!(s.link.conflict, Some(addr(2)));
    assert_eq!(s.link.last_audio_ms, 0);
}

#[test]
fn locked_audio_waits_for_all_channels() {
    let mut s = connected(true);
    let r = play(&mut s, 0, 960, 0, 10);
    assert!(r.accepted && r.decode.is_none() && r.sends.is_empty());
    assert_eq!(r.heard, Some(960));
    assert_eq!(s.link.last_audio_ms, 10);
    assert!(s.drain(11_000_000).is_empty());
    play(&mut s, 0, 960, 1, 11);
    let out = s.drain(12_000_000);
    assert_eq!(out.len(), 1);
    assert_eq!(out[0].0, 960);
    assert_eq!(out[0].1.packets[1].as_deref(), Some(&[1u8, 1][..]));
    let late = play(&mut s, 1, 960, 0, 13);
    assert!(!late.accepted);
    assert_eq!(s.stream.decoded_total, 1);
}

#[test]
fn unlocked_audio_is_decoded_at_once() {
    let mut s = connected(false);
    let r = play(&mut s, 0, 960, 1, 10);
    assert_eq!(r.decode, Some((1, vec![1, 1])));
    assert!(s.drain(u64::MAX).is_empty());
    play(&mut s, 0, 960, 0, 10);
    assert_eq!(s.stream.decoded_total, 1);
    play(&mut s, 1, 1920, 0, 30);
    assert_eq!(s.stream.decoded_total, 2);
}

#[test]
fn losses_are_counted_per_channel() {
    let mut s = connected(true);
    play(&mut s, 10, 960, 0, 10);
    play(&mut s, 14, 1920, 0, 11);
    play(&mut s, 500, 1920, 1, 11);
    assert_eq!(s.stream.lost_total, 3);
    play(&mut s, 13, 2880, 0, 12);
    assert_eq!(s.stream.lost_total, 3);
    assert_eq!(s.stream.media_total, 4);
    assert_eq!(s.stream.rx_bytes_total, 4 * 21);
    assert_eq!(s.stream.newest_ts, Some(2880));
}

#[test]
fn channel_out_of_range_is_dropped() {
    let mut s = connected(true);
    let r = play(&mut s, 0, 960, 64, 10);
    assert!(!r.accepted);
    assert_eq!(r.heard, Some(960));
    assert_eq!(s.stream.media_total, 1);
    assert_eq!(s.stream.newest_ts, None);
}

#[test]
fn restarted_sender_is_followed() {
    let mut s = connected(true);
    for ch in 0..2 {
        play(&mut s, 1_000, 960_000, ch, 10);
    }
    assert_eq!(s.drain(10_000_000).len(), 1);
    let near = play(&mut s, 999, 960_000 - 48_000, 0, 20);
    assert_eq!(near.reset, None);
    assert!(!near.accepted);
    let r = play(&mut s, 0, 960, 0, 21);
    assert_eq!(r.reset, Some(ResetReason::RtpRestart));
    assert!(r.accepted);
    assert_eq!(s.stream.last_drained_ts, None);
    assert_eq!(s.stream.newest_ts, Some(960));
    assert_eq!(s.stream.media_total, 0);
}

#[test]
fn flushing_takes_in_no_audio() {
    let mut s = connected(true);
    let mut when = at(addr(1), 10);
    when.flushing = true;
    let r = s.receive(&build_packet(0, 960, 0, &[1]), when, &[]);
    assert!(!r.accepted && r.heard.is_none());
    assert_eq!(s.link.last_audio_ms, 10);
    assert_eq!(s.stream.media_total, 0);
}

#[test]
fn resets_empty_the_receive_side() {
    let mut s = connected(true);
    play(&mut s, 0, 960, 0, 10);
    let r = s.receive(&build_metadata_packet(&NAME, 5, "x"), at(addr(1), 11), &[]);
    assert_eq!(r.reset, Some(ResetReason::ChannelLayout));
    assert!(s.stream.groups.is_empty());
    assert_eq!(s.stream.media_total, 0);
    play(&mut s, 0, 960, 0, 12);
    assert!(!s.follow_epoch());
    s.link.network_changed();
    assert!(s.follow_epoch());
    assert!(s.stream.groups.is_empty());
    assert!(!s.follow_epoch());
    assert_eq!(s.observed_epoch, 1);
}

#[test]
fn noise_is_ignored() {
    let mut s = connected(true);
    let r = s.receive(&[1, 2, 3], at(addr(1), 10), &[]);
    assert!(!r.accepted && r.sends.is_empty() && r.reset.is_none());
    assert_eq!(s.link.last_audio_ms, 0);
}

#[test]
fn channels_in_play_are_those_that_come() {
    let mut s = connected(false);
    assert_eq!(s.channels_in_play(), vec![true, true]);
    s.receive(&build_packet(1, 960, 1, &[5]), at(addr(1), 10), &[]);
    assert_eq!(s.channels_in_play(), vec![false, true]);
    assert_eq!(fills_in_play(&s.channels_in_play(), &[0, 70, 9]), vec![70]);
    assert_eq!(fills_in_play(&[true, true], &[3]), vec![3]);
    s.receive(&build_packet(1, 960, 0, &[5]), at(addr(1), 11), &[]);
    assert_eq!(s.channels_in_play(), vec![true, true]);
    let mut locked = connected(true);
    locked.receive(&build_packet(1, 960, 1, &[5]), at(addr(1), 10), &[]);
    assert_eq!(locked.channels_in_play(), vec![true, true]);
}

#[test]
fn rings_and_priming() {
    assert_eq!(flush_samples_after_reset(0), None);
    assert_eq!(flush_samples_after_reset(1), Some(961));
    assert_eq!(flush_samples_after_reset(usize::MAX), Some(usize::MAX));
    assert_eq!(fullest_ring(&[1, 5, 9], 2), 5);
    assert_eq!(fullest_ring(&[1, 5, 9], 0), 1);
    assert_eq!(fullest_ring(&[], 4), 0);
    assert!(is_primed(false, &[100, 100, 0], 2, 100));
    assert!(!is_primed(true, &[100, 100], 2, 100));
    assert!(!is_primed(false, &[100, 99], 2, 100));
    assert_eq!(active_count(0), 1);
    assert_eq!(active_count(7), 7);
    assert_eq!(active_count(100), 64);
    assert_eq!(recommended_buffer_ms(0), 80);
    assert_eq!(recommended_buffer_ms(123), 123);
    assert_eq!(recommended_buffer_ms(9_999), 500);
}

#[test]
fn packets_find_their_session() {
    let mut d = Demux::new(vec![[1; 16], [2; 16]]);
    assert_eq!(d.route(addr(1), &build_packet(0, 0, 0, &[])), None);
    assert_eq!(d.route(addr(1), &build_probe_packet(&NAME, &[2; 16])), Some(1));
    assert_eq!(d.route(addr(1), &build_packet(0, 0, 0, &[])), Some(1));
    assert_eq!(d.route(addr(2), &build_rtt_ping(5)), None);
    assert_eq!(d.route(addr(2), &build_accept_packet(&[1; 16])), Some(0));
    assert_eq!(d.route(addr(3), &build_accept_packet(&[3; 16])), None);
}

#[test]
fn reports_count_since_the_last() {
    let mut s = StreamState::new();
    s.media_total = 10;
    s.lost_total = 2;
    s.decoded_total = 5;
    s.rx_bytes_total = 1_000;
    s.count_concealed(3);
    let mut m = StatsMarks::new();
    let r = m.report(&s, 4, 1);
    assert_eq!((r.packets, r.lost, r.expected), (10, 2, 12));
    assert_eq!((r.frames, r.bytes, r.plc), (5, 1_000, 3));
    assert_eq!((r.underflows, r.overflows), (4, 1));
    let r = m.report(&s, 6, 1);
    assert_eq!((r.packets, r.lost, r.expected, r.plc), (0, 0, 0, 0));
    assert_eq!((r.underflows, r.overflows), (2, 0));
    m.reset(6);
    assert_eq!(m.underflows, 6);
    assert_eq!(m.media, 0);
}

#[test]
fn placing_a_packet() {
    let mut s = StreamState::new();
    let bytes = build_packet(3, 960, 1, &[1]);
    let p = audiolink::packet::parse_packet(&bytes).unwrap();
    let o = s.on_media(&p, 20, true, 2, 0);
    assert_eq!((o.restarted, o.placed), (false, Placed::Grouped));
    let o = s.on_media(&p, 20, false, 2, 0);
    assert_eq!(o.placed, Placed::DecodeNow);
    s.reset();
    assert_eq!(s.media_total, 0);
    assert!(s.groups.is_empty());
}

#[test]
fn full_buffers_are_warned_of_now_and_then() {
    assert!(!buffer_high(300, 100));
    assert!(buffer_high(301, 100));
    assert!(!buffer_high(0, 0));
    assert!(warning_due(None, 0));
    assert!(!warning_due(Some(5), 10_000_000_004));
    assert!(warning_due(Some(5), 10_000_000_005));
    assert!(!warning_due(Some(u64::MAX), 0));
}
