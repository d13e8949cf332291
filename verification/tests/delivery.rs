use audiolink::cli::parse_options;
use audiolink::link::LinkConfig;
use audiolink::packet::{
    build_metadata_packet, build_packet, build_probe_packet, parse_handshake_packet,
};
use audiolink::persistence::{save_persisted_config, PersistedUiState};
use audiolink::routing::apply_routes_to_tx_sources;
use audiolink::session::{Arrival, Session};
use audiolink::state::{DeviceResponse, EncoderMode, JitterConfig, PeerAddr, Route};
use audiolink::token::derive_token_from_text;
use audiolink::transmit::RemoteTx;
use audiolink::web::{control_web_state, setup_apply_handler, SetupApplyRequest};

const TOKEN: [u8; 16] = [7; 16];
const NAME: [u8; 16] = [9; 16];
const FROM: PeerAddr = PeerAddr {
    v6: true,
    ip: 1,
    port: 2,
    flow: 3,
    scope: 4,
};

fn at(ms: u64) -> Arrival {
    Arrival {
        src: FROM,
        now_ms: ms,
        now_us: ms * 1_000,
        now_ns: ms * 1_000_000,
        flushing: false,
    }
}

fn listening(channels: usize) -> Session {
    let config = LinkConfig {
        is_initiator: false,
        shared_token: TOKEN,
        device_name_token: NAME,
        node_id: "there".to_string(),
        num_channels: 1,
    };
    let mut s = Session::new(config, true);
    s.receive(&build_probe_packet(&NAME, &TOKEN), at(1), &[]);
    s.receive(&build_metadata_packet(&NAME, channels, "here"), at(2), &[]);
    assert_eq!(s.link.remote_channels, channels);
    s
}

#[test]
fn frames_arrive_whole_whatever_their_order() {
    let mut s = listening(4);
    let mut tx = RemoteTx::new(vec![0, 1, 2, 3], 4);
    let encoded: Vec<Vec<u8>> = (0..4u8).map(|ch| vec![ch, 10 + ch]).collect();
    let packets = tx.packets(&[1; 4], &encoded, 960);
    assert_eq!(packets.len(), 4);
    for i in [3usize, 1, 3, 0] {
        assert!(s.receive(&packets[i], at(10), &[]).accepted);
        assert!(s.drain(10_000_000).is_empty());
    }
    assert!(s.receive(&packets[2], at(11), &[]).accepted);
    let out = s.drain(11_000_000);
    assert_eq!(out.len(), 1);
    assert_eq!(out[0].0, 960);
    for ch in 0..4 {
        assert_eq!(out[0].1.packets[ch].as_ref(), Some(&encoded[ch]));
    }
    assert!(s.stream.groups.is_empty());
    assert!(!s.receive(&packets[2], at(12), &[]).accepted);
}

#[test]
fn lost_channel_is_waited_for_and_left_out() {
    let mut s = listening(2);
    let mut tx = RemoteTx::new(vec![0, 1], 2);
    let encoded = vec![vec![1u8], vec![2u8]];
    let packets = tx.packets(&[1; 2], &encoded, 960);
    s.receive(&packets[1], at(100), &[]);
    assert!(s.drain(109_999_999).is_empty());
    let out = s.drain(110_000_000);
    assert_eq!(out.len(), 1);
    assert_eq!(out[0].1.packets[0], None);
    assert_eq!(out[0].1.packets[1].as_ref(), Some(&encoded[1]));
}

#[test]
fn nothing_is_sent_until_a_route_is_made() {
    let mut tx = RemoteTx::new(vec![0, 1, 2], 3);
    let encoded = vec![vec![1u8], vec![2u8], vec![3u8]];
    let mut masks = vec![9usize; 3];
    apply_routes_to_tx_sources(&[], &mut masks);
    assert!(tx.packets(&masks, &encoded, 0).is_empty());
    assert_eq!(tx.seqs, vec![0, 0, 0]);
    let route = Route { source: "input:0".to_string(), destination: "stream:0:ch:1".to_string() };
    apply_routes_to_tx_sources(&[route], &mut masks);
    let packets = tx.packets(&masks, &encoded, 960);
    assert_eq!(packets, vec![build_packet(0, 960, 1, &[2])]);
    assert_eq!(tx.seqs, vec![0, 1, 0]);
    assert!(tx.packets(&[], &encoded, 1920).is_empty());
}

#[test]
fn unrouted_channel_does_not_hold_up_the_others() {
    let mut s = listening(2);
    let mut tx = RemoteTx::new(vec![0, 1], 2);
    let packets = tx.packets(&[0, 4], &[vec![1], vec![2]], 960);
    assert_eq!(packets.len(), 1);
    assert!(s.receive(&packets[0], at(100), &[]).accepted);
    let out = s.drain(110_000_000);
    assert_eq!(out[0].1.packets[0], None);
    assert_eq!(out[0].1.packets[1], Some(vec![2]));
    assert_eq!(s.channels_in_play(), vec![true, true]);
}

#[test]
fn handshake_packets_are_no_audio() {
    let mut tx = RemoteTx::new(vec![0], 1);
    let packets = tx.packets(&[1], &[vec![1, 2, 3]], 0);
    assert!(parse_handshake_packet(&packets[0]).is_none());
}

#[test]
fn applied_settings_come_back() {
    let devices = DeviceResponse {
        sample_rate: 48_000,
        default_input: "mic".to_string(),
        default_output: "out".to_string(),
        default_input_channels: 1,
        default_output_channels: 2,
        default_input_sample_rate: 48_000,
        default_output_sample_rate: 48_000,
        inputs: Vec::new(),
        outputs: Vec::new(),
    };
    let mut stored = PersistedUiState::default();
    stored.config.channel_labels = Some(vec!["Mic".to_string()]);
    let web = control_web_state(
        "old".to_string(),
        [0; 16],
        2,
        128_000,
        JitterConfig {
            configured_delay_ms: 100,
            target_delay_ms: 100,
            adaptive: true,
            phase_lock: true,
        },
        EncoderMode::Music,
        None,
        devices,
        &stored,
    );
    let req = SetupApplyRequest {
        remote: String::new(),
        remote_device_name: "b".to_string(),
        link_password: None,
        node_id: "new".to_string(),
        token: Some("words".to_string()),
        channels: 6,
        opus_bitrate_per_channel: 32_000,
        receive_buffer_ms: 250,
        rendezvous_url: Some("r".to_string()),
        phase_lock: Some(false),
        encoder_mode: Some("Speech".to_string()),
        bind_addr: Some("10.0.0.1".to_string()),
        selected_input_device: Some("mic".to_string()),
        selected_output_device: None,
    };
    let plan = setup_apply_handler(&web, &req, false).unwrap();
    let kept = save_persisted_config(stored, plan.config);
    let o = parse_options(&["program".to_string()], &kept.config, "host");
    assert_eq!(o.node_id, "new");
    assert_eq!((o.channels, o.bitrate, o.latency_ms), (6, 32_000, 250));
    assert!(!o.fixed_jitter && !o.phase_lock);
    assert_eq!(o.encoder_mode, EncoderMode::Speech);
    assert_eq!(o.token, Some(derive_token_from_text("words")));
    assert_eq!(o.rendezvous_url.as_deref(), Some("r"));
    assert_eq!(o.bind_addr, "10.0.0.1");
    assert_eq!(o.input_device.as_deref(), Some("mic"));
    assert_eq!(o.output_device, None);
    assert_eq!(kept.config.channel_labels, Some(vec!["Mic".to_string()]));
}
