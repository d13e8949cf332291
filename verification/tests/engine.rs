use audiolink::constants::DEFAULT_SHARED_TOKEN;
use audiolink::engine::{engine_web_state, plan_engine, ring_span, EngineError, EngineOptions};
use audiolink::persistence::{PersistedUiState, RemoteConnection};
use audiolink::state::{DeviceResponse, EncoderMode, JitterConfig, Route};
use audiolink::token::{derive_link_token, derive_token_from_text, token_to_hex};

fn remote(index: usize, name: &str, host: &str) -> RemoteConnection {
    RemoteConnection {
        index,
        name: name.to_string(),
        ip_override: host.to_string(),
        password: None,
        channels_to_send: Vec::new(),
        enabled: true,
    }
}

#[test]
fn channel_count_is_limited() {
    assert_eq!(plan_engine(&[], 0, "me", None, 100).unwrap_err(), EngineError::ChannelCount);
    assert_eq!(plan_engine(&[], 65, "me", None, 100).unwrap_err(), EngineError::ChannelCount);
    assert_eq!(EngineError::ChannelCount.message(), "Channel count must be 1\u{2013}64");
    assert!(plan_engine(&[], 64, "me", None, 100).is_ok());
}

#[test]
fn without_remotes_the_engine_waits() {
    let plan = plan_engine(&[], 2, "me", None, 100).unwrap();
    assert_eq!(plan.sessions.len(), 1);
    let s = &plan.sessions[0];
    assert!(!s.is_initiator);
    assert_eq!(s.shared_token, DEFAULT_SHARED_TOKEN);
    assert_eq!(s.channels_to_send, vec![0, 1]);
    assert_eq!(ring_span(&plan.sessions, 0), (0, 64));
    assert_eq!(plan.total_rx_slots, 2);
    assert_eq!(plan.prime_samples, 5_760);
    assert_eq!(plan.ring_samples, 48_000);
}

#[test]
fn every_remote_has_its_session() {
    let mut off = remote(3, "off", "");
    off.enabled = false;
    let mut some = remote(1, "b", " ");
    some.channels_to_send = vec![1];
    some.password = Some("pw".to_string());
    let remotes = [remote(0, "a", "10.0.0.1"), some, remote(2, "", "x"), off];
    let plan = plan_engine(&remotes, 2, "me", None, 1_000).unwrap();
    assert_eq!(plan.sessions.len(), 2);
    assert!(plan.sessions[0].is_initiator);
    assert!(!plan.sessions[1].is_initiator);
    assert_eq!(plan.sessions[0].shared_token, derive_link_token("a", "me", None));
    assert_eq!(plan.sessions[1].shared_token, derive_link_token("me", "b", Some("pw")));
    assert_eq!(plan.sessions[0].channels_to_send, vec![0, 1]);
    assert_eq!(plan.sessions[1].channels_to_send, vec![1]);
    assert_eq!(plan.sessions[0].rx_channel_offset, 0);
    assert_eq!(plan.sessions[1].rx_channel_offset, 2);
    assert_eq!(ring_span(&plan.sessions, 0), (0, 2));
    assert_eq!(ring_span(&plan.sessions, 1), (2, 64));
    assert_eq!(plan.total_rx_slots, 4);
    assert_eq!(plan.prime_samples, 48_000);
    assert_eq!(plan.ring_samples, 96_000);
}

#[test]
fn remotes_beyond_the_rings_get_no_session() {
    let remotes = [remote(0, "a", ""), remote(1, "b", ""), remote(2, "c", "")];
    let plan = plan_engine(&remotes, 32, "me", None, 40).unwrap();
    let offsets: Vec<usize> = plan.sessions.iter().map(|s| s.rx_channel_offset).collect();
    assert_eq!(offsets, vec![0, 32]);
    assert_eq!(plan.total_rx_slots, 64);
}

#[test]
fn web_state_of_an_engine() {
    let remotes = [remote(0, "b", "10.0.0.1")];
    let options = EngineOptions {
        num_channels: 2,
        send_enabled: true,
        recv_enabled: false,
        device_name_token: derive_token_from_text("me"),
        explicit_token: None,
        node_id: "me".to_string(),
        jitter: JitterConfig {
            configured_delay_ms: 30,
            target_delay_ms: 40,
            adaptive: true,
            phase_lock: true,
        },
        opus_bitrate_per_channel: 96_000,
        rendezvous_url: Some("https://r".to_string()),
        encoder_mode: EncoderMode::Speech,
        bind_addr: "0.0.0.0".to_string(),
        selected_input_device: None,
        selected_output_device: Some("out".to_string()),
    };
    let devices = DeviceResponse {
        sample_rate: 48_000,
        default_input: "mic".to_string(),
        default_output: "none".to_string(),
        default_input_channels: 1,
        default_output_channels: 0,
        default_input_sample_rate: 48_000,
        default_output_sample_rate: 48_000,
        inputs: Vec::new(),
        outputs: Vec::new(),
    };
    let mut saved = PersistedUiState::default();
    saved.routes = vec![
        Route {
            source: "peer:0:ch:1".to_string(),
            destination: "output:1".to_string(),
        },
    ];
    let s = engine_web_state(&remotes, &options, devices, &saved);
    assert_eq!(s.node_id, "me");
    assert_eq!((s.local_channels, s.remote_channels), (2, 2));
    assert!(s.send_enabled && !s.recv_enabled && !s.handshake_connected);
    assert_eq!(s.local_labels, vec!["Ch 1", "Ch 2"]);
    assert_eq!(s.routes, saved.routes);
    assert_eq!(s.output_route_masks, [0, 2]);
    assert_eq!(s.meters.rx_peak_db_x100, vec![-12_000; 64]);
    assert_eq!(s.meters.monitor_peak_db_x100, [-12_000; 2]);
    assert_eq!(s.runtime.mode, "bidirectional");
    assert_eq!(s.runtime.remote_host, "10.0.0.1:20102");
    assert_eq!(s.runtime.remote_device_name, "b");
    assert_eq!(s.runtime.token_hex, token_to_hex(&derive_link_token("me", "b", None)));
    assert_eq!((s.runtime.latency_ms, s.runtime.effective_latency_ms), (30, 40));
    assert!(!s.runtime.fixed_jitter && s.runtime.phase_lock);
    assert_eq!(s.runtime.encoder_mode, "speech");
    assert_eq!(s.runtime.rendezvous_url, "https://r");
    assert_eq!(s.runtime.selected_output_device.as_deref(), Some("out"));
    assert!(!s.runtime.link_password_configured);
}

#[test]
fn explicit_token_is_the_one_of_the_link() {
    let plan = plan_engine(&[remote(0, "b", "")], 2, "me", Some([5; 16]), 100).unwrap();
    assert_eq!(plan.sessions[0].shared_token, [5; 16]);
    let plan = plan_engine(&[], 2, "me", Some([6; 16]), 100).unwrap();
    assert_eq!(plan.sessions[0].shared_token, [6; 16]);
}

#[test]
fn host_without_a_name_is_called() {
    let mut off = remote(0, "", "10.0.0.1");
    off.enabled = false;
    let plan = plan_engine(&[off, remote(0, "", "10.0.0.2")], 2, "me", None, 100).unwrap();
    assert_eq!(plan.sessions.len(), 1);
    assert!(plan.sessions[0].is_initiator);
    assert_eq!(plan.sessions[0].remote_host, "10.0.0.2");
    assert_eq!(plan.sessions[0].shared_token, DEFAULT_SHARED_TOKEN);
    let named = [remote(0, "", "10.0.0.2"), remote(1, "b", "")];
    let plan = plan_engine(&named, 2, "me", None, 100).unwrap();
    assert_eq!(plan.sessions.len(), 1);
    assert_eq!(plan.sessions[0].remote_device_name, "b");
    assert!(!plan.sessions[0].is_initiator);
}
