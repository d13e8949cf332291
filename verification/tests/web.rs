use audiolink::cli::{parse_options, plan_bidir};
use audiolink::packet::build_metadata_packet_with_labels;
use audiolink::persistence::{PersistedRuntimeConfig, PersistedUiState};
use audiolink::routing::matrix_for_state;
use audiolink::state::{
    DeviceResponse, EncoderMode, JitterConfig, MonitorMode, PeerAddr, PeerStatus, Route, WebState,
    METER_FLOOR,
};
use audiolink::token::{derive_link_token, derive_token_from_text, token_to_hex};
use audiolink::web::{
    command_preview, control_web_state, initial_patch, local_labels_post_handler, make_routes,
    normalise_labels, preset_recall_handler, preset_save_handler, routes_post_handler, setup_apply,
    setup_apply_handler, stats_handler, status_handler, text_or_empty, LocalLabelsRequest,
    PresetRequest, RoutesRequest, SetupApplyRequest, WebError,
};

fn route(source: &str, destination: &str) -> Route {
    Route {
        source: source.to_string(),
        destination: destination.to_string(),
    }
}

fn devices() -> DeviceResponse {
    DeviceResponse {
        sample_rate: 48_000,
        default_input: "mic".to_string(),
        default_output: "out".to_string(),
        default_input_channels: 2,
        default_output_channels: 2,
        default_input_sample_rate: 48_000,
        default_output_sample_rate: 48_000,
        inputs: vec!["mic".to_string()],
        outputs: vec!["out".to_string()],
    }
}

fn state() -> WebState {
    control_web_state(
        "me".to_string(),
        [1; 16],
        2,
        128_000,
        JitterConfig {
            configured_delay_ms: 100,
            target_delay_ms: 100,
            adaptive: true,
            phase_lock: true,
        },
        EncoderMode::Music,
        None,
        devices(),
        &PersistedUiState::default(),
    )
}

fn request() -> SetupApplyRequest {
    SetupApplyRequest {
        remote: " 10.0.0.2:20102 ".to_string(),
        remote_device_name: " studio-b ".to_string(),
        link_password: Some(" secret ".to_string()),
        node_id: " studio-a ".to_string(),
        token: None,
        channels: 4,
        opus_bitrate_per_channel: 96_000,
        receive_buffer_ms: 1,
        rendezvous_url: Some("  ".to_string()),
        phase_lock: None,
        encoder_mode: Some("VOICE".to_string()),
        bind_addr: Some("0.0.0.0".to_string()),
        selected_input_device: Some(String::new()),
        selected_output_device: Some("out".to_string()),
    }
}

#[test]
fn state_before_any_engine() {
    let s = state();
    assert_eq!(s.node_id, "me");
    assert_eq!((s.local_channels, s.local_input_channels, s.remote_channels), (2, 2, 0));
    assert!(s.send_enabled && s.recv_enabled && !s.handshake_connected);
    assert_eq!(s.device_name_token, derive_token_from_text("me"));
    assert_eq!(s.tx_tone_source_for_send.len(), 64);
    assert_eq!(s.runtime.token_hex, "01010101010101010101010101010101");
    assert_eq!(s.runtime.opus_bitrate_per_channel, 128_000);
    assert_eq!(s.peer_status(0), PeerStatus::Gray);
    assert_eq!(s.monitor_mode(), MonitorMode::PatchMatrix);
    assert_eq!(s.meters.tx_peak_db_x100, vec![-12_000; 64]);
    assert_eq!(s.meters.input_peak_db_x100, vec![-12_000; 64]);
    let none = control_web_state(
        "x".to_string(),
        [0; 16],
        0,
        8_000,
        JitterConfig {
            configured_delay_ms: 1,
            target_delay_ms: 40,
            adaptive: false,
            phase_lock: false,
        },
        EncoderMode::Speech,
        Some("u".to_string()),
        devices(),
        &PersistedUiState::default(),
    );
    assert_eq!(none.local_channels, 1);
    assert_eq!(none.runtime.rendezvous_url, "u");
    assert!(none.runtime.fixed_jitter && !none.runtime.phase_lock);
}

#[test]
fn status_tells_ages_and_addresses() {
    let mut s = state();
    s.last_control_ms = 1_000;
    let other = PeerAddr {
        v6: false,
        ip: 5,
        port: 6,
        flow: 0,
        scope: 0,
    };
    s.remote_conflict = Some(other);
    let r = status_handler(&s, 12, 1_500);
    assert_eq!(r.uptime_seconds, 12);
    assert_eq!((r.last_control_age_ms, r.last_audio_age_ms), (500, 0));
    assert_eq!(r.remote_conflict, Some(other));
    assert_eq!(r.discovered_peer_addr, None);
    assert_eq!(r.runtime, s.runtime);
    assert!(r.remote.is_none());
    let levels = stats_handler(&s);
    assert_eq!(levels.tx, vec![METER_FLOOR; 2]);
    assert_eq!(levels.rx, vec![METER_FLOOR]);
    assert_eq!(levels.input.len(), 2);
    assert_eq!(levels.monitor, [METER_FLOOR; 2]);
}

#[test]
fn routes_are_made_or_refused() {
    let mut s = state();
    let bad = RoutesRequest {
        routes: vec![route("input:0", "stream:0:ch:0"), route("", "output:0")],
        monitor_mode: None,
    };
    let e = routes_post_handler(&mut s, bad).unwrap_err();
    assert_eq!(e.status(), 400);
    assert_eq!(e.message(), "routes require non-empty source and destination");
    assert!(s.routes.is_empty());
    let good = RoutesRequest {
        routes: vec![route("input:1", "stream:0:ch:0"), route("peer:0:ch:1", "output:0")],
        monitor_mode: Some(MonitorMode::PatchMatrix),
    };
    assert!(routes_post_handler(&mut s, good).is_ok());
    assert_eq!(s.routes.len(), 2);
    assert_eq!(s.output_route_masks, [2, 0]);
    assert_eq!(s.tx_tone_source_for_send[0], 1 << 3);
    make_routes(&mut s, Vec::new());
    assert_eq!(s.output_route_masks, [0, 0]);
    assert!(s.tx_tone_source_for_send.iter().all(|m| *m == 0));
}

#[test]
fn presets_give_back_what_was_saved() {
    let mut s = state();
    make_routes(&mut s, vec![route("input:0", "stream:0:ch:1")]);
    let live = PresetRequest {
        name: "live".to_string(),
    };
    preset_save_handler(&mut s, &live);
    make_routes(&mut s, vec![route("ebu:l", "stream:0:ch:0")]);
    assert!(preset_recall_handler(&mut s, &live).is_ok());
    assert_eq!(s.routes, vec![route("input:0", "stream:0:ch:1")]);
    assert_eq!(s.tx_tone_source_for_send[1], 1 << 2);
    assert_eq!(s.tx_tone_source_for_send[0], 0);
    make_routes(&mut s, Vec::new());
    preset_save_handler(&mut s, &live);
    assert_eq!(s.presets.len(), 1);
    assert!(s.presets[0].routes.is_empty());
    let missing = PresetRequest {
        name: "none".to_string(),
    };
    let e = preset_recall_handler(&mut s, &missing).unwrap_err();
    assert_eq!(e.status(), 404);
    assert_eq!(e.message(), "preset 'none' not found");
}

#[test]
fn labels_are_tidied_kept_and_told() {
    let long = "x".repeat(60);
    let given = vec!["  Mic  ".to_string(), " ".to_string(), long];
    assert_eq!(
        normalise_labels(&given, 4),
        vec!["Mic".to_string(), "Ch 2".to_string(), "x".repeat(48), "Ch 4".to_string()]
    );
    let mut s = state();
    let req = LocalLabelsRequest { labels: given };
    let quiet = local_labels_post_handler(&mut s, PersistedUiState::default(), &req);
    assert!(quiet.announce.is_none());
    assert_eq!(s.local_labels, vec!["Mic", "Ch 2"]);
    assert_eq!(quiet.persisted.config.channel_labels, Some(s.local_labels.clone()));
    s.handshake_connected = true;
    let told = local_labels_post_handler(&mut s, PersistedUiState::default(), &req);
    assert_eq!(
        told.announce,
        Some(build_metadata_packet_with_labels(
            &derive_token_from_text("me"),
            2,
            "me",
            &s.local_labels
        ))
    );
}

#[test]
fn setup_is_checked() {
    let s = state();
    let check = |req: SetupApplyRequest, busy: bool| {
        setup_apply_handler(&s, &req, busy)
            .err()
            .map(|e: WebError| (e.status(), e.message()))
    };
    let mut req = request();
    req.node_id = "  ".to_string();
    assert_eq!(check(req, false), Some((400, "Device name is required".to_string())));
    let mut req = request();
    req.channels = 0;
    assert_eq!(
        check(req, false),
        Some((400, "Network send channels must be 1-64".to_string()))
    );
    let mut req = request();
    req.channels = 65;
    assert!(check(req, false).is_some());
    let mut req = request();
    req.opus_bitrate_per_channel = 7_999;
    let bitrate = (
        400,
        "Opus bitrate must be 8000-512000 bits/sec per channel".to_string(),
    );
    assert_eq!(check(req, false), Some(bitrate.clone()));
    let mut req = request();
    req.opus_bitrate_per_channel = 512_001;
    assert_eq!(check(req, false), Some(bitrate));
    assert_eq!(
        check(request(), true),
        Some((409, "Engine rebuild is already in progress".to_string()))
    );
    assert_eq!(check(request(), false), None);
    assert_eq!(WebError::InvalidToken.message(), "Invalid explicit token");
}

#[test]
fn setup_becomes_arguments() {
    let plan = setup_apply_handler(&state(), &request(), false).unwrap();
    let token = token_to_hex(&derive_link_token("studio-a", "studio-b", Some("secret")));
    assert_eq!(
        plan.args,
        vec![
            "bidir",
            "--remote-name",
            "studio-b",
            "--channels",
            "4",
            "--id",
            "studio-a",
            "--token",
            token.as_str(),
            "--bitrate",
            "96000",
            "--latency-ms",
            "5",
            "--remote-host",
            "10.0.0.2",
            "--link-password",
            "secret",
            "--output-device",
            "out",
            "--encoder-mode",
            "speech",
        ]
    );
    assert!(!plan.shown.contains(&token));
    assert!(!plan.shown.contains(&"secret".to_string()));
    assert_eq!(plan.shown[8], "<token hidden>");
    assert_eq!(plan.shown[16], "<token hidden>");
    assert_eq!(plan.config.node_id.as_deref(), Some("studio-a"));
    assert_eq!(plan.config.token_hex, Some(token));
    assert_eq!(plan.config.latency_ms, Some(5));
    assert_eq!(plan.config.bind_addr, None);
    assert_eq!(plan.config.rendezvous_url, None);
    assert_eq!(plan.config.encoder_mode, Some(EncoderMode::Speech));
    assert!(plan.config.remotes.is_empty());
}

#[test]
fn setup_is_understood_by_the_new_process() {
    let mut req = request();
    req.phase_lock = Some(false);
    req.token = Some("my words".to_string());
    req.rendezvous_url = Some("https://r".to_string());
    req.bind_addr = Some("10.0.0.9".to_string());
    req.receive_buffer_ms = 99_999;
    let mut s = state();
    s.runtime.fixed_jitter = true;
    s.runtime.send_enabled = false;
    let plan = setup_apply(&req, &s.runtime, EncoderMode::Speech, false).unwrap();
    let mut args = vec!["program".to_string()];
    args.extend(plan.args);
    let saved = PersistedRuntimeConfig::default();
    let o = parse_options(&args, &saved, "host");
    assert_eq!(o.remote_host, "10.0.0.2");
    assert_eq!(o.remote_name, "studio-b");
    assert_eq!(o.node_id, "studio-a");
    assert_eq!((o.channels, o.bitrate, o.latency_ms), (4, 96_000, 10_000));
    assert_eq!(o.token, Some(derive_token_from_text("my words")));
    assert_eq!(o.link_password.as_deref(), Some("secret"));
    assert_eq!(o.rendezvous_url.as_deref(), Some("https://r"));
    assert_eq!(o.bind_addr, "10.0.0.9");
    assert!(o.fixed_jitter && !o.phase_lock && o.no_send && !o.no_recv);
    assert_eq!(o.encoder_mode, EncoderMode::Speech);
    assert_eq!(o.input_device, None);
    assert_eq!(o.output_device.as_deref(), Some("out"));
    assert!(o.unknown.is_empty());
    let next = plan_bidir(&o, &saved);
    assert_eq!(next.shared_token, derive_token_from_text("my words"));
}

#[test]
fn secrets_are_hidden() {
    let args: Vec<String> = ["--token", "--token", "x", "--link-password", "pw", "--token"]
        .iter()
        .map(|s| s.to_string())
        .collect();
    assert_eq!(
        command_preview(&args),
        vec!["--token", "<token hidden>", "x", "--link-password", "<token hidden>", "--token"]
    );
}

#[test]
fn patch_at_the_start() {
    let mut saved = PersistedUiState::default();
    saved.routes = vec![
        route("input:1", "stream:0:ch:0"),
        route("input:2", "stream:0:ch:0"),
    ];
    saved.config.channel_labels = Some(vec!["Mic".to_string()]);
    let p = initial_patch(&devices(), &saved, 2);
    assert_eq!(p.local_input_channels, 2);
    assert_eq!(p.local_labels, vec!["Mic", "Ch 2"]);
    assert_eq!(p.routes, vec![route("input:1", "stream:0:ch:0")]);
    assert_eq!(p.tx_tone_source_for_send[0], 1 << 3);
    assert_eq!(p.output_route_masks, [0, 0]);
    assert_eq!(text_or_empty(&None), "");
    assert_eq!(text_or_empty(&Some("a".to_string())), "a");
}

#[test]
fn matrix_offers_routes_that_can_be_made() {
    let mut s = state();
    s.remote_channels = 2;
    let m = matrix_for_state(&s);
    let sources: Vec<&str> = m.sources.iter().map(|e| e.id.as_str()).collect();
    let destinations: Vec<&str> = m.destinations.iter().map(|e| e.id.as_str()).collect();
    assert!(sources.contains(&"input:1"));
    assert!(sources.contains(&"ebu:l") && sources.contains(&"ebu:r"));
    assert!(sources.contains(&"peer:0:ch:1"));
    assert!(destinations.contains(&"stream:0:ch:1"));
    assert!(destinations.contains(&"output:0") && destinations.contains(&"output:1"));
    assert!(m.routes.is_empty());
}
