use audiolink::cli::{default_node_id, parse_mode, parse_options, plan_bidir, Mode};
use audiolink::constants::DEFAULT_SHARED_TOKEN;
use audiolink::engine::plan_engine;
use audiolink::persistence::{PersistedRuntimeConfig, RemoteConnection};
use audiolink::state::EncoderMode;
use audiolink::token::{derive_link_token, derive_token_from_text};

fn words(args: &[&str]) -> Vec<String> {
    let mut out = vec!["program".to_string(), "bidir".to_string()];
    out.extend(args.iter().map(|a| a.to_string()));
    out
}

fn remote(name: &str, password: Option<&str>, enabled: bool) -> RemoteConnection {
    RemoteConnection {
        index: 0,
        name: name.to_string(),
        ip_override: "10.0.0.1".to_string(),
        password: password.map(|p| p.to_string()),
        channels_to_send: Vec::new(),
        enabled,
    }
}

#[test]
fn modes_by_word() {
    assert_eq!(parse_mode(None), Mode::Bidir);
    assert_eq!(parse_mode(Some("bidir")), Mode::Bidir);
    assert_eq!(parse_mode(Some("bidirectional")), Mode::Bidir);
    assert_eq!(parse_mode(Some("-h")), Mode::Help);
    assert_eq!(parse_mode(Some("--help")), Mode::Help);
    assert_eq!(parse_mode(Some("help")), Mode::Help);
    assert_eq!(parse_mode(Some("send")), Mode::Legacy);
    assert_eq!(parse_mode(Some("recv")), Mode::Legacy);
    assert_eq!(parse_mode(Some("echo")), Mode::Legacy);
    assert_eq!(parse_mode(Some("BIDIR")), Mode::Unknown);
}

#[test]
fn node_names() {
    let some = |s: &str| Some(s.to_string());
    assert_eq!(default_node_id(some(" a "), some("b")), "a");
    assert_eq!(default_node_id(some("  "), some(" b\n")), "b");
    assert_eq!(default_node_id(None, some("")), "unknown-host");
    assert_eq!(default_node_id(None, None), "unknown-host");
}

#[test]
fn defaults_without_arguments() {
    let o = parse_options(&words(&[]), &PersistedRuntimeConfig::default(), "host");
    assert_eq!(o.node_id, "host");
    assert_eq!((o.channels, o.bitrate, o.latency_ms), (2, 128_000, 100));
    assert!(!o.fixed_jitter && o.phase_lock && !o.no_web && !o.no_send && !o.no_recv);
    assert_eq!(o.web_addr, "0.0.0.0:8080");
    assert_eq!(o.bind_addr, "0.0.0.0");
    assert_eq!(o.encoder_mode, EncoderMode::Music);
    let plan = plan_bidir(&o, &PersistedRuntimeConfig::default());
    assert!(plan.web_first);
    assert_eq!(plan.web_addr.as_deref(), Some("0.0.0.0:8080"));
    assert_eq!(plan.shared_token, DEFAULT_SHARED_TOKEN);
    assert_eq!(plan.device_name_token, derive_token_from_text("host"));
    assert!(plan.remotes.is_empty());
}

#[test]
fn saved_values_are_kept() {
    let mut saved = PersistedRuntimeConfig::default();
    saved.node_id = Some("me".to_string());
    saved.channels = Some(100);
    saved.latency_ms = Some(10);
    saved.fixed_jitter = Some(true);
    saved.remotes = vec![
        remote("off", None, false),
        remote("", None, true),
        remote("b", Some("pw"), true),
    ];
    let o = parse_options(&words(&[]), &saved, "host");
    assert_eq!(o.node_id, "me");
    assert_eq!(o.remote_name, "b");
    assert_eq!(o.link_password.as_deref(), Some("pw"));
    let plan = plan_bidir(&o, &saved);
    assert!(!plan.web_first);
    assert_eq!(plan.channels, 64);
    assert_eq!(plan.remotes.len(), 2);
    assert_eq!((plan.remotes[0].name.as_str(), plan.remotes[1].name.as_str()), ("off", "b"));
    assert_eq!(plan.jitter.configured_delay_ms, 10);
    assert_eq!(plan.jitter.target_delay_ms, 40);
    assert!(!plan.jitter.adaptive && plan.jitter.phase_lock);
    assert_eq!(plan.shared_token, derive_link_token("me", "b", Some("pw")));
    let mut with_token = saved.clone();
    with_token.token_hex = Some("00112233445566778899aabbccddeeff".to_string());
    let o = parse_options(&words(&[]), &with_token, "host");
    assert_eq!(plan_bidir(&o, &with_token).shared_token[1], 0x11);
    assert_eq!(plan_bidir(&o, &with_token).explicit_token, None);
    let o = parse_options(&words(&["--remote-name", "c"]), &with_token, "host");
    assert_eq!(plan_bidir(&o, &with_token).explicit_token, o.token);
}

#[test]
fn arguments_are_read() {
    let saved = PersistedRuntimeConfig::default();
    let o = parse_options(
        &words(&[
            "10.0.0.5", "--remote-name", "b", "-c", "8", "-b", "64000", "--buffer", "200", "--id",
            "me", "--web-port", "9000", "--fixed-jitter", "--no-phase-lock", "--no-send",
            "--no-recv", "--encoder-mode", " Voice", "--interface", "10.0.0.2", "--input-device",
            "mic", "--output-device", "out", "--rendezvous", "r", "--nonsense", "stray",
        ]),
        &saved,
        "host",
    );
    assert_eq!(o.remote_host, "10.0.0.5");
    assert_eq!(o.remote_name, "b");
    assert_eq!((o.channels, o.bitrate, o.latency_ms), (8, 64_000, 200));
    assert_eq!(o.node_id, "me");
    assert_eq!(o.web_addr, "0.0.0.0:9000");
    assert!(o.fixed_jitter && !o.phase_lock && o.no_send && o.no_recv);
    assert_eq!(o.encoder_mode, EncoderMode::Speech);
    assert_eq!(o.bind_addr, "10.0.0.2");
    assert_eq!(o.input_device.as_deref(), Some("mic"));
    assert_eq!(o.output_device.as_deref(), Some("out"));
    assert_eq!(o.rendezvous_url.as_deref(), Some("r"));
    assert_eq!(o.unknown, vec!["--nonsense", "stray"]);
    let plan = plan_bidir(&o, &saved);
    assert_eq!(plan.remotes.len(), 1);
    assert_eq!(plan.remotes[0].ip_override, "10.0.0.5");
    assert_eq!(plan.remotes[0].name, "b");
    assert!(plan.remotes[0].enabled);
}

#[test]
fn named_remote_is_linked() {
    let saved = PersistedRuntimeConfig::default();
    let o = parse_options(&words(&["10.0.0.5"]), &saved, "host");
    let plan = plan_bidir(&o, &saved);
    let engine = plan_engine(&plan.remotes, plan.channels, &o.node_id, plan.explicit_token, 100);
    let sessions = engine.unwrap().sessions;
    assert_eq!(sessions.len(), 1);
    assert!(sessions[0].is_initiator);
    assert_eq!(sessions[0].remote_host, "10.0.0.5");
    assert_eq!(sessions[0].shared_token, plan.shared_token);
    let o = parse_options(&words(&["--remote-name", "b", "--token", "t"]), &saved, "host");
    let plan = plan_bidir(&o, &saved);
    let engine = plan_engine(&plan.remotes, plan.channels, &o.node_id, plan.explicit_token, 100);
    let sessions = engine.unwrap().sessions;
    assert!(!sessions[0].is_initiator);
    assert_eq!(sessions[0].shared_token, derive_token_from_text("t"));
}

#[test]
fn kept_host_without_a_name_is_not_called() {
    let mut saved = PersistedRuntimeConfig::default();
    saved.remotes = vec![remote("", None, true)];
    saved.remotes[0].ip_override = "10.0.0.9".to_string();
    let o = parse_options(&words(&["--no-web", "--token", "t"]), &saved, "host");
    let plan = plan_bidir(&o, &saved);
    assert!(plan.remotes.is_empty());
    assert_eq!(plan.explicit_token, o.token);
    let engine = plan_engine(&plan.remotes, plan.channels, &o.node_id, plan.explicit_token, 100);
    let sessions = engine.unwrap().sessions;
    assert_eq!(sessions.len(), 1);
    assert!(!sessions[0].is_initiator);
    assert_eq!(sessions[0].remote_host, "");
}

#[test]
fn odd_arguments() {
    let saved = PersistedRuntimeConfig::default();
    let o = parse_options(
        &words(&["--channels", "many", "--web", "127.0.0.1:7", "--web-port", "70000"]),
        &saved,
        "host",
    );
    assert_eq!(o.channels, 2);
    assert_eq!(o.web_addr, "0.0.0.0:8080");
    let o = parse_options(&words(&["--web", "127.0.0.1:7", "--no-web"]), &saved, "host");
    assert_eq!(o.web_addr, "127.0.0.1:7");
    assert_eq!(plan_bidir(&o, &saved).web_addr, None);
    assert!(!plan_bidir(&o, &saved).web_first);
    let o = parse_options(&words(&["--id"]), &saved, "host");
    assert_eq!(o.node_id, "host");
    let o = parse_options(&words(&["--token", "some text"]), &saved, "host");
    assert_eq!(o.token, Some(derive_token_from_text("some text")));
    let o = parse_options(&words(&["--link-password"]), &saved, "host");
    assert_eq!(o.link_password, None);
}
