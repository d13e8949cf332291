use audiolink::state::{
    EncoderMode, LinkHealth, MeterBank, MonitorMode, PeerStatus, METER_FLOOR,
};

#[test]
fn encoder_modes_by_name() {
    assert_eq!(EncoderMode::default(), EncoderMode::Music);
    assert_eq!(EncoderMode::parse("  VoIP\t"), EncoderMode::Speech);
    assert_eq!(EncoderMode::parse("SPEECH"), EncoderMode::Speech);
    assert_eq!(EncoderMode::parse("voice"), EncoderMode::Speech);
    assert_eq!(EncoderMode::parse("Music"), EncoderMode::Music);
    assert_eq!(EncoderMode::parse(""), EncoderMode::Music);
    assert_eq!(EncoderMode::from_word("voip"), EncoderMode::Speech);
    assert_eq!(EncoderMode::from_word("VOIP"), EncoderMode::Music);
    assert_eq!(EncoderMode::Music.as_str(), "music");
    assert_eq!(EncoderMode::Speech.as_str(), "speech");
}

#[test]
fn one_monitor_mode() {
    assert_eq!(MonitorMode::PatchMatrix.as_u8(), 0);
    assert_eq!(MonitorMode::from_u8(0), MonitorMode::PatchMatrix);
    assert_eq!(MonitorMode::from_u8(7), MonitorMode::PatchMatrix);
}

fn healthy() -> LinkHealth {
    LinkHealth {
        connected: true,
        last_control_ms: 10_000,
        last_audio_ms: 10_000,
        recv_enabled: true,
        detoured: false,
        output_underflows: 0,
        seq_missing: 0,
    }
}

#[test]
fn status_colours() {
    let h = healthy();
    assert_eq!(h.peer_status(10_500), PeerStatus::Green);
    assert_eq!(h.peer_status(0), PeerStatus::Green);
    assert_eq!(h.peer_status(11_000), PeerStatus::Green);
    assert_eq!(h.peer_status(11_001), PeerStatus::Orange);
    assert_eq!(h.peer_status(15_000), PeerStatus::Orange);
    assert_eq!(h.peer_status(15_001), PeerStatus::Gray);
    let mut down = healthy();
    down.connected = false;
    assert_eq!(down.peer_status(10_000), PeerStatus::Gray);
    let mut unheard = healthy();
    unheard.last_control_ms = 0;
    assert_eq!(unheard.peer_status(10_000), PeerStatus::Gray);
    let mut quiet = healthy();
    quiet.last_audio_ms = 0;
    assert_eq!(quiet.peer_status(10_500), PeerStatus::Green);
    assert_eq!(quiet.peer_status(11_001), PeerStatus::Orange);
    quiet.recv_enabled = false;
    assert_eq!(quiet.peer_status(11_001), PeerStatus::Green);
    let mut lossy = healthy();
    lossy.seq_missing = 1;
    assert_eq!(lossy.peer_status(10_000), PeerStatus::Orange);
    let mut starved = healthy();
    starved.output_underflows = 1;
    assert_eq!(starved.peer_status(10_000), PeerStatus::Orange);
    let mut elsewhere = healthy();
    elsewhere.detoured = true;
    assert_eq!(elsewhere.peer_status(10_000), PeerStatus::Orange);
}

#[test]
fn meters_hold_levels() {
    let mut m = MeterBank::new();
    assert_eq!(m.snapshot_tx(2), vec![METER_FLOOR, METER_FLOOR]);
    m.set_tx_peak(1, -300);
    m.set_rx_peak(0, -400);
    m.set_input_peak(63, -500);
    m.set_input_peak(64, -1);
    m.set_monitor_peak(1, -600);
    m.set_monitor_peak(2, -1);
    assert_eq!(m.snapshot_tx(2), vec![METER_FLOOR, -300]);
    assert_eq!(m.snapshot_rx(1), vec![-400]);
    let inputs = m.snapshot_input(1_000);
    assert_eq!(inputs.len(), 64);
    assert_eq!(inputs[63], -500);
    assert_eq!(m.snapshot_monitor(), [METER_FLOOR, -600]);
}
