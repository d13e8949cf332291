use audiolink::audio::{
    best_input_config, best_output_config, device_to_force, encoder_settings, fade_for, find_device,
    flush_step, handle_underrun, io_resampler_chunk, is_playing, scan_audio_devices_once,
    tail_start, ConfigRange, DeviceScan, Fade,
};
use audiolink::packet::build_packet;
use audiolink::state::EncoderMode;
use audiolink::transmit::{
    channels_to_encode, next_deadline, next_timestamp, push_bounded, sources_in_mask, take_frame,
    tone_sounds, wait_step, RemoteTx, TxSource, Wait,
};
use std::collections::VecDeque;

#[test]
fn encoder_is_set_up_for_its_mode() {
    let music = encoder_settings(128_000, EncoderMode::Music);
    assert!(!music.voip && !music.inband_fec);
    assert_eq!(music.bitrate, 128_000);
    let speech = encoder_settings(24_000, EncoderMode::Speech);
    assert!(speech.voip && speech.inband_fec);
}

#[test]
fn playback_reprimes_after_a_while() {
    let mut started = true;
    let mut empty = 0u32;
    for _ in 0..29 {
        handle_underrun(true, &mut started, &mut empty);
    }
    assert!(started);
    assert_eq!(empty, 29);
    handle_underrun(true, &mut started, &mut empty);
    assert!(!started);
    assert_eq!(empty, 0);
    let mut counter = 12u32;
    let mut on = true;
    handle_underrun(false, &mut on, &mut counter);
    assert!(on);
    assert_eq!(counter, 0);
}

#[test]
fn fades_between_real_and_concealed() {
    assert_eq!(fade_for(false, false, 64), Fade::FromTail);
    assert_eq!(fade_for(false, false, 63), Fade::Plain);
    assert_eq!(fade_for(false, true, 64), Fade::Plain);
    assert_eq!(fade_for(true, true, 0), Fade::FromSilence);
    assert_eq!(fade_for(true, false, 64), Fade::Plain);
    assert_eq!(tail_start(960), 896);
    assert_eq!(tail_start(10), 0);
}

fn range(channels: u16, min_rate: u32, max_rate: u32) -> ConfigRange {
    ConfigRange {
        channels,
        min_rate,
        max_rate,
    }
}

#[test]
fn device_configurations() {
    let out = best_output_config(Some((44_100, 2)), &[range(2, 44_100, 96_000)], 2);
    assert_eq!((out.channels, out.rate), (2, 48_000));
    let out = best_output_config(Some((44_100, 2)), &[range(1, 44_100, 96_000)], 2);
    assert_eq!((out.channels, out.rate), (2, 44_100));
    let out = best_output_config(None, &[], 2);
    assert_eq!(out.rate, 48_000);
    let input = best_input_config(Some((44_100, 1)), &[range(1, 48_000, 48_000)], 8);
    assert_eq!((input.channels, input.rate), (1, 48_000));
    let input = best_input_config(Some((44_100, 4)), &[], 2);
    assert_eq!((input.channels, input.rate), (2, 44_100));
    let input = best_input_config(None, &[], 0);
    assert_eq!((input.channels, input.rate), (1, 48_000));
}

#[test]
fn device_lists() {
    let d = scan_audio_devices_once(DeviceScan {
        default_input: Some("mic".to_string()),
        default_output: None,
        input_config: Some((44_100, 3)),
        output_config: None,
        inputs: vec!["mic".to_string()],
        outputs: Vec::new(),
    });
    assert_eq!((d.default_input.as_str(), d.default_output.as_str()), ("mic", "none"));
    assert_eq!((d.default_input_channels, d.default_output_channels), (3, 0));
    assert_eq!(
        (d.default_input_sample_rate, d.default_output_sample_rate),
        (44_100, 48_000)
    );
    assert_eq!(d.inputs, vec!["mic"]);
    let names = [None, Some("a".to_string()), Some("a".to_string())];
    assert_eq!(find_device(&Some("a".to_string()), &names), Some(1));
    assert_eq!(find_device(&Some("b".to_string()), &names), None);
    assert_eq!(find_device(&Some(String::new()), &[Some(String::new())]), None);
    assert_eq!(find_device(&None, &names), None);
    assert_eq!(
        device_to_force(&Some("a".to_string()), Some("d".to_string())),
        Some("a".to_string())
    );
    assert_eq!(
        device_to_force(&Some(String::new()), Some("d".to_string())),
        Some("d".to_string())
    );
    assert_eq!(device_to_force(&None, None), None);
}

#[test]
fn resampler_chunks() {
    assert_eq!(io_resampler_chunk(48_000, 48_000), None);
    assert_eq!(io_resampler_chunk(44_100, 48_000), Some(882));
    assert_eq!(io_resampler_chunk(48_000, 44_100), Some(960));
}

#[test]
fn capture_ring_drops_the_oldest() {
    let mut ring: VecDeque<i32> = VecDeque::new();
    for v in 0..5 {
        push_bounded(&mut ring, 3, v);
    }
    assert_eq!(ring, VecDeque::from(vec![2, 3, 4]));
    assert_eq!(take_frame(&mut ring, 2, 0), vec![2, 3]);
    assert_eq!(take_frame(&mut ring, 3, 0), vec![4, 0, 0]);
    assert!(ring.is_empty());
}

#[test]
fn masks_name_sources() {
    assert!(sources_in_mask(0, 8).is_empty());
    assert_eq!(
        sources_in_mask(0b1111, 1),
        vec![TxSource::Tone(100), TxSource::Tone(101), TxSource::Input(0)]
    );
    assert_eq!(sources_in_mask(1 << 63, 64), vec![TxSource::Input(61)]);
}

#[test]
fn frames_become_packets() {
    let mut tx = RemoteTx::new(vec![1, 5, 0], 2);
    let encoded = vec![vec![10u8], vec![11u8, 12]];
    let out = tx.packets(&[1, 1], &encoded, 960);
    assert_eq!(
        out,
        vec![
            build_packet(0, 960, 1, &[11, 12]),
            build_packet(0, 960, 0, &[10])
        ]
    );
    assert_eq!(tx.seqs, vec![1, 1]);
    tx.seqs = vec![0, u16::MAX];
    let out = tx.packets(&[1, 1], &encoded, 1920);
    assert_eq!(out[0], build_packet(u16::MAX, 1920, 1, &[11, 12]));
    assert_eq!(tx.seqs, vec![1, 0]);
    assert_eq!(next_timestamp(0), 960);
    assert_eq!(next_timestamp(u32::MAX), 959);
}

#[test]
fn channels_without_a_source_are_not_encoded() {
    assert_eq!(channels_to_encode(&[0, 4, 0, 1], 3), vec![false, true, false]);
    assert_eq!(channels_to_encode(&[1], 2), vec![true, false]);
    assert!(channels_to_encode(&[1], 0).is_empty());
}

#[test]
fn frames_keep_their_beat() {
    assert_eq!(next_deadline(100, 20, 90), 120);
    assert_eq!(next_deadline(100, 20, 140), 120);
    assert_eq!(next_deadline(100, 20, 141), 140);
    assert_eq!(next_deadline(100, 20, 1_000), 980);
    assert_eq!(wait_step(5, 5), Wait::Done);
    assert_eq!(wait_step(6, 5), Wait::Done);
    assert_eq!(wait_step(0, 20_000_000), Wait::Sleep(19_000_000));
    assert_eq!(wait_step(0, 2_000_001), Wait::Sleep(1_000_001));
    assert_eq!(wait_step(0, 2_000_000), Wait::Yield);
}

#[test]
fn output_plays_and_flushes() {
    assert!(is_playing(&[false, true], &[true, false]));
    assert!(!is_playing(&[true], &[false]));
    assert!(!is_playing(&[], &[true]));
    assert_eq!(flush_step(100, 960), (100, 0));
    assert_eq!(flush_step(1_000, 960), (960, 40));
    assert_eq!(flush_step(0, 960), (0, 0));
}

#[test]
fn tones_tell_the_sides_apart() {
    assert!(!tone_sounds(100, 0));
    assert!(!tone_sounds(100, 11_999));
    assert!(tone_sounds(100, 12_000));
    assert!(tone_sounds(100, 143_999));
    assert!(!tone_sounds(100, 144_000));
    assert!(tone_sounds(101, 0));
    assert!(!tone_sounds(1_000, 50_000));
}
