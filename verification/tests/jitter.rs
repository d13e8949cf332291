use audiolink::jitter::{
    drain_phase_locked_groups, effective_receive_buffer_ms, insert_packet, latency_ms_to_samples,
    ring_fill_ms, rtp_seq_looks_reset, rtp_timestamp_at_or_before, timestamp_elapsed_samples,
    FrameGroup,
};
use std::collections::BTreeMap;

const MS: u64 = 1_000_000;

#[test]
fn clock_wraps() {
    assert_eq!(timestamp_elapsed_samples(960, 0), 960);
    assert_eq!(timestamp_elapsed_samples(100, u32::MAX - 99), 200);
    assert!(rtp_timestamp_at_or_before(5, 5));
    assert!(rtp_timestamp_at_or_before(u32::MAX, 10));
    assert!(!rtp_timestamp_at_or_before(10, u32::MAX));
    assert!(rtp_seq_looks_reset(100, 99));
    assert!(!rtp_seq_looks_reset(100, 100));
    assert!(!rtp_seq_looks_reset(65535, 0));
    assert!(rtp_seq_looks_reset(0, 65535));
}

#[test]
fn buffer_sizes() {
    assert_eq!(latency_ms_to_samples(20), 960);
    assert_eq!(latency_ms_to_samples(10_000), 480_000);
    assert_eq!(latency_ms_to_samples(u32::MAX), (u32::MAX as u64 * 48) as u32);
    assert_eq!(effective_receive_buffer_ms(0), 40);
    assert_eq!(effective_receive_buffer_ms(39), 40);
    assert_eq!(effective_receive_buffer_ms(120), 120);
    assert_eq!(effective_receive_buffer_ms(60_000), 10_000);
    assert_eq!(ring_fill_ms(&[960, 480, 48], 2), 10);
    assert_eq!(ring_fill_ms(&[960, 480, 48], 3), 1);
    assert_eq!(ring_fill_ms(&[], 0), 0);
}

#[test]
fn group_waits_for_its_channels() {
    let mut g = FrameGroup::new(960, 2, 5 * MS);
    assert!(!g.complete());
    g.insert(1, &[1, 2]);
    g.insert(64, &[9]);
    assert!(!g.complete());
    g.insert(0, &[]);
    assert!(g.complete());
    assert_eq!(g.packets[1].as_deref(), Some(&[1u8, 2][..]));
    assert!(!g.timed_out(15 * MS - 1));
    assert!(g.timed_out(15 * MS));
    assert!(!g.timed_out(0));
    assert!(FrameGroup::new(0, 0, 0).complete());
}

#[test]
fn groups_leave_in_order_when_ready() {
    let mut groups: BTreeMap<u32, FrameGroup> = BTreeMap::new();
    insert_packet(&mut groups, 960, 2, 0, &[1], 0);
    insert_packet(&mut groups, 960, 2, 1, &[2], 1);
    insert_packet(&mut groups, 1920, 2, 0, &[3], 2);
    insert_packet(&mut groups, 2880, 2, 0, &[4], 3);
    insert_packet(&mut groups, 2880, 2, 1, &[5], 3);
    assert!(drain_phase_locked_groups(&mut groups, 0, 9 * MS).is_empty());
    let out = drain_phase_locked_groups(&mut groups, 2, 9 * MS);
    let times: Vec<u32> = out.iter().map(|g| g.0).collect();
    assert_eq!(times, vec![960]);
    let out = drain_phase_locked_groups(&mut groups, 2, 10 * MS + 2);
    let times: Vec<u32> = out.iter().map(|g| g.0).collect();
    assert_eq!(times, vec![1920, 2880]);
    assert!(out[0].1.packets[1].is_none());
    assert!(groups.is_empty());
}
