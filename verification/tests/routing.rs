use audiolink::constants::{TX_SRC_EBU_L, TX_SRC_EBU_R, TX_SRC_INPUT_BASE};
use audiolink::routing::{
    apply_routes_to_masks, apply_routes_to_tx_sources, load_persisted_routes,
    parse_endpoint_channel, parse_peer_endpoint, parse_stream_endpoint, plays,
    route_valid_for_runtime, source_code_from_bit_index, tx_source_bit, tx_source_code_from_endpoint,
};
use audiolink::state::Route;

fn r(src: &str, dst: &str) -> Route {
    Route {
        source: src.to_string(),
        destination: dst.to_string(),
    }
}

// Receive endpoints

#[test]
fn t01_parse_peer_current_format() {
    assert_eq!(parse_peer_endpoint("peer:0:ch:3"), Some((0, 3)));
    assert_eq!(parse_peer_endpoint("peer:1:ch:7"), Some((1, 7)));
    assert_eq!(parse_peer_endpoint("peer:2:ch:0"), Some((2, 0)));
}

#[test]
fn t03_parse_peer_rejects_out_of_range_channel() {
    assert_eq!(parse_peer_endpoint("peer:0:ch:64"), None);
    assert_eq!(parse_peer_endpoint("peer:0:ch:255"), None);
}

#[test]
fn t04_parse_peer_rejects_wrong_prefix() {
    assert_eq!(parse_peer_endpoint("input:0"), None);
    assert_eq!(parse_peer_endpoint("stream:0:ch:0"), None);
    assert_eq!(parse_peer_endpoint("output:0"), None);
}

#[test]
fn peer_endpoint_odd_forms() {
    assert_eq!(parse_peer_endpoint("peer:0:ch:63"), Some((0, 63)));
    assert_eq!(parse_peer_endpoint("peer:007:ch:+5"), Some((7, 5)));
    assert_eq!(parse_peer_endpoint("peer::ch:5"), None);
    assert_eq!(parse_peer_endpoint("peer:0:ch:"), None);
    assert_eq!(parse_peer_endpoint("peer:0:ch:-1"), None);
    assert_eq!(parse_peer_endpoint("peer:0"), None);
    assert_eq!(parse_peer_endpoint("peer:remote:ch:1"), Some((0, 1)));
    assert_eq!(parse_peer_endpoint("peer:remote:ch:63"), Some((0, 63)));
    assert_eq!(parse_peer_endpoint("peer:remote:ch:64"), None);
    assert_eq!(parse_peer_endpoint("peer:remote:ch:"), None);
    assert_eq!(parse_peer_endpoint("peer:Remote:ch:1"), None);
    assert_eq!(parse_stream_endpoint("stream:remote:ch:1"), None);
    assert_eq!(
        parse_peer_endpoint("peer:18446744073709551615:ch:1"),
        Some((usize::MAX, 1))
    );
    assert_eq!(parse_peer_endpoint("peer:18446744073709551616:ch:1"), None);
}

// Send endpoints

#[test]
fn t05_parse_stream_endpoint() {
    assert_eq!(parse_stream_endpoint("stream:0:ch:0"), Some((0, 0)));
    assert_eq!(parse_stream_endpoint("stream:1:ch:15"), Some((1, 15)));
}

#[test]
fn t06_parse_stream_rejects_out_of_range() {
    assert_eq!(parse_stream_endpoint("stream:0:ch:64"), None);
}

#[test]
fn t07_parse_stream_rejects_wrong_prefix() {
    assert_eq!(parse_stream_endpoint("peer:0:ch:0"), None);
    assert_eq!(parse_stream_endpoint("output:0"), None);
}

#[test]
fn endpoint_channel_forms() {
    assert_eq!(parse_endpoint_channel("input:0", "input:"), Some(0));
    assert_eq!(parse_endpoint_channel("input:63", "input:"), Some(63));
    assert_eq!(parse_endpoint_channel("input:64", "input:"), None);
    assert_eq!(parse_endpoint_channel("input:", "input:"), None);
    assert_eq!(parse_endpoint_channel("input:1x", "input:"), None);
    assert_eq!(parse_endpoint_channel("output:1", "input:"), None);
    for ch in 0..64usize {
        assert_eq!(
            parse_endpoint_channel(&format!("output:{ch}"), "output:"),
            Some(ch)
        );
        assert_eq!(
            parse_stream_endpoint(&format!("stream:9:ch:{ch}")),
            Some((9, ch))
        );
    }
}

// Routes that can be made

#[test]
fn t08_valid_send_route_input() {
    assert!(route_valid_for_runtime(&r("input:0", "stream:0:ch:0"), 2, 8));
    assert!(route_valid_for_runtime(&r("input:1", "stream:0:ch:3"), 2, 8));
}

#[test]
fn t09_valid_send_route_ebu() {
    assert!(route_valid_for_runtime(&r("ebu:l", "stream:0:ch:0"), 0, 8));
    assert!(route_valid_for_runtime(&r("ebu:r", "stream:0:ch:1"), 0, 8));
}

#[test]
fn t10_send_route_rejected_input_out_of_range() {
    assert!(!route_valid_for_runtime(&r("input:2", "stream:0:ch:0"), 2, 8));
}

#[test]
fn t11_send_route_rejected_dst_out_of_range() {
    assert!(!route_valid_for_runtime(&r("input:0", "stream:0:ch:8"), 2, 8));
}

#[test]
fn t12_valid_receive_route_current_format() {
    assert!(route_valid_for_runtime(&r("peer:0:ch:0", "output:0"), 2, 8));
    assert!(route_valid_for_runtime(&r("peer:1:ch:3", "output:1"), 2, 8));
}

#[test]
fn t14_receive_route_rejected_output_out_of_range() {
    assert!(!route_valid_for_runtime(&r("peer:0:ch:0", "output:2"), 2, 8));
}

#[test]
fn t15_unknown_route_rejected() {
    assert!(!route_valid_for_runtime(&r("unknown:0", "unknown:1"), 2, 8));
}

#[test]
fn stored_routes_that_cannot_be_made_are_dropped() {
    let stored = vec![
        r("input:0", "stream:0:ch:0"),
        r("input:9", "stream:0:ch:0"),
        r("peer:1:ch:3", "output:1"),
        r("peer:1:ch:3", "output:2"),
        r("ebu:r", "stream:0:ch:7"),
    ];
    let kept = load_persisted_routes(&stored, 2, 8);
    assert_eq!(
        kept,
        vec![
            r("input:0", "stream:0:ch:0"),
            r("peer:1:ch:3", "output:1"),
            r("ebu:r", "stream:0:ch:7"),
        ]
    );
}

// Masks of the outputs

#[test]
fn t16_apply_masks_current_format() {
    let mut masks: [u64; 2] = [0, 0];
    let routes = vec![r("peer:0:ch:3", "output:0")];
    apply_routes_to_masks(&routes, &mut masks, 8);
    assert_eq!(masks[0], 1u64 << 3);
    assert_eq!(masks[1], 0);
}

#[test]
fn t18_apply_masks_multiple_routes() {
    let mut masks: [u64; 2] = [0, 0];
    let routes = vec![
        r("peer:0:ch:0", "output:0"),
        r("peer:0:ch:1", "output:0"),
        r("peer:0:ch:2", "output:1"),
    ];
    apply_routes_to_masks(&routes, &mut masks, 8);
    assert_eq!(masks[0], 0b11);
    assert_eq!(masks[1], 1u64 << 2);
}

#[test]
fn t19_apply_masks_empty_clears() {
    let mut masks: [u64; 2] = [0xffff, 0xffff];
    apply_routes_to_masks(&[], &mut masks, 8);
    assert_eq!(masks[0], 0);
    assert_eq!(masks[1], 0);
}

#[test]
fn first_remote_needs_no_number() {
    let stored = vec![
        r("input:0", "stream:0:ch:0"),
        r("peer:remote:ch:0", "output:0"),
        r("peer:remote:ch:0", "output:2"),
        r("peer:remote:ch:0", "stream:0:ch:1"),
    ];
    assert!(route_valid_for_runtime(&stored[1], 2, 8));
    let kept = load_persisted_routes(&stored, 2, 8);
    assert_eq!(kept, stored[..2].to_vec());
    let mut masks: [u64; 2] = [0, 0];
    apply_routes_to_masks(&kept, &mut masks, 8);
    assert_eq!(masks, [1, 0]);
    apply_routes_to_masks(&[r("peer:remote:ch:5", "output:1")], &mut masks, 8);
    assert_eq!(masks, [0, 1 << 5]);
}

#[test]
fn remotes_stand_one_behind_the_other() {
    let mut masks: [u64; 2] = [0, 0];
    let routes = vec![
        r("peer:2:ch:3", "output:1"),
        r("peer:8:ch:0", "output:1"),
        r("peer:7:ch:7", "output:0"),
        r("peer:18446744073709551615:ch:1", "output:0"),
    ];
    apply_routes_to_masks(&routes, &mut masks, 8);
    assert_eq!(masks[0], 1u64 << 63);
    assert_eq!(masks[1], 1u64 << 19);
}

// Masks of the send channels

#[test]
fn t20_apply_tx_sources_basic() {
    let mut tx: Vec<usize> = vec![0; 8];
    let routes = vec![r("input:0", "stream:0:ch:2")];
    apply_routes_to_tx_sources(&routes, &mut tx);
    let expected_bit = 1u64 << 2;
    assert_eq!(tx[2], expected_bit as usize);
    assert_eq!(tx[0], 0);
}

#[test]
fn t21_apply_tx_sources_ebu() {
    let mut tx: Vec<usize> = vec![0; 4];
    let routes = vec![r("ebu:l", "stream:0:ch:0"), r("ebu:r", "stream:0:ch:1")];
    apply_routes_to_tx_sources(&routes, &mut tx);
    assert_eq!(tx[0], 1);
    assert_eq!(tx[1], 2);
}

#[test]
fn t22_apply_tx_sources_ignores_out_of_range_channel() {
    let mut tx: Vec<usize> = vec![0; 4];
    let routes = vec![r("ebu:l", "stream:0:ch:4")];
    apply_routes_to_tx_sources(&routes, &mut tx);
    for i in 0..4 {
        assert_eq!(tx[i], 0);
    }
}

#[test]
fn tx_sources_are_overwritten_whatever_the_order() {
    let routes = vec![
        r("ebu:l", "stream:0:ch:1"),
        r("input:3", "stream:4:ch:1"),
        r("input:62", "stream:0:ch:1"),
    ];
    let back = vec![routes[2].clone(), routes[1].clone(), routes[0].clone()];
    let mut tx: Vec<usize> = vec![77; 2];
    apply_routes_to_tx_sources(&routes, &mut tx);
    assert_eq!(tx, vec![0, 0b100001]);
    let mut other: Vec<usize> = vec![1; 2];
    apply_routes_to_tx_sources(&back, &mut other);
    assert_eq!(tx, other);
}

#[test]
fn source_codes_and_bits() {
    assert_eq!(tx_source_code_from_endpoint("ebu:l"), Some(TX_SRC_EBU_L));
    assert_eq!(tx_source_code_from_endpoint("ebu:r"), Some(TX_SRC_EBU_R));
    assert_eq!(
        tx_source_code_from_endpoint("input:7"),
        Some(TX_SRC_INPUT_BASE + 7)
    );
    assert_eq!(tx_source_code_from_endpoint("output:7"), None);
    assert_eq!(tx_source_bit(TX_SRC_INPUT_BASE + 61), Some(1u64 << 63));
    assert_eq!(tx_source_bit(TX_SRC_INPUT_BASE + 62), None);
    assert_eq!(tx_source_bit(5), None);
    for bit in 0..64usize {
        let code = source_code_from_bit_index(bit).unwrap();
        assert_eq!(tx_source_bit(code), Some(1u64 << bit));
    }
    assert_eq!(source_code_from_bit_index(64), None);
}

#[test]
fn outputs_play_the_bits_of_their_mask() {
    let mut masks: [u64; 2] = [0, 0];
    apply_routes_to_masks(&[r("peer:1:ch:3", "output:1")], &mut masks, 8);
    for slot in 0..70 {
        assert!(!plays(masks[0], slot));
        assert_eq!(plays(masks[1], slot), slot == 11);
    }
    assert!(plays(1 << 63, 63));
}
