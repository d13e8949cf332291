use audiolink::constants::{PORT, SSRC_CONTROL, SSRC_MEDIA};
use audiolink::metadata::{
    json_escape, local_channel_label, parse_channel_metadata, parse_json_string_field,
    RemoteMetadata,
};
use audiolink::packet::{
    be_u32_at, build_accept_packet, build_confirm_packet, build_metadata_packet,
    build_metadata_packet_with_labels, build_packet, build_probe_packet, build_rtt_ping,
    build_rtt_pong, copy_token, parse_handshake_packet, parse_packet, rtp_header, split_host_port,
    HandshakePacket,
};

fn labels(names: &[&str]) -> Vec<String> {
    names.iter().map(|n| n.to_string()).collect()
}

fn learnt(packet: &[u8]) -> RemoteMetadata {
    match parse_handshake_packet(packet) {
        Some(HandshakePacket::Metadata(m)) => m,
        other => panic!("no metadata: {other:?}"),
    }
}

#[test]
fn header_bytes_are_fixed() {
    assert_eq!(
        rtp_header(SSRC_CONTROL),
        vec![0x80, 0x69, 0, 0, 0, 0, 0, 0, 0, 0, 2, 0]
    );
    assert_eq!(be_u32_at(&[1, 2, 3, 4, 5], 1), Some(0x02030405));
    assert_eq!(be_u32_at(&[1, 2, 3, 4, 5], 2), None);
    assert_eq!(be_u32_at(&[], usize::MAX), None);
    assert_eq!(copy_token(&[7u8; 20], 4), Some([7u8; 16]));
    assert_eq!(copy_token(&[7u8; 20], 5), None);
}

#[test]
fn media_packet_layout_and_back() {
    let packet = build_packet(0x1234, 0xdead_beef, 5, &[9, 8, 7]);
    assert_eq!(
        packet,
        vec![
            0x80, 0x69, 0x12, 0x34, 0xde, 0xad, 0xbe, 0xef, 0x00, 0x01, 0x00, 0x00, 0x09, 0x06,
            packet[14], packet[15], packet[16], packet[17], 5, 9, 8, 7
        ]
    );
    assert_eq!(be_u32_at(&packet, 8), Some(SSRC_MEDIA));
    let read = parse_packet(&packet).unwrap();
    assert_eq!(
        (read.seq, read.timestamp, read.channel),
        (0x1234, 0xdead_beef, 5)
    );
    assert_eq!(read.opus_payload, &[9, 8, 7]);
    assert!(parse_packet(&packet[..18]).is_none());
    assert!(parse_handshake_packet(&packet).is_none());
    assert_eq!(
        parse_packet(&packet[..19]).unwrap().opus_payload,
        &[] as &[u8]
    );
    let mut other = packet.clone();
    other[13] = 0x07;
    assert!(parse_packet(&other).is_none());
}

#[test]
fn handshake_packets_and_back() {
    let name = [1u8; 16];
    let token = [2u8; 16];
    match parse_handshake_packet(&build_probe_packet(&name, &token)) {
        Some(HandshakePacket::Probe {
            sender_token,
            expected_peer,
        }) => {
            assert_eq!(sender_token, name);
            assert_eq!(expected_peer, token);
        }
        other => panic!("{other:?}"),
    }
    match parse_handshake_packet(&build_accept_packet(&token)) {
        Some(HandshakePacket::Accept { token: t }) => assert_eq!(t, token),
        other => panic!("{other:?}"),
    }
    match parse_handshake_packet(&build_confirm_packet(&token)) {
        Some(HandshakePacket::Confirm { token: t }) => assert_eq!(t, token),
        other => panic!("{other:?}"),
    }
    match parse_handshake_packet(&build_rtt_ping(0x0102_0304_0506_0708)) {
        Some(HandshakePacket::RttPing { timestamp_us }) => {
            assert_eq!(timestamp_us, 0x0102_0304_0506_0708)
        }
        other => panic!("{other:?}"),
    }
    match parse_handshake_packet(&build_rtt_pong(77)) {
        Some(HandshakePacket::RttPong { timestamp_us }) => assert_eq!(timestamp_us, 77),
        other => panic!("{other:?}"),
    }
    assert_eq!(build_probe_packet(&name, &token).len(), 53);
    assert_eq!(build_accept_packet(&token).len(), 37);
    assert_eq!(build_confirm_packet(&token).len(), 53);
    assert_eq!(build_rtt_ping(1).len(), 29);
    let probe = build_probe_packet(&name, &token);
    assert!(parse_handshake_packet(&probe[..52]).is_none());
    assert!(parse_packet(&probe).is_none());
}

#[test]
fn metadata_packet_and_back() {
    let token = [3u8; 16];
    let given = labels(&["Mic 1", "Mic 2"]);
    let packet = build_metadata_packet_with_labels(&token, 3, "studio-a", &given);
    let list = "[{\"c\":1,\"l\":\"Mic 1\"},{\"c\":2,\"l\":\"Mic 2\"},{\"c\":3,\"l\":\"Ch 3\"}]";
    assert_eq!(&packet[37..], list.as_bytes());
    assert_eq!(&packet[8..14], &[0, 0, 0, 0, 0x09, 0x0a]);
    assert_eq!(
        u16::from_be_bytes([packet[18], packet[19]]) as usize,
        16 + list.len()
    );
    assert_eq!(&packet[21..37], &token);
    let m = learnt(&packet);
    assert_eq!(m.node_id, None);
    assert_eq!(m.channels, 3);
    assert_eq!(m.labels, labels(&["Mic 1", "Mic 2", "Ch 3"]));
    let plain = learnt(&build_metadata_packet(&token, 2, "studio-a"));
    assert_eq!(plain.labels, labels(&["Ch 1", "Ch 2"]));
}

#[test]
fn labels_arrive_as_they_were_set() {
    let odd = labels(&["{\"c\":63,\"id\":\"x\"}", "a\"b", "}{", "\u{1}", "id"]);
    let m = learnt(&build_metadata_packet_with_labels(&[0u8; 16], 5, "n", &odd));
    assert_eq!(m.channels, 5);
    assert_eq!(m.node_id, None);
    assert_eq!(m.labels, odd);
    let many = learnt(&build_metadata_packet(&[0u8; 16], 70, "n"));
    assert_eq!(many.channels, 64);
    assert_eq!(many.labels.len(), 70);
    let none = learnt(&build_metadata_packet(&[0u8; 16], 0, "n"));
    assert_eq!(none.channels, 0);
}

#[test]
fn quoted_label_is_read_to_its_end() {
    let m = parse_channel_metadata("[{\"c\":1,\"l\":\"A\\\"B\"}]");
    assert_eq!(m.channels, 1);
    assert_eq!(m.labels, labels(&["A\"B"]));
    let every: String = (0u8..=0xff).map(|b| b as char).collect();
    let odd = labels(&[&every, "", "\\", "\\u0041", "\u{10ffff}\u{e000}\"},{", "]"]);
    let m = learnt(&build_metadata_packet_with_labels(&[0u8; 16], 7, "n", &odd));
    assert_eq!(m.channels, 7);
    assert_eq!(m.labels[..6], odd[..]);
    assert_eq!(m.labels[6], "Ch 7");
}

#[test]
fn metadata_length_field_bounds_the_list() {
    let mut packet = build_metadata_packet(&[0u8; 16], 2, "n");
    packet.extend_from_slice(b"{\"c\":9,\"l\":\"x\"}");
    assert_eq!(learnt(&packet).channels, 2);
    packet[18] = 0;
    packet[19] = 15;
    assert_eq!(learnt(&packet).channels, 9);
    let mut broken = build_metadata_packet(&[0u8; 16], 1, "n");
    broken[37] = 0xff;
    assert!(parse_handshake_packet(&broken).is_none());
}

#[test]
fn channel_metadata_forms() {
    let m = parse_channel_metadata(
        "{\"id\":\"studio \\\"b\\\"\",\"channels\":[{\"c\": 2,\"l\":\"L\"},{\"l\":\"R\",\"c\":1}]}",
    );
    assert_eq!(m.node_id.as_deref(), Some("studio \"b\""));
    assert_eq!(m.display_name(), "studio \"b\"");
    assert_eq!(m.channels, 2);
    assert_eq!(m.labels, labels(&["L", "R"]));
    let empty = parse_channel_metadata("");
    assert_eq!(empty.display_name(), "unknown device");
    assert_eq!((empty.channels, empty.labels.len()), (0, 0));
    let bad = parse_channel_metadata("[{\"c\":\"x\",\"l\":\"a\"},{\"c\":18446744073709551616}]");
    assert_eq!(bad.channels, 0);
    assert_eq!(bad.labels, labels(&["a"]));
}

#[test]
fn json_text_forms() {
    assert_eq!(json_escape("a\\b\"c\n\r\t\u{1f}\u{7f}\u{e9}"), "a\\\\b\\\"c\\n\\r\\t\\u001f\\u007f\u{e9}");
    assert_eq!(
        parse_json_string_field("{\"l\":\"a\\nb\\\\c\"}", "l"),
        Some("a\nb\\c".to_string())
    );
    assert_eq!(
        parse_json_string_field("{\"l\":\"\\u0041\\u00e9\\u20AC\\/\"}", "l"),
        Some("A\u{e9}\u{20ac}/".to_string())
    );
    assert_eq!(
        parse_json_string_field("{\"l\":\"\\ud800\\u12g4\\u\"}", "l"),
        Some("ud800u12g4u".to_string())
    );
    assert_eq!(parse_json_string_field("{\"l\":\"open", "l"), None);
    assert_eq!(parse_json_string_field("{\"l\":\"open\\", "l"), None);
    assert_eq!(parse_json_string_field("{\"l\": \"spaced\"}", "l"), None);
    assert_eq!(local_channel_label(0), "Ch 1");
    assert_eq!(local_channel_label(63), "Ch 64");
}

#[test]
fn host_loses_only_the_usual_port() {
    assert_eq!(PORT, 20102);
    assert_eq!(split_host_port("10.0.0.1:20102"), "10.0.0.1");
    assert_eq!(split_host_port("10.0.0.1:20103"), "10.0.0.1:20103");
    assert_eq!(split_host_port("10.0.0.1"), "10.0.0.1");
    assert_eq!(split_host_port(":20102"), "");
}
