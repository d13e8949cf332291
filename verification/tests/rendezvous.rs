use audiolink::cloud::{CloudError, Registry};
use audiolink::rendezvous::{
    address_in, connect_body, connect_reply, event_is_empty, event_reply, inbound_from,
    names_nobody, poll_pause_ms,
    register_body, rendezvous_base, rendezvous_in_use, wants_introduction, JsonField,
};

const SEC: u64 = 1_000_000_000;

#[test]
fn addresses_of_the_service() {
    assert_eq!(rendezvous_base("r.example//"), "https://r.example");
    assert_eq!(rendezvous_base("http://r.example/"), "http://r.example");
    assert_eq!(rendezvous_base("https://r/x"), "https://r/x");
    assert_eq!(rendezvous_base(""), "https://");
    assert_eq!(rendezvous_in_use(&None), None);
    assert_eq!(rendezvous_in_use(&Some("  ".to_string())), None);
    assert_eq!(
        rendezvous_in_use(&Some("r/".to_string())),
        Some("https://r".to_string())
    );
}

#[test]
fn requests_are_json() {
    assert_eq!(register_body("a"), "{\"name\":\"a\",\"port\":20102}");
    assert_eq!(
        register_body("a\"b\\c\n\u{1}\u{7f}\u{e9}"),
        "{\"name\":\"a\\\"b\\\\c\\n\\u0001\u{7f}\u{e9}\",\"port\":20102}"
    );
    assert_eq!(
        register_body("\u{8}\u{c}\r\t\u{1f}/"),
        "{\"name\":\"\\b\\f\\r\\t\\u001f/\",\"port\":20102}"
    );
    assert_eq!(
        connect_body("a", "b"),
        "{\"my_name\":\"a\",\"remote_name\":\"b\"}"
    );
}

#[test]
fn who_asks_to_be_introduced() {
    assert!(wants_introduction(false, "b", false));
    assert!(!wants_introduction(true, "b", false));
    assert!(!wants_introduction(false, "", false));
    assert!(!wants_introduction(false, "b", true));
}

#[test]
fn answers_to_an_introduction() {
    assert_eq!(
        connect_reply("{\"remote_addr\": \"1.2.3.4:5\"}"),
        Some("1.2.3.4:5".to_string())
    );
    assert_eq!(connect_reply("{\"remote_addr\": 5}"), Some("?".to_string()));
    assert_eq!(connect_reply("[]"), Some("?".to_string()));
    assert_eq!(connect_reply("no json"), None);
    assert_eq!(address_in(JsonField::Unreadable), None);
    assert_eq!(address_in(JsonField::Missing), Some("?".to_string()));
    assert_eq!(
        address_in(JsonField::Text("x".to_string())),
        Some("x".to_string())
    );
}

#[test]
fn events_name_the_caller() {
    let i = event_reply("{\"from_name\":\"a\",\"from_addr\":\"1.2.3.4:5\"}").unwrap();
    assert_eq!((i.from_name.as_str(), i.from_addr.as_str()), ("a", "1.2.3.4:5"));
    let i = event_reply("{\"from_addr\":\"1.2.3.4:5\"}").unwrap();
    assert_eq!(i.from_name, "?");
    assert!(event_reply("{\"from_name\":\"a\"}").is_none());
    assert!(event_reply("{\"from_name\":\"a\",\"from_addr\":\"\"}").is_none());
    assert!(event_reply("").is_none());
    assert!(inbound_from(JsonField::Missing, JsonField::Unreadable).is_none());
}

#[test]
fn pauses_between_polls() {
    assert_eq!(poll_pause_ms(Some(200), false), 200);
    assert_eq!(poll_pause_ms(Some(200), true), 0);
    assert_eq!(poll_pause_ms(Some(204), true), 200);
    assert_eq!(poll_pause_ms(Some(404), true), 5_200);
    assert_eq!(poll_pause_ms(None, false), 5_200);
}

#[test]
fn events_that_name_no_address_are_empty() {
    assert!(event_is_empty("{\"from_name\":\"a\"}"));
    assert!(event_is_empty("{\"from_addr\":\"\"}"));
    assert!(event_is_empty("{\"from_addr\":7}"));
    assert!(!event_is_empty("{\"from_addr\":\"1.2.3.4:5\"}"));
    assert!(!event_is_empty("no json"));
    assert!(names_nobody(&JsonField::Missing));
    assert!(!names_nobody(&JsonField::Unreadable));
}

#[test]
fn registrations_are_named() {
    let mut r = Registry::new();
    assert_eq!(
        r.register(" a ", 7, Some("1.2.3.4"), 0).unwrap(),
        "1.2.3.4:7"
    );
    assert_eq!(r.register("b", 8, None, 0).unwrap(), "unknown:8");
    assert_ne!(r.channel_of("a").unwrap(), r.channel_of("b").unwrap());
    let before = r.channel_of("a").unwrap();
    assert_eq!(
        r.register("a", 9, Some("1.2.3.5"), SEC).unwrap(),
        "1.2.3.5:9"
    );
    assert_eq!(r.channel_of("a").unwrap(), before);
    assert_eq!(r.entries.len(), 2);
    for bad in ["", "   ", "x".repeat(65).as_str()] {
        let e = r.register(bad, 1, None, 0).unwrap_err();
        assert_eq!(e.status(), 400);
        assert_eq!(e.message(), "name must be 1\u{2013}64 characters");
    }
    assert!(r.register("x".repeat(64).as_str(), 1, None, 0).is_ok());
    let e = r.channel_of("zz").unwrap_err();
    assert_eq!(e.status(), 404);
    assert_eq!(
        e.message(),
        "device 'zz' is not registered \u{2014} register first"
    );
    r.next_channel = u64::MAX;
    let e = r.register("new", 1, None, 0).unwrap_err();
    assert!(matches!(e, CloudError::Exhausted));
    assert_eq!(e.status(), 503);
    assert_eq!(e.message(), "no more devices can be registered");
}

#[test]
fn introductions_tell_both_sides() {
    let mut r = Registry::new();
    r.register("a", 7, Some("1.1.1.1"), 0).unwrap();
    r.register("b", 8, Some("2.2.2.2"), 0).unwrap();
    let i = r.connect("a", " b ", Some("1.1.1.9"), SEC).unwrap();
    assert_eq!(i.remote_addr, "2.2.2.2:8");
    assert_eq!(i.channel, r.channel_of("b").unwrap());
    assert_eq!(i.event.from_name, "a");
    assert_eq!(i.event.from_addr, "1.1.1.9:7");
    let i = r.connect("stranger", "b", None, SEC).unwrap();
    assert_eq!(i.event.from_addr, "unknown:20102");
    let e = r.connect("", "b", None, 0).unwrap_err();
    assert_eq!(e.status(), 400);
    assert_eq!(e.message(), "my_name and remote_name required");
    let e = r.connect("a", "c", None, 0).unwrap_err();
    assert_eq!(e.status(), 404);
    assert_eq!(e.message(), "remote device 'c' is not currently registered");
    assert!(r.connect("a", "b", None, 30 * SEC - 1).is_ok());
    assert!(r.connect("a", "b", None, 30 * SEC).is_err());
}

#[test]
fn old_registrations_are_reaped() {
    let mut r = Registry::new();
    r.register("a", 7, Some("1.1.1.1"), 0).unwrap();
    r.register("b", 8, Some("2.2.2.2"), 10 * SEC).unwrap();
    let listed = r.status(12 * SEC + SEC / 2);
    assert_eq!(listed.len(), 2);
    assert_eq!((listed[0].name.as_str(), listed[0].last_seen_secs), ("a", 12));
    assert_eq!(listed[1].pub_addr, "2.2.2.2:8");
    assert_eq!(r.status(31 * SEC).len(), 1);
    let gone = r.channel_of("a").unwrap();
    assert_eq!(r.reap(31 * SEC), vec![gone]);
    assert_eq!(r.entries.len(), 1);
    assert!(r.channel_of("a").is_err());
    assert!(r.reap(31 * SEC).is_empty());
}
