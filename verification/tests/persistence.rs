use audiolink::persistence::{
    default_true, load_persisted_labels, load_persisted_state, save_persisted_config,
    save_persisted_routes, PersistedRuntimeConfig, PersistedUiState, RemoteConnection,
    LEGACY_STATE_FILE, STATE_FILE,
};
use audiolink::state::Route;

fn named(id: &str) -> PersistedUiState {
    let mut s = PersistedUiState::default();
    s.config.node_id = Some(id.to_string());
    s
}

fn remote(name: &str) -> RemoteConnection {
    RemoteConnection {
        index: 0,
        name: name.to_string(),
        ip_override: String::new(),
        password: None,
        channels_to_send: Vec::new(),
        enabled: default_true(),
    }
}

#[test]
fn first_readable_file_counts() {
    assert_eq!(STATE_FILE, "audiolinkd_config.json");
    assert_eq!(LEGACY_STATE_FILE, ".audiolinkd_m7_state.json");
    let s = load_persisted_state(&[None, Some(named("old"))]);
    assert_eq!(s.config.node_id.as_deref(), Some("old"));
    let s = load_persisted_state(&[Some(named("new")), Some(named("old"))]);
    assert_eq!(s.config.node_id.as_deref(), Some("new"));
    let s = load_persisted_state(&[None, None]);
    assert_eq!(s.config.node_id, None);
    assert!(s.routes.is_empty() && s.config.remotes.is_empty());
}

#[test]
fn saving_routes_keeps_the_configuration() {
    let routes = vec![Route {
        source: "in:0".to_string(),
        destination: "send:0".to_string(),
    }];
    let s = save_persisted_routes(named("a"), &routes);
    assert_eq!(s.routes, routes);
    assert_eq!(s.config.node_id.as_deref(), Some("a"));
}

#[test]
fn saving_a_configuration_keeps_labels_and_remotes() {
    let mut stored = named("a");
    stored.config.channel_labels = Some(vec!["Mic".to_string()]);
    stored.config.remotes = vec![remote("b")];
    stored.routes = vec![Route {
        source: "x".to_string(),
        destination: "y".to_string(),
    }];
    let mut incoming = PersistedRuntimeConfig::default();
    incoming.node_id = Some("c".to_string());
    incoming.channel_labels = Some(vec!["other".to_string()]);
    let s = save_persisted_config(stored.clone(), incoming.clone());
    assert_eq!(s.config.node_id.as_deref(), Some("c"));
    assert_eq!(s.config.channel_labels, Some(vec!["Mic".to_string()]));
    assert_eq!(s.config.remotes.len(), 1);
    assert_eq!(s.config.remotes[0].name, "b");
    assert_eq!(s.routes.len(), 1);
    incoming.remotes = vec![remote("d"), remote("e")];
    let s = save_persisted_config(stored, incoming);
    assert_eq!(s.config.remotes.len(), 2);
    assert_eq!(s.config.remotes[1].name, "e");
}

#[test]
fn labels_that_are_kept() {
    let mut s = PersistedUiState::default();
    assert_eq!(load_persisted_labels(&s, 2), vec!["Ch 1", "Ch 2"]);
    s.config.channel_labels = Some(vec![" Mic ".to_string(), "  ".to_string()]);
    assert_eq!(load_persisted_labels(&s, 3), vec![" Mic ", "Ch 2", "Ch 3"]);
    assert_eq!(load_persisted_labels(&s, 1), vec![" Mic "]);
}
