//! What the web interface answers and changes.

use crate::constants::{DEFAULT_SHARED_TOKEN, MAX_CHANNELS, MAX_LATENCY_MS, MIN_LATENCY_MS};
use crate::metadata::{channel_label, channel_list, local_channel_label, RemoteMetadata};
use crate::packet::{
    build_metadata_packet_with_labels, host_only, metadata_bytes, split_host_port,
};
use crate::persistence::{
    copy_texts, kept_label, load_persisted_labels, ConfigView, PersistedRuntimeConfig,
    PersistedUiState,
};
use crate::routing::{
    apply_routes_to_masks, apply_routes_to_tx_sources, endpoint_channel, has_bit,
    law_nothing_without_routes, law_ring_has_its_route, law_route_sets_its_ring,
    load_persisted_routes, output_mask, peer_endpoint, route, route_ok, send_mask,
};
use crate::state::{
    age, copy_routes, first_levels, lowered, route_views, DeviceResponse, EncoderMode,
    JitterConfig, MeterBank, MonitorMode, PeerAddr, PeerStatus, Preset, Route, RuntimeSummary,
    WebState,
};
use crate::stream::{active_channels, active_count};
use crate::text::{
    chars_of, decimal, decimal_text, is_white_space, law_trimmed, optional_text, same_text, text_of,
    texts, trim_text, trimmed,
};
use crate::token::{
    derive_link_token, derive_token_from_text, hex_text, link_token, parse_token_arg, text_token,
    token_of_arg, token_to_hex,
};
use vstd::prelude::*;
use vstd::slice::slice_subrange;

verus! {

// ---------------------------------------------------------------------------------------------
// Requests and answers

/// The routes that are to be made.
#[derive(Debug)]
pub struct RoutesRequest {
    pub routes: Vec<Route>,
    pub monitor_mode: Option<MonitorMode>,
}

/// The preset that is to be saved or recalled.
#[derive(Debug)]
pub struct PresetRequest {
    pub name: String,
}

/// The labels that the local channels are to have.
#[derive(Debug)]
pub struct LocalLabelsRequest {
    pub labels: Vec<String>,
}

/// What the endpoint is to be started anew with.
#[derive(Debug)]
pub struct SetupApplyRequest {
    pub remote: String,
    pub remote_device_name: String,
    pub link_password: Option<String>,
    pub node_id: String,
    pub token: Option<String>,
    pub channels: usize,
    pub opus_bitrate_per_channel: u32,
    pub receive_buffer_ms: u32,
    pub rendezvous_url: Option<String>,
    pub phase_lock: Option<bool>,
    pub encoder_mode: Option<String>,
    pub bind_addr: Option<String>,
    pub selected_input_device: Option<String>,
    pub selected_output_device: Option<String>,
}

/// The command with which the endpoint starts anew, without its secrets.
#[derive(Debug)]
pub struct SetupApplyResponse {
    pub status: String,
    pub command: Vec<String>,
}

/// The state of the endpoint.
#[derive(Debug)]
pub struct StatusResponse {
    pub node_id: String,
    pub uptime_seconds: u64,
    pub peer_status: PeerStatus,
    pub monitor_mode: MonitorMode,
    pub local_channels: usize,
    pub local_input_channels: usize,
    pub remote_channels: usize,
    pub send_enabled: bool,
    pub recv_enabled: bool,
    pub remote: Option<RemoteMetadata>,
    pub runtime: RuntimeSummary,
    pub last_control_age_ms: u64,
    pub last_audio_age_ms: u64,
    pub remote_conflict: Option<PeerAddr>,
    pub discovered_peer_addr: Option<PeerAddr>,
}

/// The address of the endpoint.
#[derive(Debug)]
pub struct DeviceIpResponse {
    pub ip: String,
    pub port: u16,
}

/// Why a request is refused.
#[derive(Debug)]
pub enum WebError {
    EmptyEndpoint,
    NodeIdMissing,
    ChannelCount,
    InvalidToken,
    Bitrate,
    Rebuilding,
    PresetNotFound { name: String },
}

impl WebError {
    /// The HTTP status.
    pub open spec fn code(self) -> u16 {
        match self {
            WebError::Rebuilding => 409,
            WebError::PresetNotFound { .. } => 404,
            _ => 400,
        }
    }

    /// What is said to the one who asked.
    pub open spec fn words(self) -> Seq<char> {
        match self {
            WebError::EmptyEndpoint => "routes require non-empty source and destination"@,
            WebError::NodeIdMissing => "Device name is required"@,
            WebError::ChannelCount => "Network send channels must be 1-"@ + decimal(
                MAX_CHANNELS as nat,
            ),
            WebError::InvalidToken => "Invalid explicit token"@,
            WebError::Bitrate => "Opus bitrate must be 8000-512000 bits/sec per channel"@,
            WebError::Rebuilding => "Engine rebuild is already in progress"@,
            WebError::PresetNotFound { name } => "preset '"@ + name@ + "' not found"@,
        }
    }

    /// The HTTP status.
    pub fn status(&self) -> (r: u16)
        ensures
            r == self.code(),
    {
        match self {
            WebError::Rebuilding => 409,
            WebError::PresetNotFound { .. } => 404,
            _ => 400,
        }
    }

    /// What is said to the one who asked.
    pub fn message(&self) -> (r: String)
        ensures
            r@ == self.words(),
    {
        match self {
            WebError::EmptyEndpoint => {
                "routes require non-empty source and destination".to_string()
            },
            WebError::NodeIdMissing => "Device name is required".to_string(),
            WebError::ChannelCount => {
                let mut out = "Network send channels must be 1-".to_string();
                out.append(decimal_text(MAX_CHANNELS as u64).as_str());
                out
            },
            WebError::InvalidToken => "Invalid explicit token".to_string(),
            WebError::Bitrate => {
                "Opus bitrate must be 8000-512000 bits/sec per channel".to_string()
            },
            WebError::Rebuilding => "Engine rebuild is already in progress".to_string(),
            WebError::PresetNotFound { name } => {
                let mut out = "preset '".to_string();
                out.append(name.as_str());
                out.append("' not found");
                out
            },
        }
    }
}

// ---------------------------------------------------------------------------------------------
// Status

/// How long ago something was; zero where it never was.
pub open spec fn age_or_zero(now_ms: u64, then: u64) -> int {
    if then == 0 {
        0
    } else {
        age(now_ms, then)
    }
}

/// The state of the endpoint at `now_ms`.
pub fn status_handler(state: &WebState, uptime_seconds: u64, now_ms: u64) -> (r: StatusResponse)
    ensures
        r.node_id@ == state.node_id@,
        r.uptime_seconds == uptime_seconds,
        r.peer_status == state.health().status(now_ms),
        r.monitor_mode == MonitorMode::PatchMatrix,
        r.local_channels == state.local_channels,
        r.local_input_channels == state.local_input_channels,
        r.remote_channels == state.remote_channels,
        r.send_enabled == state.send_enabled,
        r.recv_enabled == state.recv_enabled,
        r.remote is Some <==> state.remote_metadata is Some,
        r.remote matches Some(m) ==> m@ == state.remote_metadata->0@,
        r.runtime == state.runtime,
        r.last_control_age_ms == age_or_zero(now_ms, state.last_control_ms),
        r.last_audio_age_ms == age_or_zero(now_ms, state.last_audio_ms),
        r.remote_conflict == state.remote_conflict,
        r.discovered_peer_addr == state.established_peer_addr,
{
    StatusResponse {
        node_id: state.node_id.clone(),
        uptime_seconds,
        peer_status: state.peer_status(now_ms),
        monitor_mode: state.monitor_mode(),
        local_channels: state.local_channels,
        local_input_channels: state.local_input_channels,
        remote_channels: state.remote_channels,
        send_enabled: state.send_enabled,
        recv_enabled: state.recv_enabled,
        remote: match &state.remote_metadata {
            Some(m) => Some(m.clone()),
            None => None,
        },
        runtime: state.runtime.clone(),
        last_control_age_ms: if state.last_control_ms == 0 {
            0
        } else {
            now_ms.saturating_sub(state.last_control_ms)
        },
        last_audio_age_ms: if state.last_audio_ms == 0 {
            0
        } else {
            now_ms.saturating_sub(state.last_audio_ms)
        },
        remote_conflict: state.remote_conflict,
        discovered_peer_addr: state.established_peer_addr,
    }
}

/// The levels that are shown, in hundredths of a decibel.
#[derive(Debug)]
pub struct MeterLevels {
    pub tx: Vec<i32>,
    pub input: Vec<i32>,
    pub rx: Vec<i32>,
    pub monitor: [i32; 2],
}

/// The levels that are shown: of each channel that is sent, each input, each channel in play, and
/// both outputs.
pub fn stats_handler(state: &WebState) -> (r: MeterLevels)
    ensures
        r.tx@ == first_levels(state.meters.tx_peak_db_x100@, state.local_channels as int),
        r.input@ == first_levels(
            state.meters.input_peak_db_x100@,
            state.local_input_channels as int,
        ),
        r.rx@ == first_levels(
            state.meters.rx_peak_db_x100@,
            active_channels(state.remote_channels as int),
        ),
        r.monitor == state.meters.monitor_peak_db_x100,
{
    MeterLevels {
        tx: state.meters.snapshot_tx(state.local_channels),
        input: state.meters.snapshot_input(state.local_input_channels),
        rx: state.meters.snapshot_rx(active_count(state.remote_channels)),
        monitor: state.meters.snapshot_monitor(),
    }
}

// ---------------------------------------------------------------------------------------------
// Routes

/// Whether these routes are the ones that are made in a state: they are listed, and the masks are
/// those of these routes.
pub open spec fn routes_made(state: WebState, routes: Seq<Route>) -> bool {
    &&& state.routes@ == routes
    &&& state.output_route_masks@[0] == output_mask(
        route_views(routes),
        state.local_channels as int,
        0,
    )
    &&& state.output_route_masks@[1] == output_mask(
        route_views(routes),
        state.local_channels as int,
        1,
    )
    &&& forall|dst: int|
        0 <= dst < state.tx_tone_source_for_send@.len()
            ==> #[trigger] state.tx_tone_source_for_send@[dst] == send_mask(
            route_views(routes),
            dst,
        ) as usize
}

/// Whether two states differ at most in the routes that are made.
pub open spec fn same_but_routes(a: WebState, b: WebState) -> bool {
    &&& a == (WebState {
        routes: a.routes,
        output_route_masks: a.output_route_masks,
        tx_tone_source_for_send: a.tx_tone_source_for_send,
        ..b
    })
    &&& a.tx_tone_source_for_send@.len() == b.tx_tone_source_for_send@.len()
}

/// Makes routes.
pub fn make_routes(state: &mut WebState, routes: Vec<Route>)
    ensures
        routes_made(*final(state), routes@),
        same_but_routes(*final(state), *old(state)),
{
    let per_remote: usize = state.local_channels;
    apply_routes_to_masks(routes.as_slice(), &mut state.output_route_masks, per_remote);
    apply_routes_to_tx_sources(routes.as_slice(), &mut state.tx_tone_source_for_send);
    state.routes = routes;
}

/// Whether a route lacks an end.
pub open spec fn lacks_end(route: Route) -> bool {
    route.source@.len() == 0 || route.destination@.len() == 0
}

/// Makes the routes that are asked for, unless one of them lacks an end.
pub fn routes_post_handler(state: &mut WebState, req: RoutesRequest) -> (r: Result<(), WebError>)
    ensures
        r is Err <==> exists|i: int| 0 <= i < req.routes@.len() && lacks_end(#[trigger] req.routes@[i]),
        r matches Err(e) ==> e is EmptyEndpoint && *final(state) == *old(state),
        r is Ok ==> routes_made(*final(state), req.routes@) && same_but_routes(
            *final(state),
            (WebState { monitor_mode: final(state).monitor_mode, ..*old(state) }),
        ) && final(state).monitor_mode == (if req.monitor_mode is Some {
            0
        } else {
            old(state).monitor_mode
        }),
{
    for i in 0..req.routes.len()
        invariant
            forall|j: int| 0 <= j < i ==> !lacks_end(#[trigger] req.routes@[j]),
            *state == *old(state),
    {
        if req.routes[i].source.as_str().is_empty() || req.routes[i].destination.as_str().is_empty() {
            assert(lacks_end(req.routes@[i as int]));
            return Err(WebError::EmptyEndpoint);
        }
    }
    if let Some(mode) = req.monitor_mode {
        state.monitor_mode = mode.as_u8();
    }
    make_routes(state, req.routes);
    Ok(())
}

// ---------------------------------------------------------------------------------------------
// Presets

/// The routes that a name stands for.
pub open spec fn preset_named(presets: Seq<Preset>, name: Seq<char>) -> Option<Seq<Route>>
    decreases presets.len(),
{
    if presets.len() == 0 {
        None
    } else if presets[0].name@ == name {
        Some(presets[0].routes@)
    } else {
        preset_named(presets.skip(1), name)
    }
}

fn preset_position(presets: &Vec<Preset>, name: &str) -> (r: Option<usize>)
    ensures
        match r {
            Some(i) => i < presets@.len() && presets@[i as int].name@ == name@ && preset_named(
                presets@,
                name@,
            ) == Some(presets@[i as int].routes@) && forall|j: int|
                0 <= j < i ==> (#[trigger] presets@[j]).name@ != name@,
            None => preset_named(presets@, name@) is None && forall|j: int|
                0 <= j < presets@.len() ==> (#[trigger] presets@[j]).name@ != name@,
        },
{
    assert(presets@.skip(0) =~= presets@);
    for i in 0..presets.len()
        invariant
            preset_named(presets@, name@) == preset_named(presets@.skip(i as int), name@),
            forall|j: int| 0 <= j < i ==> (#[trigger] presets@[j]).name@ != name@,
    {
        assert(presets@.skip(i as int)[0] == presets@[i as int]);
        assert(presets@.skip(i as int).skip(1) =~= presets@.skip(i + 1));
        if same_text(presets[i].name.as_str(), name) {
            return Some(i);
        }
    }
    None
}

proof fn lemma_preset_replaced(presets: Seq<Preset>, i: int, p: Preset, name: Seq<char>)
    requires
        0 <= i < presets.len(),
        presets[i].name@ == p.name@,
        forall|j: int| 0 <= j < i ==> (#[trigger] presets[j]).name@ != p.name@,
    ensures
        preset_named(presets.update(i, p), name) == if name == p.name@ {
            Some(p.routes@)
        } else {
            preset_named(presets, name)
        },
    decreases presets.len(),
{
    let changed = presets.update(i, p);
    if i == 0 {
        assert(changed.skip(1) =~= presets.skip(1));
    } else {
        assert(presets[0].name@ != p.name@);
        assert(changed.skip(1) =~= presets.skip(1).update(i - 1, p));
        assert forall|j: int| 0 <= j < i - 1 implies (#[trigger] presets.skip(1)[j]).name@
            != p.name@ by {
            assert(presets.skip(1)[j] == presets[j + 1]);
        }
        lemma_preset_replaced(presets.skip(1), i - 1, p, name);
    }
}

proof fn lemma_preset_added(presets: Seq<Preset>, p: Preset, name: Seq<char>)
    requires
        forall|j: int| 0 <= j < presets.len() ==> (#[trigger] presets[j]).name@ != p.name@,
    ensures
        preset_named(presets.push(p), name) == if name == p.name@ {
            Some(p.routes@)
        } else {
            preset_named(presets, name)
        },
    decreases presets.len(),
{
    if presets.len() == 0 {
        assert(presets.push(p).skip(1) =~= presets);
    } else {
        assert(presets[0].name@ != p.name@);
        assert(presets.push(p).skip(1) =~= presets.skip(1).push(p));
        assert forall|j: int| 0 <= j < presets.skip(1).len() implies (#[trigger] presets.skip(
            1,
        )[j]).name@ != p.name@ by {
            assert(presets.skip(1)[j] == presets[j + 1]);
        }
        lemma_preset_added(presets.skip(1), p, name);
    }
}

/// Whether the routes of `before` are saved under a name in `after`, and nothing else has changed.
pub open spec fn preset_saved(before: WebState, saved_name: Seq<char>, after: WebState) -> bool {
    &&& forall|name: Seq<char>| #[trigger]
        preset_named(after.presets@, name) == if name == saved_name {
            Some(before.routes@)
        } else {
            preset_named(before.presets@, name)
        }
    &&& after == (WebState { presets: after.presets, ..before })
}

/// Whether the routes that `before` has under a name are made in `after`.
pub open spec fn preset_recalled(before: WebState, name: Seq<char>, after: WebState) -> bool {
    preset_named(before.presets@, name) matches Some(routes) && routes_made(after, routes)
        && same_but_routes(after, before)
}

/// Saves the routes that are made under a name, in place of those that it stood for.
pub fn preset_save_handler(state: &mut WebState, req: &PresetRequest)
    ensures
        preset_saved(*old(state), req.name@, *final(state)),
{
    let routes = copy_routes(state.routes.as_slice());
    let preset = Preset { name: req.name.clone(), routes };
    let ghost before = state.presets@;
    match preset_position(&state.presets, req.name.as_str()) {
        Some(i) => {
            proof {
                assert forall|name: Seq<char>| #[trigger]
                    preset_named(before.update(i as int, preset), name) == if name == req.name@ {
                        Some(old(state).routes@)
                    } else {
                        preset_named(before, name)
                    } by {
                    lemma_preset_replaced(before, i as int, preset, name);
                }
            }
            state.presets.set(i, preset);
        },
        None => {
            proof {
                assert forall|name: Seq<char>| #[trigger]
                    preset_named(before.push(preset), name) == if name == req.name@ {
                        Some(old(state).routes@)
                    } else {
                        preset_named(before, name)
                    } by {
                    lemma_preset_added(before, preset, name);
                }
            }
            state.presets.push(preset);
        },
    }
}

/// Makes the routes that were saved under a name.
pub fn preset_recall_handler(state: &mut WebState, req: &PresetRequest) -> (r: Result<(), WebError>)
    ensures
        r is Ok <==> preset_named(old(state).presets@, req.name@) is Some,
        r is Ok ==> preset_recalled(*old(state), req.name@, *final(state)),
        r matches Err(e) ==> (e matches WebError::PresetNotFound { name } && name@ == req.name@)
            && *final(state) == *old(state),
{
    match preset_position(&state.presets, req.name.as_str()) {
        Some(i) => {
            let routes = copy_routes(state.presets[i].routes.as_slice());
            make_routes(state, routes);
            Ok(())
        },
        None => Err(WebError::PresetNotFound { name: req.name.clone() }),
    }
}

/// A preset that is recalled gives the routes back that were made when it was saved, whatever routes
/// were made in between.
pub proof fn law_recall_gives_back(
    a: WebState,
    b: WebState,
    between: WebState,
    c: WebState,
    name: Seq<char>,
)
    requires
        preset_saved(a, name, b),
        between.presets == b.presets,
        preset_recalled(between, name, c),
    ensures
        routes_made(c, a.routes@),
{
    assert(preset_named(b.presets@, name) == Some(a.routes@));
}

// ---------------------------------------------------------------------------------------------
// Labels

/// A label as it is kept: without white space at its ends, no more than 48 characters of it, and
/// the one of a channel without a label where nothing is left.
pub open spec fn tidy_label(label: Seq<char>, ch: int) -> Seq<char> {
    let t = trimmed(label);
    if t.len() == 0 {
        channel_label(ch)
    } else if t.len() > 48 {
        t.take(48)
    } else {
        t
    }
}

/// The labels of `n` channels, from those that were given.
pub open spec fn tidy_labels(labels: Seq<Seq<char>>, n: int) -> Seq<Seq<char>> {
    Seq::new(
        n as nat,
        |ch: int| if ch < labels.len() {
            tidy_label(labels[ch], ch)
        } else {
            channel_label(ch)
        },
    )
}

fn tidy(label: &str, ch: usize) -> (r: String)
    requires
        ch < usize::MAX,
    ensures
        r@ == tidy_label(label@, ch as int),
{
    let t = trim_text(label);
    let chars = chars_of(t.as_str());
    if chars.len() == 0 {
        local_channel_label(ch)
    } else if chars.len() > 48 {
        let first = slice_subrange(chars.as_slice(), 0, 48);
        assert(first@ =~= trimmed(label@).take(48));
        text_of(first)
    } else {
        t
    }
}

/// The labels of `num_channels` channels, from those that were given.
pub fn normalise_labels(labels: &[String], num_channels: usize) -> (r: Vec<String>)
    ensures
        texts(r@) == tidy_labels(texts(labels@), num_channels as int),
{
    let mut out: Vec<String> = Vec::new();
    for ch in 0..num_channels
        invariant
            out@.len() == ch,
            forall|j: int|
                0 <= j < ch ==> (#[trigger] out@[j])@ == tidy_labels(
                    texts(labels@),
                    num_channels as int,
                )[j],
    {
        if ch < labels.len() {
            out.push(tidy(labels[ch].as_str(), ch));
        } else {
            out.push(local_channel_label(ch));
        }
    }
    assert(texts(out@) =~= tidy_labels(texts(labels@), num_channels as int));
    out
}

/// What follows a change of the labels: the state that is kept, and the packet that tells the other
/// end, if the link is up.
pub struct LabelsChange {
    pub persisted: PersistedUiState,
    pub announce: Option<Vec<u8>>,
}

/// Gives the local channels other labels.
pub fn local_labels_post_handler(
    state: &mut WebState,
    saved: PersistedUiState,
    req: &LocalLabelsRequest,
) -> (r: LabelsChange)
    ensures
        texts(final(state).local_labels@) == tidy_labels(
            texts(req.labels@),
            old(state).local_channels as int,
        ),
        *final(state) == (WebState { local_labels: final(state).local_labels, ..*old(state) }),
        r.persisted@.routes == saved@.routes,
        r.persisted@.config == (ConfigView {
            channel_labels: Some(texts(final(state).local_labels@)),
            ..saved@.config
        }),
        match r.announce {
            Some(pkt) => old(state).handshake_connected && pkt@ == metadata_bytes(
                old(state).device_name_token@,
                channel_list(
                    texts(final(state).local_labels@),
                    old(state).local_channels as int,
                ),
            ),
            None => !old(state).handshake_connected,
        },
{
    let labels = normalise_labels(req.labels.as_slice(), state.local_channels);
    let mut persisted = saved;
    persisted.config.channel_labels = Some(copy_texts(&labels));
    assert(persisted@.config =~= (ConfigView {
        channel_labels: Some(texts(labels@)),
        ..saved@.config
    }));
    let announce: Option<Vec<u8>> = if state.handshake_connected {
        Some(
            build_metadata_packet_with_labels(
                &state.device_name_token,
                state.local_channels,
                state.node_id.as_str(),
                labels.as_slice(),
            ),
        )
    } else {
        None
    };
    state.local_labels = labels;
    LabelsChange { persisted, announce }
}

// ---------------------------------------------------------------------------------------------
// Setup

/// The text of a field, or nothing where the field is blank.
pub open spec fn unless_blank(o: Option<String>) -> Option<Seq<char>> {
    match o {
        Some(s) => if trimmed(s@).len() > 0 {
            Some(s@)
        } else {
            None
        },
        None => None,
    }
}

/// The text of a field, or nothing where the field is empty.
pub open spec fn unless_empty(o: Option<String>) -> Option<Seq<char>> {
    match o {
        Some(s) => if s@.len() > 0 {
            Some(s@)
        } else {
            None
        },
        None => None,
    }
}

/// The address to bind to, or nothing where it is blank or means every address.
pub open spec fn unless_any_address(o: Option<String>) -> Option<Seq<char>> {
    if unless_blank(o) == Some("0.0.0.0"@) {
        None
    } else {
        unless_blank(o)
    }
}

/// The password of a request, without white space at its ends.
pub open spec fn setup_password(req: SetupApplyRequest) -> Seq<char> {
    match req.link_password {
        Some(p) => trimmed(p@),
        None => Seq::empty(),
    }
}

/// The token that a request means: the explicit one; else that of the link to the device it names;
/// else the one of a link without names.
pub open spec fn setup_token(req: SetupApplyRequest) -> Seq<u8> {
    if unless_blank(req.token) is Some {
        token_of_arg(trimmed(req.token->0@))
    } else if trimmed(req.remote_device_name@).len() == 0 {
        DEFAULT_SHARED_TOKEN@
    } else {
        link_token(
            trimmed(req.node_id@),
            trimmed(req.remote_device_name@),
            if setup_password(req).len() == 0 {
                None
            } else {
                Some(setup_password(req))
            },
        )
    }
}

/// The receive buffer that a request asks for, within what can be asked for.
pub open spec fn setup_latency(req: SetupApplyRequest) -> u32 {
    if req.receive_buffer_ms < MIN_LATENCY_MS {
        MIN_LATENCY_MS
    } else if req.receive_buffer_ms > MAX_LATENCY_MS {
        MAX_LATENCY_MS
    } else {
        req.receive_buffer_ms
    }
}

/// Whether the channels are to be played together.
pub open spec fn setup_phase_lock(req: SetupApplyRequest, runtime: RuntimeSummary) -> bool {
    match req.phase_lock {
        Some(on) => on,
        None => runtime.phase_lock,
    }
}

/// A flag with its value, if there is one.
pub open spec fn flag(name: Seq<char>, value: Option<Seq<char>>) -> Seq<Seq<char>> {
    match value {
        Some(v) => seq![name, v],
        None => Seq::empty(),
    }
}

/// A flag without a value, if it is on.
pub open spec fn switch(name: Seq<char>, on: bool) -> Seq<Seq<char>> {
    if on {
        seq![name]
    } else {
        Seq::empty()
    }
}

/// A text, or nothing where it is empty.
pub open spec fn non_empty(s: Seq<char>) -> Option<Seq<char>> {
    if s.len() > 0 {
        Some(s)
    } else {
        None
    }
}

/// The host that a request names, without the port of an endpoint.
pub open spec fn setup_host(req: SetupApplyRequest) -> Option<Seq<char>> {
    if trimmed(req.remote@).len() == 0 {
        None
    } else {
        Some(host_only(trimmed(req.remote@)))
    }
}

/// The arguments with which the endpoint starts anew.
pub open spec fn setup_args(
    req: SetupApplyRequest,
    runtime: RuntimeSummary,
    mode: EncoderMode,
) -> Seq<Seq<char>> {
    seq!["bidir"@] + flag("--remote-name"@, non_empty(trimmed(req.remote_device_name@))) + seq![
        "--channels"@,
        decimal(req.channels as nat),
        "--id"@,
        trimmed(req.node_id@),
        "--token"@,
        hex_text(setup_token(req)),
        "--bitrate"@,
        decimal(req.opus_bitrate_per_channel as nat),
        "--latency-ms"@,
        decimal(setup_latency(req) as nat),
    ] + flag("--remote-host"@, setup_host(req)) + flag(
        "--link-password"@,
        non_empty(setup_password(req)),
    ) + flag("--rendezvous"@, unless_blank(req.rendezvous_url)) + flag(
        "--interface"@,
        unless_any_address(req.bind_addr),
    ) + flag("--input-device"@, unless_empty(req.selected_input_device)) + flag(
        "--output-device"@,
        unless_empty(req.selected_output_device),
    ) + switch("--fixed-jitter"@, runtime.fixed_jitter) + switch(
        "--no-phase-lock"@,
        !setup_phase_lock(req, runtime),
    ) + seq!["--encoder-mode"@, mode.name()] + switch("--no-send"@, !runtime.send_enabled) + switch(
        "--no-recv"@,
        !runtime.recv_enabled,
    )
}

/// The configuration that is kept. It lists no remotes and no labels: those are kept on their own.
pub open spec fn setup_config(
    req: SetupApplyRequest,
    runtime: RuntimeSummary,
    mode: EncoderMode,
) -> ConfigView {
    ConfigView {
        remotes: Seq::empty(),
        node_id: Some(trimmed(req.node_id@)),
        token_hex: Some(hex_text(setup_token(req))),
        channels: Some(req.channels),
        opus_bitrate_per_channel: Some(req.opus_bitrate_per_channel),
        latency_ms: Some(setup_latency(req)),
        fixed_jitter: Some(runtime.fixed_jitter),
        phase_lock: Some(setup_phase_lock(req, runtime)),
        encoder_mode: Some(mode),
        channel_labels: None,
        rendezvous_url: unless_blank(req.rendezvous_url),
        bind_addr: unless_any_address(req.bind_addr),
        selected_input_device: unless_empty(req.selected_input_device),
        selected_output_device: unless_empty(req.selected_output_device),
    }
}

/// Whether the value behind a flag is a secret.
pub open spec fn is_secret_flag(arg: Seq<char>) -> bool {
    arg == "--token"@ || arg == "--link-password"@
}

/// Arguments as they are shown, where `conceal` says whether the first of them is a secret.
pub open spec fn masked(args: Seq<Seq<char>>, conceal: bool) -> Seq<Seq<char>>
    decreases args.len(),
{
    if args.len() == 0 {
        Seq::empty()
    } else if conceal {
        seq!["<token hidden>"@] + masked(args.skip(1), false)
    } else {
        seq![args[0]] + masked(args.skip(1), is_secret_flag(args[0]))
    }
}

/// What is done to start the endpoint anew.
pub struct SetupPlan {
    /// The arguments of the new process.
    pub args: Vec<String>,
    /// The arguments as they are shown.
    pub shown: Vec<String>,
    /// What is to be kept.
    pub config: PersistedRuntimeConfig,
}

fn push_text(out: &mut Vec<String>, text: &str)
    ensures
        texts(final(out)@) == texts(old(out)@).push(text@),
{
    out.push(text.to_string());
    assert(texts(out@) =~= texts(old(out)@).push(text@));
}

fn push_flag(out: &mut Vec<String>, name: &str, value: &Option<String>)
    ensures
        texts(final(out)@) == texts(old(out)@) + flag(name@, optional_text(*value)),
{
    if let Some(v) = value {
        push_text(out, name);
        push_text(out, v.as_str());
    }
    assert(texts(out@) =~= texts(old(out)@) + flag(name@, optional_text(*value)));
}

fn push_switch(out: &mut Vec<String>, name: &str, on: bool)
    ensures
        texts(final(out)@) == texts(old(out)@) + switch(name@, on),
{
    if on {
        push_text(out, name);
    }
    assert(texts(out@) =~= texts(old(out)@) + switch(name@, on));
}

fn filled(o: &Option<String>) -> (r: Option<String>)
    ensures
        optional_text(r) == unless_blank(*o),
{
    if let Some(s) = o {
        if !trim_text(s.as_str()).as_str().is_empty() {
            return Some(s.clone());
        }
    }
    None
}

fn given(o: &Option<String>) -> (r: Option<String>)
    ensures
        optional_text(r) == unless_empty(*o),
{
    if let Some(s) = o {
        if !s.as_str().is_empty() {
            return Some(s.clone());
        }
    }
    None
}

fn one_address(o: &Option<String>) -> (r: Option<String>)
    ensures
        optional_text(r) == unless_any_address(*o),
{
    match filled(o) {
        Some(s) => {
            if same_text(s.as_str(), "0.0.0.0") {
                None
            } else {
                Some(s)
            }
        },
        None => None,
    }
}

fn optional_word(s: &String) -> (r: Option<String>)
    ensures
        optional_text(r) == non_empty(s@),
{
    if s.as_str().is_empty() {
        None
    } else {
        Some(s.clone())
    }
}

/// The arguments as they are shown: what stands behind the token flag or the password flag is
/// hidden.
pub fn command_preview(args: &[String]) -> (r: Vec<String>)
    ensures
        texts(r@) == masked(texts(args@), false),
{
    let mut out: Vec<String> = Vec::new();
    let mut conceal: bool = false;
    let ghost all = texts(args@);
    assert(all.skip(0) =~= all);
    assert(texts(out@) =~= Seq::<Seq<char>>::empty());
    assert(Seq::<Seq<char>>::empty() + masked(all, false) =~= masked(all, false));
    for i in 0..args.len()
        invariant
            all == texts(args@),
            texts(out@) + masked(all.skip(i as int), conceal) == masked(all, false),
    {
        let ghost before = texts(out@);
        let ghost rest = all.skip(i as int);
        assert(rest[0] == args@[i as int]@);
        assert(rest.skip(1) =~= all.skip(i + 1));
        if conceal {
            push_text(&mut out, "<token hidden>");
            conceal = false;
            assert(before + (seq!["<token hidden>"@] + masked(rest.skip(1), false)) =~= before.push(
                "<token hidden>"@,
            ) + masked(rest.skip(1), false));
        } else {
            conceal = same_text(args[i].as_str(), "--token") || same_text(
                args[i].as_str(),
                "--link-password",
            );
            push_text(&mut out, args[i].as_str());
            assert(before + (seq![rest[0]] + masked(rest.skip(1), is_secret_flag(rest[0])))
                =~= before.push(rest[0]) + masked(rest.skip(1), is_secret_flag(rest[0])));
        }
    }
    assert(all.skip(all.len() as int) =~= Seq::<Seq<char>>::empty());
    assert(texts(out@) + Seq::<Seq<char>>::empty() =~= texts(out@));
    out
}

/// What stands behind a secret flag is not shown, provided that the flag is not itself behind one.
pub proof fn law_secrets_are_hidden(args: Seq<Seq<char>>, i: int)
    requires
        0 <= i < args.len() - 1,
        is_secret_flag(args[i]),
        i == 0 || !is_secret_flag(args[i - 1]),
    ensures
        masked(args, false).len() == args.len(),
        masked(args, false)[i + 1] == "<token hidden>"@,
{
    lemma_masked(args, false, i);
}

proof fn lemma_masked_len(args: Seq<Seq<char>>, conceal: bool)
    ensures
        masked(args, conceal).len() == args.len(),
    decreases args.len(),
{
    if args.len() > 0 {
        if conceal {
            lemma_masked_len(args.skip(1), false);
        } else {
            lemma_masked_len(args.skip(1), is_secret_flag(args[0]));
        }
    }
}

proof fn lemma_masked(args: Seq<Seq<char>>, conceal: bool, i: int)
    requires
        0 <= i < args.len() - 1,
        is_secret_flag(args[i]),
        i == 0 ==> !conceal,
        i > 0 ==> !is_secret_flag(args[i - 1]),
    ensures
        masked(args, conceal).len() == args.len(),
        masked(args, conceal)[i + 1] == "<token hidden>"@,
    decreases args.len(),
{
    lemma_masked_len(args, conceal);
    let rest = args.skip(1);
    if i == 0 {
        let tail = masked(rest, true);
        assert(tail[0] == "<token hidden>"@);
        assert(masked(args, conceal)[1] == tail[0]);
    } else {
        let conceal_next = if conceal {
            false
        } else {
            is_secret_flag(args[0])
        };
        assert(rest[i - 1] == args[i]);
        if i > 1 {
            assert(rest[i - 2] == args[i - 1]);
        }
        lemma_masked(rest, conceal_next, i - 1);
        assert(masked(args, conceal)[i + 1] == masked(rest, conceal_next)[i]);
    }
}

fn request_token(req: &SetupApplyRequest, node_id: &str, name: &str, password: &str) -> (r: Result<
    [u8; 16],
    WebError,
>)
    requires
        node_id@ == trimmed(req.node_id@),
        name@ == trimmed(req.remote_device_name@),
        password@ == setup_password(*req),
    ensures
        r is Ok,
        r->Ok_0@ == setup_token(*req),
{
    if let Some(explicit) = filled(&req.token) {
        let t = trim_text(explicit.as_str());
        return match parse_token_arg(t.as_str()) {
            Ok(token) => Ok(token),
            Err(_) => Err(WebError::InvalidToken),
        };
    }
    if name.is_empty() {
        return Ok(DEFAULT_SHARED_TOKEN);
    }
    let secret: Option<&str> = if password.is_empty() {
        None
    } else {
        Some(password)
    };
    Ok(derive_link_token(node_id, name, secret))
}

fn request_latency(req: &SetupApplyRequest) -> (r: u32)
    ensures
        r == setup_latency(*req),
{
    if req.receive_buffer_ms < MIN_LATENCY_MS {
        MIN_LATENCY_MS
    } else if req.receive_buffer_ms > MAX_LATENCY_MS {
        MAX_LATENCY_MS
    } else {
        req.receive_buffer_ms
    }
}

fn request_args(
    req: &SetupApplyRequest,
    runtime: &RuntimeSummary,
    mode: EncoderMode,
    token_hex: &str,
    password: &String,
) -> (r: Vec<String>)
    requires
        token_hex@ == hex_text(setup_token(*req)),
        password@ == setup_password(*req),
    ensures
        texts(r@) == setup_args(*req, *runtime, mode),
{
    let remote = trim_text(req.remote.as_str());
    let name = trim_text(req.remote_device_name.as_str());
    let node_id = trim_text(req.node_id.as_str());
    let host: Option<String> = if remote.as_str().is_empty() {
        None
    } else {
        Some(split_host_port(remote.as_str()))
    };
    let phase_lock: bool = match req.phase_lock {
        Some(on) => on,
        None => runtime.phase_lock,
    };
    let mut out: Vec<String> = Vec::new();
    push_text(&mut out, "bidir");
    assert(texts(out@) =~= seq!["bidir"@]);
    push_flag(&mut out, "--remote-name", &optional_word(&name));
    let ghost head = texts(out@);
    push_text(&mut out, "--channels");
    push_text(&mut out, decimal_text(req.channels as u64).as_str());
    push_text(&mut out, "--id");
    push_text(&mut out, node_id.as_str());
    push_text(&mut out, "--token");
    push_text(&mut out, token_hex);
    push_text(&mut out, "--bitrate");
    push_text(&mut out, decimal_text(req.opus_bitrate_per_channel as u64).as_str());
    push_text(&mut out, "--latency-ms");
    push_text(&mut out, decimal_text(request_latency(req) as u64).as_str());
    assert(texts(out@) =~= head + seq![
        "--channels"@,
        decimal(req.channels as nat),
        "--id"@,
        trimmed(req.node_id@),
        "--token"@,
        hex_text(setup_token(*req)),
        "--bitrate"@,
        decimal(req.opus_bitrate_per_channel as nat),
        "--latency-ms"@,
        decimal(setup_latency(*req) as nat),
    ]);
    push_flag(&mut out, "--remote-host", &host);
    push_flag(&mut out, "--link-password", &optional_word(password));
    push_flag(&mut out, "--rendezvous", &filled(&req.rendezvous_url));
    push_flag(&mut out, "--interface", &one_address(&req.bind_addr));
    push_flag(&mut out, "--input-device", &given(&req.selected_input_device));
    push_flag(&mut out, "--output-device", &given(&req.selected_output_device));
    push_switch(&mut out, "--fixed-jitter", runtime.fixed_jitter);
    push_switch(&mut out, "--no-phase-lock", !phase_lock);
    let ghost so_far = texts(out@);
    push_text(&mut out, "--encoder-mode");
    push_text(&mut out, mode.as_str());
    assert(texts(out@) =~= so_far + seq!["--encoder-mode"@, mode.name()]);
    push_switch(&mut out, "--no-send", !runtime.send_enabled);
    push_switch(&mut out, "--no-recv", !runtime.recv_enabled);
    out
}

/// What is done to start the endpoint anew with what is asked for, where `mode` is the encoder mode
/// that the request means and `busy` says whether that is already under way.
pub fn setup_apply(
    req: &SetupApplyRequest,
    runtime: &RuntimeSummary,
    mode: EncoderMode,
    busy: bool,
) -> (r: Result<SetupPlan, WebError>)
    ensures
        if trimmed(req.node_id@).len() == 0 {
            r is Err && r->Err_0 is NodeIdMissing
        } else if req.channels == 0 || req.channels > MAX_CHANNELS {
            r is Err && r->Err_0 is ChannelCount
        } else if req.opus_bitrate_per_channel < 8_000 || req.opus_bitrate_per_channel > 512_000 {
            r is Err && r->Err_0 is Bitrate
        } else if busy {
            r is Err && r->Err_0 is Rebuilding
        } else {
            r is Ok && ({
                let plan = r->Ok_0;
                &&& texts(plan.args@) == setup_args(*req, *runtime, mode)
                &&& texts(plan.shown@) == masked(setup_args(*req, *runtime, mode), false)
                &&& plan.config@ == setup_config(*req, *runtime, mode)
            })
        },
{
    let name = trim_text(req.remote_device_name.as_str());
    let node_id = trim_text(req.node_id.as_str());
    if node_id.as_str().is_empty() {
        return Err(WebError::NodeIdMissing);
    }
    if req.channels == 0 || req.channels > MAX_CHANNELS {
        return Err(WebError::ChannelCount);
    }
    let password: String = match &req.link_password {
        Some(p) => trim_text(p.as_str()),
        None => String::new(),
    };
    assert(password@ =~= setup_password(*req));
    let token = match request_token(req, node_id.as_str(), name.as_str(), password.as_str()) {
        Ok(token) => token,
        Err(e) => {
            return Err(e);
        },
    };
    let token_hex = token_to_hex(&token);
    if req.opus_bitrate_per_channel < 8_000 || req.opus_bitrate_per_channel > 512_000 {
        return Err(WebError::Bitrate);
    }
    if busy {
        return Err(WebError::Rebuilding);
    }
    let args = request_args(req, runtime, mode, token_hex.as_str(), &password);
    let shown = command_preview(args.as_slice());
    let config = PersistedRuntimeConfig {
        remotes: Vec::new(),
        node_id: Some(node_id),
        token_hex: Some(token_hex),
        channels: Some(req.channels),
        opus_bitrate_per_channel: Some(req.opus_bitrate_per_channel),
        latency_ms: Some(request_latency(req)),
        fixed_jitter: Some(runtime.fixed_jitter),
        phase_lock: Some(
            match req.phase_lock {
                Some(on) => on,
                None => runtime.phase_lock,
            },
        ),
        encoder_mode: Some(mode),
        channel_labels: None,
        rendezvous_url: filled(&req.rendezvous_url),
        bind_addr: one_address(&req.bind_addr),
        selected_input_device: given(&req.selected_input_device),
        selected_output_device: given(&req.selected_output_device),
    };
    assert(config@ =~= setup_config(*req, *runtime, mode));
    Ok(SetupPlan { args, shown, config })
}

/// The encoder mode that a request means: the one it names, or the one in use.
pub open spec fn setup_mode(req: SetupApplyRequest, runtime: RuntimeSummary) -> EncoderMode {
    let name = match req.encoder_mode {
        Some(s) => s@,
        None => runtime.encoder_mode@,
    };
    EncoderMode::of_word(lowered(trimmed(name)))
}

/// What is done to start the endpoint anew with what is asked for.
pub fn setup_apply_handler(state: &WebState, req: &SetupApplyRequest, busy: bool) -> (r: Result<
    SetupPlan,
    WebError,
>)
    ensures
        if trimmed(req.node_id@).len() == 0 {
            r is Err && r->Err_0 is NodeIdMissing
        } else if req.channels == 0 || req.channels > MAX_CHANNELS {
            r is Err && r->Err_0 is ChannelCount
        } else if req.opus_bitrate_per_channel < 8_000 || req.opus_bitrate_per_channel > 512_000 {
            r is Err && r->Err_0 is Bitrate
        } else if busy {
            r is Err && r->Err_0 is Rebuilding
        } else {
            r is Ok && ({
                let plan = r->Ok_0;
                let mode = setup_mode(*req, state.runtime);
                &&& texts(plan.args@) == setup_args(*req, state.runtime, mode)
                &&& texts(plan.shown@) == masked(setup_args(*req, state.runtime, mode), false)
                &&& plan.config@ == setup_config(*req, state.runtime, mode)
            })
        },
{
    let mode = match &req.encoder_mode {
        Some(s) => EncoderMode::parse(s.as_str()),
        None => EncoderMode::parse(state.runtime.encoder_mode.as_str()),
    };
    setup_apply(req, &state.runtime, mode, busy)
}

// ---------------------------------------------------------------------------------------------
// Web control without an engine

/// The inputs that can be patched.
pub open spec fn input_count(devices: DeviceResponse) -> int {
    if devices.default_input_channels < MAX_CHANNELS {
        devices.default_input_channels as int
    } else {
        MAX_CHANNELS as int
    }
}

/// What an endpoint starts with before it has heard of any other: the labels and the routes that
/// are kept, and a mask for each channel.
pub struct Patch {
    pub local_input_channels: usize,
    pub local_labels: Vec<String>,
    pub routes: Vec<Route>,
    pub output_route_masks: [u64; 2],
    pub tx_tone_source_for_send: Vec<usize>,
}

/// The routes that are kept and can be made.
pub open spec fn kept_routes(saved: PersistedUiState, inputs: int, sends: int) -> Seq<Route> {
    saved.routes@.filter(|route: Route| route_ok(route@, inputs, sends))
}

/// What an endpoint with `num_channels` channels starts with.
pub fn initial_patch(devices: &DeviceResponse, saved: &PersistedUiState, num_channels: usize) -> (r:
    Patch)
    ensures
        r.local_input_channels == input_count(*devices),
        texts(r.local_labels@) == Seq::new(
            num_channels as nat,
            |ch: int| kept_label(saved@.config.channel_labels, ch),
        ),
        r.routes@ == kept_routes(*saved, input_count(*devices), num_channels as int),
        r.output_route_masks@[0] == output_mask(route_views(r.routes@), num_channels as int, 0),
        r.output_route_masks@[1] == output_mask(route_views(r.routes@), num_channels as int, 1),
        r.tx_tone_source_for_send@ == Seq::new(
            MAX_CHANNELS as nat,
            |dst: int| send_mask(route_views(r.routes@), dst) as usize,
        ),
{
    let inputs: usize = if devices.default_input_channels < MAX_CHANNELS {
        devices.default_input_channels
    } else {
        MAX_CHANNELS
    };
    let labels = load_persisted_labels(saved, num_channels);
    let routes = load_persisted_routes(saved.routes.as_slice(), inputs, num_channels);
    let mut masks: [u64; 2] = [0, 0];
    apply_routes_to_masks(routes.as_slice(), &mut masks, num_channels);
    let mut sources: Vec<usize> = Vec::new();
    for i in 0..MAX_CHANNELS
        invariant
            sources@.len() == i,
    {
        sources.push(0);
    }
    apply_routes_to_tx_sources(routes.as_slice(), &mut sources);
    Patch {
        local_input_channels: inputs,
        local_labels: labels,
        routes,
        output_route_masks: masks,
        tx_tone_source_for_send: sources,
    }
}

/// The text of a field, or an empty one.
pub fn text_or_empty(o: &Option<String>) -> (r: String)
    ensures
        r@ == (match *o {
            Some(s) => s@,
            None => Seq::empty(),
        }),
{
    match o {
        Some(s) => s.clone(),
        None => {
            let r = String::new();
            assert(r@ =~= Seq::<char>::empty());
            r
        },
    }
}

/// What the web interface shows of an endpoint that is set up and has no engine.
pub open spec fn is_control_summary(
    s: RuntimeSummary,
    token: Seq<u8>,
    channels: int,
    bitrate: u32,
    jitter: JitterConfig,
    mode: EncoderMode,
    rendezvous_url: Option<String>,
) -> bool {
    &&& s.mode@ == "bidirectional-ready"@
    &&& s.remote_host@.len() == 0
    &&& s.remote_device_name@.len() == 0
    &&& s.source@ == "Matrix"@
    &&& s.codec@ == "Opus"@
    &&& s.opus_bitrate_per_channel == bitrate
    &&& s.frame_ms == 20
    &&& s.tx_channels == channels
    &&& !s.token_configured
    &&& s.token_hint@ == hex_text(token)
    &&& s.token_hex@ == hex_text(token)
    &&& s.send_enabled && s.recv_enabled
    &&& s.latency_ms == jitter.configured_delay_ms
    &&& s.effective_latency_ms == jitter.target_delay_ms
    &&& s.fixed_jitter == !jitter.adaptive
    &&& s.phase_lock == jitter.phase_lock
    &&& s.encoder_mode@ == mode.name()
    &&& !s.link_password_configured
    &&& s.rendezvous_url@ == (match rendezvous_url {
        Some(url) => url@,
        None => Seq::empty(),
    })
    &&& s.bind_addr@ == "0.0.0.0"@
    &&& s.selected_input_device is None
    &&& s.selected_output_device is None
    &&& s.web_note@
        == "Web control running. Configure a remote device and apply to start the audio engine."@
}

/// The state of the web interface of an endpoint that has no engine yet.
pub fn control_web_state(
    node_id: String,
    shared_token: [u8; 16],
    send_channels: usize,
    opus_bitrate_per_channel: u32,
    jitter: JitterConfig,
    encoder_mode: EncoderMode,
    rendezvous_url: Option<String>,
    devices: DeviceResponse,
    saved: &PersistedUiState,
) -> (r: WebState)
    ensures
        r.node_id == node_id,
        r.local_channels == active_channels(send_channels as int),
        r.local_input_channels == input_count(devices),
        r.send_enabled && r.recv_enabled,
        !r.handshake_connected,
        r.last_control_ms == 0 && r.last_audio_ms == 0,
        r.remote_channels == 0,
        r.remote_metadata is None,
        r.monitor_mode == 0,
        texts(r.local_labels@) == Seq::new(
            r.local_channels as nat,
            |ch: int| kept_label(saved@.config.channel_labels, ch),
        ),
        r.device_name_token@ == text_token(node_id@),
        routes_made(
            r,
            kept_routes(*saved, r.local_input_channels as int, r.local_channels as int),
        ),
        r.tx_tone_source_for_send@.len() == MAX_CHANNELS,
        r.presets@.len() == 0,
        r.output_underflows == 0 && r.seq_missing == 0,
        r.meters.is_at_rest(),
        r.devices == devices,
        r.established_peer_addr is None,
        !r.detoured,
        r.rtt_us10 == 0,
        r.actual_input_rate == 0 && r.actual_output_rate == 0,
        r.remote_conflict is None,
        is_control_summary(
            r.runtime,
            shared_token@,
            r.local_channels as int,
            opus_bitrate_per_channel,
            jitter,
            encoder_mode,
            rendezvous_url,
        ),
{
    let channels: usize = active_count(send_channels);
    let patch = initial_patch(&devices, saved, channels);
    let device_name_token = derive_token_from_text(node_id.as_str());
    let blank = String::new();
    assert(blank@ =~= Seq::<char>::empty());
    let runtime = RuntimeSummary {
        mode: "bidirectional-ready".to_string(),
        remote_host: blank.clone(),
        remote_device_name: blank,
        source: "Matrix".to_string(),
        codec: "Opus".to_string(),
        opus_bitrate_per_channel,
        frame_ms: 20,
        tx_channels: channels,
        token_configured: false,
        token_hint: token_to_hex(&shared_token),
        token_hex: token_to_hex(&shared_token),
        send_enabled: true,
        recv_enabled: true,
        latency_ms: jitter.configured_delay_ms,
        effective_latency_ms: jitter.target_delay_ms,
        fixed_jitter: !jitter.adaptive,
        phase_lock: jitter.phase_lock,
        encoder_mode: encoder_mode.as_str().to_string(),
        link_password_configured: false,
        rendezvous_url: text_or_empty(&rendezvous_url),
        bind_addr: "0.0.0.0".to_string(),
        selected_input_device: None,
        selected_output_device: None,
        web_note:
            "Web control running. Configure a remote device and apply to start the audio engine.".to_string(),
    };
    WebState {
        node_id,
        local_channels: channels,
        local_input_channels: patch.local_input_channels,
        send_enabled: true,
        recv_enabled: true,
        handshake_connected: false,
        last_control_ms: 0,
        last_audio_ms: 0,
        remote_channels: 0,
        remote_metadata: None,
        monitor_mode: MonitorMode::PatchMatrix.as_u8(),
        output_route_masks: patch.output_route_masks,
        tx_tone_source_for_send: patch.tx_tone_source_for_send,
        local_labels: patch.local_labels,
        device_name_token,
        routes: patch.routes,
        presets: Vec::new(),
        output_underflows: 0,
        seq_missing: 0,
        meters: MeterBank::new(),
        runtime,
        devices,
        established_peer_addr: None,
        detoured: false,
        rtt_us10: 0,
        actual_input_rate: 0,
        actual_output_rate: 0,
        remote_conflict: None,
    }
}

// ---------------------------------------------------------------------------------------------
// Laws

/// What is answered where a request fails: that something is in the way, that something is not there, or
/// that the request is wrong, each in words.
pub proof fn law_answers_to_failures(name: String)
    ensures
        WebError::Rebuilding.code() == 409,
        (WebError::PresetNotFound { name }).code() == 404,
        WebError::EmptyEndpoint.code() == 400,
        WebError::NodeIdMissing.code() == 400,
        WebError::ChannelCount.code() == 400,
        WebError::InvalidToken.code() == 400,
        WebError::Bitrate.code() == 400,
        WebError::EmptyEndpoint.words() == "routes require non-empty source and destination"@,
        WebError::NodeIdMissing.words() == "Device name is required"@,
        WebError::ChannelCount.words() == "Network send channels must be 1-"@ + decimal(64),
        WebError::InvalidToken.words() == "Invalid explicit token"@,
        WebError::Bitrate.words() == "Opus bitrate must be 8000-512000 bits/sec per channel"@,
        WebError::Rebuilding.words() == "Engine rebuild is already in progress"@,
        (WebError::PresetNotFound { name }).words() == "preset '"@ + name@ + "' not found"@,
{
}

/// How long ago something was, and nothing of what never was.
pub proof fn law_ages(now_ms: u64, then: u64)
    ensures
        0 < then <= now_ms ==> age_or_zero(now_ms, then) + then == now_ms,
        then == 0 || then > now_ms ==> age_or_zero(now_ms, then) == 0,
{
}

/// Routes that are made are played: with a route from a channel of a remote to an output, the output
/// plays the ring of that channel, where each remote has as many rings as there are local channels; and
/// it plays no ring without a route.
pub proof fn law_routes_that_are_made_are_played(
    state: WebState,
    routes: Seq<Route>,
    i: int,
    idx: nat,
    ch: nat,
    side: int,
    b: int,
)
    requires
        routes_made(state, routes),
        0 <= side < 2,
        0 <= b < 64,
    ensures
        state.routes@ == routes,
        0 <= i < routes.len() && idx <= usize::MAX && ch < 64 && idx * state.local_channels + ch < 64
            && routes[i]@ == route(
            "peer:"@ + decimal(idx) + ":ch:"@ + decimal(ch),
            "output:"@ + decimal(side as nat),
        ) ==> has_bit(state.output_route_masks@[side], idx * state.local_channels + ch),
        has_bit(state.output_route_masks@[side], b) ==> exists|k: int|
            0 <= k < routes.len() && (peer_endpoint((#[trigger] routes[k])@.source) matches Some((idx, ch))
                && b == idx * state.local_channels + ch) && endpoint_channel(
                routes[k]@.destination,
                "output:"@,
            ) == Some(side as nat),
{
    let views = route_views(routes);
    let n = state.local_channels as int;
    if 0 <= i < routes.len() && idx <= usize::MAX && ch < 64 && idx * n + ch < 64 && routes[i]@ == route(
        "peer:"@ + decimal(idx) + ":ch:"@ + decimal(ch),
        "output:"@ + decimal(side as nat),
    ) {
        assert(views[i] == routes[i]@);
        law_route_sets_its_ring(views, i, idx, ch, side, n);
    }
    if has_bit(state.output_route_masks@[side], b) {
        law_ring_has_its_route(views, b, side, n);
        let k = choose|k: int|
            0 <= k < views.len() && (peer_endpoint((#[trigger] views[k]).source) matches Some((idx, ch))
                && b == idx * n + ch && ch < 64) && endpoint_channel(views[k].destination, "output:"@)
                == Some(side as nat);
        assert(routes[k]@ == views[k]);
    }
}

/// To make routes changes nothing but the routes.
pub proof fn law_making_routes_changes_nothing_else(a: WebState, b: WebState)
    requires
        same_but_routes(a, b),
    ensures
        a.node_id == b.node_id,
        a.local_channels == b.local_channels,
        a.local_input_channels == b.local_input_channels,
        a.send_enabled == b.send_enabled && a.recv_enabled == b.recv_enabled,
        a.handshake_connected == b.handshake_connected,
        a.last_control_ms == b.last_control_ms && a.last_audio_ms == b.last_audio_ms,
        a.remote_channels == b.remote_channels && a.remote_metadata == b.remote_metadata,
        a.monitor_mode == b.monitor_mode,
        a.local_labels == b.local_labels,
        a.device_name_token == b.device_name_token,
        a.presets == b.presets,
        a.output_underflows == b.output_underflows && a.seq_missing == b.seq_missing,
        a.meters == b.meters,
        a.runtime == b.runtime,
        a.devices == b.devices,
        a.established_peer_addr == b.established_peer_addr,
        a.detoured == b.detoured && a.rtt_us10 == b.rtt_us10,
        a.actual_input_rate == b.actual_input_rate && a.actual_output_rate == b.actual_output_rate,
        a.remote_conflict == b.remote_conflict,
        a.tx_tone_source_for_send@.len() == b.tx_tone_source_for_send@.len(),
{
}

/// A route needs both its ends.
pub proof fn law_routes_need_both_ends(route: Route)
    ensures
        lacks_end(route) <==> route@.source =~= Seq::empty() || route@.destination =~= Seq::empty(),
{
}

/// A preset is the first with its name.
pub proof fn law_preset_is_looked_up(presets: Seq<Preset>, name: Seq<char>, i: int)
    requires
        0 <= i <= presets.len(),
        forall|j: int| 0 <= j < i ==> (#[trigger] presets[j]).name@ != name,
    ensures
        i == presets.len() ==> preset_named(presets, name) is None,
        i < presets.len() && presets[i].name@ == name ==> preset_named(presets, name) == Some(
            presets[i].routes@,
        ),
    decreases i,
{
    if i > 0 {
        let rest = presets.skip(1);
        assert forall|j: int| 0 <= j < i - 1 implies (#[trigger] rest[j]).name@ != name by {
            assert(rest[j] == presets[j + 1]);
        }
        assert(presets[0].name@ != name);
        if i < presets.len() {
            assert(rest[i - 1] == presets[i]);
        }
        law_preset_is_looked_up(rest, name, i - 1);
    }
}

/// To save a preset is to keep the routes that there are under its name, in place of what was kept under
/// it, and to keep what was kept under every other.
pub proof fn law_saved_preset(before: WebState, saved_name: Seq<char>, after: WebState, other: Seq<char>)
    requires
        preset_saved(before, saved_name, after),
        other != saved_name,
    ensures
        preset_named(after.presets@, saved_name) == Some(before.routes@),
        preset_named(after.presets@, other) == preset_named(before.presets@, other),
        after.routes == before.routes,
        after.output_route_masks == before.output_route_masks,
        after.tx_tone_source_for_send == before.tx_tone_source_for_send,
        after.local_labels == before.local_labels,
        after.runtime == before.runtime,
{
}

/// A label is kept without the white space at its ends and up to 48 characters of it. A channel whose
/// label is white space, or that has none, is named by its number.
pub proof fn law_tidy_labels(labels: Seq<Seq<char>>, n: int, ch: int)
    requires
        0 <= ch < n,
    ensures
        tidy_labels(labels, n).len() == n,
        ch < labels.len() && (forall|k: int|
            0 <= k < labels[ch].len() ==> is_white_space(#[trigger] labels[ch][k])) ==> tidy_labels(
            labels,
            n,
        )[ch] == "Ch "@ + decimal((ch + 1) as nat),
        ch >= labels.len() ==> tidy_labels(labels, n)[ch] == "Ch "@ + decimal((ch + 1) as nat),
        ch < labels.len() && 1 <= trimmed(labels[ch]).len() <= 48 ==> tidy_labels(labels, n)[ch]
            == trimmed(labels[ch]),
        ch < labels.len() && trimmed(labels[ch]).len() > 48 ==> tidy_labels(labels, n)[ch]
            == trimmed(labels[ch]).take(48),
{
    if ch < labels.len() {
        law_trimmed(labels[ch]);
    }
}

/// What may be left out of a setup: a service and an address that are no more than white space, a device
/// without a name, and the address that stands for any.
pub proof fn law_what_is_left_out(s: String)
    ensures
        ({
            let blank = forall|k: int| 0 <= k < s@.len() ==> is_white_space(#[trigger] s@[k]);
            &&& unless_blank(None) is None && unless_empty(None) is None && unless_any_address(None) is None
            &&& blank ==> unless_blank(Some(s)) is None && unless_any_address(Some(s)) is None
            &&& !blank ==> unless_blank(Some(s)) == Some(s@)
            &&& s@ == "0.0.0.0"@ ==> unless_any_address(Some(s)) is None
            &&& !blank && s@ != "0.0.0.0"@ ==> unless_any_address(Some(s)) == Some(s@)
            &&& s@.len() == 0 ==> unless_empty(Some(s)) is None
            &&& s@.len() > 0 ==> unless_empty(Some(s)) == Some(s@)
        }),
{
    law_trimmed(s@);
}

/// The delay that is asked for is brought within five milliseconds and ten seconds.
pub proof fn law_delay_of_a_setup(req: SetupApplyRequest)
    ensures
        5 <= req.receive_buffer_ms <= 10_000 ==> setup_latency(req) == req.receive_buffer_ms,
        req.receive_buffer_ms < 5 ==> setup_latency(req) == 5,
        req.receive_buffer_ms > 10_000 ==> setup_latency(req) == 10_000,
{
}

/// The token of a setup: the one that is given, where it is more than white space; else the one that
/// the names of the two devices and the password come to, where the other device is named and the
/// password counts if it is more than white space.
pub proof fn law_token_of_a_setup(req: SetupApplyRequest)
    ensures
        ({
            let name = req.remote_device_name@;
            let named = exists|k: int| 0 <= k < name.len() && !is_white_space(#[trigger] name[k]);
            let given = req.token is Some && exists|k: int|
                0 <= k < req.token->0@.len() && !is_white_space(#[trigger] req.token->0@[k]);
            let guarded = req.link_password is Some && exists|k: int|
                0 <= k < req.link_password->0@.len() && !is_white_space(
                    #[trigger] req.link_password->0@[k],
                );
            &&& given ==> setup_token(req) == token_of_arg(trimmed(req.token->0@))
            &&& !given && !named ==> setup_token(req) == DEFAULT_SHARED_TOKEN@
            &&& !given && named && guarded ==> setup_token(req) == link_token(
                trimmed(req.node_id@),
                trimmed(name),
                Some(trimmed(req.link_password->0@)),
            )
            &&& !given && named && !guarded ==> setup_token(req) == link_token(
                trimmed(req.node_id@),
                trimmed(name),
                None,
            )
        }),
{
    law_trimmed(req.remote_device_name@);
    if req.token is Some {
        law_trimmed(req.token->0@);
    }
    if req.link_password is Some {
        law_trimmed(req.link_password->0@);
    }
}

/// The rest of a setup: the host without the port that was put behind it, the password without the white
/// space at its ends, and what is kept of the running engine where nothing is said.
pub proof fn law_rest_of_a_setup(req: SetupApplyRequest, runtime: RuntimeSummary)
    ensures
        (forall|k: int| 0 <= k < req.remote@.len() ==> is_white_space(#[trigger] req.remote@[k]))
            ==> setup_host(req) is None,
        (exists|k: int| 0 <= k < req.remote@.len() && !is_white_space(#[trigger] req.remote@[k]))
            ==> setup_host(req) == Some(host_only(trimmed(req.remote@))),
        req.link_password is None ==> setup_password(req).len() == 0,
        req.link_password matches Some(p) ==> setup_password(req) == trimmed(p@),
        req.phase_lock matches Some(on) ==> setup_phase_lock(req, runtime) == on,
        req.phase_lock is None ==> setup_phase_lock(req, runtime) == runtime.phase_lock,
        req.encoder_mode matches Some(word) ==> setup_mode(req, runtime) == EncoderMode::of_word(
            lowered(trimmed(word@)),
        ),
        req.encoder_mode is None ==> setup_mode(req, runtime) == EncoderMode::of_word(
            lowered(trimmed(runtime.encoder_mode@)),
        ),
{
    law_trimmed(req.remote@);
}

/// What is kept of a setup, field by field.
pub proof fn law_what_is_kept_of_a_setup(
    req: SetupApplyRequest,
    runtime: RuntimeSummary,
    mode: EncoderMode,
)
    ensures
        ({
            let c = setup_config(req, runtime, mode);
            &&& c.remotes.len() == 0 && c.channel_labels is None
            &&& c.node_id == Some(trimmed(req.node_id@))
            &&& c.token_hex == Some(hex_text(setup_token(req)))
            &&& c.channels == Some(req.channels)
            &&& c.opus_bitrate_per_channel == Some(req.opus_bitrate_per_channel)
            &&& c.latency_ms == Some(setup_latency(req))
            &&& c.fixed_jitter == Some(runtime.fixed_jitter)
            &&& c.phase_lock == Some(setup_phase_lock(req, runtime))
            &&& c.encoder_mode == Some(mode)
            &&& c.rendezvous_url == unless_blank(req.rendezvous_url)
            &&& c.bind_addr == unless_any_address(req.bind_addr)
            &&& c.selected_input_device == unless_empty(req.selected_input_device)
            &&& c.selected_output_device == unless_empty(req.selected_output_device)
        }),
{
}

proof fn lemma_masked_each(args: Seq<Seq<char>>, conceal: bool, i: int)
    requires
        0 <= i < args.len(),
    ensures
        masked(args, conceal).len() == args.len(),
        i == 0 && conceal ==> masked(args, conceal)[0] == "<token hidden>"@,
        i == 0 && !conceal ==> masked(args, conceal)[0] == args[0],
        i > 0 && args[i - 1] != "--token"@ && args[i - 1] != "--link-password"@ ==> masked(
            args,
            conceal,
        )[i] == args[i],
        masked(args, conceal)[i] == args[i] || masked(args, conceal)[i] == "<token hidden>"@,
    decreases args.len(),
{
    lemma_masked_len(args, conceal);
    if i > 0 {
        let rest = args.skip(1);
        let next = !conceal && is_secret_flag(args[0]);
        assert(rest[i - 1] == args[i]);
        if i > 1 {
            assert(rest[i - 2] == args[i - 1]);
        }
        lemma_masked_each(rest, next, i - 1);
        assert(masked(args, conceal)[i] == masked(rest, next)[i - 1]);
    }
}

/// What is shown of a command: every argument in its place, but for those behind the flags of the token
/// and the password. Where neither flag stands behind one of the two, what is behind each is hidden.
pub proof fn law_what_is_shown_of_a_command(args: Seq<Seq<char>>, i: int)
    requires
        0 <= i < args.len(),
    ensures
        masked(args, false).len() == args.len(),
        i == 0 || (args[i - 1] != "--token"@ && args[i - 1] != "--link-password"@) ==> masked(
            args,
            false,
        )[i] == args[i],
        i > 0 && (args[i - 1] == "--token"@ || args[i - 1] == "--link-password"@) && (i == 1 || (
        args[i - 2] != "--token"@ && args[i - 2] != "--link-password"@)) ==> masked(args, false)[i]
            == "<token hidden>"@,
{
    lemma_masked_each(args, false, i);
    if i > 0 && (args[i - 1] == "--token"@ || args[i - 1] == "--link-password"@) && (i == 1 || (args[i
        - 2] != "--token"@ && args[i - 2] != "--link-password"@)) {
        law_secrets_are_hidden(args, i - 1);
    }
}

/// As many inputs count as the device has, up to 64.
pub proof fn law_inputs_that_count(devices: DeviceResponse)
    ensures
        devices.default_input_channels <= 64 ==> input_count(devices) == devices.default_input_channels,
        devices.default_input_channels > 64 ==> input_count(devices) == 64,
{
}

/// Of the routes that were kept those are made again that can be made.
pub proof fn law_routes_that_are_kept(saved: PersistedUiState, inputs: int, sends: int, i: int)
    ensures
        0 <= i < saved.routes@.len() && route_ok(saved.routes@[i]@, inputs, sends) ==> kept_routes(
            saved,
            inputs,
            sends,
        ).contains(saved.routes@[i]),
        0 <= i < kept_routes(saved, inputs, sends).len() ==> route_ok(
            kept_routes(saved, inputs, sends)[i]@,
            inputs,
            sends,
        ) && saved.routes@.contains(kept_routes(saved, inputs, sends)[i]),
{
    let can = |route: Route| route_ok(route@, inputs, sends);
    if 0 <= i < saved.routes@.len() && route_ok(saved.routes@[i]@, inputs, sends) {
        saved.routes@.lemma_filter_contains(can, i);
    }
    if 0 <= i < kept_routes(saved, inputs, sends).len() {
        saved.routes@.lemma_filter_pred(can, i);
        assert(saved.routes@.filter(can).contains(saved.routes@.filter(can)[i]));
        saved.routes@.lemma_filter_contains_rev(can, saved.routes@.filter(can)[i]);
    }
}

/// What is shown before a remote is chosen: nothing of a remote, the token that there is but not as one
/// that was chosen, and the delay as it was asked for and as it takes effect.
pub proof fn law_summary_before_a_remote(
    s: RuntimeSummary,
    token: Seq<u8>,
    channels: int,
    bitrate: u32,
    jitter: JitterConfig,
    mode: EncoderMode,
    rendezvous_url: Option<String>,
)
    requires
        is_control_summary(s, token, channels, bitrate, jitter, mode, rendezvous_url),
    ensures
        s.mode@ == "bidirectional-ready"@,
        s.remote_host@.len() == 0 && s.remote_device_name@.len() == 0,
        !s.token_configured && !s.link_password_configured,
        s.token_hex@ == hex_text(token) && s.token_hint@ == hex_text(token),
        s.frame_ms == 20 && s.tx_channels == channels && s.opus_bitrate_per_channel == bitrate,
        s.send_enabled && s.recv_enabled,
        s.latency_ms == jitter.configured_delay_ms,
        s.effective_latency_ms == jitter.target_delay_ms,
        s.fixed_jitter <==> !jitter.adaptive,
        s.phase_lock <==> jitter.phase_lock,
        s.encoder_mode@ == mode.name(),
        s.bind_addr@ == "0.0.0.0"@,
        s.selected_input_device is None && s.selected_output_device is None,
{
}

/// Routes that are made are sent: each channel mixes what is routed to it, and without routes nothing is
/// mixed and nothing played.
pub proof fn law_routes_that_are_made_are_sent(state: WebState, routes: Seq<Route>, dst: int)
    requires
        routes_made(state, routes),
        0 <= dst < state.tx_tone_source_for_send@.len(),
    ensures
        state.tx_tone_source_for_send@[dst] == send_mask(route_views(routes), dst) as usize,
        routes.len() == 0 ==> state.tx_tone_source_for_send@[dst] == 0
            && state.output_route_masks@[0] == 0 && state.output_route_masks@[1] == 0,
{
    if routes.len() == 0 {
        assert(route_views(routes) =~= Seq::empty());
        law_nothing_without_routes(state.local_channels as int, 0, dst);
        law_nothing_without_routes(state.local_channels as int, 1, dst);
    }
}

} // verus!
