//! What the engine starts: a session for each remote, the buffers, and what is shown of it all.

use crate::constants::{
    law_usual_token, DEFAULT_SHARED_TOKEN, MAX_CHANNELS, PB_RING_SIZE, PORT, PRIME_SAMPLES,
    SAMPLE_RATE,
};
use crate::persistence::{
    copy_numbers, kept_label, remote_views, PersistedUiState, RemoteConnection, RemoteView,
};
use crate::routing::{
    endpoint_channel, has_bit, law_remote_endpoint_roundtrip, law_ring_has_its_route,
    law_route_sets_its_ring, output_mask, peer_endpoint, remote_endpoint_name, route,
};
use crate::state::{
    DeviceResponse, EncoderMode, JitterConfig, MeterBank, MonitorMode, RouteView, RuntimeSummary,
    WebState,
};
use crate::text::{
    decimal, decimal_text, is_white_space, law_trimmed, optional_text, texts, trim_text, trimmed,
};
use crate::token::{derive_link_token, hex_text, link_token, token_to_hex};
use crate::web::{initial_patch, input_count, kept_routes, routes_made, text_or_empty};
use vstd::prelude::*;

verus! {

// ---------------------------------------------------------------------------------------------
// Sessions

/// A session that the engine starts.
#[derive(Debug)]
pub struct SessionPlan {
    pub remote_index: usize,
    pub remote_host: String,
    pub remote_device_name: String,
    pub is_initiator: bool,
    pub shared_token: [u8; 16],
    /// The local channels that this remote gets.
    pub channels_to_send: Vec<usize>,
    /// The first of the rings that the channels of this remote fill.
    pub rx_channel_offset: usize,
}

/// A session that the engine starts.
#[verifier::ext_equal]
pub struct SessionPlanView {
    pub remote_index: int,
    pub remote_host: Seq<char>,
    pub remote_device_name: Seq<char>,
    pub is_initiator: bool,
    pub token: Seq<u8>,
    pub channels_to_send: Seq<usize>,
    pub rx_channel_offset: int,
}

impl View for SessionPlan {
    type V = SessionPlanView;

    open spec fn view(&self) -> SessionPlanView {
        SessionPlanView {
            remote_index: self.remote_index as int,
            remote_host: self.remote_host@,
            remote_device_name: self.remote_device_name@,
            is_initiator: self.is_initiator,
            token: self.shared_token@,
            channels_to_send: self.channels_to_send@,
            rx_channel_offset: self.rx_channel_offset as int,
        }
    }
}

/// The sessions of a list.
pub open spec fn plan_views(v: Seq<SessionPlan>) -> Seq<SessionPlanView> {
    Seq::new(v.len(), |i: int| v[i]@)
}

/// Whether a remote counts: it is enabled and has a name.
pub open spec fn is_active(r: RemoteView) -> bool {
    r.enabled && r.name.len() > 0
}

/// The first remote that counts.
pub open spec fn first_active(remotes: Seq<RemoteView>) -> Option<RemoteView>
    decreases remotes.len(),
{
    if remotes.len() == 0 {
        None
    } else if is_active(remotes[0]) {
        Some(remotes[0])
    } else {
        first_active(remotes.skip(1))
    }
}

/// The remotes that count, by their number.
pub open spec fn active_len(remotes: Seq<RemoteView>) -> nat
    decreases remotes.len(),
{
    if remotes.len() == 0 {
        0
    } else if is_active(remotes.last()) {
        active_len(remotes.drop_last()) + 1
    } else {
        active_len(remotes.drop_last())
    }
}

/// The first remote that is enabled.
pub open spec fn first_enabled(remotes: Seq<RemoteView>) -> Option<RemoteView>
    decreases remotes.len(),
{
    if remotes.len() == 0 {
        None
    } else if remotes[0].enabled {
        Some(remotes[0])
    } else {
        first_enabled(remotes.skip(1))
    }
}

/// The host of a remote without a name, which is called where no remote has one.
pub open spec fn unnamed_host(remotes: Seq<RemoteView>) -> Seq<char> {
    if first_active(remotes) is None {
        match first_enabled(remotes) {
            Some(r) => r.ip_override,
            None => Seq::empty(),
        }
    } else {
        Seq::empty()
    }
}

/// The bytes of a token, if there is one.
pub open spec fn token_bytes(token: Option<[u8; 16]>) -> Option<Seq<u8>> {
    match token {
        Some(t) => Some(t@),
        None => None,
    }
}

/// The token of a link: the explicit one, else the one that its names and its password come to, else
/// that of a link without names.
pub open spec fn token_for(
    name: Seq<char>,
    password: Option<Seq<char>>,
    node_id: Seq<char>,
    explicit: Option<Seq<u8>>,
) -> Seq<u8> {
    match explicit {
        Some(t) => t,
        None => if name.len() > 0 {
            link_token(node_id, name, password)
        } else {
            DEFAULT_SHARED_TOKEN@
        },
    }
}

/// Every channel, in order.
pub open spec fn all_channels(n: int) -> Seq<usize> {
    Seq::new(n as nat, |i: int| i as usize)
}

/// The session of a remote that counts. Its rings stand behind those of the remotes with a lower
/// index; a remote whose rings would lie beyond the last gets none.
pub open spec fn session_for(
    r: RemoteView,
    node_id: Seq<char>,
    explicit: Option<Seq<u8>>,
    n: int,
) -> Option<SessionPlanView> {
    if is_active(r) && r.index * n + n <= MAX_CHANNELS {
        Some(
            SessionPlanView {
                remote_index: r.index,
                remote_host: r.ip_override,
                remote_device_name: r.name,
                is_initiator: trimmed(r.ip_override).len() > 0,
                token: token_for(r.name, r.password, node_id, explicit),
                channels_to_send: if r.channels_to_send.len() == 0 {
                    all_channels(n)
                } else {
                    r.channels_to_send
                },
                rx_channel_offset: r.index * n,
            },
        )
    } else {
        None
    }
}

/// The sessions of the remotes that have one, in their order.
pub open spec fn sessions_for(
    remotes: Seq<RemoteView>,
    node_id: Seq<char>,
    explicit: Option<Seq<u8>>,
    n: int,
) -> Seq<SessionPlanView>
    decreases remotes.len(),
{
    if remotes.len() == 0 {
        Seq::empty()
    } else {
        let before = sessions_for(remotes.drop_last(), node_id, explicit, n);
        match session_for(remotes.last(), node_id, explicit, n) {
            Some(plan) => before.push(plan),
            None => before,
        }
    }
}

/// The session of an endpoint whose remotes have no name: it calls the host, if there is one, and
/// else waits for anybody who uses no names.
pub open spec fn unnamed_session(host: Seq<char>, explicit: Option<Seq<u8>>, n: int) -> SessionPlanView {
    SessionPlanView {
        remote_index: 0,
        remote_host: host,
        remote_device_name: Seq::empty(),
        is_initiator: trimmed(host).len() > 0,
        token: match explicit {
            Some(t) => t,
            None => DEFAULT_SHARED_TOKEN@,
        },
        channels_to_send: all_channels(n),
        rx_channel_offset: 0,
    }
}

/// The sessions that the engine starts.
pub open spec fn engine_sessions(
    remotes: Seq<RemoteView>,
    node_id: Seq<char>,
    explicit: Option<Seq<u8>>,
    n: int,
) -> Seq<SessionPlanView> {
    let sessions = sessions_for(remotes, node_id, explicit, n);
    if sessions.len() == 0 {
        seq![unnamed_session(unnamed_host(remotes), explicit, n)]
    } else {
        sessions
    }
}

/// The rings that are played: those of every remote that counts, and no more than there are.
pub open spec fn rings_played(remotes: Seq<RemoteView>, n: int) -> int {
    let remotes_played = if active_len(remotes) == 0 {
        1
    } else {
        active_len(remotes) as int
    };
    if remotes_played * n < MAX_CHANNELS {
        remotes_played * n
    } else {
        MAX_CHANNELS as int
    }
}

/// The samples that playback waits for before it starts.
pub open spec fn prime_target(target_ms: u32) -> int {
    let samples = target_ms * SAMPLE_RATE / 1000;
    if samples < PRIME_SAMPLES {
        PRIME_SAMPLES as int
    } else {
        samples
    }
}

/// The samples that a playback ring holds: twice what playback waits for, and at least a second.
pub open spec fn ring_target(target_ms: u32) -> int {
    if prime_target(target_ms) * 2 < PB_RING_SIZE {
        PB_RING_SIZE as int
    } else {
        prime_target(target_ms) * 2
    }
}

/// What the engine starts.
#[derive(Debug)]
pub struct EnginePlan {
    pub sessions: Vec<SessionPlan>,
    pub prime_samples: u64,
    pub ring_samples: u64,
    pub total_rx_slots: usize,
}

/// Why the engine does not start.
#[derive(Clone, Copy, Debug, PartialEq, Eq, Structural)]
pub enum EngineError {
    ChannelCount,
}

impl EngineError {
    /// What is said of it.
    pub fn message(&self) -> (r: String)
        ensures
            r@ == "Channel count must be 1\u{2013}"@ + decimal(MAX_CHANNELS as nat),
    {
        let mut out = "Channel count must be 1\u{2013}".to_string();
        out.append(decimal_text(MAX_CHANNELS as u64).as_str());
        out
    }
}

fn every_channel(n: usize) -> (r: Vec<usize>)
    ensures
        r@ == all_channels(n as int),
{
    let mut out: Vec<usize> = Vec::new();
    for i in 0..n
        invariant
            out@.len() == i,
            forall|j: int| 0 <= j < i ==> out@[j] == j,
    {
        out.push(i);
    }
    assert(out@ =~= all_channels(n as int));
    out
}

fn plan_session(
    remote: &RemoteConnection,
    node_id: &str,
    explicit: Option<[u8; 16]>,
    n: usize,
) -> (r: Option<SessionPlan>)
    requires
        1 <= n <= MAX_CHANNELS,
    ensures
        match r {
            Some(plan) => session_for(remote@, node_id@, token_bytes(explicit), n as int) == Some(plan@),
            None => session_for(remote@, node_id@, token_bytes(explicit), n as int) is None,
        },
{
    if !remote.enabled || remote.name.as_str().is_empty() {
        return None;
    }
    if remote.index >= MAX_CHANNELS {
        assert(remote.index * n >= MAX_CHANNELS) by (nonlinear_arith)
            requires
                remote.index >= MAX_CHANNELS,
                n >= 1,
        ;
        return None;
    }
    assert(0 <= remote.index * n <= 64 * 64) by (nonlinear_arith)
        requires
            0 <= remote.index < 64,
            1 <= n <= 64,
    ;
    let rx_channel_offset: usize = remote.index * n;
    if rx_channel_offset + n > MAX_CHANNELS {
        return None;
    }
    let password: Option<&str> = match &remote.password {
        Some(p) => Some(p.as_str()),
        None => None,
    };
    let host = trim_text(remote.ip_override.as_str());
    let plan = SessionPlan {
        remote_index: remote.index,
        remote_host: remote.ip_override.clone(),
        remote_device_name: remote.name.clone(),
        is_initiator: !host.as_str().is_empty(),
        shared_token: match explicit {
            Some(t) => t,
            None => derive_link_token(node_id, remote.name.as_str(), password),
        },
        channels_to_send: if remote.channels_to_send.len() == 0 {
            every_channel(n)
        } else {
            copy_numbers(&remote.channels_to_send)
        },
        rx_channel_offset,
    };
    assert(plan@ =~= session_for(remote@, node_id@, token_bytes(explicit), n as int)->0);
    Some(plan)
}

fn count_active(remotes: &[RemoteConnection]) -> (r: usize)
    ensures
        r == active_len(remote_views(remotes@)),
{
    let ghost views = remote_views(remotes@);
    let mut count: usize = 0;
    for i in 0..remotes.len()
        invariant
            views == remote_views(remotes@),
            count == active_len(views.take(i as int)),
            count <= i,
    {
        assert(views.take(i + 1).drop_last() =~= views.take(i as int));
        assert(views[i as int] == remotes@[i as int]@);
        if remotes[i].enabled && !remotes[i].name.as_str().is_empty() {
            count = count + 1;
        }
    }
    assert(views.take(views.len() as int) =~= views);
    count
}

fn host_without_name(remotes: &[RemoteConnection]) -> (r: String)
    ensures
        r@ == unnamed_host(remote_views(remotes@)),
{
    let ghost views = remote_views(remotes@);
    let blank = String::new();
    assert(blank@ =~= Seq::<char>::empty());
    if find_active(remotes).is_some() {
        return blank;
    }
    assert(views.skip(0) =~= views);
    for i in 0..remotes.len()
        invariant
            views == remote_views(remotes@),
            first_active(views) is None,
            first_enabled(views) == first_enabled(views.skip(i as int)),
    {
        assert(views.skip(i as int)[0] == remotes@[i as int]@);
        assert(views.skip(i as int).skip(1) =~= views.skip(i + 1));
        if remotes[i].enabled {
            return remotes[i].ip_override.clone();
        }
    }
    blank
}

fn plan_sessions(
    remotes: &[RemoteConnection],
    node_id: &str,
    explicit: Option<[u8; 16]>,
    n: usize,
) -> (r: Vec<SessionPlan>)
    requires
        1 <= n <= MAX_CHANNELS,
    ensures
        plan_views(r@) == engine_sessions(
            remote_views(remotes@),
            node_id@,
            token_bytes(explicit),
            n as int,
        ),
{
    let ghost views = remote_views(remotes@);
    let mut out: Vec<SessionPlan> = Vec::new();
    assert(plan_views(out@) =~= Seq::<SessionPlanView>::empty());
    for i in 0..remotes.len()
        invariant
            1 <= n <= MAX_CHANNELS,
            views == remote_views(remotes@),
            plan_views(out@) == sessions_for(
                views.take(i as int),
                node_id@,
                token_bytes(explicit),
                n as int,
            ),
    {
        let ghost before = out@;
        assert(views.take(i + 1).drop_last() =~= views.take(i as int));
        assert(views[i as int] == remotes@[i as int]@);
        if let Some(plan) = plan_session(&remotes[i], node_id, explicit, n) {
            assert(plan_views(before.push(plan)) =~= plan_views(before).push(plan@));
            out.push(plan);
        }
    }
    assert(views.take(views.len() as int) =~= views);
    if out.len() == 0 {
        let blank = String::new();
        assert(blank@ =~= Seq::<char>::empty());
        let host = host_without_name(remotes);
        let unnamed = SessionPlan {
            remote_index: 0,
            is_initiator: !trim_text(host.as_str()).as_str().is_empty(),
            remote_host: host,
            remote_device_name: blank,
            shared_token: match explicit {
                Some(t) => t,
                None => DEFAULT_SHARED_TOKEN,
            },
            channels_to_send: every_channel(n),
            rx_channel_offset: 0,
        };
        let ghost expected = unnamed_session(unnamed_host(views), token_bytes(explicit), n as int);
        assert(unnamed@ =~= expected);
        out.push(unnamed);
        assert(plan_views(out@) =~= seq![expected]);
    }
    out
}

/// What the engine starts for these remotes.
pub fn plan_engine(
    remotes: &[RemoteConnection],
    num_channels: usize,
    node_id: &str,
    explicit: Option<[u8; 16]>,
    target_delay_ms: u32,
) -> (r: Result<EnginePlan, EngineError>)
    ensures
        r is Err <==> num_channels == 0 || num_channels > MAX_CHANNELS,
        r matches Ok(plan) ==> {
            &&& plan_views(plan.sessions@) == engine_sessions(
                remote_views(remotes@),
                node_id@,
                token_bytes(explicit),
                num_channels as int,
            )
            &&& plan.prime_samples == prime_target(target_delay_ms)
            &&& plan.ring_samples == ring_target(target_delay_ms)
            &&& plan.total_rx_slots == rings_played(remote_views(remotes@), num_channels as int)
        },
{
    if num_channels == 0 || num_channels > MAX_CHANNELS {
        return Err(EngineError::ChannelCount);
    }
    let wanted: u64 = (target_delay_ms as u64 * SAMPLE_RATE as u64) / 1000;
    let prime_samples: u64 = if wanted < PRIME_SAMPLES as u64 {
        PRIME_SAMPLES as u64
    } else {
        wanted
    };
    let ring_samples: u64 = if prime_samples * 2 < PB_RING_SIZE as u64 {
        PB_RING_SIZE as u64
    } else {
        prime_samples * 2
    };
    let active: usize = count_active(remotes);
    let played: usize = if active == 0 {
        1
    } else {
        active
    };
    let total_rx_slots: usize = if played >= MAX_CHANNELS {
        assert(played * num_channels >= MAX_CHANNELS) by (nonlinear_arith)
            requires
                played >= MAX_CHANNELS,
                num_channels >= 1,
        ;
        MAX_CHANNELS
    } else {
        assert(0 <= played * num_channels <= 64 * 64) by (nonlinear_arith)
            requires
                0 <= played < 64,
                1 <= num_channels <= 64,
        ;
        let slots: usize = played * num_channels;
        if slots < MAX_CHANNELS {
            slots
        } else {
            MAX_CHANNELS
        }
    };
    let sessions = plan_sessions(remotes, node_id, explicit, num_channels);
    Ok(EnginePlan { sessions, prime_samples, ring_samples, total_rx_slots })
}

/// Where the rings of a session that start at `start` end: at the rings of the next session, or at the
/// last ring where there is none.
pub open spec fn span_end(sessions: Seq<SessionPlanView>, start: int) -> int
    decreases sessions.len(),
{
    if sessions.len() == 0 {
        MAX_CHANNELS as int
    } else {
        let before = span_end(sessions.drop_last(), start);
        let offset = sessions.last().rx_channel_offset;
        if start < offset < before {
            offset
        } else {
            before
        }
    }
}

/// The rings of a session: from its own offset to that of the next, so that a remote may send more
/// channels than this endpoint does.
pub fn ring_span(sessions: &[SessionPlan], i: usize) -> (r: (usize, usize))
    requires
        i < sessions@.len(),
    ensures
        r.0 == sessions@[i as int].rx_channel_offset,
        r.1 == span_end(plan_views(sessions@), r.0 as int),
{
    let ghost views = plan_views(sessions@);
    let start: usize = sessions[i].rx_channel_offset;
    let mut end: usize = MAX_CHANNELS;
    for j in 0..sessions.len()
        invariant
            views == plan_views(sessions@),
            end == span_end(views.take(j as int), start as int),
    {
        assert(views.take(j + 1).drop_last() =~= views.take(j as int));
        assert(views[j as int] == sessions@[j as int]@);
        let offset: usize = sessions[j].rx_channel_offset;
        if start < offset && offset < end {
            end = offset;
        }
    }
    assert(views.take(views.len() as int) =~= views);
    (start, end)
}

// ---------------------------------------------------------------------------------------------
// Laws

/// The engine always has a session, and the rings of every session lie within those that there are.
pub proof fn law_sessions_fit(
    remotes: Seq<RemoteView>,
    node_id: Seq<char>,
    explicit: Option<Seq<u8>>,
    n: int,
)
    requires
        1 <= n <= MAX_CHANNELS,
        forall|k: int| 0 <= k < remotes.len() ==> (#[trigger] remotes[k]).index >= 0,
    ensures
        engine_sessions(remotes, node_id, explicit, n).len() > 0,
        forall|i: int|
            0 <= i < engine_sessions(remotes, node_id, explicit, n).len() ==> fits(
                #[trigger] engine_sessions(remotes, node_id, explicit, n)[i],
                n,
            ),
{
    assert forall|i: int| 0 <= i < engine_sessions(remotes, node_id, explicit, n).len() implies fits(
        #[trigger] engine_sessions(remotes, node_id, explicit, n)[i],
        n,
    ) by {
        if sessions_for(remotes, node_id, explicit, n).len() > 0 {
            lemma_session_fits(remotes, node_id, explicit, n, i);
        } else {
            assert(0 * n == 0) by (nonlinear_arith);
        }
    }
}

/// Whether the rings of a session are those of its remote, and lie within those that there are.
pub open spec fn fits(s: SessionPlanView, n: int) -> bool {
    &&& 0 <= s.rx_channel_offset
    &&& s.rx_channel_offset + n <= MAX_CHANNELS
    &&& s.rx_channel_offset == s.remote_index * n
}

proof fn lemma_session_fits(
    remotes: Seq<RemoteView>,
    node_id: Seq<char>,
    explicit: Option<Seq<u8>>,
    n: int,
    i: int,
)
    requires
        1 <= n <= MAX_CHANNELS,
        forall|k: int| 0 <= k < remotes.len() ==> (#[trigger] remotes[k]).index >= 0,
        0 <= i < sessions_for(remotes, node_id, explicit, n).len(),
    ensures
        fits(sessions_for(remotes, node_id, explicit, n)[i], n),
    decreases remotes.len(),
{
    let before = remotes.drop_last();
    if i < sessions_for(before, node_id, explicit, n).len() {
        lemma_session_fits(before, node_id, explicit, n, i);
    } else {
        let r = remotes[remotes.len() - 1];
        assert(r.index * n >= 0) by (nonlinear_arith)
            requires
                r.index >= 0,
                n >= 1,
        ;
    }
}

/// Remotes with different indices fill different rings.
pub proof fn law_rings_are_apart(
    a: RemoteView,
    b: RemoteView,
    node_id: Seq<char>,
    explicit: Option<Seq<u8>>,
    n: int,
)
    requires
        1 <= n <= MAX_CHANNELS,
        a.index < b.index,
        session_for(a, node_id, explicit, n) is Some,
        session_for(b, node_id, explicit, n) is Some,
    ensures
        session_for(a, node_id, explicit, n)->0.rx_channel_offset + n <= session_for(
            b,
            node_id,
            explicit,
            n,
        )->0.rx_channel_offset,
{
    assert(a.index * n + n <= b.index * n) by (nonlinear_arith)
        requires
            a.index < b.index,
            n >= 1,
    ;
}

/// No session plays into the rings of another: the rings of one end where those of a later one start.
pub proof fn law_spans_are_apart(sessions: Seq<SessionPlanView>, i: int, j: int)
    requires
        0 <= i < sessions.len(),
        0 <= j < sessions.len(),
        sessions[i].rx_channel_offset < sessions[j].rx_channel_offset,
    ensures
        span_end(sessions, sessions[i].rx_channel_offset) <= sessions[j].rx_channel_offset,
{
    lemma_span_end(sessions, sessions[i].rx_channel_offset, j);
}

proof fn lemma_span_end(sessions: Seq<SessionPlanView>, start: int, j: int)
    requires
        0 <= j < sessions.len(),
        start < sessions[j].rx_channel_offset,
    ensures
        span_end(sessions, start) <= sessions[j].rx_channel_offset,
    decreases sessions.len(),
{
    if j < sessions.len() - 1 {
        lemma_span_end(sessions.drop_last(), start, j);
    }
}

/// A remote that is alone has every ring from its own on: whatever channel it sends has a place.
pub proof fn law_sole_session_has_every_ring(session: SessionPlanView)
    ensures
        span_end(seq![session], session.rx_channel_offset) == MAX_CHANNELS,
{
    reveal_with_fuel(span_end, 2);
    assert(seq![session].drop_last() =~= Seq::<SessionPlanView>::empty());
}

/// The two ends of a link that name one another and share a password come to the same token.
pub proof fn law_ends_agree(a: RemoteView, b: RemoteView, n: int, m: int)
    requires
        a.password == b.password,
        session_for(a, b.name, None, n) is Some,
        session_for(b, a.name, None, m) is Some,
    ensures
        session_for(a, b.name, None, n)->0.token == session_for(b, a.name, None, m)->0.token,
{
    crate::token::law_link_token_symmetric(a.name, b.name, a.password);
}

// ---------------------------------------------------------------------------------------------
// What is shown

/// The host of the first remote that counts, else of a remote without a name.
pub open spec fn first_host(remotes: Seq<RemoteView>) -> Seq<char> {
    match first_active(remotes) {
        Some(r) => r.ip_override,
        None => unnamed_host(remotes),
    }
}

/// The name of the first remote that counts.
pub open spec fn first_name(remotes: Seq<RemoteView>) -> Seq<char> {
    match first_active(remotes) {
        Some(r) => r.name,
        None => Seq::empty(),
    }
}

/// The token of the link to the first remote that counts.
pub open spec fn first_token(
    remotes: Seq<RemoteView>,
    node_id: Seq<char>,
    explicit: Option<Seq<u8>>,
) -> Seq<u8> {
    match first_active(remotes) {
        Some(r) => token_for(r.name, r.password, node_id, explicit),
        None => token_for(Seq::empty(), None, node_id, explicit),
    }
}

/// Whether a password is kept for the first remote of the list.
pub open spec fn password_kept(remotes: Seq<RemoteView>) -> bool {
    remotes.len() > 0 && (remotes[0].password matches Some(p) && p.len() > 0)
}

fn find_active(remotes: &[RemoteConnection]) -> (r: Option<usize>)
    ensures
        match r {
            Some(i) => i < remotes@.len() && is_active(remotes@[i as int]@) && first_active(
                remote_views(remotes@),
            ) == Some(remotes@[i as int]@),
            None => first_active(remote_views(remotes@)) is None,
        },
{
    let ghost views = remote_views(remotes@);
    assert(views.skip(0) =~= views);
    for i in 0..remotes.len()
        invariant
            views == remote_views(remotes@),
            first_active(views) == first_active(views.skip(i as int)),
    {
        assert(views.skip(i as int)[0] == remotes@[i as int]@);
        assert(views.skip(i as int).skip(1) =~= views.skip(i + 1));
        if remotes[i].enabled && !remotes[i].name.as_str().is_empty() {
            return Some(i);
        }
    }
    None
}

/// What the engine was asked for.
pub struct EngineOptions {
    pub num_channels: usize,
    pub send_enabled: bool,
    pub recv_enabled: bool,
    pub device_name_token: [u8; 16],
    /// The token of the link, where it is not the one that the names come to.
    pub explicit_token: Option<[u8; 16]>,
    pub node_id: String,
    pub jitter: JitterConfig,
    pub opus_bitrate_per_channel: u32,
    pub rendezvous_url: Option<String>,
    pub encoder_mode: EncoderMode,
    pub bind_addr: String,
    pub selected_input_device: Option<String>,
    pub selected_output_device: Option<String>,
}

/// What the web interface shows of an engine.
pub open spec fn is_engine_summary(
    s: RuntimeSummary,
    remotes: Seq<RemoteView>,
    o: EngineOptions,
    saved: PersistedUiState,
) -> bool {
    let initiator = trimmed(first_host(remotes)).len() > 0;
    &&& s.mode@ == if initiator {
        "bidirectional"@
    } else {
        "bidirectional-responder"@
    }
    &&& s.remote_host@ == if initiator {
        first_host(remotes) + ":"@ + decimal(PORT as nat)
    } else {
        Seq::empty()
    }
    &&& s.remote_device_name@ == first_name(remotes)
    &&& s.source@ == "Matrix"@
    &&& s.codec@ == "Opus"@
    &&& s.opus_bitrate_per_channel == o.opus_bitrate_per_channel
    &&& s.frame_ms == 20
    &&& s.tx_channels == o.num_channels
    &&& s.token_configured
    &&& s.token_hint@ == hex_text(first_token(remotes, o.node_id@, token_bytes(o.explicit_token)))
    &&& s.token_hex@ == hex_text(first_token(remotes, o.node_id@, token_bytes(o.explicit_token)))
    &&& s.send_enabled == o.send_enabled
    &&& s.recv_enabled == o.recv_enabled
    &&& s.latency_ms == o.jitter.configured_delay_ms
    &&& s.effective_latency_ms == o.jitter.target_delay_ms
    &&& s.fixed_jitter == !o.jitter.adaptive
    &&& s.phase_lock == o.jitter.phase_lock
    &&& s.encoder_mode@ == o.encoder_mode.name()
    &&& s.link_password_configured == password_kept(saved@.config.remotes)
    &&& s.rendezvous_url@ == (match o.rendezvous_url {
        Some(url) => url@,
        None => Seq::empty(),
    })
    &&& s.bind_addr@ == o.bind_addr@
    &&& optional_text(s.selected_input_device) == optional_text(o.selected_input_device)
    &&& optional_text(s.selected_output_device) == optional_text(o.selected_output_device)
    &&& s.web_note@ == "Setup Apply performs a controlled process rebuild."@
}

fn first_link(remotes: &[RemoteConnection], o: &EngineOptions) -> (r: (String, String, [u8; 16]))
    ensures
        r.0@ == first_host(remote_views(remotes@)),
        r.1@ == first_name(remote_views(remotes@)),
        r.2@ == first_token(
            remote_views(remotes@),
            o.node_id@,
            token_bytes(o.explicit_token),
        ),
{
    match find_active(remotes) {
        Some(i) => {
            let password: Option<&str> = match &remotes[i].password {
                Some(p) => Some(p.as_str()),
                None => None,
            };
            let token: [u8; 16] = match o.explicit_token {
                Some(t) => t,
                None => derive_link_token(o.node_id.as_str(), remotes[i].name.as_str(), password),
            };
            (remotes[i].ip_override.clone(), remotes[i].name.clone(), token)
        },
        None => {
            let name = String::new();
            assert(name@ =~= Seq::<char>::empty());
            let token: [u8; 16] = match o.explicit_token {
                Some(t) => t,
                None => DEFAULT_SHARED_TOKEN,
            };
            (host_without_name(remotes), name, token)
        },
    }
}

fn summary_of(remotes: &[RemoteConnection], o: &EngineOptions, saved: &PersistedUiState) -> (r:
    RuntimeSummary)
    ensures
        is_engine_summary(r, remote_views(remotes@), *o, *saved),
{
    let (host, name, token) = first_link(remotes, o);
    let initiator: bool = !trim_text(host.as_str()).as_str().is_empty();
    let mut shown_host = String::new();
    assert(shown_host@ =~= Seq::<char>::empty());
    if initiator {
        shown_host = host.clone();
        shown_host.append(":");
        shown_host.append(decimal_text(PORT as u64).as_str());
    }
    let mut password_kept: bool = false;
    if saved.config.remotes.len() > 0 {
        if let Some(p) = &saved.config.remotes[0].password {
            password_kept = !p.as_str().is_empty();
        }
    }
    RuntimeSummary {
        mode: if initiator {
            "bidirectional".to_string()
        } else {
            "bidirectional-responder".to_string()
        },
        remote_host: shown_host,
        remote_device_name: name,
        source: "Matrix".to_string(),
        codec: "Opus".to_string(),
        opus_bitrate_per_channel: o.opus_bitrate_per_channel,
        frame_ms: 20,
        tx_channels: o.num_channels,
        token_configured: true,
        token_hint: token_to_hex(&token),
        token_hex: token_to_hex(&token),
        send_enabled: o.send_enabled,
        recv_enabled: o.recv_enabled,
        latency_ms: o.jitter.configured_delay_ms,
        effective_latency_ms: o.jitter.target_delay_ms,
        fixed_jitter: !o.jitter.adaptive,
        phase_lock: o.jitter.phase_lock,
        encoder_mode: o.encoder_mode.as_str().to_string(),
        link_password_configured: password_kept,
        rendezvous_url: text_or_empty(&o.rendezvous_url),
        bind_addr: o.bind_addr.clone(),
        selected_input_device: o.selected_input_device.clone(),
        selected_output_device: o.selected_output_device.clone(),
        web_note: "Setup Apply performs a controlled process rebuild.".to_string(),
    }
}

/// The state of the web interface of an engine that starts.
pub fn engine_web_state(
    remotes: &[RemoteConnection],
    o: &EngineOptions,
    devices: DeviceResponse,
    saved: &PersistedUiState,
) -> (r: WebState)
    ensures
        r.node_id@ == o.node_id@,
        r.local_channels == o.num_channels,
        r.local_input_channels == input_count(devices),
        r.send_enabled == o.send_enabled,
        r.recv_enabled == o.recv_enabled,
        !r.handshake_connected,
        r.last_control_ms == 0 && r.last_audio_ms == 0,
        r.remote_channels == o.num_channels,
        r.remote_metadata is None,
        r.monitor_mode == 0,
        texts(r.local_labels@) == Seq::new(
            o.num_channels as nat,
            |ch: int| kept_label(saved@.config.channel_labels, ch),
        ),
        r.device_name_token == o.device_name_token,
        routes_made(r, kept_routes(*saved, r.local_input_channels as int, o.num_channels as int)),
        r.tx_tone_source_for_send@.len() == MAX_CHANNELS,
        r.presets@.len() == 0,
        r.output_underflows == 0 && r.seq_missing == 0,
        r.meters.is_at_rest(),
        is_engine_summary(r.runtime, remote_views(remotes@), *o, *saved),
        r.devices == devices,
        r.established_peer_addr is None,
        !r.detoured,
        r.rtt_us10 == 0,
        r.actual_input_rate == 0 && r.actual_output_rate == 0,
        r.remote_conflict is None,
{
    let patch = initial_patch(&devices, saved, o.num_channels);
    let runtime = summary_of(remotes, o, saved);
    WebState {
        node_id: o.node_id.clone(),
        local_channels: o.num_channels,
        local_input_channels: patch.local_input_channels,
        send_enabled: o.send_enabled,
        recv_enabled: o.recv_enabled,
        handshake_connected: false,
        last_control_ms: 0,
        last_audio_ms: 0,
        remote_channels: o.num_channels,
        remote_metadata: None,
        monitor_mode: MonitorMode::PatchMatrix.as_u8(),
        output_route_masks: patch.output_route_masks,
        tx_tone_source_for_send: patch.tx_tone_source_for_send,
        local_labels: patch.local_labels,
        device_name_token: o.device_name_token,
        routes: patch.routes,
        presets: Vec::new(),
        output_underflows: 0,
        seq_missing: 0,
        meters: MeterBank::new(),
        runtime,
        devices,
        established_peer_addr: None,
        detoured: false,
        rtt_us10: 0,
        actual_input_rate: 0,
        actual_output_rate: 0,
        remote_conflict: None,
    }
}

// ---------------------------------------------------------------------------------------------
// Sessions, rings and routes

/// Which remotes get a session, and what it is made of: one that is enabled, has a name and whose
/// rings are there. It starts at the ring that is its index times the channels of a remote, it calls
/// where the host is more than white space, and it sends the channels that are chosen for it, or all.
#[verifier::rlimit(60)]
#[verifier::spinoff_prover]
pub proof fn law_session_of_a_remote(
    r: RemoteView,
    node_id: Seq<char>,
    explicit: Option<Seq<u8>>,
    n: int,
)
    ensures
        session_for(r, node_id, explicit, n) is Some <==> r.enabled && r.name.len() > 0 && r.index * n
            + n <= 64,
        session_for(r, node_id, explicit, n) matches Some(s) ==> {
            &&& s.remote_index == r.index
            &&& s.rx_channel_offset == r.index * n
            &&& s.remote_host == r.ip_override
            &&& s.remote_device_name == r.name
            &&& s.is_initiator <==> exists|k: int|
                0 <= k < r.ip_override.len() && !is_white_space(#[trigger] r.ip_override[k])
            &&& explicit is None ==> s.token == link_token(node_id, r.name, r.password)
            &&& explicit matches Some(t) ==> s.token == t
            &&& r.channels_to_send.len() > 0 ==> s.channels_to_send == r.channels_to_send
            &&& r.channels_to_send.len() == 0 && 0 <= n <= 64 ==> s.channels_to_send.len() == n
                && forall|ch: int| 0 <= ch < n ==> #[trigger] s.channels_to_send[ch] == ch
        },
{
    law_trimmed(r.ip_override);
}

proof fn lemma_has_session(
    remotes: Seq<RemoteView>,
    node_id: Seq<char>,
    explicit: Option<Seq<u8>>,
    n: int,
    i: int,
)
    requires
        0 <= i < remotes.len(),
        session_for(remotes[i], node_id, explicit, n) is Some,
    ensures
        sessions_for(remotes, node_id, explicit, n).contains(
            session_for(remotes[i], node_id, explicit, n)->0,
        ),
    decreases remotes.len(),
{
    let front = remotes.drop_last();
    let before = sessions_for(front, node_id, explicit, n);
    let all = sessions_for(remotes, node_id, explicit, n);
    let s = session_for(remotes[i], node_id, explicit, n)->0;
    if i < front.len() {
        assert(front[i] == remotes[i]);
        lemma_has_session(front, node_id, explicit, n, i);
        let j = choose|j: int| 0 <= j < before.len() && before[j] == s;
        assert(all[j] == s);
    } else {
        assert(all == before.push(s));
        assert(all[before.len() as int] == s);
    }
}

proof fn lemma_session_has_remote(
    remotes: Seq<RemoteView>,
    node_id: Seq<char>,
    explicit: Option<Seq<u8>>,
    n: int,
    j: int,
) -> (i: int)
    requires
        0 <= j < sessions_for(remotes, node_id, explicit, n).len(),
    ensures
        0 <= i < remotes.len(),
        session_for(remotes[i], node_id, explicit, n) == Some(
            sessions_for(remotes, node_id, explicit, n)[j],
        ),
    decreases remotes.len(),
{
    let front = remotes.drop_last();
    let before = sessions_for(front, node_id, explicit, n);
    if j < before.len() {
        let i = lemma_session_has_remote(front, node_id, explicit, n, j);
        assert(front[i] == remotes[i]);
        i
    } else {
        remotes.len() - 1
    }
}

proof fn lemma_sessions_for(
    remotes: Seq<RemoteView>,
    node_id: Seq<char>,
    explicit: Option<Seq<u8>>,
    n: int,
    s: SessionPlanView,
)
    ensures
        sessions_for(remotes, node_id, explicit, n).contains(s) <==> exists|i: int|
            0 <= i < remotes.len() && #[trigger] session_for(remotes[i], node_id, explicit, n) == Some(
                s,
            ),
{
    let all = sessions_for(remotes, node_id, explicit, n);
    if all.contains(s) {
        let j = choose|j: int| 0 <= j < all.len() && all[j] == s;
        let i = lemma_session_has_remote(remotes, node_id, explicit, n, j);
        assert(session_for(remotes[i], node_id, explicit, n) == Some(s));
    }
    if exists|i: int|
        0 <= i < remotes.len() && #[trigger] session_for(remotes[i], node_id, explicit, n) == Some(s) {
        let i = choose|i: int|
            0 <= i < remotes.len() && #[trigger] session_for(remotes[i], node_id, explicit, n) == Some(
                s,
            );
        lemma_has_session(remotes, node_id, explicit, n, i);
    }
}

/// The engine has a session for each remote that can have one and no other session; and where no
/// remote can, it has one that waits for, or calls, a peer without a name, from the first ring on.
#[verifier::rlimit(60)]
#[verifier::spinoff_prover]
pub proof fn law_every_remote_has_its_session(
    remotes: Seq<RemoteView>,
    node_id: Seq<char>,
    explicit: Option<Seq<u8>>,
    n: int,
    s: SessionPlanView,
)
    ensures
        ({
            let some = exists|i: int|
                0 <= i < remotes.len() && (#[trigger] remotes[i]).enabled && remotes[i].name.len() > 0
                    && remotes[i].index * n + n <= 64;
            let all = engine_sessions(remotes, node_id, explicit, n);
            &&& some ==> (all.contains(s) <==> exists|i: int|
                0 <= i < remotes.len() && #[trigger] session_for(remotes[i], node_id, explicit, n)
                    == Some(s))
            &&& !some ==> {
                &&& all.len() == 1
                &&& all[0].remote_index == 0
                &&& all[0].rx_channel_offset == 0
                &&& all[0].remote_device_name.len() == 0
                &&& explicit matches Some(t) ==> all[0].token == t
                &&& explicit is None ==> all[0].token == DEFAULT_SHARED_TOKEN@
                &&& all[0].remote_host == unnamed_host(remotes)
                &&& 0 <= n <= 64 ==> all[0].channels_to_send.len() == n && forall|ch: int|
                    0 <= ch < n ==> #[trigger] all[0].channels_to_send[ch] == ch
            }
        }),
{
    let sessions = sessions_for(remotes, node_id, explicit, n);
    lemma_sessions_for(remotes, node_id, explicit, n, s);
    if exists|i: int|
        0 <= i < remotes.len() && (#[trigger] remotes[i]).enabled && remotes[i].name.len() > 0
            && remotes[i].index * n + n <= 64 {
        let i = choose|i: int|
            0 <= i < remotes.len() && (#[trigger] remotes[i]).enabled && remotes[i].name.len() > 0
                && remotes[i].index * n + n <= 64;
        let one = session_for(remotes[i], node_id, explicit, n)->0;
        lemma_sessions_for(remotes, node_id, explicit, n, one);
        assert(session_for(remotes[i], node_id, explicit, n) == Some(one));
        assert(sessions.contains(one));
        assert(sessions.len() > 0);
    } else if sessions.len() > 0 {
        lemma_sessions_for(remotes, node_id, explicit, n, sessions[0]);
        assert(sessions.contains(sessions[0]));
        let i = choose|i: int|
            0 <= i < remotes.len() && #[trigger] session_for(remotes[i], node_id, explicit, n) == Some(
                sessions[0],
            );
        assert(remotes[i].enabled);
    }
}

/// A remote without a name is called where no remote that is enabled has one: at the host of the first
/// that is enabled.
pub proof fn law_host_without_a_name(remotes: Seq<RemoteView>, k: int)
    requires
        0 <= k < remotes.len(),
        remotes[k].enabled,
        forall|i: int| 0 <= i < k ==> !(#[trigger] remotes[i]).enabled,
    ensures
        (forall|i: int|
            0 <= i < remotes.len() && (#[trigger] remotes[i]).enabled ==> remotes[i].name.len() == 0)
            ==> unnamed_host(remotes) == remotes[k].ip_override,
        remotes[k].name.len() > 0 ==> unnamed_host(remotes).len() == 0 && first_host(remotes)
            == remotes[k].ip_override && first_name(remotes) == remotes[k].name,
    decreases k,
{
    if k > 0 {
        let rest = remotes.skip(1);
        assert(rest[k - 1] == remotes[k]);
        assert forall|i: int| 0 <= i < k - 1 implies !(#[trigger] rest[i]).enabled by {
            assert(rest[i] == remotes[i + 1]);
        }
        assert(!remotes[0].enabled);
        law_host_without_a_name(rest, k - 1);
        if forall|i: int|
            0 <= i < remotes.len() && (#[trigger] remotes[i]).enabled ==> remotes[i].name.len() == 0 {
            assert forall|i: int| 0 <= i < rest.len() && (#[trigger] rest[i]).enabled implies rest[i].name.len()
                == 0 by {
                assert(rest[i] == remotes[i + 1]);
            }
        }
    } else if forall|i: int|
        0 <= i < remotes.len() && (#[trigger] remotes[i]).enabled ==> remotes[i].name.len() == 0 {
        lemma_none_active(remotes);
    }
}

proof fn lemma_none_active(remotes: Seq<RemoteView>)
    requires
        forall|i: int|
            0 <= i < remotes.len() && (#[trigger] remotes[i]).enabled ==> remotes[i].name.len() == 0,
    ensures
        first_active(remotes) is None,
    decreases remotes.len(),
{
    if remotes.len() > 0 {
        let rest = remotes.skip(1);
        assert forall|i: int| 0 <= i < rest.len() && (#[trigger] rest[i]).enabled implies rest[i].name.len()
            == 0 by {
            assert(rest[i] == remotes[i + 1]);
        }
        assert(remotes[0].enabled ==> remotes[0].name.len() == 0);
        lemma_none_active(rest);
    }
}

/// The first remote that is enabled and named is the one that is shown.
pub proof fn law_first_link_is_shown(remotes: Seq<RemoteView>, k: int, node_id: Seq<char>)
    requires
        0 <= k < remotes.len(),
        remotes[k].enabled,
        remotes[k].name.len() > 0,
        forall|i: int|
            0 <= i < k ==> !((#[trigger] remotes[i]).enabled && remotes[i].name.len() > 0),
    ensures
        first_host(remotes) == remotes[k].ip_override,
        first_name(remotes) == remotes[k].name,
        first_token(remotes, node_id, None) == link_token(
            node_id,
            remotes[k].name,
            remotes[k].password,
        ),
        forall|t: Seq<u8>| #[trigger] first_token(remotes, node_id, Some(t)) == t,
{
    lemma_first_active(remotes, k);
}

/// The first remote that is enabled and named is the first that counts.
pub proof fn lemma_first_active(remotes: Seq<RemoteView>, k: int)
    requires
        0 <= k < remotes.len(),
        remotes[k].enabled,
        remotes[k].name.len() > 0,
        forall|i: int|
            0 <= i < k ==> !((#[trigger] remotes[i]).enabled && remotes[i].name.len() > 0),
    ensures
        first_active(remotes) == Some(remotes[k]),
    decreases k,
{
    if k > 0 {
        let rest = remotes.skip(1);
        assert(rest[k - 1] == remotes[k]);
        assert forall|i: int| 0 <= i < k - 1 implies !((#[trigger] rest[i]).enabled && rest[i].name.len()
            > 0) by {
            assert(rest[i] == remotes[i + 1]);
        }
        assert(!(remotes[0].enabled && remotes[0].name.len() > 0));
        lemma_first_active(rest, k - 1);
    }
}

/// With a route from a channel of a remote to an output, the output plays the ring of that channel in
/// the engine's session for the remote, and with no other route it plays that ring alone.
pub proof fn law_output_plays_the_ring_of_its_remote(
    routes: Seq<RouteView>,
    i: int,
    r: RemoteView,
    node_id: Seq<char>,
    explicit: Option<Seq<u8>>,
    n: int,
    c: int,
    side: int,
)
    requires
        0 <= i < routes.len(),
        1 <= n <= 64,
        0 <= c < n,
        0 <= side < 64,
        0 <= r.index <= usize::MAX,
        session_for(r, node_id, explicit, n) is Some,
        routes[i] == route(
            "peer:"@ + decimal(r.index as nat) + ":ch:"@ + decimal(c as nat),
            "output:"@ + decimal(side as nat),
        ),
    ensures
        ({
            let ring = session_for(r, node_id, explicit, n)->0.rx_channel_offset + c;
            &&& 0 <= ring < 64
            &&& has_bit(output_mask(routes, n, side), ring)
            &&& routes.len() == 1 ==> forall|b: int|
                0 <= b < 64 ==> (#[trigger] has_bit(output_mask(routes, n, side), b) <==> b == ring)
        }),
{
    let ring = r.index * n + c;
    assert(r.index * n >= 0) by (nonlinear_arith)
        requires
            r.index >= 0,
            n >= 1,
    ;
    law_route_sets_its_ring(routes, i, r.index as nat, c as nat, side, n);
    if routes.len() == 1 {
        assert forall|b: int| 0 <= b < 64 implies (#[trigger] has_bit(output_mask(routes, n, side), b)
            <==> b == ring) by {
            if has_bit(output_mask(routes, n, side), b) {
                law_ring_has_its_route(routes, b, side, n);
                law_remote_endpoint_roundtrip("peer:"@, r.index as nat, c as nat);
                assert(remote_endpoint_name("peer:"@, r.index as nat, c as nat) == routes[0].source);
            }
        }
    }
}

/// Where every route is from a channel that its remote has, an output plays a ring of a session only
/// with a route from that channel of that remote to the output.
pub proof fn law_ring_of_a_remote_has_its_route(
    routes: Seq<RouteView>,
    r: RemoteView,
    node_id: Seq<char>,
    explicit: Option<Seq<u8>>,
    n: int,
    c: int,
    side: int,
)
    requires
        1 <= n <= 64,
        0 <= c < n,
        0 <= r.index,
        session_for(r, node_id, explicit, n) is Some,
        forall|i: int|
            0 <= i < routes.len() ==> (peer_endpoint((#[trigger] routes[i]).source) matches Some(named)
                ==> named.1 < n),
        has_bit(
            output_mask(routes, n, side),
            session_for(r, node_id, explicit, n)->0.rx_channel_offset + c,
        ),
    ensures
        exists|i: int|
            0 <= i < routes.len() && peer_endpoint((#[trigger] routes[i]).source) == Some(
                (r.index as nat, c as nat),
            ) && endpoint_channel(routes[i].destination, "output:"@) == Some(side as nat),
{
    let ring = r.index * n + c;
    assert(r.index * n >= 0) by (nonlinear_arith)
        requires
            r.index >= 0,
            n >= 1,
    ;
    law_ring_has_its_route(routes, ring, side, n);
    let i = choose|i: int|
        0 <= i < routes.len() && (peer_endpoint((#[trigger] routes[i]).source) matches Some((idx, ch))
            && ring == idx * n + ch && ch < 64) && endpoint_channel(
            routes[i].destination,
            "output:"@,
        ) == Some(side as nat);
    let (idx, ch) = peer_endpoint(routes[i].source)->0;
    let index = r.index;
    assert(idx == index && ch == c) by (nonlinear_arith)
        requires
            index * n + c == idx * n + ch,
            0 <= c < n,
            0 <= ch < n,
            0 <= index,
            0 <= idx,
    ;
}

/// The buffers for a delay: playback begins with the samples of the delay at 48 kHz, but no fewer than
/// six frames, and a ring has room for twice that, but for no less than a second.
#[verifier::spinoff_prover]
pub proof fn law_buffers_for_a_delay(target_ms: u32)
    ensures
        prime_target(target_ms) == if target_ms * 48 < 5_760 {
            5_760
        } else {
            target_ms * 48
        },
        ring_target(target_ms) == if target_ms * 96 < 48_000 {
            48_000
        } else {
            target_ms * 96
        },
{
    let ms = target_ms as int;
    assert(ms * 48_000 / 1000 == ms * 48) by (nonlinear_arith);
    assert(SAMPLE_RATE == 48_000 && PRIME_SAMPLES == 5_760 && PB_RING_SIZE == 48_000);
}

/// As many rings are played as the remotes that are enabled and named have channels, or one remote
/// where there is none, up to 64.
pub proof fn law_rings_that_are_played(remotes: Seq<RemoteView>, r: RemoteView, n: int)
    requires
        1 <= n <= 64,
    ensures
        active_len(Seq::<RemoteView>::empty()) == 0,
        r.enabled && r.name.len() > 0 ==> active_len(remotes.push(r)) == active_len(remotes) + 1,
        !(r.enabled && r.name.len() > 0) ==> active_len(remotes.push(r)) == active_len(remotes),
        active_len(remotes) <= 1 ==> rings_played(remotes, n) == n,
        active_len(remotes) >= 1 && active_len(remotes) * n <= 64 ==> rings_played(remotes, n)
            == active_len(remotes) * n,
        active_len(remotes) * n >= 64 && active_len(remotes) > 0 ==> rings_played(remotes, n) == 64,
{
    assert(remotes.push(r).drop_last() =~= remotes);
    assert(1 * n == n) by (nonlinear_arith);
}

/// The rings of a session go on to where those of the next one start, or to the last there is.
pub proof fn law_span_of_a_session(sessions: Seq<SessionPlanView>, start: int)
    requires
        start < 64,
        forall|i: int| 0 <= i < sessions.len() ==> (#[trigger] sessions[i]).rx_channel_offset < 64,
    ensures
        start < span_end(sessions, start) <= 64,
        span_end(sessions, start) == 64 || exists|i: int|
            0 <= i < sessions.len() && span_end(sessions, start) == (
            #[trigger] sessions[i]).rx_channel_offset,
        forall|i: int|
            0 <= i < sessions.len() && start < (#[trigger] sessions[i]).rx_channel_offset ==> span_end(
                sessions,
                start,
            ) <= sessions[i].rx_channel_offset,
    decreases sessions.len(),
{
    if sessions.len() > 0 {
        let front = sessions.drop_last();
        assert forall|i: int| 0 <= i < front.len() implies (#[trigger] front[i]).rx_channel_offset < 64 by {
            assert(front[i] == sessions[i]);
        }
        law_span_of_a_session(front, start);
        let before = span_end(front, start);
        if span_end(sessions, start) == before {
            if before != 64 {
                let i = choose|i: int|
                    0 <= i < front.len() && before == (#[trigger] front[i]).rx_channel_offset;
                assert(sessions[i] == front[i]);
            }
        } else {
            assert(span_end(sessions, start) == sessions[sessions.len() - 1].rx_channel_offset);
        }
        assert forall|i: int|
            0 <= i < sessions.len() && start < (#[trigger] sessions[i]).rx_channel_offset implies span_end(
            sessions,
            start,
        ) <= sessions[i].rx_channel_offset by {
            lemma_span_end(sessions, start, i);
        }
    }
}

/// What is shown of an engine: it calls the first remote at the port of the protocol where the host of
/// that remote is more than white space, and waits for it otherwise.
pub proof fn law_summary_of_an_engine(
    s: RuntimeSummary,
    remotes: Seq<RemoteView>,
    o: EngineOptions,
    saved: PersistedUiState,
)
    requires
        is_engine_summary(s, remotes, o, saved),
    ensures
        ({
            let host = first_host(remotes);
            &&& (exists|k: int| 0 <= k < host.len() && !is_white_space(#[trigger] host[k])) ==> s.mode@
                == "bidirectional"@ && s.remote_host@ == host + ":"@ + decimal(20102)
            &&& (forall|k: int| 0 <= k < host.len() ==> is_white_space(#[trigger] host[k])) ==> s.mode@
                == "bidirectional-responder"@ && s.remote_host@.len() == 0
            &&& s.remote_device_name@ == first_name(remotes)
            &&& s.tx_channels == o.num_channels
            &&& s.frame_ms == 20
            &&& s.latency_ms == o.jitter.configured_delay_ms
            &&& s.effective_latency_ms == o.jitter.target_delay_ms
            &&& s.fixed_jitter <==> !o.jitter.adaptive
            &&& s.link_password_configured <==> saved@.config.remotes.len() > 0 && (
            saved@.config.remotes[0].password matches Some(p) && p.len() > 0)
        }),
{
    law_trimmed(first_host(remotes));
}

/// A peer without a name is reached with the token that is given, or with the usual one, each byte of
/// which is the same; and so is a link of which only the other end has no name.
pub proof fn law_token_without_a_name(host: Seq<char>, node_id: Seq<char>, n: int, i: int)
    requires
        0 <= i < 16,
    ensures
        unnamed_session(host, None, n).token.len() == 16,
        unnamed_session(host, None, n).token[i] == 0xa5,
        unnamed_session(host, None, n).remote_host == host,
        unnamed_session(host, None, n).is_initiator <==> exists|k: int|
            0 <= k < host.len() && !is_white_space(#[trigger] host[k]),
        token_for(Seq::empty(), None, node_id, None).len() == 16,
        token_for(Seq::empty(), None, node_id, None)[i] == 0xa5,
        forall|t: Seq<u8>| (#[trigger] unnamed_session(host, Some(t), n)).token == t,
{
    law_usual_token(i);
    law_trimmed(host);
}

} // verus!
