//! What is kept between two runs: the configuration and the routes.

use crate::metadata::{channel_label, local_channel_label};
use crate::state::{copy_routes, route_views, EncoderMode, Route, RouteView};
use crate::text::{decimal, is_white_space, law_trimmed, optional_text, texts, trim_text, trimmed};
use vstd::prelude::*;

verus! {

/// The name of the file that holds the state.
pub const STATE_FILE: &'static str = "audiolinkd_config.json";

/// The name of the file that held the state before.
pub const LEGACY_STATE_FILE: &'static str = ".audiolinkd_m7_state.json";

// ---------------------------------------------------------------------------------------------
// Remotes

/// A remote by its name.
///
/// `index` is the number of the remote in endpoint names, and does not change as long as the entry
/// exists.
#[derive(Debug, PartialEq, Eq)]
pub struct RemoteConnection {
    pub index: usize,
    /// The name of the remote node, from which the token of the link is derived.
    pub name: String,
    /// The host of the remote; blank where a rendezvous service finds it.
    pub ip_override: String,
    pub password: Option<String>,
    /// The local channels that are sent to this remote.
    pub channels_to_send: Vec<usize>,
    pub enabled: bool,
}

/// A remote by its name.
#[verifier::ext_equal]
pub struct RemoteView {
    pub index: int,
    pub name: Seq<char>,
    pub ip_override: Seq<char>,
    pub password: Option<Seq<char>>,
    pub channels_to_send: Seq<usize>,
    pub enabled: bool,
}

impl View for RemoteConnection {
    type V = RemoteView;

    open spec fn view(&self) -> RemoteView {
        RemoteView {
            index: self.index as int,
            name: self.name@,
            ip_override: self.ip_override@,
            password: optional_text(self.password),
            channels_to_send: self.channels_to_send@,
            enabled: self.enabled,
        }
    }
}

/// A copy of a list of numbers.
pub(crate) fn copy_numbers(v: &Vec<usize>) -> (r: Vec<usize>)
    ensures
        r@ == v@,
{
    let mut out: Vec<usize> = Vec::new();
    for i in 0..v.len()
        invariant
            out@ == v@.take(i as int),
    {
        out.push(v[i]);
    }
    assert(v@.take(v@.len() as int) =~= v@);
    out
}

impl Clone for RemoteConnection {
    fn clone(&self) -> (r: Self)
        ensures
            r@ == self@,
    {
        RemoteConnection {
            index: self.index,
            name: self.name.clone(),
            ip_override: self.ip_override.clone(),
            password: self.password.clone(),
            channels_to_send: copy_numbers(&self.channels_to_send),
            enabled: self.enabled,
        }
    }
}

/// What `enabled` is where it is not written.
pub fn default_true() -> (r: bool)
    ensures
        r,
{
    true
}

/// The remotes of a list.
pub open spec fn remote_views(v: Seq<RemoteConnection>) -> Seq<RemoteView> {
    Seq::new(v.len(), |i: int| v[i]@)
}

/// A copy of a list of remotes.
pub fn copy_remotes(v: &Vec<RemoteConnection>) -> (r: Vec<RemoteConnection>)
    ensures
        remote_views(r@) == remote_views(v@),
{
    let mut out: Vec<RemoteConnection> = Vec::new();
    for i in 0..v.len()
        invariant
            out@.len() == i,
            forall|j: int| 0 <= j < i ==> (#[trigger] out@[j])@ == v@[j]@,
    {
        out.push(v[i].clone());
    }
    assert(remote_views(out@) =~= remote_views(v@));
    out
}

/// The remotes of a list that have a name, in their order.
pub open spec fn with_names(remotes: Seq<RemoteView>) -> Seq<RemoteView> {
    remotes.filter(|r: RemoteView| r.name.len() > 0)
}

/// The remotes of a list that have a name.
pub fn named_remotes(v: &Vec<RemoteConnection>) -> (r: Vec<RemoteConnection>)
    ensures
        remote_views(r@) == with_names(remote_views(v@)),
{
    let ghost all = remote_views(v@);
    let mut out: Vec<RemoteConnection> = Vec::new();
    proof {
        reveal(Seq::filter);
        assert(all.take(0) =~= Seq::<RemoteView>::empty());
        assert(remote_views(out@) =~= with_names(all.take(0)));
    }
    for i in 0..v.len()
        invariant
            all == remote_views(v@),
            remote_views(out@) == with_names(all.take(i as int)),
    {
        proof {
            reveal(Seq::filter);
            assert(all.take(i + 1).drop_last() =~= all.take(i as int));
            assert(all.take(i + 1).last() == v@[i as int]@);
        }
        if !v[i].name.as_str().is_empty() {
            let ghost before = out@;
            let remote = v[i].clone();
            out.push(remote);
            assert(remote_views(out@) =~= remote_views(before).push(remote@));
        }
    }
    assert(all.take(v@.len() as int) =~= all);
    out
}

// ---------------------------------------------------------------------------------------------
// The state

/// What an endpoint is started with.
#[derive(Debug, PartialEq, Eq)]
pub struct PersistedRuntimeConfig {
    pub remotes: Vec<RemoteConnection>,
    pub node_id: Option<String>,
    pub token_hex: Option<String>,
    pub channels: Option<usize>,
    pub opus_bitrate_per_channel: Option<u32>,
    pub latency_ms: Option<u32>,
    pub fixed_jitter: Option<bool>,
    pub phase_lock: Option<bool>,
    pub encoder_mode: Option<EncoderMode>,
    pub channel_labels: Option<Vec<String>>,
    pub rendezvous_url: Option<String>,
    pub bind_addr: Option<String>,
    pub selected_input_device: Option<String>,
    pub selected_output_device: Option<String>,
}

/// What an endpoint is started with.
#[verifier::ext_equal]
pub struct ConfigView {
    pub remotes: Seq<RemoteView>,
    pub node_id: Option<Seq<char>>,
    pub token_hex: Option<Seq<char>>,
    pub channels: Option<usize>,
    pub opus_bitrate_per_channel: Option<u32>,
    pub latency_ms: Option<u32>,
    pub fixed_jitter: Option<bool>,
    pub phase_lock: Option<bool>,
    pub encoder_mode: Option<EncoderMode>,
    pub channel_labels: Option<Seq<Seq<char>>>,
    pub rendezvous_url: Option<Seq<char>>,
    pub bind_addr: Option<Seq<char>>,
    pub selected_input_device: Option<Seq<char>>,
    pub selected_output_device: Option<Seq<char>>,
}

/// Some texts, if there are any.
pub open spec fn optional_texts(o: Option<Vec<String>>) -> Option<Seq<Seq<char>>> {
    match o {
        Some(v) => Some(texts(v@)),
        None => None,
    }
}

impl View for PersistedRuntimeConfig {
    type V = ConfigView;

    open spec fn view(&self) -> ConfigView {
        ConfigView {
            remotes: remote_views(self.remotes@),
            node_id: optional_text(self.node_id),
            token_hex: optional_text(self.token_hex),
            channels: self.channels,
            opus_bitrate_per_channel: self.opus_bitrate_per_channel,
            latency_ms: self.latency_ms,
            fixed_jitter: self.fixed_jitter,
            phase_lock: self.phase_lock,
            encoder_mode: self.encoder_mode,
            channel_labels: optional_texts(self.channel_labels),
            rendezvous_url: optional_text(self.rendezvous_url),
            bind_addr: optional_text(self.bind_addr),
            selected_input_device: optional_text(self.selected_input_device),
            selected_output_device: optional_text(self.selected_output_device),
        }
    }
}

impl ConfigView {
    /// A configuration that says nothing.
    pub open spec fn blank() -> ConfigView {
        ConfigView {
            remotes: Seq::empty(),
            node_id: None,
            token_hex: None,
            channels: None,
            opus_bitrate_per_channel: None,
            latency_ms: None,
            fixed_jitter: None,
            phase_lock: None,
            encoder_mode: None,
            channel_labels: None,
            rendezvous_url: None,
            bind_addr: None,
            selected_input_device: None,
            selected_output_device: None,
        }
    }
}

impl Default for PersistedRuntimeConfig {
    fn default() -> (r: Self)
        ensures
            r@ == ConfigView::blank(),
    {
        let r = PersistedRuntimeConfig {
            remotes: Vec::new(),
            node_id: None,
            token_hex: None,
            channels: None,
            opus_bitrate_per_channel: None,
            latency_ms: None,
            fixed_jitter: None,
            phase_lock: None,
            encoder_mode: None,
            channel_labels: None,
            rendezvous_url: None,
            bind_addr: None,
            selected_input_device: None,
            selected_output_device: None,
        };
        assert(r@ =~= ConfigView::blank());
        r
    }
}

/// A copy of some texts.
pub fn copy_texts(v: &Vec<String>) -> (r: Vec<String>)
    ensures
        texts(r@) == texts(v@),
{
    let mut out: Vec<String> = Vec::new();
    for i in 0..v.len()
        invariant
            out@ == v@.take(i as int),
    {
        out.push(v[i].clone());
    }
    assert(v@.take(v@.len() as int) =~= v@);
    out
}

impl Clone for PersistedRuntimeConfig {
    fn clone(&self) -> (r: Self)
        ensures
            r@ == self@,
    {
        let labels: Option<Vec<String>> = match &self.channel_labels {
            Some(v) => Some(copy_texts(v)),
            None => None,
        };
        let r = PersistedRuntimeConfig {
            remotes: copy_remotes(&self.remotes),
            node_id: self.node_id.clone(),
            token_hex: self.token_hex.clone(),
            channels: self.channels,
            opus_bitrate_per_channel: self.opus_bitrate_per_channel,
            latency_ms: self.latency_ms,
            fixed_jitter: self.fixed_jitter,
            phase_lock: self.phase_lock,
            encoder_mode: self.encoder_mode,
            channel_labels: labels,
            rendezvous_url: self.rendezvous_url.clone(),
            bind_addr: self.bind_addr.clone(),
            selected_input_device: self.selected_input_device.clone(),
            selected_output_device: self.selected_output_device.clone(),
        };
        assert(r@ =~= self@);
        r
    }
}

/// What is kept between two runs.
#[derive(Debug, PartialEq, Eq)]
pub struct PersistedUiState {
    pub config: PersistedRuntimeConfig,
    pub routes: Vec<Route>,
}

/// What is kept between two runs.
#[verifier::ext_equal]
pub struct StateView {
    pub config: ConfigView,
    pub routes: Seq<RouteView>,
}

impl View for PersistedUiState {
    type V = StateView;

    open spec fn view(&self) -> StateView {
        StateView { config: self.config@, routes: route_views(self.routes@) }
    }
}

impl Default for PersistedUiState {
    fn default() -> (r: Self)
        ensures
            r@ == (StateView { config: ConfigView::blank(), routes: Seq::empty() }),
    {
        let r = PersistedUiState { config: PersistedRuntimeConfig::default(), routes: Vec::new() };
        assert(route_views(r.routes@) =~= Seq::<RouteView>::empty());
        r
    }
}

impl Clone for PersistedUiState {
    fn clone(&self) -> (r: Self)
        ensures
            r@ == self@,
    {
        PersistedUiState {
            config: self.config.clone(),
            routes: copy_routes(self.routes.as_slice()),
        }
    }
}

// ---------------------------------------------------------------------------------------------
// Reading and writing

/// The state that is used, where `files` says what each file held, in the order in which they are
/// tried: the first that could be read, or an empty one.
pub open spec fn first_readable(files: Seq<Option<PersistedUiState>>) -> StateView
    decreases files.len(),
{
    if files.len() == 0 {
        StateView { config: ConfigView::blank(), routes: Seq::empty() }
    } else {
        match files[0] {
            Some(state) => state@,
            None => first_readable(files.skip(1)),
        }
    }
}

/// The state that is used, where `files` says what each file held, in the order in which they are
/// tried.
pub fn load_persisted_state(files: &[Option<PersistedUiState>]) -> (r: PersistedUiState)
    ensures
        r@ == first_readable(files@),
{
    assert(files@.skip(0) =~= files@);
    for i in 0..files.len()
        invariant
            first_readable(files@) == first_readable(files@.skip(i as int)),
    {
        assert(files@.skip(i as int).skip(1) =~= files@.skip(i + 1));
        if let Some(state) = &files[i] {
            return state.clone();
        }
    }
    PersistedUiState::default()
}

/// The state with other routes.
pub fn save_persisted_routes(state: PersistedUiState, routes: &[Route]) -> (r: PersistedUiState)
    ensures
        r@ == (StateView { routes: route_views(routes@), ..state@ }),
{
    PersistedUiState { config: state.config, routes: copy_routes(routes) }
}

/// The configuration that is kept where `incoming` is to be kept over `stored`: labels are not part
/// of what comes in, and the remotes are replaced only by a list that has entries.
pub open spec fn merged_config(stored: ConfigView, incoming: ConfigView) -> ConfigView {
    ConfigView {
        channel_labels: stored.channel_labels,
        remotes: if incoming.remotes.len() == 0 {
            stored.remotes
        } else {
            incoming.remotes
        },
        ..incoming
    }
}

/// The state with another configuration, except for the labels, which are kept, and the remotes,
/// which are replaced only by a list that has entries.
pub fn save_persisted_config(state: PersistedUiState, config: PersistedRuntimeConfig) -> (r:
    PersistedUiState)
    ensures
        r@ == (StateView { config: merged_config(state@.config, config@), ..state@ }),
{
    let mut config = config;
    let ghost incoming = config@;
    config.channel_labels = state.config.channel_labels;
    if config.remotes.len() == 0 {
        config.remotes = state.config.remotes;
    }
    assert(config@ =~= merged_config(state@.config, incoming));
    PersistedUiState { config, routes: state.routes }
}

/// To save a configuration twice is to save it once. The labels stay, and so do the remotes unless
/// others come.
pub proof fn law_saving_keeps_labels(stored: ConfigView, incoming: ConfigView)
    ensures
        merged_config(stored, incoming).channel_labels == stored.channel_labels,
        incoming.remotes.len() == 0 ==> merged_config(stored, incoming).remotes == stored.remotes,
        merged_config(merged_config(stored, incoming), incoming) == merged_config(stored, incoming),
{
    assert(merged_config(merged_config(stored, incoming), incoming) =~= merged_config(
        stored,
        incoming,
    ));
}

/// The label of a channel: the one that is kept, unless it is blank.
pub open spec fn kept_label(saved: Option<Seq<Seq<char>>>, ch: int) -> Seq<char> {
    match saved {
        Some(labels) => if ch < labels.len() && trimmed(labels[ch]).len() > 0 {
            labels[ch]
        } else {
            channel_label(ch)
        },
        None => channel_label(ch),
    }
}

fn label_kept(saved: &Option<Vec<String>>, ch: usize) -> (r: String)
    requires
        ch < usize::MAX,
    ensures
        r@ == kept_label(optional_texts(*saved), ch as int),
{
    if let Some(labels) = saved {
        if ch < labels.len() {
            let t = trim_text(labels[ch].as_str());
            if !t.as_str().is_empty() {
                return labels[ch].clone();
            }
        }
    }
    local_channel_label(ch)
}

/// The labels of the local channels.
pub fn load_persisted_labels(saved: &PersistedUiState, num_channels: usize) -> (r: Vec<String>)
    ensures
        texts(r@) == Seq::new(
            num_channels as nat,
            |ch: int| kept_label(saved@.config.channel_labels, ch),
        ),
{
    let mut out: Vec<String> = Vec::new();
    for ch in 0..num_channels
        invariant
            out@.len() == ch,
            forall|j: int|
                0 <= j < ch ==> (#[trigger] out@[j])@ == kept_label(saved@.config.channel_labels, j),
    {
        out.push(label_kept(&saved.config.channel_labels, ch));
    }
    assert(texts(out@) =~= Seq::new(
        num_channels as nat,
        |ch: int| kept_label(saved@.config.channel_labels, ch),
    ));
    out
}

/// Of the remotes that are stored those count that have a name, in their order.
pub proof fn law_remotes_need_a_name(remotes: Seq<RemoteView>, r: RemoteView)
    ensures
        with_names(Seq::empty()).len() == 0,
        r.name.len() > 0 ==> with_names(remotes.push(r)) == with_names(remotes).push(r),
        r.name.len() == 0 ==> with_names(remotes.push(r)) == with_names(remotes),
{
    assert(remotes.push(r).drop_last() =~= remotes);
    reveal(Seq::filter);
    reveal_with_fuel(Seq::filter, 2);
}

/// What was saved is read from the first place where it can be read; where it can be read nowhere there
/// are no settings and no routes.
pub proof fn law_first_readable_file_counts(files: Seq<Option<PersistedUiState>>, k: int)
    requires
        0 <= k <= files.len(),
        forall|i: int| 0 <= i < k ==> #[trigger] files[i] is None,
    ensures
        k < files.len() ==> (files[k] matches Some(saved) ==> first_readable(files) == saved@),
        k == files.len() ==> first_readable(files).routes.len() == 0 && first_readable(files).config
            == ConfigView::blank(),
    decreases k,
{
    if k > 0 {
        let rest = files.skip(1);
        assert forall|i: int| 0 <= i < k - 1 implies #[trigger] rest[i] is None by {
            assert(rest[i] == files[i + 1]);
        }
        assert(files[0] is None);
        law_first_readable_file_counts(rest, k - 1);
        if k < files.len() {
            assert(rest[k - 1] == files[k]);
        }
    }
}

/// Settings that are blank hold nothing.
pub proof fn law_blank_settings()
    ensures
        ({
            let b = ConfigView::blank();
            &&& b.remotes.len() == 0
            &&& b.node_id is None && b.token_hex is None && b.channels is None
            &&& b.opus_bitrate_per_channel is None && b.latency_ms is None && b.fixed_jitter is None
            &&& b.phase_lock is None && b.encoder_mode is None && b.channel_labels is None
            &&& b.rendezvous_url is None && b.bind_addr is None
            &&& b.selected_input_device is None && b.selected_output_device is None
        }),
{
}

/// Settings that are saved take the place of those that were, but for the labels, which stay, and for
/// the remotes, which stay where none are given.
pub proof fn law_saved_settings(stored: ConfigView, incoming: ConfigView)
    ensures
        ({
            let m = merged_config(stored, incoming);
            &&& m.channel_labels == stored.channel_labels
            &&& incoming.remotes.len() > 0 ==> m.remotes == incoming.remotes
            &&& incoming.remotes.len() == 0 ==> m.remotes == stored.remotes
            &&& m.node_id == incoming.node_id
            &&& m.token_hex == incoming.token_hex
            &&& m.channels == incoming.channels
            &&& m.opus_bitrate_per_channel == incoming.opus_bitrate_per_channel
            &&& m.latency_ms == incoming.latency_ms
            &&& m.fixed_jitter == incoming.fixed_jitter
            &&& m.phase_lock == incoming.phase_lock
            &&& m.encoder_mode == incoming.encoder_mode
            &&& m.rendezvous_url == incoming.rendezvous_url
            &&& m.bind_addr == incoming.bind_addr
            &&& m.selected_input_device == incoming.selected_input_device
            &&& m.selected_output_device == incoming.selected_output_device
        }),
{
}

/// A channel has the label that was saved for it, where that is more than white space, and is named by
/// its number otherwise.
pub proof fn law_kept_labels(labels: Seq<Seq<char>>, ch: int)
    requires
        0 <= ch,
    ensures
        ch < labels.len() && (exists|k: int|
            0 <= k < labels[ch].len() && !is_white_space(#[trigger] labels[ch][k])) ==> kept_label(
            Some(labels),
            ch,
        ) == labels[ch],
        ch < labels.len() && (forall|k: int|
            0 <= k < labels[ch].len() ==> is_white_space(#[trigger] labels[ch][k])) ==> kept_label(
            Some(labels),
            ch,
        ) == "Ch "@ + decimal((ch + 1) as nat),
        ch >= labels.len() ==> kept_label(Some(labels), ch) == "Ch "@ + decimal((ch + 1) as nat),
        kept_label(None, ch) == "Ch "@ + decimal((ch + 1) as nat),
{
    if ch < labels.len() {
        law_trimmed(labels[ch]);
    }
}

} // verus!
