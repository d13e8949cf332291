//! The types that the parts of an endpoint share.

use crate::constants::MAX_CHANNELS;
use crate::metadata::RemoteMetadata;
use crate::text::{same_text, trim_text, trimmed};
use vstd::prelude::*;

verus! {

// ---------------------------------------------------------------------------------------------
// Encoder mode

/// What the encoder is tuned for.
#[derive(Clone, Copy, Debug, PartialEq, Eq, Structural)]
pub enum EncoderMode {
    Music,
    Speech,
}

impl Default for EncoderMode {
    fn default() -> (r: Self)
        ensures
            r == EncoderMode::Music,
    {
        EncoderMode::Music
    }
}

/// Whether a text holds ASCII characters only.
pub open spec fn is_ascii_text(s: Seq<char>) -> bool {
    forall|i: int| 0 <= i < s.len() ==> (#[trigger] s[i]) as int <= 127
}

/// The lower case of an ASCII character.
pub open spec fn ascii_lower(c: char) -> char {
    if 'A' <= c <= 'Z' {
        (c as int + 32) as char
    } else {
        c
    }
}

/// What `str::to_lowercase` of std makes of a text that holds other than ASCII characters.
pub uninterp spec fn std_lowercase(s: Seq<char>) -> Seq<char>;

/// Calls `str::to_lowercase`. Claimed of it: the letters of an ASCII text become small and the rest
/// of it stays; what becomes of another text depends on that text alone.
#[verifier::external_body]
fn lowercase_text(s: &str) -> (r: String)
    ensures
        is_ascii_text(s@) ==> r@ == s@.map_values(|c: char| ascii_lower(c)),
        !is_ascii_text(s@) ==> r@ == std_lowercase(s@),
{
    s.to_lowercase()
}

/// A text in lower case.
pub open spec fn lowered(s: Seq<char>) -> Seq<char> {
    if is_ascii_text(s) {
        s.map_values(|c: char| ascii_lower(c))
    } else {
        std_lowercase(s)
    }
}

impl EncoderMode {
    /// The name of the mode.
    pub open spec fn name(self) -> Seq<char> {
        match self {
            EncoderMode::Music => "music"@,
            EncoderMode::Speech => "speech"@,
        }
    }

    /// The mode that a word in lower case names; every word that names none means music.
    pub open spec fn of_word(word: Seq<char>) -> EncoderMode {
        if word == "speech"@ || word == "voice"@ || word == "voip"@ {
            EncoderMode::Speech
        } else {
            EncoderMode::Music
        }
    }

    /// The name of the mode.
    pub fn as_str(self) -> (r: &'static str)
        ensures
            r@ == self.name(),
    {
        match self {
            EncoderMode::Music => "music",
            EncoderMode::Speech => "speech",
        }
    }

    /// The mode that a word in lower case names.
    pub fn from_word(word: &str) -> (r: Self)
        ensures
            r == EncoderMode::of_word(word@),
    {
        if same_text(word, "speech") || same_text(word, "voice") || same_text(word, "voip") {
            EncoderMode::Speech
        } else {
            EncoderMode::Music
        }
    }

    /// The mode that `s` names, whatever its case and the white space around it.
    pub fn parse(s: &str) -> (r: Self)
        ensures
            r == EncoderMode::of_word(lowered(trimmed(s@))),
    {
        let t = trim_text(s);
        let word = lowercase_text(t.as_str());
        EncoderMode::from_word(word.as_str())
    }
}

/// The name of a mode is read as that mode.
pub proof fn law_mode_name_is_understood(mode: EncoderMode)
    ensures
        EncoderMode::of_word(lowered(trimmed(mode.name()))) == mode,
{
    reveal_strlit("music");
    reveal_strlit("speech");
    reveal_strlit("voice");
    reveal_strlit("voip");
    let name = mode.name();
    assert("music"@.len() == 5 && "speech"@.len() == 6 && "voice"@.len() == 5 && "voip"@.len() == 4);
    assert(trimmed(name) == name);
    assert(is_ascii_text(name));
    assert(lowered(name) =~= name);
    assert("music"@[0] == 'm' && "voice"@[0] == 'v');
}

// ---------------------------------------------------------------------------------------------
// Receive buffer

/// How the receive buffer is run.
#[derive(Clone, Copy, Debug, PartialEq, Eq)]
pub struct JitterConfig {
    pub configured_delay_ms: u32,
    pub target_delay_ms: u32,
    pub adaptive: bool,
    pub phase_lock: bool,
}

// ---------------------------------------------------------------------------------------------
// Monitor mode and peer status

/// What the physical outputs play.
#[derive(Clone, Copy, Debug, PartialEq, Eq, Structural)]
pub enum MonitorMode {
    PatchMatrix,
}

impl MonitorMode {
    /// The number of the mode.
    pub fn as_u8(self) -> (r: u8)
        ensures
            r == 0,
    {
        0
    }

    /// The mode of a number; there is only one.
    pub fn from_u8(_value: u8) -> (r: Self)
        ensures
            r == MonitorMode::PatchMatrix,
    {
        MonitorMode::PatchMatrix
    }
}

/// The state of the other end at a glance: absent, connected, or connected with trouble.
#[derive(Clone, Copy, Debug, PartialEq, Eq, Structural)]
pub enum PeerStatus {
    Gray,
    Green,
    Orange,
}

/// What the status of the other end is read from.
#[derive(Clone, Copy, Debug, PartialEq, Eq)]
pub struct LinkHealth {
    pub connected: bool,
    /// When the last control packet came, in milliseconds; zero for never.
    pub last_control_ms: u64,
    /// When the last audio packet came, in milliseconds; zero for never.
    pub last_audio_ms: u64,
    pub recv_enabled: bool,
    /// Whether packets go to another address than the one that was set up.
    pub detoured: bool,
    pub output_underflows: usize,
    pub seq_missing: usize,
}

/// How long ago `then` was at `now`; zero where it lies ahead.
pub open spec fn age(now: u64, then: u64) -> int {
    if now >= then {
        now - then
    } else {
        0
    }
}

/// A peer is never green while something is wrong or while packets take another path than the one
/// that was set up, and never anything but gray while it is absent.
pub proof fn law_status(h: LinkHealth, now_ms: u64)
    ensures
        h.status(now_ms) == PeerStatus::Gray <==> !h.present(now_ms),
        h.status(now_ms) == PeerStatus::Green ==> h.connected && h.output_underflows == 0
            && h.seq_missing == 0 && !h.silent(now_ms) && !h.detoured,
{
}

impl LinkHealth {
    /// Whether the other end is there: connected, and heard of within five seconds.
    pub open spec fn present(self, now_ms: u64) -> bool {
        self.connected && self.last_control_ms != 0 && age(now_ms, self.last_control_ms) <= 5_000
    }

    /// Whether audio is expected and has been missing for more than a second.
    pub open spec fn silent(self, now_ms: u64) -> bool {
        self.recv_enabled && if self.last_audio_ms == 0 {
            age(now_ms, self.last_control_ms) > 1_000
        } else {
            age(now_ms, self.last_audio_ms) > 1_000
        }
    }

    /// The status of the other end.
    pub open spec fn status(self, now_ms: u64) -> PeerStatus {
        if !self.present(now_ms) {
            PeerStatus::Gray
        } else if self.silent(now_ms) || self.detoured || self.output_underflows > 0
            || self.seq_missing > 0 {
            PeerStatus::Orange
        } else {
            PeerStatus::Green
        }
    }

    /// The status of the other end.
    pub fn peer_status(&self, now_ms: u64) -> (r: PeerStatus)
        ensures
            r == self.status(now_ms),
    {
        let control_age_ms: u64 = now_ms.saturating_sub(self.last_control_ms);
        let audio_age_ms: u64 = now_ms.saturating_sub(self.last_audio_ms);
        if !self.connected || self.last_control_ms == 0 {
            return PeerStatus::Gray;
        }
        if control_age_ms > 5_000 {
            return PeerStatus::Gray;
        }
        if self.recv_enabled && ((self.last_audio_ms == 0 && control_age_ms > 1_000) || (
        self.last_audio_ms > 0 && audio_age_ms > 1_000)) {
            return PeerStatus::Orange;
        }
        if self.detoured || self.output_underflows > 0 || self.seq_missing > 0 {
            return PeerStatus::Orange;
        }
        PeerStatus::Green
    }
}

// ---------------------------------------------------------------------------------------------
// Addresses

/// The address of the other end: a UDP socket address in plain numbers.
#[derive(Clone, Copy, Debug, PartialEq, Eq, Structural)]
pub struct PeerAddr {
    pub v6: bool,
    pub ip: u128,
    pub port: u16,
    pub flow: u32,
    pub scope: u32,
}

// ---------------------------------------------------------------------------------------------
// Routes and endpoints

/// A crosspoint of the patch matrix.
#[derive(Debug, PartialEq, Eq)]
pub struct Route {
    pub source: String,
    pub destination: String,
}

/// A crosspoint of the patch matrix.
pub struct RouteView {
    pub source: Seq<char>,
    pub destination: Seq<char>,
}

impl View for Route {
    type V = RouteView;

    open spec fn view(&self) -> RouteView {
        RouteView { source: self.source@, destination: self.destination@ }
    }
}

impl Clone for Route {
    fn clone(&self) -> (r: Self)
        ensures
            r == *self,
    {
        Route { source: self.source.clone(), destination: self.destination.clone() }
    }
}

/// The routes of a list.
pub open spec fn route_views(routes: Seq<Route>) -> Seq<RouteView> {
    Seq::new(routes.len(), |i: int| routes[i]@)
}

/// A copy of a list of routes.
pub fn copy_routes(routes: &[Route]) -> (r: Vec<Route>)
    ensures
        r@ == routes@,
{
    let mut out: Vec<Route> = Vec::new();
    for i in 0..routes.len()
        invariant
            out@ == routes@.take(i as int),
    {
        out.push(routes[i].clone());
    }
    assert(routes@.take(routes@.len() as int) =~= routes@);
    out
}

/// A row or a column of the patch matrix.
#[derive(Debug, PartialEq, Eq)]
pub struct Endpoint {
    pub id: String,
    pub label: String,
    pub kind: String,
}

/// A row or a column of the patch matrix.
pub struct EndpointView {
    pub id: Seq<char>,
    pub label: Seq<char>,
    pub kind: Seq<char>,
}

impl View for Endpoint {
    type V = EndpointView;

    open spec fn view(&self) -> EndpointView {
        EndpointView { id: self.id@, label: self.label@, kind: self.kind@ }
    }
}

/// The endpoints of a list.
pub open spec fn endpoint_views(endpoints: Seq<Endpoint>) -> Seq<EndpointView> {
    Seq::new(endpoints.len(), |i: int| endpoints[i]@)
}

/// The patch matrix: its rows, its columns, and the crosspoints that are made.
#[derive(Debug)]
pub struct MatrixResponse {
    pub monitor_mode: MonitorMode,
    pub sources: Vec<Endpoint>,
    pub destinations: Vec<Endpoint>,
    pub routes: Vec<Route>,
}

// ---------------------------------------------------------------------------------------------
// Summaries

/// What the engine was started with, for display.
#[derive(Debug, PartialEq, Eq)]
pub struct RuntimeSummary {
    pub mode: String,
    pub remote_host: String,
    pub remote_device_name: String,
    pub source: String,
    pub codec: String,
    pub opus_bitrate_per_channel: u32,
    pub frame_ms: u32,
    pub tx_channels: usize,
    pub token_configured: bool,
    pub token_hint: String,
    pub token_hex: String,
    pub send_enabled: bool,
    pub recv_enabled: bool,
    pub latency_ms: u32,
    pub effective_latency_ms: u32,
    pub fixed_jitter: bool,
    pub phase_lock: bool,
    pub encoder_mode: String,
    pub link_password_configured: bool,
    pub rendezvous_url: String,
    pub bind_addr: String,
    pub selected_input_device: Option<String>,
    pub selected_output_device: Option<String>,
    pub web_note: String,
}

impl Clone for RuntimeSummary {
    fn clone(&self) -> (r: Self)
        ensures
            r == *self,
    {
        RuntimeSummary {
            mode: self.mode.clone(),
            remote_host: self.remote_host.clone(),
            remote_device_name: self.remote_device_name.clone(),
            source: self.source.clone(),
            codec: self.codec.clone(),
            opus_bitrate_per_channel: self.opus_bitrate_per_channel,
            frame_ms: self.frame_ms,
            tx_channels: self.tx_channels,
            token_configured: self.token_configured,
            token_hint: self.token_hint.clone(),
            token_hex: self.token_hex.clone(),
            send_enabled: self.send_enabled,
            recv_enabled: self.recv_enabled,
            latency_ms: self.latency_ms,
            effective_latency_ms: self.effective_latency_ms,
            fixed_jitter: self.fixed_jitter,
            phase_lock: self.phase_lock,
            encoder_mode: self.encoder_mode.clone(),
            link_password_configured: self.link_password_configured,
            rendezvous_url: self.rendezvous_url.clone(),
            bind_addr: self.bind_addr.clone(),
            selected_input_device: self.selected_input_device.clone(),
            selected_output_device: self.selected_output_device.clone(),
            web_note: self.web_note.clone(),
        }
    }
}

/// The audio devices of the machine.
#[derive(Debug, PartialEq, Eq)]
pub struct DeviceResponse {
    pub sample_rate: u32,
    pub default_input: String,
    pub default_output: String,
    pub default_input_channels: usize,
    pub default_output_channels: usize,
    pub default_input_sample_rate: u32,
    pub default_output_sample_rate: u32,
    pub inputs: Vec<String>,
    pub outputs: Vec<String>,
}

// ---------------------------------------------------------------------------------------------
// Meters

/// The level that a meter shows before anything was measured, in hundredths of a decibel.
pub const METER_FLOOR: i32 = -12_000;

/// Peak levels in hundredths of a decibel below full scale.
#[derive(Debug, PartialEq, Eq)]
pub struct MeterBank {
    pub tx_peak_db_x100: Vec<i32>,
    pub rx_peak_db_x100: Vec<i32>,
    pub input_peak_db_x100: Vec<i32>,
    pub monitor_peak_db_x100: [i32; 2],
}

/// `levels` with the level of channel `ch` replaced, if there is such a channel.
pub open spec fn with_level(levels: Seq<i32>, ch: int, level: i32) -> Seq<i32> {
    if 0 <= ch < levels.len() {
        levels.update(ch, level)
    } else {
        levels
    }
}

/// The first `n` levels, no more than there are and no more than a link has channels.
pub open spec fn first_levels(levels: Seq<i32>, n: int) -> Seq<i32> {
    let limit = if n < MAX_CHANNELS as int {
        n
    } else {
        MAX_CHANNELS as int
    };
    if limit < levels.len() {
        levels.take(limit)
    } else {
        levels
    }
}

fn floor_levels() -> (r: Vec<i32>)
    ensures
        r@ == Seq::new(MAX_CHANNELS as nat, |i: int| METER_FLOOR),
{
    let mut out: Vec<i32> = Vec::new();
    for i in 0..MAX_CHANNELS
        invariant
            out@ == Seq::new(i as nat, |j: int| METER_FLOOR),
    {
        out.push(METER_FLOOR);
        assert(out@ =~= Seq::new((i + 1) as nat, |j: int| METER_FLOOR));
    }
    out
}

fn copy_levels(levels: &Vec<i32>, n: usize) -> (r: Vec<i32>)
    ensures
        r@ == first_levels(levels@, n as int),
{
    let mut limit: usize = if n < MAX_CHANNELS {
        n
    } else {
        MAX_CHANNELS
    };
    if levels.len() < limit {
        limit = levels.len();
    }
    let mut out: Vec<i32> = Vec::new();
    for i in 0..limit
        invariant
            limit <= levels.len(),
            out@ == levels@.take(i as int),
    {
        out.push(levels[i]);
    }
    assert(limit == levels@.len() ==> levels@.take(limit as int) =~= levels@);
    out
}

impl MeterBank {
    /// Whether nothing has been measured: every level stands at the floor.
    pub open spec fn is_at_rest(self) -> bool {
        &&& self.tx_peak_db_x100@ == Seq::new(MAX_CHANNELS as nat, |i: int| METER_FLOOR)
        &&& self.rx_peak_db_x100@ == Seq::new(MAX_CHANNELS as nat, |i: int| METER_FLOOR)
        &&& self.input_peak_db_x100@ == Seq::new(MAX_CHANNELS as nat, |i: int| METER_FLOOR)
        &&& self.monitor_peak_db_x100@ == seq![METER_FLOOR, METER_FLOOR]
    }

    /// Meters that have measured nothing.
    pub fn new() -> (r: Self)
        ensures
            r.is_at_rest(),
    {
        let r = MeterBank {
            tx_peak_db_x100: floor_levels(),
            rx_peak_db_x100: floor_levels(),
            input_peak_db_x100: floor_levels(),
            monitor_peak_db_x100: [METER_FLOOR, METER_FLOOR],
        };
        assert(r.monitor_peak_db_x100@ =~= seq![METER_FLOOR, METER_FLOOR]);
        r
    }

    /// Sets the level of a channel that is sent.
    pub fn set_tx_peak(&mut self, ch: usize, db_x100: i32)
        ensures
            final(self).tx_peak_db_x100@ == with_level(old(self).tx_peak_db_x100@, ch as int, db_x100),
            final(self).rx_peak_db_x100 == old(self).rx_peak_db_x100,
            final(self).input_peak_db_x100 == old(self).input_peak_db_x100,
            final(self).monitor_peak_db_x100 == old(self).monitor_peak_db_x100,
    {
        if ch < self.tx_peak_db_x100.len() {
            self.tx_peak_db_x100.set(ch, db_x100);
        }
    }

    /// Sets the level of a channel that is received.
    pub fn set_rx_peak(&mut self, ch: usize, db_x100: i32)
        ensures
            final(self).rx_peak_db_x100@ == with_level(old(self).rx_peak_db_x100@, ch as int, db_x100),
            final(self).tx_peak_db_x100 == old(self).tx_peak_db_x100,
            final(self).input_peak_db_x100 == old(self).input_peak_db_x100,
            final(self).monitor_peak_db_x100 == old(self).monitor_peak_db_x100,
    {
        if ch < self.rx_peak_db_x100.len() {
            self.rx_peak_db_x100.set(ch, db_x100);
        }
    }

    /// Sets the level of a physical input.
    pub fn set_input_peak(&mut self, ch: usize, db_x100: i32)
        ensures
            final(self).input_peak_db_x100@ == with_level(
                old(self).input_peak_db_x100@,
                ch as int,
                db_x100,
            ),
            final(self).tx_peak_db_x100 == old(self).tx_peak_db_x100,
            final(self).rx_peak_db_x100 == old(self).rx_peak_db_x100,
            final(self).monitor_peak_db_x100 == old(self).monitor_peak_db_x100,
    {
        if ch < self.input_peak_db_x100.len() {
            self.input_peak_db_x100.set(ch, db_x100);
        }
    }

    /// Sets the level of one side of the physical output.
    pub fn set_monitor_peak(&mut self, side: usize, db_x100: i32)
        ensures
            final(self).monitor_peak_db_x100@ == with_level(
                old(self).monitor_peak_db_x100@,
                side as int,
                db_x100,
            ),
            final(self).tx_peak_db_x100 == old(self).tx_peak_db_x100,
            final(self).rx_peak_db_x100 == old(self).rx_peak_db_x100,
            final(self).input_peak_db_x100 == old(self).input_peak_db_x100,
    {
        if side < 2 {
            self.monitor_peak_db_x100[side] = db_x100;
        }
    }

    /// The levels of the first `n` channels that are sent.
    pub fn snapshot_tx(&self, n: usize) -> (r: Vec<i32>)
        ensures
            r@ == first_levels(self.tx_peak_db_x100@, n as int),
    {
        copy_levels(&self.tx_peak_db_x100, n)
    }

    /// The levels of the first `n` channels that are received.
    pub fn snapshot_rx(&self, n: usize) -> (r: Vec<i32>)
        ensures
            r@ == first_levels(self.rx_peak_db_x100@, n as int),
    {
        copy_levels(&self.rx_peak_db_x100, n)
    }

    /// The levels of the first `n` physical inputs.
    pub fn snapshot_input(&self, n: usize) -> (r: Vec<i32>)
        ensures
            r@ == first_levels(self.input_peak_db_x100@, n as int),
    {
        copy_levels(&self.input_peak_db_x100, n)
    }

    /// The levels of the two sides of the physical output.
    pub fn snapshot_monitor(&self) -> (r: [i32; 2])
        ensures
            r == self.monitor_peak_db_x100,
    {
        self.monitor_peak_db_x100
    }
}

// ---------------------------------------------------------------------------------------------
// What the web interface knows

/// A set of routes under a name.
#[derive(Debug)]
pub struct Preset {
    pub name: String,
    pub routes: Vec<Route>,
}

/// What the web interface knows of an endpoint.
pub struct WebState {
    pub node_id: String,
    pub local_channels: usize,
    pub local_input_channels: usize,
    pub send_enabled: bool,
    pub recv_enabled: bool,
    pub handshake_connected: bool,
    pub last_control_ms: u64,
    pub last_audio_ms: u64,
    pub remote_channels: usize,
    pub remote_metadata: Option<RemoteMetadata>,
    pub monitor_mode: u8,
    pub output_route_masks: [u64; 2],
    pub tx_tone_source_for_send: Vec<usize>,
    pub local_labels: Vec<String>,
    pub device_name_token: [u8; 16],
    pub routes: Vec<Route>,
    pub presets: Vec<Preset>,
    /// Underflows since the last report.
    pub output_underflows: usize,
    /// Packets missing since the last report.
    pub seq_missing: usize,
    pub meters: MeterBank,
    pub runtime: RuntimeSummary,
    pub devices: DeviceResponse,
    pub established_peer_addr: Option<PeerAddr>,
    /// Whether packets go to another address than the one that was set up.
    pub detoured: bool,
    pub rtt_us10: u32,
    pub actual_input_rate: u32,
    pub actual_output_rate: u32,
    pub remote_conflict: Option<PeerAddr>,
}

impl WebState {
    /// What the status of the other end is read from.
    pub open spec fn health(self) -> LinkHealth {
        LinkHealth {
            connected: self.handshake_connected,
            last_control_ms: self.last_control_ms,
            last_audio_ms: self.last_audio_ms,
            recv_enabled: self.recv_enabled,
            detoured: self.detoured,
            output_underflows: self.output_underflows,
            seq_missing: self.seq_missing,
        }
    }

    /// The status of the other end.
    pub fn peer_status(&self, now_ms: u64) -> (r: PeerStatus)
        ensures
            r == self.health().status(now_ms),
    {
        let health = LinkHealth {
            connected: self.handshake_connected,
            last_control_ms: self.last_control_ms,
            last_audio_ms: self.last_audio_ms,
            recv_enabled: self.recv_enabled,
            detoured: self.detoured,
            output_underflows: self.output_underflows,
            seq_missing: self.seq_missing,
        };
        health.peer_status(now_ms)
    }

    /// What the physical outputs play.
    pub fn monitor_mode(&self) -> (r: MonitorMode)
        ensures
            r == MonitorMode::PatchMatrix,
    {
        MonitorMode::from_u8(self.monitor_mode)
    }
}

// ---------------------------------------------------------------------------------------------
// Laws

/// The status of the other end, by what came when. It is there for as long as the link is connected
/// and a control packet came within five seconds. Of one that is there, something is wrong where audio
/// is wanted and for more than a second none came (counted from the last control packet where none
/// ever did), where the link has taken another way, or where audio ran out or was lost.
pub proof fn law_status_by_time(h: LinkHealth, now_ms: u64)
    requires
        h.last_control_ms <= now_ms,
        h.last_audio_ms <= now_ms,
    ensures
        ({
            let there = h.connected && h.last_control_ms > 0 && now_ms - h.last_control_ms <= 5_000;
            let quiet = h.recv_enabled && ((h.last_audio_ms > 0 && now_ms - h.last_audio_ms > 1_000) || (
            h.last_audio_ms == 0 && now_ms - h.last_control_ms > 1_000));
            let wrong = quiet || h.detoured || h.output_underflows > 0 || h.seq_missing > 0;
            &&& h.status(now_ms) == PeerStatus::Gray <==> !there
            &&& h.status(now_ms) == PeerStatus::Orange <==> there && wrong
            &&& h.status(now_ms) == PeerStatus::Green <==> there && !wrong
        }),
{
}

/// A clock that has gone back makes nothing old.
pub proof fn law_status_when_the_clock_goes_back(h: LinkHealth, now_ms: u64)
    requires
        h.connected,
        h.last_control_ms > now_ms,
        h.last_audio_ms > now_ms || !h.recv_enabled,
        !h.detoured,
        h.output_underflows == 0,
        h.seq_missing == 0,
    ensures
        h.status(now_ms) == PeerStatus::Green,
{
}

/// Words for a mode: three of them mean speech and all others music. In a word of ASCII capital
/// letters count as small ones.
pub proof fn law_words_for_modes(word: Seq<char>, i: int)
    ensures
        EncoderMode::of_word(word) == EncoderMode::Speech <==> word == "speech"@ || word == "voice"@
            || word == "voip"@,
        (forall|k: int| 0 <= k < word.len() ==> (#[trigger] word[k]) as int <= 127) ==> lowered(word).len()
            == word.len() && (0 <= i < word.len() ==> lowered(word)[i] as int == if 65 <= word[i] as int
            <= 90 {
            word[i] as int + 32
        } else {
            word[i] as int
        }),
        EncoderMode::Music.name() == "music"@,
        EncoderMode::Speech.name() == "speech"@,
{
}

/// To set a level changes that level alone, and what is not there cannot be set.
pub proof fn law_one_level_is_set(levels: Seq<i32>, ch: int, level: i32, other: int)
    ensures
        with_level(levels, ch, level).len() == levels.len(),
        0 <= ch < levels.len() ==> with_level(levels, ch, level)[ch] == level,
        0 <= other < levels.len() && other != ch ==> with_level(levels, ch, level)[other]
            == levels[other],
        !(0 <= ch < levels.len()) ==> with_level(levels, ch, level) == levels,
{
}

/// What is shown of a bank of levels: the first `n` of them, of those that there are and of no more
/// than 64.
pub proof fn law_first_levels_are_shown(levels: Seq<i32>, n: int, ch: int)
    requires
        0 <= n,
    ensures
        n <= 64 && n <= levels.len() ==> first_levels(levels, n).len() == n,
        levels.len() <= 64 && levels.len() <= n ==> first_levels(levels, n).len() == levels.len(),
        64 <= levels.len() && 64 <= n ==> first_levels(levels, n).len() == 64,
        0 <= ch < first_levels(levels, n).len() ==> first_levels(levels, n)[ch] == levels[ch],
{
}

/// Meters at rest show 120 decibels below full scale, on 64 channels each way and on both outputs.
pub proof fn law_meters_at_rest(m: MeterBank, ch: int)
    requires
        m.is_at_rest(),
        0 <= ch < 64,
    ensures
        m.tx_peak_db_x100@.len() == 64 && m.tx_peak_db_x100@[ch] == -12_000,
        m.rx_peak_db_x100@.len() == 64 && m.rx_peak_db_x100@[ch] == -12_000,
        m.input_peak_db_x100@.len() == 64 && m.input_peak_db_x100@[ch] == -12_000,
        m.monitor_peak_db_x100@[0] == -12_000 && m.monitor_peak_db_x100@[1] == -12_000,
{
}

} // verus!
