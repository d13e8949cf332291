//! The command line.

use crate::constants::{DEFAULT_SHARED_TOKEN, MAX_CHANNELS};
use crate::engine::{
    engine_sessions, first_active, first_enabled, first_name, is_active, lemma_first_active,
    sessions_for, token_bytes,
};
use crate::jitter::{effective_buffer_ms, effective_receive_buffer_ms};
use crate::persistence::{
    named_remotes, remote_views, with_names, ConfigView, PersistedRuntimeConfig, RemoteConnection,
    RemoteView,
};
use crate::state::{lowered, EncoderMode, JitterConfig};
use crate::stream::{active_channels, active_count};
use crate::text::{
    chars_of, decimal, decimal_text, is_white_space, law_trimmed, optional_text, parse_unsigned,
    same_text, texts, trim_text, trimmed, unsigned_value,
};
use crate::token::{
    derive_link_token, derive_token_from_text, link_token, parse_token_arg, text_token, token_of_arg,
};
use vstd::prelude::*;

verus! {

// ---------------------------------------------------------------------------------------------
// Modes

/// What the program is asked to do.
#[derive(Clone, Copy, Debug, PartialEq, Eq, Structural)]
pub enum Mode {
    Bidir,
    Help,
    /// One of the modes that there are no more.
    Legacy,
    Unknown,
}

/// What a word asks for; no word asks for the usual.
pub open spec fn mode_of(word: Option<Seq<char>>) -> Mode {
    match word {
        None => Mode::Bidir,
        Some(w) => if w == "bidir"@ || w == "bidirectional"@ {
            Mode::Bidir
        } else if w == "help"@ || w == "--help"@ || w == "-h"@ {
            Mode::Help
        } else if w == "send"@ || w == "recv"@ || w == "echo"@ {
            Mode::Legacy
        } else {
            Mode::Unknown
        },
    }
}

/// What the first argument asks for.
pub fn parse_mode(word: Option<&str>) -> (r: Mode)
    ensures
        r == mode_of(
            match word {
                Some(w) => Some(w@),
                None => None,
            },
        ),
{
    match word {
        None => Mode::Bidir,
        Some(w) => {
            if same_text(w, "bidir") || same_text(w, "bidirectional") {
                Mode::Bidir
            } else if same_text(w, "help") || same_text(w, "--help") || same_text(w, "-h") {
                Mode::Help
            } else if same_text(w, "send") || same_text(w, "recv") || same_text(w, "echo") {
                Mode::Legacy
            } else {
                Mode::Unknown
            }
        },
    }
}

/// The name of a node that was given none: the host name of the environment, else the one that the
/// system tells, else a word for an unknown host. Blank names do not count.
pub open spec fn node_name(env: Option<Seq<char>>, system: Option<Seq<char>>) -> Seq<char> {
    if env is Some && trimmed(env->0).len() > 0 {
        trimmed(env->0)
    } else if system is Some && trimmed(system->0).len() > 0 {
        trimmed(system->0)
    } else {
        "unknown-host"@
    }
}

/// The name of a node that was given none.
pub fn default_node_id(env: Option<String>, system: Option<String>) -> (r: String)
    ensures
        r@ == node_name(optional_text(env), optional_text(system)),
{
    if let Some(v) = &env {
        let name = trim_text(v.as_str());
        if !name.as_str().is_empty() {
            return name;
        }
    }
    if let Some(v) = &system {
        let name = trim_text(v.as_str());
        if !name.as_str().is_empty() {
            return name;
        }
    }
    "unknown-host".to_string()
}

// ---------------------------------------------------------------------------------------------
// Flags

/// An argument by its meaning.
#[derive(Clone, Copy, Debug, PartialEq, Eq, Structural)]
pub enum Flag {
    RemoteHost,
    RemoteName,
    Id,
    Channels,
    Bitrate,
    Latency,
    Token,
    LinkPassword,
    WebPort,
    Web,
    NoWeb,
    NoSend,
    NoRecv,
    FixedJitter,
    NoPhaseLock,
    Rendezvous,
    EncoderMode,
    Interface,
    InputDevice,
    OutputDevice,
    /// A host that stands first without a flag.
    Positional,
    Unknown,
}

/// The meaning of an argument, where `first` says whether it is the first behind the mode.
#[verifier::opaque]
pub open spec fn flag_of(arg: Seq<char>, first: bool) -> Flag {
    if arg == "--remote-host"@ || arg == "-r"@ {
        Flag::RemoteHost
    } else if arg == "--remote-name"@ {
        Flag::RemoteName
    } else if arg == "--id"@ {
        Flag::Id
    } else if arg == "--channels"@ || arg == "-c"@ {
        Flag::Channels
    } else if arg == "--bitrate"@ || arg == "-b"@ {
        Flag::Bitrate
    } else if arg == "--latency-ms"@ || arg == "--buffer"@ {
        Flag::Latency
    } else if arg == "--token"@ {
        Flag::Token
    } else if arg == "--link-password"@ {
        Flag::LinkPassword
    } else if arg == "--web-port"@ {
        Flag::WebPort
    } else if arg == "--web"@ {
        Flag::Web
    } else if arg == "--no-web"@ {
        Flag::NoWeb
    } else if arg == "--no-send"@ {
        Flag::NoSend
    } else if arg == "--no-recv"@ {
        Flag::NoRecv
    } else if arg == "--fixed-jitter"@ {
        Flag::FixedJitter
    } else if arg == "--no-phase-lock"@ {
        Flag::NoPhaseLock
    } else if arg == "--rendezvous"@ {
        Flag::Rendezvous
    } else if arg == "--encoder-mode"@ {
        Flag::EncoderMode
    } else if arg == "--interface"@ {
        Flag::Interface
    } else if arg == "--input-device"@ {
        Flag::InputDevice
    } else if arg == "--output-device"@ {
        Flag::OutputDevice
    } else if first && !(arg.len() > 0 && arg[0] == '-') {
        Flag::Positional
    } else {
        Flag::Unknown
    }
}

/// Whether an argument takes the one behind it as its value.
pub open spec fn takes_value(flag: Flag) -> bool {
    match flag {
        Flag::NoWeb => false,
        Flag::NoSend => false,
        Flag::NoRecv => false,
        Flag::FixedJitter => false,
        Flag::NoPhaseLock => false,
        Flag::Positional => false,
        Flag::Unknown => false,
        _ => true,
    }
}

fn classify(arg: &str, first: bool) -> (r: Flag)
    ensures
        r == flag_of(arg@, first),
{
    proof {
        reveal(flag_of);
    }
    if same_text(arg, "--remote-host") || same_text(arg, "-r") {
        Flag::RemoteHost
    } else if same_text(arg, "--remote-name") {
        Flag::RemoteName
    } else if same_text(arg, "--id") {
        Flag::Id
    } else if same_text(arg, "--channels") || same_text(arg, "-c") {
        Flag::Channels
    } else if same_text(arg, "--bitrate") || same_text(arg, "-b") {
        Flag::Bitrate
    } else if same_text(arg, "--latency-ms") || same_text(arg, "--buffer") {
        Flag::Latency
    } else if same_text(arg, "--token") {
        Flag::Token
    } else if same_text(arg, "--link-password") {
        Flag::LinkPassword
    } else if same_text(arg, "--web-port") {
        Flag::WebPort
    } else if same_text(arg, "--web") {
        Flag::Web
    } else if same_text(arg, "--no-web") {
        Flag::NoWeb
    } else if same_text(arg, "--no-send") {
        Flag::NoSend
    } else if same_text(arg, "--no-recv") {
        Flag::NoRecv
    } else if same_text(arg, "--fixed-jitter") {
        Flag::FixedJitter
    } else if same_text(arg, "--no-phase-lock") {
        Flag::NoPhaseLock
    } else if same_text(arg, "--rendezvous") {
        Flag::Rendezvous
    } else if same_text(arg, "--encoder-mode") {
        Flag::EncoderMode
    } else if same_text(arg, "--interface") {
        Flag::Interface
    } else if same_text(arg, "--input-device") {
        Flag::InputDevice
    } else if same_text(arg, "--output-device") {
        Flag::OutputDevice
    } else {
        let chars = chars_of(arg);
        if first && !(chars.len() > 0 && chars[0] == '-') {
            Flag::Positional
        } else {
            Flag::Unknown
        }
    }
}

fn wants_value(flag: Flag) -> (r: bool)
    ensures
        r == takes_value(flag),
{
    match flag {
        Flag::NoWeb => false,
        Flag::NoSend => false,
        Flag::NoRecv => false,
        Flag::FixedJitter => false,
        Flag::NoPhaseLock => false,
        Flag::Positional => false,
        Flag::Unknown => false,
        _ => true,
    }
}

// ---------------------------------------------------------------------------------------------
// Options

/// What the command line says, over what is kept.
pub struct Options {
    pub remote_host: String,
    pub remote_name: String,
    /// Whether the command line names the remote or its host.
    pub names_remote: bool,
    pub node_id: String,
    pub channels: usize,
    pub bitrate: u32,
    pub latency_ms: u32,
    pub fixed_jitter: bool,
    pub phase_lock: bool,
    pub web_addr: String,
    pub no_web: bool,
    pub no_send: bool,
    pub no_recv: bool,
    pub token: Option<[u8; 16]>,
    pub link_password: Option<String>,
    pub rendezvous_url: Option<String>,
    pub encoder_mode: EncoderMode,
    pub bind_addr: String,
    pub input_device: Option<String>,
    pub output_device: Option<String>,
    /// The arguments that mean nothing.
    pub unknown: Vec<String>,
}

/// What the command line says, over what is kept.
#[verifier::ext_equal]
pub struct OptionsView {
    pub remote_host: Seq<char>,
    pub remote_name: Seq<char>,
    pub names_remote: bool,
    pub node_id: Seq<char>,
    pub channels: usize,
    pub bitrate: u32,
    pub latency_ms: u32,
    pub fixed_jitter: bool,
    pub phase_lock: bool,
    pub web_addr: Seq<char>,
    pub no_web: bool,
    pub no_send: bool,
    pub no_recv: bool,
    pub token: Option<Seq<u8>>,
    pub link_password: Option<Seq<char>>,
    pub rendezvous_url: Option<Seq<char>>,
    pub encoder_mode: EncoderMode,
    pub bind_addr: Seq<char>,
    pub input_device: Option<Seq<char>>,
    pub output_device: Option<Seq<char>>,
    pub unknown: Seq<Seq<char>>,
}

impl View for Options {
    type V = OptionsView;

    open spec fn view(&self) -> OptionsView {
        OptionsView {
            remote_host: self.remote_host@,
            remote_name: self.remote_name@,
            names_remote: self.names_remote,
            node_id: self.node_id@,
            channels: self.channels,
            bitrate: self.bitrate,
            latency_ms: self.latency_ms,
            fixed_jitter: self.fixed_jitter,
            phase_lock: self.phase_lock,
            web_addr: self.web_addr@,
            no_web: self.no_web,
            no_send: self.no_send,
            no_recv: self.no_recv,
            token: match self.token {
                Some(t) => Some(t@),
                None => None,
            },
            link_password: optional_text(self.link_password),
            rendezvous_url: optional_text(self.rendezvous_url),
            encoder_mode: self.encoder_mode,
            bind_addr: self.bind_addr@,
            input_device: optional_text(self.input_device),
            output_device: optional_text(self.output_device),
            unknown: texts(self.unknown@),
        }
    }
}

/// The text of a value, or another where there is none.
pub open spec fn value_or(value: Option<Seq<char>>, other: Seq<char>) -> Seq<char> {
    match value {
        Some(v) => v,
        None => other,
    }
}

/// The number that a value writes, or another where it writes none that fits.
pub open spec fn number_or(value: Option<Seq<char>>, max: nat, other: nat) -> nat {
    match value {
        Some(v) => match unsigned_value(v, max) {
            Some(n) => n,
            None => other,
        },
        None => other,
    }
}

/// The address of the web interface on a port.
pub open spec fn web_on_port(port: nat) -> Seq<char> {
    "0.0.0.0:"@ + decimal(port)
}

impl OptionsView {
    /// What is kept, before any argument.
    pub open spec fn kept(saved: ConfigView, default_id: Seq<char>) -> OptionsView {
        OptionsView {
            remote_host: Seq::empty(),
            remote_name: first_name(saved.remotes),
            names_remote: false,
            node_id: value_or(saved.node_id, default_id),
            channels: match saved.channels {
                Some(n) => n,
                None => 2,
            },
            bitrate: match saved.opus_bitrate_per_channel {
                Some(n) => n,
                None => 128_000,
            },
            latency_ms: match saved.latency_ms {
                Some(n) => n,
                None => 100,
            },
            fixed_jitter: match saved.fixed_jitter {
                Some(on) => on,
                None => false,
            },
            phase_lock: match saved.phase_lock {
                Some(on) => on,
                None => true,
            },
            web_addr: web_on_port(8080),
            no_web: false,
            no_send: false,
            no_recv: false,
            token: match saved.token_hex {
                Some(hex) => Some(token_of_arg(hex)),
                None => None,
            },
            link_password: match first_active(saved.remotes) {
                Some(r) => r.password,
                None => None,
            },
            rendezvous_url: saved.rendezvous_url,
            encoder_mode: match saved.encoder_mode {
                Some(mode) => mode,
                None => EncoderMode::Music,
            },
            bind_addr: value_or(saved.bind_addr, "0.0.0.0"@),
            input_device: saved.selected_input_device,
            output_device: saved.selected_output_device,
            unknown: Seq::empty(),
        }
    }

    /// The options after one more argument, with the value that it takes.
    #[verifier::opaque]
    pub open spec fn with(
        self,
        flag: Flag,
        arg: Seq<char>,
        value: Option<Seq<char>>,
        default_id: Seq<char>,
    ) -> OptionsView {
        match flag {
            Flag::RemoteHost => OptionsView {
                remote_host: value_or(value, Seq::empty()),
                names_remote: true,
                ..self
            },
            Flag::RemoteName => OptionsView {
                remote_name: value_or(value, Seq::empty()),
                names_remote: true,
                ..self
            },
            Flag::Id => OptionsView { node_id: value_or(value, default_id), ..self },
            Flag::Channels => OptionsView {
                channels: number_or(value, usize::MAX as nat, self.channels as nat) as usize,
                ..self
            },
            Flag::Bitrate => OptionsView {
                bitrate: number_or(value, u32::MAX as nat, self.bitrate as nat) as u32,
                ..self
            },
            Flag::Latency => OptionsView {
                latency_ms: number_or(value, u32::MAX as nat, self.latency_ms as nat) as u32,
                ..self
            },
            Flag::Token => OptionsView {
                token: match value {
                    Some(v) => Some(token_of_arg(v)),
                    None => self.token,
                },
                ..self
            },
            Flag::LinkPassword => OptionsView { link_password: value, ..self },
            Flag::WebPort => OptionsView {
                web_addr: web_on_port(number_or(value, u16::MAX as nat, 8080)),
                ..self
            },
            Flag::Web => OptionsView { web_addr: value_or(value, self.web_addr), ..self },
            Flag::NoWeb => OptionsView { no_web: true, ..self },
            Flag::NoSend => OptionsView { no_send: true, ..self },
            Flag::NoRecv => OptionsView { no_recv: true, ..self },
            Flag::FixedJitter => OptionsView { fixed_jitter: true, ..self },
            Flag::NoPhaseLock => OptionsView { phase_lock: false, ..self },
            Flag::Rendezvous => OptionsView { rendezvous_url: value, ..self },
            Flag::EncoderMode => OptionsView {
                encoder_mode: match value {
                    Some(v) => EncoderMode::of_word(lowered(trimmed(v))),
                    None => self.encoder_mode,
                },
                ..self
            },
            Flag::Interface => OptionsView { bind_addr: value_or(value, self.bind_addr), ..self },
            Flag::InputDevice => OptionsView { input_device: value, ..self },
            Flag::OutputDevice => OptionsView { output_device: value, ..self },
            Flag::Positional => OptionsView { remote_host: arg, names_remote: true, ..self },
            Flag::Unknown => OptionsView { unknown: self.unknown.push(arg), ..self },
        }
    }
}

/// The value that an argument takes: the one behind it, if there is one.
pub open spec fn value_at(args: Seq<Seq<char>>, i: int) -> Option<Seq<char>> {
    if i + 1 < args.len() {
        Some(args[i + 1])
    } else {
        None
    }
}

/// The options after the arguments from the `i`-th on; the first two are the program and its mode.
pub open spec fn options_from(
    o: OptionsView,
    args: Seq<Seq<char>>,
    i: int,
    default_id: Seq<char>,
) -> OptionsView
    decreases args.len() - i + 1,
{
    if i >= args.len() {
        o
    } else {
        let flag = flag_of(args[i], i == 2);
        options_from(
            o.with(flag, args[i], value_at(args, i), default_id),
            args,
            if takes_value(flag) {
                i + 2
            } else {
                i + 1
            },
            default_id,
        )
    }
}

fn number(value: &Option<String>, max: u64, other: u64) -> (r: u64)
    requires
        other <= max,
    ensures
        r == number_or(optional_text(*value), max as nat, other as nat),
        r <= max,
{
    match value {
        Some(v) => {
            let chars = chars_of(v.as_str());
            match parse_unsigned(chars.as_slice(), max) {
                Some(n) => n,
                None => other,
            }
        },
        None => other,
    }
}

fn text_value(value: Option<String>, other: String) -> (r: String)
    ensures
        r@ == value_or(optional_text(value), other@),
{
    match value {
        Some(v) => v,
        None => other,
    }
}

fn token_value(s: &str) -> (r: Option<[u8; 16]>)
    ensures
        r matches Some(t) && t@ == token_of_arg(s@),
{
    match parse_token_arg(s) {
        Ok(t) => Some(t),
        Err(_) => None,
    }
}

impl Options {
    /// What is kept, before any argument.
    pub fn from_saved(saved: &PersistedRuntimeConfig, default_id: &str) -> (r: Self)
        ensures
            r@ == OptionsView::kept(saved@, default_id@),
    {
        let ghost views = remote_views(saved.remotes@);
        let blank = String::new();
        assert(blank@ =~= Seq::<char>::empty());
        let mut remote_name = blank.clone();
        let mut link_password: Option<String> = None;
        let mut found: bool = false;
        let count: usize = saved.remotes.len();
        assert(views.skip(0) =~= views);
        for i in 0..count
            invariant
                count == saved.remotes@.len(),
                views == remote_views(saved.remotes@),
                !found ==> first_active(views) == first_active(views.skip(i as int))
                    && remote_name@.len() == 0 && link_password is None,
                found ==> first_active(views) is Some && first_active(views)->0.name == remote_name@
                    && first_active(views)->0.password == optional_text(link_password),
        {
            if !found {
                assert(views.skip(i as int)[0] == saved.remotes@[i as int]@);
                assert(views.skip(i as int).skip(1) =~= views.skip(i + 1));
                if saved.remotes[i].enabled && !saved.remotes[i].name.as_str().is_empty() {
                    assert(is_active(views.skip(i as int)[0]));
                    remote_name = saved.remotes[i].name.clone();
                    link_password = saved.remotes[i].password.clone();
                    found = true;
                }
            }
        }
        assert(!found ==> remote_name@ =~= Seq::<char>::empty());
        let token: Option<[u8; 16]> = match &saved.token_hex {
            Some(hex) => token_value(hex.as_str()),
            None => None,
        };
        let mut web_addr = "0.0.0.0:".to_string();
        web_addr.append(decimal_text(8080).as_str());
        let r = Options {
            remote_host: blank,
            remote_name,
            names_remote: false,
            node_id: text_value(saved.node_id.clone(), default_id.to_string()),
            channels: match saved.channels {
                Some(n) => n,
                None => 2,
            },
            bitrate: match saved.opus_bitrate_per_channel {
                Some(n) => n,
                None => 128_000,
            },
            latency_ms: match saved.latency_ms {
                Some(n) => n,
                None => 100,
            },
            fixed_jitter: match saved.fixed_jitter {
                Some(on) => on,
                None => false,
            },
            phase_lock: match saved.phase_lock {
                Some(on) => on,
                None => true,
            },
            web_addr,
            no_web: false,
            no_send: false,
            no_recv: false,
            token,
            link_password,
            rendezvous_url: saved.rendezvous_url.clone(),
            encoder_mode: match saved.encoder_mode {
                Some(mode) => mode,
                None => EncoderMode::default(),
            },
            bind_addr: text_value(saved.bind_addr.clone(), "0.0.0.0".to_string()),
            input_device: saved.selected_input_device.clone(),
            output_device: saved.selected_output_device.clone(),
            unknown: Vec::new(),
        };
        assert(r@ =~= OptionsView::kept(saved@, default_id@));
        r
    }

    /// Takes in one more argument, with the value that it takes.
    pub fn apply(&mut self, flag: Flag, arg: &str, value: Option<String>, default_id: &str)
        ensures
            final(self)@ == old(self)@.with(flag, arg@, optional_text(value), default_id@),
    {
        proof {
            reveal(OptionsView::with);
        }
        match flag {
            Flag::RemoteHost => {
                let blank = String::new();
                assert(blank@ =~= Seq::<char>::empty());
                self.remote_host = text_value(value, blank);
                self.names_remote = true;
            },
            Flag::RemoteName => {
                let blank = String::new();
                assert(blank@ =~= Seq::<char>::empty());
                self.remote_name = text_value(value, blank);
                self.names_remote = true;
            },
            Flag::Id => {
                self.node_id = text_value(value, default_id.to_string());
            },
            Flag::Channels => {
                self.channels = number(&value, usize::MAX as u64, self.channels as u64) as usize;
            },
            Flag::Bitrate => {
                self.bitrate = number(&value, u32::MAX as u64, self.bitrate as u64) as u32;
            },
            Flag::Latency => {
                self.latency_ms = number(&value, u32::MAX as u64, self.latency_ms as u64) as u32;
            },
            Flag::Token => {
                if let Some(v) = &value {
                    self.token = token_value(v.as_str());
                }
            },
            Flag::LinkPassword => {
                self.link_password = value;
            },
            Flag::WebPort => {
                let port: u64 = number(&value, u16::MAX as u64, 8080);
                let mut web_addr = "0.0.0.0:".to_string();
                web_addr.append(decimal_text(port).as_str());
                self.web_addr = web_addr;
            },
            Flag::Web => {
                if let Some(v) = value {
                    self.web_addr = v;
                }
            },
            Flag::NoWeb => {
                self.no_web = true;
            },
            Flag::NoSend => {
                self.no_send = true;
            },
            Flag::NoRecv => {
                self.no_recv = true;
            },
            Flag::FixedJitter => {
                self.fixed_jitter = true;
            },
            Flag::NoPhaseLock => {
                self.phase_lock = false;
            },
            Flag::Rendezvous => {
                self.rendezvous_url = value;
            },
            Flag::EncoderMode => {
                if let Some(v) = &value {
                    self.encoder_mode = EncoderMode::parse(v.as_str());
                }
            },
            Flag::Interface => {
                if let Some(v) = value {
                    self.bind_addr = v;
                }
            },
            Flag::InputDevice => {
                self.input_device = value;
            },
            Flag::OutputDevice => {
                self.output_device = value;
            },
            Flag::Positional => {
                self.remote_host = arg.to_string();
                self.names_remote = true;
            },
            Flag::Unknown => {
                self.unknown.push(arg.to_string());
                assert(self@.unknown =~= old(self)@.unknown.push(arg@));
            },
        }
    }
}

/// The options that the arguments and what is kept come to.
pub fn parse_options(args: &[String], saved: &PersistedRuntimeConfig, default_id: &str) -> (r: Options)
    ensures
        r@ == options_from(
            OptionsView::kept(saved@, default_id@),
            texts(args@),
            2,
            default_id@,
        ),
{
    let ghost all = texts(args@);
    let mut o = Options::from_saved(saved, default_id);
    let ghost start = o@;
    let mut i: usize = 2;
    while i < args.len()
        invariant
            all == texts(args@),
            i >= 2,
            options_from(o@, all, i as int, default_id@) == options_from(
                start,
                all,
                2,
                default_id@,
            ),
        decreases args.len() - i,
    {
        let ghost here = o@;
        let ghost at = i as int;
        let flag = classify(args[i].as_str(), i == 2);
        let value: Option<String> = if args.len() - i > 1 {
            Some(args[i + 1].clone())
        } else {
            None
        };
        assert(optional_text(value) == value_at(all, i as int));
        o.apply(flag, args[i].as_str(), value, default_id);
        let ghost next = if takes_value(flag) {
            at + 2
        } else {
            at + 1
        };
        assert(all[at] == args@[at]@);
        assert(options_from(here, all, at, default_id@) == options_from(o@, all, next, default_id@));
        if wants_value(flag) {
            if args.len() - i <= 2 {
                i = args.len();
                assert(options_from(o@, all, next, default_id@) == o@);
                assert(options_from(o@, all, all.len() as int, default_id@) == o@);
            } else {
                i = i + 2;
            }
        } else {
            i = i + 1;
        }
    }
    o
}

// ---------------------------------------------------------------------------------------------
// The plan

/// What the program does.
pub struct BidirPlan {
    /// Whether only the web interface starts, because no remote is known.
    pub web_first: bool,
    /// The address of the web interface, if there is one.
    pub web_addr: Option<String>,
    pub remotes: Vec<RemoteConnection>,
    pub channels: usize,
    pub jitter: JitterConfig,
    pub shared_token: [u8; 16],
    /// The token of the link, where it is not the one that the names come to.
    pub explicit_token: Option<[u8; 16]>,
    pub device_name_token: [u8; 16],
}

/// The token that the options mean: the explicit one; else that of the link to the remote; else the
/// one of a link without names.
pub open spec fn options_token(o: OptionsView) -> Seq<u8> {
    match o.token {
        Some(t) => t,
        None => if o.remote_name.len() > 0 {
            link_token(o.node_id, o.remote_name, o.link_password)
        } else {
            DEFAULT_SHARED_TOKEN@
        },
    }
}

/// The remotes of the engine: the one that the command line names, with or without a name of its
/// own, else those that are kept under a name.
pub open spec fn options_remotes(o: OptionsView, saved: ConfigView) -> Seq<RemoteView> {
    if o.names_remote {
        seq![
            RemoteView {
                index: 0,
                name: o.remote_name,
                ip_override: o.remote_host,
                password: o.link_password,
                channels_to_send: Seq::empty(),
                enabled: true,
            },
        ]
    } else {
        with_names(saved.remotes)
    }
}

/// The explicit token, which is that of the remote that the command line names, or of an endpoint
/// without remotes; remotes that are kept have the tokens of their names.
pub open spec fn explicit_token(o: OptionsView, saved: ConfigView) -> Option<Seq<u8>> {
    if o.names_remote || with_names(saved.remotes).len() == 0 {
        o.token
    } else {
        None
    }
}

/// What the program does with these options.
pub fn plan_bidir(o: &Options, saved: &PersistedRuntimeConfig) -> (r: BidirPlan)
    ensures
        r.web_first == (o@.remote_host.len() == 0 && o@.remote_name.len() == 0 && !o@.no_web),
        optional_text(r.web_addr) == if o@.no_web {
            None
        } else {
            Some(o@.web_addr)
        },
        remote_views(r.remotes@) == options_remotes(o@, saved@),
        r.channels == active_channels(o@.channels as int),
        r.jitter == (JitterConfig {
            configured_delay_ms: o@.latency_ms,
            target_delay_ms: effective_buffer_ms(o@.latency_ms),
            adaptive: !o@.fixed_jitter,
            phase_lock: o@.phase_lock,
        }),
        r.shared_token@ == options_token(o@),
        token_bytes(r.explicit_token) == explicit_token(o@, saved@),
        r.device_name_token@ == text_token(o@.node_id),
{
    let shared_token: [u8; 16] = match o.token {
        Some(t) => t,
        None => {
            if o.remote_name.as_str().is_empty() {
                DEFAULT_SHARED_TOKEN
            } else {
                let password: Option<&str> = match &o.link_password {
                    Some(p) => Some(p.as_str()),
                    None => None,
                };
                derive_link_token(o.node_id.as_str(), o.remote_name.as_str(), password)
            }
        },
    };
    let remotes: Vec<RemoteConnection> = if o.names_remote {
        let one = RemoteConnection {
            index: 0,
            name: o.remote_name.clone(),
            ip_override: o.remote_host.clone(),
            password: o.link_password.clone(),
            channels_to_send: Vec::new(),
            enabled: true,
        };
        let mut list: Vec<RemoteConnection> = Vec::new();
        list.push(one);
        assert(remote_views(list@)[0] =~= options_remotes(o@, saved@)[0]);
        assert(remote_views(list@) =~= options_remotes(o@, saved@));
        list
    } else {
        named_remotes(&saved.remotes)
    };
    let explicit: bool = o.names_remote || remotes.len() == 0;
    assert(remote_views(remotes@).len() == remotes@.len());
    BidirPlan {
        web_first: o.remote_host.as_str().is_empty() && o.remote_name.as_str().is_empty()
            && !o.no_web,
        web_addr: if o.no_web {
            None
        } else {
            Some(o.web_addr.clone())
        },
        remotes,
        channels: active_count(o.channels),
        jitter: JitterConfig {
            configured_delay_ms: o.latency_ms,
            target_delay_ms: effective_receive_buffer_ms(o.latency_ms),
            adaptive: !o.fixed_jitter,
            phase_lock: o.phase_lock,
        },
        shared_token,
        explicit_token: if explicit {
            o.token
        } else {
            None
        },
        device_name_token: derive_token_from_text(o.node_id.as_str()),
    }
}

/// The engine links with the remote that the command line names: it calls the host that was given,
/// or waits where none was, with the token that the options mean.
pub proof fn law_named_remote_is_linked(o: OptionsView, saved: ConfigView, n: int)
    requires
        o.names_remote,
        1 <= n <= MAX_CHANNELS,
    ensures
        ({
            let sessions = engine_sessions(
                options_remotes(o, saved),
                o.node_id,
                explicit_token(o, saved),
                n,
            );
            &&& sessions.len() == 1
            &&& sessions[0].token == options_token(o)
            &&& sessions[0].remote_device_name == o.remote_name
            &&& sessions[0].remote_host == o.remote_host
            &&& sessions[0].is_initiator == (trimmed(o.remote_host).len() > 0)
            &&& sessions[0].rx_channel_offset == 0
        }),
{
    let remotes = options_remotes(o, saved);
    reveal_with_fuel(sessions_for, 2);
    reveal_with_fuel(first_active, 2);
    reveal_with_fuel(first_enabled, 2);
    assert(remotes.drop_last() =~= Seq::<RemoteView>::empty());
    assert(remotes.skip(1) =~= Seq::<RemoteView>::empty());
    assert(0 * n == 0) by (nonlinear_arith);
    if o.remote_name.len() == 0 {
        assert(o.remote_name =~= Seq::<char>::empty());
    }
}

proof fn lemma_first_enabled_is_active(remotes: Seq<RemoteView>)
    requires
        forall|i: int| 0 <= i < remotes.len() ==> (#[trigger] remotes[i]).name.len() > 0,
    ensures
        first_active(remotes) is None ==> first_enabled(remotes) is None,
    decreases remotes.len(),
{
    if remotes.len() > 0 {
        let rest = remotes.skip(1);
        assert forall|i: int| 0 <= i < rest.len() implies (#[trigger] rest[i]).name.len() > 0 by {
            assert(rest[i] == remotes[i + 1]);
        }
        lemma_first_enabled_is_active(rest);
    }
}

proof fn lemma_sessions_have_names(
    remotes: Seq<RemoteView>,
    node_id: Seq<char>,
    explicit: Option<Seq<u8>>,
    n: int,
)
    ensures
        forall|i: int|
            0 <= i < sessions_for(remotes, node_id, explicit, n).len() ==> (#[trigger] sessions_for(
                remotes,
                node_id,
                explicit,
                n,
            )[i]).remote_device_name.len() > 0,
    decreases remotes.len(),
{
    if remotes.len() > 0 {
        lemma_sessions_have_names(remotes.drop_last(), node_id, explicit, n);
        let before = sessions_for(remotes.drop_last(), node_id, explicit, n);
        let sessions = sessions_for(remotes, node_id, explicit, n);
        assert forall|i: int| 0 <= i < sessions.len() implies (#[trigger] sessions[i]).remote_device_name.len()
            > 0 by {
            if i < before.len() {
                assert(sessions[i] == before[i]);
            } else {
                assert(is_active(remotes.last()));
            }
        }
    }
}

/// Nobody is called whom neither the command line nor a kept name speaks of: without a remote on the
/// command line, a session that calls has a name.
pub proof fn law_kept_host_needs_a_name(o: OptionsView, saved: ConfigView, n: int, i: int)
    requires
        !o.names_remote,
        0 <= i < engine_sessions(
            options_remotes(o, saved),
            o.node_id,
            explicit_token(o, saved),
            n,
        ).len(),
    ensures
        ({
            let session = engine_sessions(
                options_remotes(o, saved),
                o.node_id,
                explicit_token(o, saved),
                n,
            )[i];
            session.is_initiator ==> session.remote_device_name.len() > 0
        }),
{
    let remotes = options_remotes(o, saved);
    let named = |r: RemoteView| r.name.len() > 0;
    assert forall|k: int| 0 <= k < remotes.len() implies (#[trigger] remotes[k]).name.len() > 0 by {
        saved.remotes.lemma_filter_pred(named, k);
    }
    lemma_first_enabled_is_active(remotes);
    lemma_sessions_have_names(remotes, o.node_id, explicit_token(o, saved), n);
    assert(trimmed(Seq::<char>::empty()).len() == 0);
}

// ---------------------------------------------------------------------------------------------
// What the arguments mean

/// The words for the modes.
pub proof fn law_words_for_the_mode(w: Seq<char>)
    ensures
        mode_of(None) == Mode::Bidir,
        mode_of(Some(w)) == Mode::Bidir <==> w == "bidir"@ || w == "bidirectional"@,
        mode_of(Some(w)) == Mode::Help <==> w == "help"@ || w == "--help"@ || w == "-h"@,
        mode_of(Some(w)) == Mode::Legacy <==> w == "send"@ || w == "recv"@ || w == "echo"@,
        mode_of(Some(w)) == Mode::Unknown <==> !(w == "bidir"@ || w == "bidirectional"@ || w == "help"@
            || w == "--help"@ || w == "-h"@ || w == "send"@ || w == "recv"@ || w == "echo"@),
{
    reveal_strlit("bidir");
    reveal_strlit("bidirectional");
    reveal_strlit("help");
    reveal_strlit("--help");
    reveal_strlit("-h");
    reveal_strlit("send");
    reveal_strlit("recv");
    reveal_strlit("echo");
    assert("bidir"@.len() == 5 && "bidirectional"@.len() == 13 && "help"@.len() == 4);
    assert("--help"@.len() == 6 && "-h"@.len() == 2 && "send"@.len() == 4);
    assert("recv"@.len() == 4 && "echo"@.len() == 4);
    assert("help"@[0] == 'h' && "send"@[0] == 's' && "recv"@[0] == 'r' && "echo"@[0] == 'e');
}

/// A device is named as the environment says, else as the system is called, without the white space at
/// the ends; and where neither is more than white space it has a name that says so.
pub proof fn law_name_of_the_device(env: Seq<char>, system: Seq<char>)
    ensures
        ({
            let env_blank = forall|k: int| 0 <= k < env.len() ==> is_white_space(#[trigger] env[k]);
            let system_blank = forall|k: int|
                0 <= k < system.len() ==> is_white_space(#[trigger] system[k]);
            &&& !env_blank ==> node_name(Some(env), Some(system)) == trimmed(env) && node_name(
                Some(env),
                None,
            ) == trimmed(env)
            &&& env_blank && !system_blank ==> node_name(Some(env), Some(system)) == trimmed(system)
            &&& !system_blank ==> node_name(None, Some(system)) == trimmed(system)
            &&& env_blank && system_blank ==> node_name(Some(env), Some(system)) == "unknown-host"@
            &&& system_blank ==> node_name(None, Some(system)) == "unknown-host"@
            &&& env_blank ==> node_name(Some(env), None) == "unknown-host"@
            &&& node_name(None, None) == "unknown-host"@
        }),
{
    law_trimmed(env);
    law_trimmed(system);
}

proof fn lemma_every_flag(first: bool)
    ensures
        flag_of("--remote-host"@, first) == Flag::RemoteHost,
        flag_of("-r"@, first) == Flag::RemoteHost,
        flag_of("--remote-name"@, first) == Flag::RemoteName,
        flag_of("--id"@, first) == Flag::Id,
        flag_of("--channels"@, first) == Flag::Channels,
        flag_of("-c"@, first) == Flag::Channels,
        flag_of("--bitrate"@, first) == Flag::Bitrate,
        flag_of("-b"@, first) == Flag::Bitrate,
        flag_of("--latency-ms"@, first) == Flag::Latency,
        flag_of("--buffer"@, first) == Flag::Latency,
        flag_of("--token"@, first) == Flag::Token,
        flag_of("--link-password"@, first) == Flag::LinkPassword,
        flag_of("--web-port"@, first) == Flag::WebPort,
        flag_of("--web"@, first) == Flag::Web,
        flag_of("--no-web"@, first) == Flag::NoWeb,
        flag_of("--no-send"@, first) == Flag::NoSend,
        flag_of("--no-recv"@, first) == Flag::NoRecv,
        flag_of("--fixed-jitter"@, first) == Flag::FixedJitter,
        flag_of("--no-phase-lock"@, first) == Flag::NoPhaseLock,
        flag_of("--rendezvous"@, first) == Flag::Rendezvous,
        flag_of("--encoder-mode"@, first) == Flag::EncoderMode,
        flag_of("--interface"@, first) == Flag::Interface,
        flag_of("--input-device"@, first) == Flag::InputDevice,
        flag_of("--output-device"@, first) == Flag::OutputDevice,
{
    reveal(flag_of);
    reveal_strlit("--remote-host");
    reveal_strlit("-r");
    reveal_strlit("--remote-name");
    reveal_strlit("--id");
    reveal_strlit("--channels");
    reveal_strlit("-c");
    reveal_strlit("--bitrate");
    reveal_strlit("-b");
    reveal_strlit("--latency-ms");
    reveal_strlit("--buffer");
    reveal_strlit("--token");
    reveal_strlit("--link-password");
    reveal_strlit("--web-port");
    reveal_strlit("--web");
    reveal_strlit("--no-web");
    reveal_strlit("--no-send");
    reveal_strlit("--no-recv");
    reveal_strlit("--fixed-jitter");
    reveal_strlit("--no-phase-lock");
    reveal_strlit("--rendezvous");
    reveal_strlit("--encoder-mode");
    reveal_strlit("--interface");
    reveal_strlit("--input-device");
    reveal_strlit("--output-device");
    assert("--remote-host"@.len() == 13);
    assert("-r"@.len() == 2);
    assert("--remote-name"@.len() == 13);
    assert("--id"@.len() == 4);
    assert("--channels"@.len() == 10);
    assert("-c"@.len() == 2);
    assert("--bitrate"@.len() == 9);
    assert("-b"@.len() == 2);
    assert("--latency-ms"@.len() == 12);
    assert("--buffer"@.len() == 8);
    assert("--token"@.len() == 7);
    assert("--link-password"@.len() == 15);
    assert("--web-port"@.len() == 10);
    assert("--web"@.len() == 5);
    assert("--no-web"@.len() == 8);
    assert("--no-send"@.len() == 9);
    assert("--no-recv"@.len() == 9);
    assert("--fixed-jitter"@.len() == 14);
    assert("--no-phase-lock"@.len() == 15);
    assert("--rendezvous"@.len() == 12);
    assert("--encoder-mode"@.len() == 14);
    assert("--interface"@.len() == 11);
    assert("--input-device"@.len() == 14);
    assert("--output-device"@.len() == 15);
    assert("--remote-host"@[9] == 'h' && "--remote-name"@[9] == 'n');
    assert("-r"@[1] == 'r' && "-c"@[1] == 'c');
    assert("-r"@[1] == 'r' && "-b"@[1] == 'b');
    assert("--channels"@[2] == 'c' && "--web-port"@[2] == 'w');
    assert("-c"@[1] == 'c' && "-b"@[1] == 'b');
    assert("--bitrate"@[2] == 'b' && "--no-send"@[2] == 'n');
    assert("--bitrate"@[2] == 'b' && "--no-recv"@[2] == 'n');
    assert("--latency-ms"@[2] == 'l' && "--rendezvous"@[2] == 'r');
    assert("--buffer"@[2] == 'b' && "--no-web"@[2] == 'n');
    assert("--link-password"@[2] == 'l' && "--no-phase-lock"@[2] == 'n');
    assert("--link-password"@[2] == 'l' && "--output-device"@[2] == 'o');
    assert("--no-send"@[5] == 's' && "--no-recv"@[5] == 'r');
    assert("--fixed-jitter"@[2] == 'f' && "--encoder-mode"@[2] == 'e');
    assert("--fixed-jitter"@[2] == 'f' && "--input-device"@[2] == 'i');
    assert("--no-phase-lock"@[2] == 'n' && "--output-device"@[2] == 'o');
    assert("--encoder-mode"@[2] == 'e' && "--input-device"@[2] == 'i');
}

/// Numbers on the command line: of channels, bits in a second, milliseconds and the port of the web
/// interface. What cannot be read changes nothing, but that the web interface then has its usual port.
pub proof fn law_numbers_on_the_command_line(
    o: OptionsView,
    args: Seq<Seq<char>>,
    i: int,
    default_id: Seq<char>,
    n: nat,
)
    requires
        2 <= i < args.len() - 1,
    ensures
        ({
            let v = args[i + 1];
            let all = options_from(o, args, i, default_id);
            &&& (args[i] == "--channels"@ || args[i] == "-c"@) && unsigned_value(v, usize::MAX as nat)
                == Some(n) ==> all == options_from(
                (OptionsView { channels: n as usize, ..o }),
                args,
                i + 2,
                default_id,
            )
            &&& (args[i] == "--channels"@ || args[i] == "-c"@) && unsigned_value(v, usize::MAX as nat)
                is None ==> all == options_from(o, args, i + 2, default_id)
            &&& (args[i] == "--bitrate"@ || args[i] == "-b"@) && unsigned_value(v, u32::MAX as nat)
                == Some(n) ==> all == options_from(
                (OptionsView { bitrate: n as u32, ..o }),
                args,
                i + 2,
                default_id,
            )
            &&& (args[i] == "--bitrate"@ || args[i] == "-b"@) && unsigned_value(v, u32::MAX as nat) is None
                ==> all == options_from(o, args, i + 2, default_id)
            &&& (args[i] == "--latency-ms"@ || args[i] == "--buffer"@) && unsigned_value(
                v,
                u32::MAX as nat,
            ) == Some(n) ==> all == options_from(
                (OptionsView { latency_ms: n as u32, ..o }),
                args,
                i + 2,
                default_id,
            )
            &&& (args[i] == "--latency-ms"@ || args[i] == "--buffer"@) && unsigned_value(
                v,
                u32::MAX as nat,
            ) is None ==> all == options_from(o, args, i + 2, default_id)
            &&& args[i] == "--web-port"@ && unsigned_value(v, 65_535) == Some(n) ==> all == options_from(
                (OptionsView { web_addr: "0.0.0.0:"@ + decimal(n), ..o }),
                args,
                i + 2,
                default_id,
            )
            &&& args[i] == "--web-port"@ && unsigned_value(v, 65_535) is None ==> all == options_from(
                (OptionsView { web_addr: "0.0.0.0:"@ + decimal(8080), ..o }),
                args,
                i + 2,
                default_id,
            )
        }),
{
    lemma_every_flag(i == 2);
    reveal(OptionsView::with);
    let flag = flag_of(args[i], i == 2);
    let next = o.with(flag, args[i], value_at(args, i), default_id);
    if takes_value(flag) {
        assert(options_from(o, args, i, default_id) == options_from(next, args, i + 2, default_id));
    }
}

/// Texts on the command line: each option sets what it is named for to the text behind it and nothing
/// else, and to name a host or a device counts as naming the remote.
pub proof fn law_texts_on_the_command_line(
    o: OptionsView,
    args: Seq<Seq<char>>,
    i: int,
    default_id: Seq<char>,
)
    requires
        2 <= i < args.len() - 1,
    ensures
        ({
            let v = args[i + 1];
            let all = options_from(o, args, i, default_id);
            &&& args[i] == "--remote-host"@ || args[i] == "-r"@ ==> all == options_from(
                (OptionsView { remote_host: v, names_remote: true, ..o }),
                args,
                i + 2,
                default_id,
            )
            &&& args[i] == "--remote-name"@ ==> all == options_from(
                (OptionsView { remote_name: v, names_remote: true, ..o }),
                args,
                i + 2,
                default_id,
            )
            &&& args[i] == "--id"@ ==> all == options_from(
                (OptionsView { node_id: v, ..o }),
                args,
                i + 2,
                default_id,
            )
            &&& args[i] == "--token"@ ==> all == options_from(
                (OptionsView { token: Some(token_of_arg(v)), ..o }),
                args,
                i + 2,
                default_id,
            )
            &&& args[i] == "--link-password"@ ==> all == options_from(
                (OptionsView { link_password: Some(v), ..o }),
                args,
                i + 2,
                default_id,
            )
            &&& args[i] == "--web"@ ==> all == options_from(
                (OptionsView { web_addr: v, ..o }),
                args,
                i + 2,
                default_id,
            )
            &&& args[i] == "--rendezvous"@ ==> all == options_from(
                (OptionsView { rendezvous_url: Some(v), ..o }),
                args,
                i + 2,
                default_id,
            )
            &&& args[i] == "--interface"@ ==> all == options_from(
                (OptionsView { bind_addr: v, ..o }),
                args,
                i + 2,
                default_id,
            )
            &&& args[i] == "--input-device"@ ==> all == options_from(
                (OptionsView { input_device: Some(v), ..o }),
                args,
                i + 2,
                default_id,
            )
            &&& args[i] == "--output-device"@ ==> all == options_from(
                (OptionsView { output_device: Some(v), ..o }),
                args,
                i + 2,
                default_id,
            )
            &&& args[i] == "--encoder-mode"@ ==> all == options_from(
                (OptionsView { encoder_mode: EncoderMode::of_word(lowered(trimmed(v))), ..o }),
                args,
                i + 2,
                default_id,
            )
        }),
{
    lemma_every_flag(i == 2);
    reveal(OptionsView::with);
    let flag = flag_of(args[i], i == 2);
    let next = o.with(flag, args[i], value_at(args, i), default_id);
    if takes_value(flag) {
        assert(options_from(o, args, i, default_id) == options_from(next, args, i + 2, default_id));
    }
}

/// Switches on the command line, which have no value, and the host of the remote, which may stand first
/// without a flag. What means nothing is noted and passed over.
pub proof fn law_switches_on_the_command_line(
    o: OptionsView,
    args: Seq<Seq<char>>,
    i: int,
    default_id: Seq<char>,
)
    requires
        2 <= i < args.len(),
    ensures
        ({
            let all = options_from(o, args, i, default_id);
            &&& args[i] == "--no-web"@ ==> all == options_from(
                (OptionsView { no_web: true, ..o }),
                args,
                i + 1,
                default_id,
            )
            &&& args[i] == "--no-send"@ ==> all == options_from(
                (OptionsView { no_send: true, ..o }),
                args,
                i + 1,
                default_id,
            )
            &&& args[i] == "--no-recv"@ ==> all == options_from(
                (OptionsView { no_recv: true, ..o }),
                args,
                i + 1,
                default_id,
            )
            &&& args[i] == "--fixed-jitter"@ ==> all == options_from(
                (OptionsView { fixed_jitter: true, ..o }),
                args,
                i + 1,
                default_id,
            )
            &&& args[i] == "--no-phase-lock"@ ==> all == options_from(
                (OptionsView { phase_lock: false, ..o }),
                args,
                i + 1,
                default_id,
            )
            &&& args[i].len() == 0 || args[i][0] != '-' ==> all == options_from(
                if i == 2 {
                    OptionsView { remote_host: args[i], names_remote: true, ..o }
                } else {
                    OptionsView { unknown: o.unknown.push(args[i]), ..o }
                },
                args,
                i + 1,
                default_id,
            )
        }),
{
    lemma_every_flag(i == 2);
    if args[i].len() == 0 || args[i][0] != '-' {
        lemma_no_flag(args[i], i == 2);
    }
    reveal(OptionsView::with);
    let flag = flag_of(args[i], i == 2);
    let next = o.with(flag, args[i], value_at(args, i), default_id);
    if !takes_value(flag) {
        assert(options_from(o, args, i, default_id) == options_from(next, args, i + 1, default_id));
    }
}

proof fn lemma_no_flag(arg: Seq<char>, first: bool)
    requires
        arg.len() == 0 || arg[0] != '-',
    ensures
        flag_of(arg, first) == if first {
            Flag::Positional
        } else {
            Flag::Unknown
        },
{
    reveal(flag_of);
    reveal_strlit("--remote-host");
    reveal_strlit("-r");
    reveal_strlit("--remote-name");
    reveal_strlit("--id");
    reveal_strlit("--channels");
    reveal_strlit("-c");
    reveal_strlit("--bitrate");
    reveal_strlit("-b");
    reveal_strlit("--latency-ms");
    reveal_strlit("--buffer");
    reveal_strlit("--token");
    reveal_strlit("--link-password");
    reveal_strlit("--web-port");
    reveal_strlit("--web");
    reveal_strlit("--no-web");
    reveal_strlit("--no-send");
    reveal_strlit("--no-recv");
    reveal_strlit("--fixed-jitter");
    reveal_strlit("--no-phase-lock");
    reveal_strlit("--rendezvous");
    reveal_strlit("--encoder-mode");
    reveal_strlit("--interface");
    reveal_strlit("--input-device");
    reveal_strlit("--output-device");
    assert("--remote-host"@.len() > 0 && "--remote-host"@[0] == '-');
    assert("-r"@.len() > 0 && "-r"@[0] == '-');
    assert("--remote-name"@.len() > 0 && "--remote-name"@[0] == '-');
    assert("--id"@.len() > 0 && "--id"@[0] == '-');
    assert("--channels"@.len() > 0 && "--channels"@[0] == '-');
    assert("-c"@.len() > 0 && "-c"@[0] == '-');
    assert("--bitrate"@.len() > 0 && "--bitrate"@[0] == '-');
    assert("-b"@.len() > 0 && "-b"@[0] == '-');
    assert("--latency-ms"@.len() > 0 && "--latency-ms"@[0] == '-');
    assert("--buffer"@.len() > 0 && "--buffer"@[0] == '-');
    assert("--token"@.len() > 0 && "--token"@[0] == '-');
    assert("--link-password"@.len() > 0 && "--link-password"@[0] == '-');
    assert("--web-port"@.len() > 0 && "--web-port"@[0] == '-');
    assert("--web"@.len() > 0 && "--web"@[0] == '-');
    assert("--no-web"@.len() > 0 && "--no-web"@[0] == '-');
    assert("--no-send"@.len() > 0 && "--no-send"@[0] == '-');
    assert("--no-recv"@.len() > 0 && "--no-recv"@[0] == '-');
    assert("--fixed-jitter"@.len() > 0 && "--fixed-jitter"@[0] == '-');
    assert("--no-phase-lock"@.len() > 0 && "--no-phase-lock"@[0] == '-');
    assert("--rendezvous"@.len() > 0 && "--rendezvous"@[0] == '-');
    assert("--encoder-mode"@.len() > 0 && "--encoder-mode"@[0] == '-');
    assert("--interface"@.len() > 0 && "--interface"@[0] == '-');
    assert("--input-device"@.len() > 0 && "--input-device"@[0] == '-');
    assert("--output-device"@.len() > 0 && "--output-device"@[0] == '-');
}

/// An option that stands last, with no value behind it: to name the remote names none, the name of the
/// device is its usual one, what may be left out is left out, and the rest stays as it was.
pub proof fn law_options_without_a_value(
    o: OptionsView,
    args: Seq<Seq<char>>,
    i: int,
    default_id: Seq<char>,
)
    requires
        2 <= i == args.len() - 1,
    ensures
        ({
            let all = options_from(o, args, i, default_id);
            &&& args[i] == "--remote-host"@ || args[i] == "-r"@ ==> all == (OptionsView {
                remote_host: Seq::empty(),
                names_remote: true,
                ..o
            })
            &&& args[i] == "--remote-name"@ ==> all == (OptionsView {
                remote_name: Seq::empty(),
                names_remote: true,
                ..o
            })
            &&& args[i] == "--id"@ ==> all == (OptionsView { node_id: default_id, ..o })
            &&& args[i] == "--link-password"@ ==> all == (OptionsView { link_password: None, ..o })
            &&& args[i] == "--rendezvous"@ ==> all == (OptionsView { rendezvous_url: None, ..o })
            &&& args[i] == "--input-device"@ ==> all == (OptionsView { input_device: None, ..o })
            &&& args[i] == "--output-device"@ ==> all == (OptionsView { output_device: None, ..o })
            &&& args[i] == "--web-port"@ ==> all == (OptionsView {
                web_addr: "0.0.0.0:"@ + decimal(8080),
                ..o
            })
            &&& args[i] == "--channels"@ || args[i] == "-c"@ || args[i] == "--bitrate"@ || args[i] == "-b"@
                || args[i] == "--latency-ms"@ || args[i] == "--buffer"@ || args[i] == "--token"@
                || args[i] == "--web"@ || args[i] == "--interface"@ || args[i] == "--encoder-mode"@
                ==> all == o
        }),
{
    lemma_every_flag(i == 2);
    reveal(OptionsView::with);
    let flag = flag_of(args[i], i == 2);
    let next = o.with(flag, args[i], value_at(args, i), default_id);
    if takes_value(flag) {
        assert(options_from(next, args, i + 2, default_id) == next);
        assert(options_from(o, args, i, default_id) == next);
    }
}

/// What is not said is as it was kept, and what was not kept is as it usually is.
pub proof fn law_usual_options(saved: ConfigView, default_id: Seq<char>)
    ensures
        ({
            let o = OptionsView::kept(saved, default_id);
            &&& o.remote_host.len() == 0 && !o.names_remote && o.unknown.len() == 0
            &&& !o.no_web && !o.no_send && !o.no_recv
            &&& o.web_addr == "0.0.0.0:"@ + decimal(8080)
            &&& saved.node_id is None ==> o.node_id == default_id
            &&& saved.node_id matches Some(id) ==> o.node_id == id
            &&& saved.channels is None ==> o.channels == 2
            &&& saved.channels matches Some(n) ==> o.channels == n
            &&& saved.opus_bitrate_per_channel is None ==> o.bitrate == 128_000
            &&& saved.opus_bitrate_per_channel matches Some(n) ==> o.bitrate == n
            &&& saved.latency_ms is None ==> o.latency_ms == 100
            &&& saved.latency_ms matches Some(n) ==> o.latency_ms == n
            &&& saved.fixed_jitter is None ==> !o.fixed_jitter
            &&& saved.fixed_jitter matches Some(on) ==> o.fixed_jitter == on
            &&& saved.phase_lock is None ==> o.phase_lock
            &&& saved.phase_lock matches Some(on) ==> o.phase_lock == on
            &&& saved.encoder_mode is None ==> o.encoder_mode == EncoderMode::Music
            &&& saved.encoder_mode matches Some(mode) ==> o.encoder_mode == mode
            &&& saved.token_hex is None ==> o.token is None
            &&& saved.token_hex matches Some(hex) ==> o.token == Some(token_of_arg(hex))
            &&& saved.bind_addr is None ==> o.bind_addr == "0.0.0.0"@
            &&& saved.bind_addr matches Some(addr) ==> o.bind_addr == addr
            &&& o.rendezvous_url == saved.rendezvous_url
            &&& o.input_device == saved.selected_input_device
            &&& o.output_device == saved.selected_output_device
        }),
{
}

/// The remote that is kept is the first that is enabled and has a name, with its password.
pub proof fn law_usual_remote(saved: ConfigView, default_id: Seq<char>, k: int)
    requires
        0 <= k < saved.remotes.len(),
        saved.remotes[k].enabled,
        saved.remotes[k].name.len() > 0,
        forall|i: int|
            0 <= i < k ==> !((#[trigger] saved.remotes[i]).enabled && saved.remotes[i].name.len() > 0),
    ensures
        OptionsView::kept(saved, default_id).remote_name == saved.remotes[k].name,
        OptionsView::kept(saved, default_id).link_password == saved.remotes[k].password,
{
    lemma_first_active(saved.remotes, k);
}

/// The remotes that the options come to: the one that they name, with its host and password and all
/// channels, or else those that are kept and have a name. A token that was given is for the remote that
/// the options name, and for a peer without a name.
pub proof fn law_remotes_of_the_options(o: OptionsView, saved: ConfigView)
    ensures
        o.names_remote ==> {
            let remotes = options_remotes(o, saved);
            &&& remotes.len() == 1
            &&& remotes[0].index == 0
            &&& remotes[0].name == o.remote_name
            &&& remotes[0].ip_override == o.remote_host
            &&& remotes[0].password == o.link_password
            &&& remotes[0].channels_to_send.len() == 0
            &&& remotes[0].enabled
            &&& explicit_token(o, saved) == o.token
        },
        !o.names_remote ==> options_remotes(o, saved) == with_names(saved.remotes),
        !o.names_remote && with_names(saved.remotes).len() == 0 ==> explicit_token(o, saved) == o.token,
        !o.names_remote && with_names(saved.remotes).len() > 0 ==> explicit_token(o, saved) is None,
        o.token matches Some(t) ==> options_token(o) == t,
        o.token is None && o.remote_name.len() > 0 ==> options_token(o) == link_token(
            o.node_id,
            o.remote_name,
            o.link_password,
        ),
        o.token is None && o.remote_name.len() == 0 ==> options_token(o) == DEFAULT_SHARED_TOKEN@,
{
}

} // verus!
