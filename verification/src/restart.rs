//! The process that the web interface starts anew has the options that were asked for.

use crate::cli::{
    explicit_token, flag_of, law_named_remote_is_linked, options_from, options_remotes, takes_value,
    value_at, value_or, Flag, OptionsView,
};
use crate::constants::MAX_CHANNELS;
use crate::engine::engine_sessions;
use crate::persistence::{merged_config, ConfigView};
use crate::state::{law_mode_name_is_understood, EncoderMode, RuntimeSummary};
use crate::text::{decimal, lemma_decimal_roundtrip, trimmed};
use crate::token::{hex_text, law_token_hex_roundtrip, law_token_length, link_text};
use crate::web::{
    flag, non_empty, setup_args, setup_config, setup_host, setup_latency, setup_password,
    setup_phase_lock, setup_token, switch, unless_any_address, unless_blank, unless_empty,
    SetupApplyRequest,
};
use vstd::prelude::*;

verus! {

/// The options after arguments none of which stands first.
#[verifier::opaque]
spec fn options_after(o: OptionsView, rest: Seq<Seq<char>>, default_id: Seq<char>) -> OptionsView
    decreases rest.len(),
{
    if rest.len() == 0 {
        o
    } else {
        let meaning = flag_of(rest[0], false);
        let next = o.with(meaning, rest[0], value_at(rest, 0), default_id);
        if takes_value(meaning) && rest.len() > 1 {
            options_after(next, rest.skip(2), default_id)
        } else {
            options_after(next, rest.skip(1), default_id)
        }
    }
}

proof fn lemma_options_after(o: OptionsView, args: Seq<Seq<char>>, i: int, default_id: Seq<char>)
    requires
        2 <= i <= args.len(),
        i == 2 && i < args.len() ==> flag_of(args[2], true) == flag_of(args[2], false),
    ensures
        options_from(o, args, i, default_id) == options_after(o, args.skip(i), default_id),
    decreases args.len() - i,
{
    reveal(options_after);
    if i < args.len() {
        let rest = args.skip(i);
        let meaning = flag_of(args[i], i == 2);
        assert(rest[0] == args[i]);
        assert(value_at(rest, 0) == value_at(args, i));
        let next = o.with(meaning, args[i], value_at(args, i), default_id);
        if takes_value(meaning) && rest.len() > 1 {
            assert(rest.skip(2) =~= args.skip(i + 2));
            lemma_options_after(next, args, i + 2, default_id);
        } else {
            assert(rest.skip(1) =~= args.skip(i + 1));
            lemma_options_after(next, args, i + 1, default_id);
            if takes_value(meaning) {
                assert(options_from(next, args, i + 2, default_id) == next);
                assert(options_from(next, args, i + 1, default_id) == next);
            }
        }
    }
}

/// The options after a flag with its value, if there is one.
#[verifier::opaque]
spec fn given(
    o: OptionsView,
    meaning: Flag,
    name: Seq<char>,
    value: Option<Seq<char>>,
    default_id: Seq<char>,
) -> OptionsView {
    if value is Some {
        o.with(meaning, name, value, default_id)
    } else {
        o
    }
}

proof fn lemma_given(
    o: OptionsView,
    meaning: Flag,
    name: Seq<char>,
    value: Option<Seq<char>>,
    rest: Seq<Seq<char>>,
    default_id: Seq<char>,
)
    requires
        flag_of(name, false) == meaning,
        takes_value(meaning),
    ensures
        options_after(o, flag(name, value) + rest, default_id) == options_after(
            given(o, meaning, name, value, default_id),
            rest,
            default_id,
        ),
{
    reveal(options_after);
    reveal(given);
    let part = flag(name, value);
    let all = part + rest;
    if value is Some {
        assert(all[0] == name);
        assert(all[1] == value->0);
        assert(value_at(all, 0) == value);
        assert(all.skip(2) =~= rest);
    } else {
        assert(all =~= rest);
    }
}

proof fn lemma_switched(
    o: OptionsView,
    meaning: Flag,
    name: Seq<char>,
    on: bool,
    rest: Seq<Seq<char>>,
    default_id: Seq<char>,
) -> (value: Option<Seq<char>>)
    requires
        flag_of(name, false) == meaning,
        !takes_value(meaning),
    ensures
        options_after(o, switch(name, on) + rest, default_id) == options_after(
            if on {
                o.with(meaning, name, value, default_id)
            } else {
                o
            },
            rest,
            default_id,
        ),
{
    reveal(options_after);
    let all = switch(name, on) + rest;
    if on {
        assert(all[0] == name);
        assert(all.skip(1) =~= rest);
    } else {
        assert(all =~= rest);
    }
    value_at(all, 0)
}

proof fn lemma_flag_names()
    ensures
        flag_of("--remote-name"@, false) == Flag::RemoteName,
        flag_of("--remote-name"@, true) == Flag::RemoteName,
        flag_of("--channels"@, false) == Flag::Channels,
        flag_of("--channels"@, true) == Flag::Channels,
        flag_of("--id"@, false) == Flag::Id,
        flag_of("--token"@, false) == Flag::Token,
        flag_of("--bitrate"@, false) == Flag::Bitrate,
        flag_of("--latency-ms"@, false) == Flag::Latency,
        flag_of("--remote-host"@, false) == Flag::RemoteHost,
        flag_of("--link-password"@, false) == Flag::LinkPassword,
        flag_of("--rendezvous"@, false) == Flag::Rendezvous,
        flag_of("--interface"@, false) == Flag::Interface,
        flag_of("--input-device"@, false) == Flag::InputDevice,
        flag_of("--output-device"@, false) == Flag::OutputDevice,
        flag_of("--fixed-jitter"@, false) == Flag::FixedJitter,
        flag_of("--no-phase-lock"@, false) == Flag::NoPhaseLock,
        flag_of("--encoder-mode"@, false) == Flag::EncoderMode,
        flag_of("--no-send"@, false) == Flag::NoSend,
        flag_of("--no-recv"@, false) == Flag::NoRecv,
{
    reveal(flag_of);
    reveal_strlit("--remote-host");
    reveal_strlit("-r");
    reveal_strlit("--remote-name");
    reveal_strlit("--id");
    reveal_strlit("--channels");
    reveal_strlit("-c");
    reveal_strlit("--bitrate");
    reveal_strlit("-b");
    reveal_strlit("--latency-ms");
    reveal_strlit("--buffer");
    reveal_strlit("--token");
    reveal_strlit("--link-password");
    reveal_strlit("--web-port");
    reveal_strlit("--web");
    reveal_strlit("--no-web");
    reveal_strlit("--no-send");
    reveal_strlit("--no-recv");
    reveal_strlit("--fixed-jitter");
    reveal_strlit("--no-phase-lock");
    reveal_strlit("--rendezvous");
    reveal_strlit("--encoder-mode");
    reveal_strlit("--interface");
    reveal_strlit("--input-device");
    reveal_strlit("--output-device");
    assert("--remote-host"@.len() == 13);
    assert("-r"@.len() == 2);
    assert("--remote-name"@.len() == 13);
    assert("--id"@.len() == 4);
    assert("--channels"@.len() == 10);
    assert("-c"@.len() == 2);
    assert("--bitrate"@.len() == 9);
    assert("-b"@.len() == 2);
    assert("--latency-ms"@.len() == 12);
    assert("--buffer"@.len() == 8);
    assert("--token"@.len() == 7);
    assert("--link-password"@.len() == 15);
    assert("--web-port"@.len() == 10);
    assert("--web"@.len() == 5);
    assert("--no-web"@.len() == 8);
    assert("--no-send"@.len() == 9);
    assert("--no-recv"@.len() == 9);
    assert("--fixed-jitter"@.len() == 14);
    assert("--no-phase-lock"@.len() == 15);
    assert("--rendezvous"@.len() == 12);
    assert("--encoder-mode"@.len() == 14);
    assert("--interface"@.len() == 11);
    assert("--input-device"@.len() == 14);
    assert("--output-device"@.len() == 15);
    assert("--remote-host"@[9] == 'h' && "--remote-name"@[9] == 'n');
    assert("--channels"@[2] == 'c' && "--web-port"@[2] == 'w');
    assert("--bitrate"@[2] == 'b' && "--no-send"@[2] == 'n' && "--no-recv"@[2] == 'n');
    assert("--no-send"@[5] == 's' && "--no-recv"@[5] == 'r');
    assert("--latency-ms"@[2] == 'l' && "--rendezvous"@[2] == 'r');
    assert("--fixed-jitter"@[2] == 'f' && "--encoder-mode"@[2] == 'e' && "--input-device"@[2]
        == 'i');
    assert("--link-password"@[2] == 'l' && "--no-phase-lock"@[2] == 'n' && "--output-device"@[2]
        == 'o');
}

proof fn lemma_regroup(a: Seq<Seq<char>>, b: Seq<Seq<char>>, c: Seq<Seq<char>>)
    ensures
        (a + b) + c == a + (b + c),
{
    assert((a + b) + c =~= a + (b + c));
}

proof fn lemma_setup_token_len(req: SetupApplyRequest)
    ensures
        setup_token(req).len() == 16,
{
    if unless_blank(req.token) is Some {
        let t = trimmed(req.token->0@);
        law_token_length(t);
    } else if trimmed(req.remote_device_name@).len() > 0 {
        law_token_length(
            link_text(
                trimmed(req.node_id@),
                trimmed(req.remote_device_name@),
                if setup_password(req).len() == 0 {
                    None
                } else {
                    Some(setup_password(req))
                },
            ),
        );
    }
}

/// The options after the part of the arguments that is always there.
spec fn with_basics(o: OptionsView, req: SetupApplyRequest, default_id: Seq<char>) -> OptionsView {
    let a = o.with(
        Flag::Channels,
        "--channels"@,
        Some(decimal(req.channels as nat)),
        default_id,
    );
    let b = a.with(Flag::Id, "--id"@, Some(trimmed(req.node_id@)), default_id);
    let c = b.with(Flag::Token, "--token"@, Some(hex_text(setup_token(req))), default_id);
    let d = c.with(
        Flag::Bitrate,
        "--bitrate"@,
        Some(decimal(req.opus_bitrate_per_channel as nat)),
        default_id,
    );
    d.with(Flag::Latency, "--latency-ms"@, Some(decimal(setup_latency(req) as nat)), default_id)
}

/// The part of the arguments that is always there.
spec fn basics(req: SetupApplyRequest) -> Seq<Seq<char>> {
    seq![
        "--channels"@,
        decimal(req.channels as nat),
        "--id"@,
        trimmed(req.node_id@),
        "--token"@,
        hex_text(setup_token(req)),
        "--bitrate"@,
        decimal(req.opus_bitrate_per_channel as nat),
        "--latency-ms"@,
        decimal(setup_latency(req) as nat),
    ]
}

proof fn lemma_basics(
    o: OptionsView,
    req: SetupApplyRequest,
    rest: Seq<Seq<char>>,
    default_id: Seq<char>,
)
    ensures
        options_after(o, basics(req) + rest, default_id) == options_after(
            with_basics(o, req, default_id),
            rest,
            default_id,
        ),
{
    reveal(given);
    lemma_flag_names();
    let r4 = flag("--latency-ms"@, Some(decimal(setup_latency(req) as nat))) + rest;
    let r3 = flag("--bitrate"@, Some(decimal(req.opus_bitrate_per_channel as nat))) + r4;
    let r2 = flag("--token"@, Some(hex_text(setup_token(req)))) + r3;
    let r1 = flag("--id"@, Some(trimmed(req.node_id@))) + r2;
    let r0 = flag("--channels"@, Some(decimal(req.channels as nat))) + r1;
    assert(basics(req) + rest =~= r0);
    let channels = Some(decimal(req.channels as nat));
    let a = given(o, Flag::Channels, "--channels"@, channels, default_id);
    lemma_given(o, Flag::Channels, "--channels"@, channels, r1, default_id);
    let id = Some(trimmed(req.node_id@));
    let b = given(a, Flag::Id, "--id"@, id, default_id);
    lemma_given(a, Flag::Id, "--id"@, id, r2, default_id);
    let token = Some(hex_text(setup_token(req)));
    let c = given(b, Flag::Token, "--token"@, token, default_id);
    lemma_given(b, Flag::Token, "--token"@, token, r3, default_id);
    let bitrate = Some(decimal(req.opus_bitrate_per_channel as nat));
    let d = given(c, Flag::Bitrate, "--bitrate"@, bitrate, default_id);
    lemma_given(c, Flag::Bitrate, "--bitrate"@, bitrate, r4, default_id);
    let latency = Some(decimal(setup_latency(req) as nat));
    lemma_given(d, Flag::Latency, "--latency-ms"@, latency, rest, default_id);
}

proof fn lemma_basics_mean(o: OptionsView, req: SetupApplyRequest, default_id: Seq<char>)
    ensures
        with_basics(o, req, default_id) == (OptionsView {
            channels: req.channels,
            node_id: trimmed(req.node_id@),
            token: Some(setup_token(req)),
            bitrate: req.opus_bitrate_per_channel,
            latency_ms: setup_latency(req),
            ..o
        }),
{
    reveal(OptionsView::with);
    lemma_decimal_roundtrip(req.channels as nat, usize::MAX as nat);
    lemma_decimal_roundtrip(req.opus_bitrate_per_channel as nat, u32::MAX as nat);
    lemma_decimal_roundtrip(setup_latency(req) as nat, u32::MAX as nat);
    lemma_setup_token_len(req);
    law_token_hex_roundtrip(setup_token(req));
}

/// The options that a request of the web interface comes to, over what is kept.
pub open spec fn requested(
    o: OptionsView,
    req: SetupApplyRequest,
    runtime: RuntimeSummary,
    mode: EncoderMode,
) -> OptionsView {
    let name = trimmed(req.remote_device_name@);
    OptionsView {
        remote_name: if name.len() > 0 {
            name
        } else {
            o.remote_name
        },
        remote_host: match setup_host(req) {
            Some(host) => host,
            None => o.remote_host,
        },
        names_remote: o.names_remote || name.len() > 0 || setup_host(req) is Some,
        channels: req.channels,
        node_id: trimmed(req.node_id@),
        token: Some(setup_token(req)),
        bitrate: req.opus_bitrate_per_channel,
        latency_ms: setup_latency(req),
        link_password: if setup_password(req).len() > 0 {
            Some(setup_password(req))
        } else {
            o.link_password
        },
        rendezvous_url: if unless_blank(req.rendezvous_url) is Some {
            unless_blank(req.rendezvous_url)
        } else {
            o.rendezvous_url
        },
        bind_addr: value_or(unless_any_address(req.bind_addr), o.bind_addr),
        input_device: if unless_empty(req.selected_input_device) is Some {
            unless_empty(req.selected_input_device)
        } else {
            o.input_device
        },
        output_device: if unless_empty(req.selected_output_device) is Some {
            unless_empty(req.selected_output_device)
        } else {
            o.output_device
        },
        fixed_jitter: o.fixed_jitter || runtime.fixed_jitter,
        phase_lock: o.phase_lock && setup_phase_lock(req, runtime),
        encoder_mode: mode,
        no_send: o.no_send || !runtime.send_enabled,
        no_recv: o.no_recv || !runtime.recv_enabled,
        ..o
    }
}

/// The arguments of a request behind the mode, part by part.
spec fn setup_parts(req: SetupApplyRequest, runtime: RuntimeSummary, mode: EncoderMode) -> Seq<
    Seq<Seq<char>>,
> {
    seq![
        flag("--remote-name"@, non_empty(trimmed(req.remote_device_name@))),
        basics(req),
        flag("--remote-host"@, setup_host(req)),
        flag("--link-password"@, non_empty(setup_password(req))),
        flag("--rendezvous"@, unless_blank(req.rendezvous_url)),
        flag("--interface"@, unless_any_address(req.bind_addr)),
        flag("--input-device"@, unless_empty(req.selected_input_device)),
        flag("--output-device"@, unless_empty(req.selected_output_device)),
        switch("--fixed-jitter"@, runtime.fixed_jitter),
        switch("--no-phase-lock"@, !setup_phase_lock(req, runtime)),
        flag("--encoder-mode"@, Some(mode.name())),
        switch("--no-send"@, !runtime.send_enabled),
        switch("--no-recv"@, !runtime.recv_enabled),
    ]
}

/// The parts from the one at `k` on, put together from the end.
spec fn joined_from(parts: Seq<Seq<Seq<char>>>, k: int) -> Seq<Seq<char>>
    decreases parts.len() - k,
{
    if k < 0 || k >= parts.len() {
        Seq::empty()
    } else {
        parts[k] + joined_from(parts, k + 1)
    }
}

/// The first `k` parts behind `start`, put together from the start.
spec fn joined_upto(start: Seq<Seq<char>>, parts: Seq<Seq<Seq<char>>>, k: int) -> Seq<Seq<char>>
    decreases k,
{
    if k <= 0 {
        start
    } else {
        joined_upto(start, parts, k - 1) + parts[k - 1]
    }
}

proof fn lemma_joined(start: Seq<Seq<char>>, parts: Seq<Seq<Seq<char>>>, k: int)
    requires
        0 <= k <= parts.len(),
    ensures
        joined_upto(start, parts, k) + joined_from(parts, k) == start + joined_from(parts, 0),
    decreases k,
{
    if k > 0 {
        lemma_joined(start, parts, k - 1);
        lemma_regroup(joined_upto(start, parts, k - 1), parts[k - 1], joined_from(parts, k));
    }
}

/// The arguments of a request behind the mode.
spec fn setup_rest(req: SetupApplyRequest, runtime: RuntimeSummary, mode: EncoderMode) -> Seq<
    Seq<char>,
> {
    joined_from(setup_parts(req, runtime, mode), 0)
}

proof fn lemma_setup_parts(
    o: OptionsView,
    req: SetupApplyRequest,
    runtime: RuntimeSummary,
    mode: EncoderMode,
    program: Seq<char>,
    d: Seq<char>,
)
    ensures
        options_from(o, seq![program] + setup_args(req, runtime, mode), 2, d) == options_after(
            o,
            setup_rest(req, runtime, mode),
            d,
        ),
{
    lemma_flag_names();
    let start = seq!["bidir"@];
    let parts = setup_parts(req, runtime, mode);
    let rest = setup_rest(req, runtime, mode);
    assert(setup_args(req, runtime, mode) == joined_upto(start, parts, 13)) by {
        reveal_with_fuel(joined_upto, 14);
    }
    lemma_joined(start, parts, 13);
    assert(joined_upto(start, parts, 13) + joined_from(parts, 13) =~= joined_upto(start, parts, 13));
    let args = seq![program] + setup_args(req, runtime, mode);
    assert(args.skip(2) =~= rest);
    assert(rest[0] == "--remote-name"@ || rest[0] == "--channels"@) by {
        let behind = joined_from(parts, 1);
        assert(rest == parts[0] + behind);
        assert(behind == parts[1] + joined_from(parts, 2));
        if parts[0].len() > 0 {
            assert(rest[0] == parts[0][0]);
        } else {
            assert(rest =~= behind);
            assert(behind[0] == basics(req)[0]);
        }
    }
    assert(args[2] == rest[0]);
    lemma_options_after(o, args, 2, d);
}

/// The options after the name of the remote and the part that is always there.
spec fn named(o: OptionsView, req: SetupApplyRequest) -> OptionsView {
    let name = trimmed(req.remote_device_name@);
    OptionsView {
        remote_name: if name.len() > 0 {
            name
        } else {
            o.remote_name
        },
        names_remote: o.names_remote || name.len() > 0,
        channels: req.channels,
        node_id: trimmed(req.node_id@),
        token: Some(setup_token(req)),
        bitrate: req.opus_bitrate_per_channel,
        latency_ms: setup_latency(req),
        ..o
    }
}

proof fn lemma_named(o: OptionsView, req: SetupApplyRequest, rest: Seq<Seq<char>>, d: Seq<char>)
    ensures
        options_after(
            o,
            flag("--remote-name"@, non_empty(trimmed(req.remote_device_name@))) + (basics(
                req,
            ) + rest),
            d,
        ) == options_after(named(o, req), rest, d),
{
    lemma_flag_names();
    let name = non_empty(trimmed(req.remote_device_name@));
    let o1 = given(o, Flag::RemoteName, "--remote-name"@, name, d);
    lemma_given(o, Flag::RemoteName, "--remote-name"@, name, basics(req) + rest, d);
    lemma_basics(o1, req, rest, d);
    lemma_basics_mean(o1, req, d);
    assert(with_basics(o1, req, d) == named(o, req)) by {
        reveal(given);
        reveal(OptionsView::with);
    }
}

/// The options after what says where the link goes.
spec fn addressed(o: OptionsView, req: SetupApplyRequest) -> OptionsView {
    OptionsView {
        remote_host: match setup_host(req) {
            Some(host) => host,
            None => o.remote_host,
        },
        names_remote: o.names_remote || setup_host(req) is Some,
        link_password: if setup_password(req).len() > 0 {
            Some(setup_password(req))
        } else {
            o.link_password
        },
        rendezvous_url: if unless_blank(req.rendezvous_url) is Some {
            unless_blank(req.rendezvous_url)
        } else {
            o.rendezvous_url
        },
        bind_addr: value_or(unless_any_address(req.bind_addr), o.bind_addr),
        ..o
    }
}

proof fn lemma_addressed(
    o2: OptionsView,
    req: SetupApplyRequest,
    rest: Seq<Seq<char>>,
    d: Seq<char>,
)
    ensures
        options_after(
            o2,
            flag("--remote-host"@, setup_host(req)) + (flag(
                "--link-password"@,
                non_empty(setup_password(req)),
            ) + (flag("--rendezvous"@, unless_blank(req.rendezvous_url)) + (
            flag("--interface"@, unless_any_address(req.bind_addr)) + rest))),
            d,
        ) == options_after(addressed(o2, req), rest, d),
{
    lemma_flag_names();
    let password = non_empty(setup_password(req));
    let url = unless_blank(req.rendezvous_url);
    let bind = unless_any_address(req.bind_addr);
    let r6 = flag("--interface"@, bind) + rest;
    let r5 = flag("--rendezvous"@, url) + r6;
    let r4 = flag("--link-password"@, password) + r5;
    let o3 = given(o2, Flag::RemoteHost, "--remote-host"@, setup_host(req), d);
    lemma_given(o2, Flag::RemoteHost, "--remote-host"@, setup_host(req), r4, d);
    let o4 = given(o3, Flag::LinkPassword, "--link-password"@, password, d);
    lemma_given(o3, Flag::LinkPassword, "--link-password"@, password, r5, d);
    let o5 = given(o4, Flag::Rendezvous, "--rendezvous"@, url, d);
    lemma_given(o4, Flag::Rendezvous, "--rendezvous"@, url, r6, d);
    let o6 = given(o5, Flag::Interface, "--interface"@, bind, d);
    lemma_given(o5, Flag::Interface, "--interface"@, bind, rest, d);
    assert(o6 == addressed(o2, req)) by {
        reveal(given);
        reveal(OptionsView::with);
    }
}

/// The options after what says which devices are used.
spec fn equipped(o: OptionsView, req: SetupApplyRequest) -> OptionsView {
    OptionsView {
        input_device: if unless_empty(req.selected_input_device) is Some {
            unless_empty(req.selected_input_device)
        } else {
            o.input_device
        },
        output_device: if unless_empty(req.selected_output_device) is Some {
            unless_empty(req.selected_output_device)
        } else {
            o.output_device
        },
        ..o
    }
}

proof fn lemma_equipped(o6: OptionsView, req: SetupApplyRequest, rest: Seq<Seq<char>>, d: Seq<char>)
    ensures
        options_after(
            o6,
            flag("--input-device"@, unless_empty(req.selected_input_device)) + (
            flag("--output-device"@, unless_empty(req.selected_output_device)) + rest),
            d,
        ) == options_after(equipped(o6, req), rest, d),
{
    lemma_flag_names();
    let input = unless_empty(req.selected_input_device);
    let output = unless_empty(req.selected_output_device);
    let r8 = flag("--output-device"@, output) + rest;
    let o7 = given(o6, Flag::InputDevice, "--input-device"@, input, d);
    lemma_given(o6, Flag::InputDevice, "--input-device"@, input, r8, d);
    let o8 = given(o7, Flag::OutputDevice, "--output-device"@, output, d);
    lemma_given(o7, Flag::OutputDevice, "--output-device"@, output, rest, d);
    assert(o8 == equipped(o6, req)) by {
        reveal(given);
        reveal(OptionsView::with);
    }
}

/// The options after what says how the link is run.
spec fn tuned(o: OptionsView, runtime: RuntimeSummary, mode: EncoderMode, apart: bool) -> OptionsView {
    OptionsView {
        fixed_jitter: o.fixed_jitter || runtime.fixed_jitter,
        phase_lock: o.phase_lock && !apart,
        encoder_mode: mode,
        no_send: o.no_send || !runtime.send_enabled,
        no_recv: o.no_recv || !runtime.recv_enabled,
        ..o
    }
}

proof fn lemma_tuned(
    o8: OptionsView,
    runtime: RuntimeSummary,
    mode: EncoderMode,
    apart: bool,
    d: Seq<char>,
)
    ensures
        options_after(
            o8,
            switch("--fixed-jitter"@, runtime.fixed_jitter) + (switch("--no-phase-lock"@, apart) + (
            flag("--encoder-mode"@, Some(mode.name())) + (switch(
                "--no-send"@,
                !runtime.send_enabled,
            ) + (switch("--no-recv"@, !runtime.recv_enabled) + Seq::empty())))),
            d,
        ) == tuned(o8, runtime, mode, apart),
{
    lemma_flag_names();
    law_mode_name_is_understood(mode);
    let none = Seq::<Seq<char>>::empty();
    let fixed = runtime.fixed_jitter;
    let mute = !runtime.send_enabled;
    let deaf = !runtime.recv_enabled;
    let r13 = switch("--no-recv"@, deaf) + none;
    let r12 = switch("--no-send"@, mute) + r13;
    let r11 = flag("--encoder-mode"@, Some(mode.name())) + r12;
    let r10 = switch("--no-phase-lock"@, apart) + r11;
    let v9 = lemma_switched(o8, Flag::FixedJitter, "--fixed-jitter"@, fixed, r10, d);
    let o9 = if fixed {
        o8.with(Flag::FixedJitter, "--fixed-jitter"@, v9, d)
    } else {
        o8
    };
    let v10 = lemma_switched(o9, Flag::NoPhaseLock, "--no-phase-lock"@, apart, r11, d);
    let o10 = if apart {
        o9.with(Flag::NoPhaseLock, "--no-phase-lock"@, v10, d)
    } else {
        o9
    };
    let o11 = given(o10, Flag::EncoderMode, "--encoder-mode"@, Some(mode.name()), d);
    lemma_given(o10, Flag::EncoderMode, "--encoder-mode"@, Some(mode.name()), r12, d);
    let v12 = lemma_switched(o11, Flag::NoSend, "--no-send"@, mute, r13, d);
    let o12 = if mute {
        o11.with(Flag::NoSend, "--no-send"@, v12, d)
    } else {
        o11
    };
    let v13 = lemma_switched(o12, Flag::NoRecv, "--no-recv"@, deaf, none, d);
    let o13 = if deaf {
        o12.with(Flag::NoRecv, "--no-recv"@, v13, d)
    } else {
        o12
    };
    assert(options_after(o13, none, d) == o13) by {
        reveal(options_after);
    }
    assert(o13 == tuned(o8, runtime, mode, apart)) by {
        reveal(given);
        reveal(OptionsView::with);
    }
}

proof fn lemma_setup_chain(
    o: OptionsView,
    req: SetupApplyRequest,
    runtime: RuntimeSummary,
    mode: EncoderMode,
    d: Seq<char>,
)
    ensures
        options_after(o, setup_rest(req, runtime, mode), d) == requested(o, req, runtime, mode),
{
    let apart = !setup_phase_lock(req, runtime);
    let parts = setup_parts(req, runtime, mode);
    let r9 = joined_from(parts, 8);
    let r7 = joined_from(parts, 6);
    let r3 = joined_from(parts, 2);
    assert(joined_from(parts, 0) == parts[0] + (parts[1] + r3)) by {
        reveal_with_fuel(joined_from, 3);
    }
    assert(r3 == parts[2] + (parts[3] + (parts[4] + (parts[5] + r7)))) by {
        reveal_with_fuel(joined_from, 5);
    }
    assert(r7 == parts[6] + (parts[7] + r9)) by {
        reveal_with_fuel(joined_from, 3);
    }
    assert(r9 == parts[8] + (parts[9] + (parts[10] + (parts[11] + (parts[12] + Seq::<
        Seq<char>,
    >::empty()))))) by {
        reveal_with_fuel(joined_from, 6);
    }
    let o2 = named(o, req);
    let o6 = addressed(o2, req);
    let o8 = equipped(o6, req);
    lemma_named(o, req, r3, d);
    lemma_addressed(o2, req, r7, d);
    lemma_equipped(o6, req, r9, d);
    lemma_tuned(o8, runtime, mode, apart, d);
}

/// The process that the web interface starts anew understands its arguments as they were meant: it
/// has the options that were asked for, and takes no argument for one that means nothing.
pub proof fn law_setup_is_understood(
    o: OptionsView,
    req: SetupApplyRequest,
    runtime: RuntimeSummary,
    mode: EncoderMode,
    program: Seq<char>,
    default_id: Seq<char>,
)
    ensures
        options_from(o, seq![program] + setup_args(req, runtime, mode), 2, default_id) == requested(
            o,
            req,
            runtime,
            mode,
        ),
{
    lemma_setup_parts(o, req, runtime, mode, program, default_id);
    lemma_setup_chain(o, req, runtime, mode, default_id);
}

/// What is applied is what is linked: the engine that starts anew has one session, with the token
/// that was asked for, to the host and the device that were asked for.
pub proof fn law_setup_is_linked(
    o: OptionsView,
    req: SetupApplyRequest,
    runtime: RuntimeSummary,
    mode: EncoderMode,
    saved: ConfigView,
)
    requires
        1 <= req.channels <= MAX_CHANNELS,
        trimmed(req.remote_device_name@).len() > 0 || setup_host(req) is Some,
    ensures
        ({
            let asked = requested(o, req, runtime, mode);
            let sessions = engine_sessions(
                options_remotes(asked, saved),
                asked.node_id,
                explicit_token(asked, saved),
                req.channels as int,
            );
            &&& sessions.len() == 1
            &&& sessions[0].token == setup_token(req)
            &&& setup_host(req) matches Some(host) ==> sessions[0].remote_host == host
            &&& trimmed(req.remote_device_name@).len() > 0 ==> sessions[0].remote_device_name
                == trimmed(req.remote_device_name@)
        }),
{
    law_named_remote_is_linked(requested(o, req, runtime, mode), saved, req.channels as int);
}

/// What is applied is kept: a process that starts without arguments has the settings that were asked
/// for, with the labels and the remotes that were kept before.
pub proof fn law_settings_are_kept(
    stored: ConfigView,
    req: SetupApplyRequest,
    runtime: RuntimeSummary,
    mode: EncoderMode,
    default_id: Seq<char>,
)
    ensures
        ({
            let kept = merged_config(stored, setup_config(req, runtime, mode));
            let o = OptionsView::kept(kept, default_id);
            &&& o.node_id == trimmed(req.node_id@)
            &&& o.channels == req.channels
            &&& o.bitrate == req.opus_bitrate_per_channel
            &&& o.latency_ms == setup_latency(req)
            &&& o.fixed_jitter == runtime.fixed_jitter
            &&& o.phase_lock == setup_phase_lock(req, runtime)
            &&& o.encoder_mode == mode
            &&& o.token == Some(setup_token(req))
            &&& o.rendezvous_url == unless_blank(req.rendezvous_url)
            &&& o.bind_addr == value_or(unless_any_address(req.bind_addr), "0.0.0.0"@)
            &&& o.input_device == unless_empty(req.selected_input_device)
            &&& o.output_device == unless_empty(req.selected_output_device)
            &&& kept.channel_labels == stored.channel_labels
            &&& kept.remotes == stored.remotes
        }),
{
    lemma_setup_token_len(req);
    law_token_hex_roundtrip(setup_token(req));
}

} // verus!
