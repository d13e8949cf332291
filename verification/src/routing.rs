//! The patch matrix: endpoint names, the routes between them, and the bit masks that the audio
//! callbacks read.

use crate::constants::{MAX_CHANNELS, TX_SRC_EBU_L, TX_SRC_EBU_R, TX_SRC_INPUT_BASE};
use crate::metadata::{label_at, label_or_default};
use crate::state::{
    copy_routes, endpoint_views, route_views, Endpoint, EndpointView, MatrixResponse, MonitorMode,
    Route, RouteView, WebState,
};
use crate::text::{
    after_prefix, chars_of, decimal, decimal_text, lemma_decimal, lemma_decimal_roundtrip,
    lemma_until, lemma_until_is, parse_unsigned, position_of_char, same_text, strip_prefix, texts,
    unsigned_value, until,
};
use vstd::prelude::*;
use vstd::slice::slice_subrange;

verus! {

// ---------------------------------------------------------------------------------------------
// Endpoint names

/// The number that `s` writes, if it is the number of a channel.
pub open spec fn channel_number(s: Seq<char>) -> Option<nat> {
    match unsigned_value(s, usize::MAX as nat) {
        Some(ch) => if ch < MAX_CHANNELS as nat {
            Some(ch)
        } else {
            None
        },
        None => None,
    }
}

/// The channel that an endpoint `<prefix><channel>` names.
pub open spec fn endpoint_channel(id: Seq<char>, prefix: Seq<char>) -> Option<nat> {
    match after_prefix(id, prefix) {
        Some(rest) => channel_number(rest),
        None => None,
    }
}

/// The remote and the channel that `<remote>:ch:<channel>` names.
pub open spec fn remote_and_channel(rest: Seq<char>) -> Option<(nat, nat)> {
    let colon = until(rest, ':');
    if colon == rest.len() {
        None
    } else {
        match (
            unsigned_value(rest.take(colon), usize::MAX as nat),
            endpoint_channel(rest.skip(colon + 1), "ch:"@),
        ) {
            (Some(idx), Some(ch)) => Some((idx, ch)),
            _ => None,
        }
    }
}

/// The remote and the channel that an endpoint `<prefix><remote>:ch:<channel>` names.
pub open spec fn remote_endpoint(id: Seq<char>, prefix: Seq<char>) -> Option<(nat, nat)> {
    match after_prefix(id, prefix) {
        Some(rest) => remote_and_channel(rest),
        None => None,
    }
}

/// The remote and the channel that a receive endpoint names: `peer:<remote>:ch:<channel>`, or
/// `peer:remote:ch:<channel>` for a channel of the first remote.
pub open spec fn peer_endpoint(id: Seq<char>) -> Option<(nat, nat)> {
    match remote_endpoint(id, "peer:"@) {
        Some(named) => Some(named),
        None => match endpoint_channel(id, "peer:remote:ch:"@) {
            Some(ch) => Some((0, ch)),
            None => None,
        },
    }
}

/// The remote and the channel that a send endpoint `stream:<remote>:ch:<channel>` names.
pub open spec fn stream_endpoint(id: Seq<char>) -> Option<(nat, nat)> {
    remote_endpoint(id, "stream:"@)
}

/// A channel that was read, as a number of the model.
pub open spec fn as_channel(r: Option<usize>) -> Option<nat> {
    match r {
        Some(ch) => Some(ch as nat),
        None => None,
    }
}

/// A remote and a channel that were read, as numbers of the model.
pub open spec fn as_pair(r: Option<(usize, usize)>) -> Option<(nat, nat)> {
    match r {
        Some(p) => Some((p.0 as nat, p.1 as nat)),
        None => None,
    }
}

fn channel_of(s: &[char]) -> (r: Option<usize>)
    ensures
        as_channel(r) == channel_number(s@),
{
    match parse_unsigned(s, usize::MAX as u64) {
        Some(v) => {
            if v < MAX_CHANNELS as u64 {
                Some(v as usize)
            } else {
                None
            }
        },
        None => None,
    }
}

/// The channel of an endpoint `<prefix><channel>`.
pub fn parse_endpoint_channel(id: &str, prefix: &str) -> (r: Option<usize>)
    ensures
        as_channel(r) == endpoint_channel(id@, prefix@),
{
    let chars = chars_of(id);
    let opening = chars_of(prefix);
    match strip_prefix(chars.as_slice(), opening.as_slice()) {
        Some(rest) => channel_of(rest),
        None => None,
    }
}

fn remote_endpoint_of(id: &str, prefix: &str) -> (r: Option<(usize, usize)>)
    ensures
        as_pair(r) == remote_endpoint(id@, prefix@),
{
    let chars = chars_of(id);
    let opening = chars_of(prefix);
    let rest = match strip_prefix(chars.as_slice(), opening.as_slice()) {
        Some(rest) => rest,
        None => {
            return None;
        },
    };
    let colon: usize = position_of_char(rest, ':');
    proof {
        lemma_until(rest@, ':');
    }
    if colon == rest.len() {
        return None;
    }
    let digits = slice_subrange(rest, 0, colon);
    let behind = slice_subrange(rest, colon + 1, rest.len());
    assert(digits@ =~= rest@.take(colon as int));
    assert(behind@ =~= rest@.skip(colon + 1));
    let idx: usize = match parse_unsigned(digits, usize::MAX as u64) {
        Some(v) => v as usize,
        None => {
            return None;
        },
    };
    let marker = chars_of("ch:");
    let ch: usize = match strip_prefix(behind, marker.as_slice()) {
        Some(number) => match channel_of(number) {
            Some(ch) => ch,
            None => {
                return None;
            },
        },
        None => {
            return None;
        },
    };
    Some((idx, ch))
}

/// The remote and the channel of a receive endpoint.
pub fn parse_peer_endpoint(id: &str) -> (r: Option<(usize, usize)>)
    ensures
        as_pair(r) == peer_endpoint(id@),
{
    match remote_endpoint_of(id, "peer:") {
        Some(named) => Some(named),
        None => match parse_endpoint_channel(id, "peer:remote:ch:") {
            Some(ch) => Some((0, ch)),
            None => None,
        },
    }
}

/// The remote and the channel of a send endpoint.
pub fn parse_stream_endpoint(id: &str) -> (r: Option<(usize, usize)>)
    ensures
        as_pair(r) == stream_endpoint(id@),
{
    remote_endpoint_of(id, "stream:")
}

// ---------------------------------------------------------------------------------------------
// Which routes are kept

/// Whether `id` is a source that can be sent: a line-up tone or one of the physical inputs.
pub open spec fn is_send_source(id: Seq<char>, local_inputs: int) -> bool {
    id == "ebu:l"@ || id == "ebu:r"@ || (endpoint_channel(id, "input:"@) matches Some(ch) && ch
        < local_inputs)
}

/// Whether a route can be made: from a source that can be sent to a channel that is sent, or from
/// any remote channel to one of the two physical outputs.
pub open spec fn route_ok(route: RouteView, local_inputs: int, send_channels: int) -> bool {
    match stream_endpoint(route.destination) {
        Some((_, dst)) => dst < send_channels && is_send_source(route.source, local_inputs),
        None => match endpoint_channel(route.destination, "output:"@) {
            Some(dst) => dst < 2 && peer_endpoint(route.source) is Some,
            None => false,
        },
    }
}

/// Whether a route can be made with the inputs and the send channels that there are.
pub fn route_valid_for_runtime(route: &Route, local_inputs: usize, send_channels: usize) -> (r: bool)
    ensures
        r == route_ok(route@, local_inputs as int, send_channels as int),
{
    if let Some((_, dst)) = parse_stream_endpoint(route.destination.as_str()) {
        if dst >= send_channels {
            return false;
        }
        if same_text(route.source.as_str(), "ebu:l") || same_text(route.source.as_str(), "ebu:r") {
            return true;
        }
        return match parse_endpoint_channel(route.source.as_str(), "input:") {
            Some(ch) => ch < local_inputs,
            None => false,
        };
    }
    if let Some(dst) = parse_endpoint_channel(route.destination.as_str(), "output:") {
        if dst >= 2 {
            return false;
        }
        return parse_peer_endpoint(route.source.as_str()).is_some();
    }
    false
}

/// The stored routes that can be made, in their order.
pub fn load_persisted_routes(stored: &[Route], local_inputs: usize, send_channels: usize) -> (r: Vec<
    Route,
>)
    ensures
        r@ == stored@.filter(
            |route: Route| route_ok(route@, local_inputs as int, send_channels as int),
        ),
{
    let ghost keep = |route: Route| route_ok(route@, local_inputs as int, send_channels as int);
    let mut out: Vec<Route> = Vec::new();
    for i in 0..stored.len()
        invariant
            keep == (|route: Route| route_ok(route@, local_inputs as int, send_channels as int)),
            out@ == stored@.take(i as int).filter(keep),
    {
        proof {
            reveal(Seq::filter);
            assert(stored@.take(i + 1).drop_last() =~= stored@.take(i as int));
        }
        if route_valid_for_runtime(&stored[i], local_inputs, send_channels) {
            out.push(stored[i].clone());
        }
    }
    assert(stored@.take(stored@.len() as int) =~= stored@);
    out
}

// ---------------------------------------------------------------------------------------------
// What the physical outputs play

/// Whether bit `b` of a mask is set.
pub open spec fn has_bit(mask: u64, b: int) -> bool {
    (mask >> (b as u64)) & 1 == 1
}

/// Whether an output with this mask plays the channel in ring `slot`.
pub fn plays(mask: u64, slot: usize) -> (r: bool)
    ensures
        r == (slot < 64 && has_bit(mask, slot as int)),
{
    slot < 64 && (mask >> (slot as u64)) & 1 == 1
}

proof fn lemma_no_bit(b: int)
    requires
        0 <= b < 64,
    ensures
        !has_bit(0, b),
{
    let n = b as u64;
    assert((0u64 >> n) & 1 == 0) by (bit_vector)
        requires
            n < 64,
    ;
}

proof fn lemma_set_bit(mask: u64, set: int, b: int)
    requires
        0 <= set < 64,
        0 <= b < 64,
    ensures
        has_bit(mask | (1u64 << (set as u64)), b) == (has_bit(mask, b) || b == set),
{
    let n = b as u64;
    let k = set as u64;
    assert((((mask | (1u64 << k)) >> n) & 1 == 1) == (((mask >> n) & 1 == 1) || n == k))
        by (bit_vector)
        requires
            n < 64,
            k < 64,
    ;
}

/// The mask with these bits set.
pub open spec fn mask_of(bits: Seq<Option<int>>) -> u64
    decreases bits.len(),
{
    if bits.len() == 0 {
        0
    } else {
        let mask = mask_of(bits.drop_last());
        match bits.last() {
            Some(b) => mask | (1u64 << (b as u64)),
            None => mask,
        }
    }
}

proof fn lemma_mask_of(bits: Seq<Option<int>>, b: int)
    requires
        0 <= b < 64,
        forall|i: int| 0 <= i < bits.len() ==> (#[trigger] bits[i] matches Some(n) ==> 0 <= n < 64),
    ensures
        has_bit(mask_of(bits), b) <==> bits.contains(Some(b)),
    decreases bits.len(),
{
    if bits.len() == 0 {
        lemma_no_bit(b);
    } else {
        let before = bits.drop_last();
        lemma_mask_of(before, b);
        let last = bits[bits.len() - 1];
        if let Some(set) = last {
            lemma_set_bit(mask_of(before), set, b);
        }
        if before.contains(Some(b)) {
            let i = choose|i: int| 0 <= i < before.len() && before[i] == Some(b);
            assert(bits[i] == Some(b));
        }
        if bits.contains(Some(b)) && last != Some(b) {
            let i = choose|i: int| 0 <= i < bits.len() && bits[i] == Some(b);
            assert(before[i] == Some(b));
        }
    }
}

/// The bit that a route sets in the mask of an output, where remotes have `per_remote` channels
/// each: remotes stand one behind the other, and what lies beyond the mask is left out.
pub open spec fn output_bit(route: RouteView, per_remote: int, side: int) -> Option<int> {
    match (peer_endpoint(route.source), endpoint_channel(route.destination, "output:"@)) {
        (Some((idx, ch)), Some(dst)) => if dst == side && idx * per_remote + ch < 64 {
            Some(idx * per_remote + ch)
        } else {
            None
        },
        _ => None,
    }
}

/// The bits that routes set in the mask of an output.
pub open spec fn output_bits(routes: Seq<RouteView>, per_remote: int, side: int) -> Seq<Option<int>> {
    routes.map_values(|route: RouteView| output_bit(route, per_remote, side))
}

/// The mask of an output: a bit for each channel that it plays.
pub open spec fn output_mask(routes: Seq<RouteView>, per_remote: int, side: int) -> u64 {
    mask_of(output_bits(routes, per_remote, side))
}

fn flat_index(idx: usize, per_remote: usize, ch: usize) -> (r: Option<u64>)
    requires
        ch < 64,
    ensures
        match r {
            Some(b) => b == idx * per_remote + ch && b < 64,
            None => idx * per_remote + ch >= 64,
        },
{
    if idx == 0 || per_remote == 0 {
        assert(idx * per_remote == 0) by (nonlinear_arith)
            requires
                idx == 0 || per_remote == 0,
        ;
        return Some(ch as u64);
    }
    if idx >= 64 || per_remote >= 64 {
        assert(idx * per_remote >= 64) by (nonlinear_arith)
            requires
                idx >= 1,
                per_remote >= 1,
                idx >= 64 || per_remote >= 64,
        ;
        return None;
    }
    assert(0 <= idx * per_remote < 64 * 64) by (nonlinear_arith)
        requires
            0 <= idx < 64,
            0 <= per_remote < 64,
    ;
    let bit: usize = idx * per_remote + ch;
    if bit < 64 {
        Some(bit as u64)
    } else {
        None
    }
}

/// Writes the masks of the two physical outputs.
pub fn apply_routes_to_masks(routes: &[Route], masks: &mut [u64; 2], channels_per_remote: usize)
    ensures
        final(masks)@[0] == output_mask(route_views(routes@), channels_per_remote as int, 0),
        final(masks)@[1] == output_mask(route_views(routes@), channels_per_remote as int, 1),
{
    let ghost views = route_views(routes@);
    let ghost per_remote = channels_per_remote as int;
    let mut left: u64 = 0;
    let mut right: u64 = 0;
    for i in 0..routes.len()
        invariant
            views == route_views(routes@),
            per_remote == channels_per_remote as int,
            left == mask_of(output_bits(views, per_remote, 0).take(i as int)),
            right == mask_of(output_bits(views, per_remote, 1).take(i as int)),
    {
        proof {
            let l = output_bits(views, per_remote, 0);
            let r = output_bits(views, per_remote, 1);
            assert(l.take(i + 1).drop_last() =~= l.take(i as int));
            assert(r.take(i + 1).drop_last() =~= r.take(i as int));
            assert(views[i as int] == routes@[i as int]@);
        }
        let source = parse_peer_endpoint(routes[i].source.as_str());
        let side = parse_endpoint_channel(routes[i].destination.as_str(), "output:");
        if let Some((idx, ch)) = source {
            if let Some(dst) = side {
                if let Some(b) = flat_index(idx, channels_per_remote, ch) {
                    if dst == 0 {
                        left = left | (1u64 << b);
                    } else if dst == 1 {
                        right = right | (1u64 << b);
                    }
                }
            }
        }
    }
    proof {
        let l = output_bits(views, per_remote, 0);
        let r = output_bits(views, per_remote, 1);
        assert(l.take(l.len() as int) =~= l);
        assert(r.take(r.len() as int) =~= r);
    }
    masks[0] = left;
    masks[1] = right;
}

/// An output plays a channel of a remote exactly when some route joins the two.
pub proof fn law_output_plays_what_is_routed(
    routes: Seq<RouteView>,
    per_remote: int,
    side: int,
    b: int,
)
    requires
        0 <= per_remote,
        0 <= b < 64,
    ensures
        has_bit(output_mask(routes, per_remote, side), b) <==> exists|i: int|
            0 <= i < routes.len() && output_bit(#[trigger] routes[i], per_remote, side) == Some(b),
{
    let bits = output_bits(routes, per_remote, side);
    assert forall|i: int| 0 <= i < bits.len() implies (#[trigger] bits[i] matches Some(n) ==> 0 <= n
        < 64) by {
        if let Some((idx, ch)) = peer_endpoint(routes[i].source) {
            assert(idx * per_remote >= 0) by (nonlinear_arith)
                requires
                    per_remote >= 0,
            ;
        }
    }
    lemma_mask_of(bits, b);
    if bits.contains(Some(b)) {
        let i = choose|i: int| 0 <= i < bits.len() && bits[i] == Some(b);
        assert(output_bit(routes[i], per_remote, side) == Some(b));
    }
    if exists|i: int|
        0 <= i < routes.len() && output_bit(#[trigger] routes[i], per_remote, side) == Some(b) {
        let i = choose|i: int|
            0 <= i < routes.len() && output_bit(#[trigger] routes[i], per_remote, side) == Some(b);
        assert(bits[i] == Some(b));
    }
}

// ---------------------------------------------------------------------------------------------
// What is sent

/// The source code of an endpoint that can be sent.
pub open spec fn source_code(id: Seq<char>) -> Option<int> {
    if id == "ebu:l"@ {
        Some(TX_SRC_EBU_L as int)
    } else if id == "ebu:r"@ {
        Some(TX_SRC_EBU_R as int)
    } else {
        match endpoint_channel(id, "input:"@) {
            Some(ch) => Some(TX_SRC_INPUT_BASE + ch),
            None => None,
        }
    }
}

/// The source code of an endpoint that can be sent.
pub fn tx_source_code_from_endpoint(id: &str) -> (r: Option<usize>)
    ensures
        match r {
            Some(code) => source_code(id@) == Some(code as int),
            None => source_code(id@) is None,
        },
{
    if same_text(id, "ebu:l") {
        Some(TX_SRC_EBU_L)
    } else if same_text(id, "ebu:r") {
        Some(TX_SRC_EBU_R)
    } else {
        match parse_endpoint_channel(id, "input:") {
            Some(ch) => Some(TX_SRC_INPUT_BASE + ch),
            None => None,
        }
    }
}

/// The bit of a source in the mask of a send channel: the two tones, then as many inputs as there
/// is room for.
pub open spec fn source_bit_index(code: int) -> Option<int> {
    if code == TX_SRC_EBU_L {
        Some(0)
    } else if code == TX_SRC_EBU_R {
        Some(1)
    } else if TX_SRC_INPUT_BASE <= code < TX_SRC_INPUT_BASE + 62 {
        Some(2 + (code - TX_SRC_INPUT_BASE))
    } else {
        None
    }
}

/// The bit of a source, as a mask with that bit alone.
pub fn tx_source_bit(source_code: usize) -> (r: Option<u64>)
    ensures
        match r {
            Some(mask) => source_bit_index(source_code as int) matches Some(b) && mask == 1u64 << (
            b as u64),
            None => source_bit_index(source_code as int) is None,
        },
{
    if source_code == TX_SRC_EBU_L {
        assert(1u64 << 0u64 == 1u64) by (bit_vector);
        Some(1)
    } else if source_code == TX_SRC_EBU_R {
        assert(1u64 << 1u64 == 2u64) by (bit_vector);
        Some(2)
    } else if source_code >= TX_SRC_INPUT_BASE && source_code < TX_SRC_INPUT_BASE + 62 {
        let b: u64 = 2 + (source_code - TX_SRC_INPUT_BASE) as u64;
        Some(1u64 << b)
    } else {
        None
    }
}

/// The source code that a bit stands for.
pub open spec fn code_of_bit(b: int) -> Option<int> {
    if b == 0 {
        Some(TX_SRC_EBU_L as int)
    } else if b == 1 {
        Some(TX_SRC_EBU_R as int)
    } else if 2 <= b < 64 {
        Some(TX_SRC_INPUT_BASE + (b - 2))
    } else {
        None
    }
}

/// The source code that a bit stands for.
pub fn source_code_from_bit_index(bit: usize) -> (r: Option<usize>)
    ensures
        match r {
            Some(code) => code_of_bit(bit as int) == Some(code as int),
            None => code_of_bit(bit as int) is None,
        },
{
    if bit == 0 {
        Some(TX_SRC_EBU_L)
    } else if bit == 1 {
        Some(TX_SRC_EBU_R)
    } else if bit < 64 {
        Some(TX_SRC_INPUT_BASE + (bit - 2))
    } else {
        None
    }
}

/// The bit that a route sets in the mask of send channel `dst`.
pub open spec fn send_bit(route: RouteView, dst: int) -> Option<int> {
    match (source_code(route.source), stream_endpoint(route.destination)) {
        (Some(code), Some((_, ch))) => if ch == dst {
            source_bit_index(code)
        } else {
            None
        },
        _ => None,
    }
}

/// The bits that routes set in the mask of send channel `dst`.
pub open spec fn send_bits(routes: Seq<RouteView>, dst: int) -> Seq<Option<int>> {
    routes.map_values(|route: RouteView| send_bit(route, dst))
}

/// The mask of a send channel: a bit for each source that it mixes.
pub open spec fn send_mask(routes: Seq<RouteView>, dst: int) -> u64 {
    mask_of(send_bits(routes, dst))
}

/// Writes the mask of each send channel, as wide as a machine word.
pub fn apply_routes_to_tx_sources(routes: &[Route], tx_sources: &mut Vec<usize>)
    ensures
        final(tx_sources)@ == Seq::new(
            old(tx_sources)@.len(),
            |dst: int| send_mask(route_views(routes@), dst) as usize,
        ),
{
    let ghost views = route_views(routes@);
    let count: usize = tx_sources.len();
    let mut masks: Vec<u64> = Vec::new();
    for i in 0..count
        invariant
            masks@.len() == i,
            forall|j: int| 0 <= j < i ==> masks@[j] == 0,
    {
        masks.push(0);
    }
    for i in 0..routes.len()
        invariant
            views == route_views(routes@),
            masks@.len() == count,
            forall|j: int|
                0 <= j < count ==> #[trigger] masks@[j] == mask_of(send_bits(views, j).take(i as int)),
    {
        proof {
            assert forall|j: int| 0 <= j < count implies #[trigger] send_bits(views, j).take(
                i + 1,
            ).drop_last() == send_bits(views, j).take(i as int) by {
                assert(send_bits(views, j).take(i + 1).drop_last() =~= send_bits(views, j).take(
                    i as int,
                ));
            }
            assert(views[i as int] == routes@[i as int]@);
        }
        let code = tx_source_code_from_endpoint(routes[i].source.as_str());
        let stream = parse_stream_endpoint(routes[i].destination.as_str());
        if let Some(code) = code {
            if let Some(bit) = tx_source_bit(code) {
                if let Some((_, dst)) = stream {
                    if dst < count {
                        let mask: u64 = masks[dst] | bit;
                        masks.set(dst, mask);
                    }
                }
            }
        }
    }
    assert forall|j: int| 0 <= j < count implies #[trigger] masks@[j] == send_mask(views, j) by {
        assert(send_bits(views, j).take(routes@.len() as int) =~= send_bits(views, j));
    }
    for i in 0..count
        invariant
            count == tx_sources@.len(),
            masks@.len() == count,
            forall|j: int| 0 <= j < count ==> #[trigger] masks@[j] == send_mask(views, j),
            forall|j: int| 0 <= j < i ==> #[trigger] tx_sources@[j] == send_mask(views, j) as usize,
    {
        let mask: u64 = masks[i];
        assert(mask == send_mask(views, i as int));
        tx_sources.set(i, mask as usize);
    }
}

/// A send channel mixes a source exactly when some route joins the two.
pub proof fn law_channel_sends_what_is_routed(routes: Seq<RouteView>, dst: int, b: int)
    requires
        0 <= b < 64,
    ensures
        has_bit(send_mask(routes, dst), b) <==> exists|i: int|
            0 <= i < routes.len() && send_bit(#[trigger] routes[i], dst) == Some(b),
{
    let bits = send_bits(routes, dst);
    lemma_mask_of(bits, b);
    if bits.contains(Some(b)) {
        let i = choose|i: int| 0 <= i < bits.len() && bits[i] == Some(b);
        assert(send_bit(routes[i], dst) == Some(b));
    }
    if exists|i: int| 0 <= i < routes.len() && send_bit(#[trigger] routes[i], dst) == Some(b) {
        let i = choose|i: int| 0 <= i < routes.len() && send_bit(#[trigger] routes[i], dst) == Some(b);
        assert(bits[i] == Some(b));
    }
}

/// Until a route is made no output has a channel to play, and no send channel a source.
pub proof fn law_nothing_without_routes(per_remote: int, side: int, dst: int)
    ensures
        output_mask(Seq::empty(), per_remote, side) == 0,
        send_mask(Seq::empty(), dst) == 0,
{
}

/// A bit stands for the source whose bit it is, and the other way round.
pub proof fn law_source_codes_are_bits(code: int, b: int)
    ensures
        source_bit_index(code) == Some(b) <==> code_of_bit(b) == Some(code),
{
}

/// The order of the routes does not matter, nor how often one is named: the same routes give the
/// same masks, of the outputs as of the send channels.
pub proof fn law_masks_depend_on_route_set(
    first: Seq<RouteView>,
    second: Seq<RouteView>,
    per_remote: int,
    side: int,
    dst: int,
)
    requires
        0 <= per_remote,
        forall|r: RouteView| first.contains(r) <==> second.contains(r),
    ensures
        output_mask(first, per_remote, side) == output_mask(second, per_remote, side),
        send_mask(first, dst) == send_mask(second, dst),
{
    assert forall|b: int| 0 <= b < 64 implies has_bit(output_mask(first, per_remote, side), b)
        == has_bit(output_mask(second, per_remote, side), b) by {
        law_output_plays_what_is_routed(first, per_remote, side, b);
        law_output_plays_what_is_routed(second, per_remote, side, b);
        if has_bit(output_mask(first, per_remote, side), b) {
            let i = choose|i: int|
                0 <= i < first.len() && output_bit(#[trigger] first[i], per_remote, side) == Some(b);
            assert(second.contains(first[i]));
        }
        if has_bit(output_mask(second, per_remote, side), b) {
            let i = choose|i: int|
                0 <= i < second.len() && output_bit(#[trigger] second[i], per_remote, side) == Some(
                    b,
                );
            assert(first.contains(second[i]));
        }
    }
    lemma_same_bits(output_mask(first, per_remote, side), output_mask(second, per_remote, side));
    assert forall|b: int| 0 <= b < 64 implies has_bit(send_mask(first, dst), b) == has_bit(
        send_mask(second, dst),
        b,
    ) by {
        law_channel_sends_what_is_routed(first, dst, b);
        law_channel_sends_what_is_routed(second, dst, b);
        if has_bit(send_mask(first, dst), b) {
            let i = choose|i: int|
                0 <= i < first.len() && send_bit(#[trigger] first[i], dst) == Some(b);
            assert(second.contains(first[i]));
        }
        if has_bit(send_mask(second, dst), b) {
            let i = choose|i: int|
                0 <= i < second.len() && send_bit(#[trigger] second[i], dst) == Some(b);
            assert(first.contains(second[i]));
        }
    }
    lemma_same_bits(send_mask(first, dst), send_mask(second, dst));
}

proof fn lemma_same_upper_bits(x: u64, y: u64, n: u64)
    requires
        n < 64,
        forall|b: int| 0 <= b < 64 ==> has_bit(x, b) == has_bit(y, b),
    ensures
        x >> n == y >> n,
    decreases 64 - n,
{
    assert(has_bit(x, n as int) == has_bit(y, n as int));
    if n == 63 {
        assert(((x >> 63u64) & 1 == 1) == ((y >> 63u64) & 1 == 1) ==> x >> 63u64 == y >> 63u64)
            by (bit_vector);
    } else {
        lemma_same_upper_bits(x, y, (n + 1) as u64);
        let m = (n + 1) as u64;
        assert(x >> n == y >> n) by (bit_vector)
            requires
                n < 63,
                m == n + 1,
                x >> m == y >> m,
                ((x >> n) & 1 == 1) == ((y >> n) & 1 == 1),
        ;
    }
}

proof fn lemma_same_bits(x: u64, y: u64)
    requires
        forall|b: int| 0 <= b < 64 ==> has_bit(x, b) == has_bit(y, b),
    ensures
        x == y,
{
    lemma_same_upper_bits(x, y, 0);
    assert(x >> 0u64 == y >> 0u64 ==> x == y) by (bit_vector);
}

// ---------------------------------------------------------------------------------------------
// Endpoint names read back

/// The endpoint that names a channel of a remote.
pub open spec fn remote_endpoint_name(prefix: Seq<char>, idx: nat, ch: nat) -> Seq<char> {
    prefix + decimal(idx) + ":ch:"@ + decimal(ch)
}

/// An endpoint written for a channel reads back as that channel.
pub proof fn law_endpoint_roundtrip(prefix: Seq<char>, ch: nat)
    requires
        ch < MAX_CHANNELS as nat,
    ensures
        endpoint_channel(prefix + decimal(ch), prefix) == Some(ch),
{
    let id = prefix + decimal(ch);
    assert(prefix =~= id.subrange(0, prefix.len() as int));
    assert(id.skip(prefix.len() as int) =~= decimal(ch));
    lemma_decimal_roundtrip(ch, usize::MAX as nat);
}

/// An endpoint written for a channel of a remote reads back as that channel of that remote.
pub proof fn law_remote_endpoint_roundtrip(prefix: Seq<char>, idx: nat, ch: nat)
    requires
        idx <= usize::MAX as nat,
        ch < MAX_CHANNELS as nat,
    ensures
        remote_endpoint(remote_endpoint_name(prefix, idx, ch), prefix) == Some((idx, ch)),
{
    reveal_strlit(":ch:");
    reveal_strlit("ch:");
    let id = remote_endpoint_name(prefix, idx, ch);
    let rest = decimal(idx) + ":ch:"@ + decimal(ch);
    assert(prefix =~= id.subrange(0, prefix.len() as int));
    assert(id.skip(prefix.len() as int) =~= rest);
    lemma_decimal(idx);
    lemma_until_is(rest, ':', decimal(idx).len() as int);
    assert(rest.take(decimal(idx).len() as int) =~= decimal(idx));
    assert(rest.skip(decimal(idx).len() as int + 1) =~= "ch:"@ + decimal(ch));
    lemma_decimal_roundtrip(idx, usize::MAX as nat);
    law_endpoint_roundtrip("ch:"@, ch);
}

/// A receive endpoint that says `remote` is that of the first remote, and stands for the same channel
/// as the one with its number.
pub proof fn law_first_remote_needs_no_number(ch: nat)
    requires
        ch < MAX_CHANNELS as nat,
    ensures
        peer_endpoint("peer:remote:ch:"@ + decimal(ch)) == Some((0nat, ch)),
        peer_endpoint(remote_endpoint_name("peer:"@, 0, ch)) == Some((0nat, ch)),
{
    reveal_strlit("peer:");
    reveal_strlit("peer:remote:ch:");
    law_remote_endpoint_roundtrip("peer:"@, 0, ch);
    law_endpoint_roundtrip("peer:remote:ch:"@, ch);
    let id = "peer:remote:ch:"@ + decimal(ch);
    let rest = id.skip(5);
    assert(id.subrange(0, 5) =~= "peer:"@);
    assert forall|j: int| 0 <= j < 6 implies rest[j] != ':' by {
        assert(rest[j] == "peer:remote:ch:"@[5 + j]);
    }
    assert(rest[6] == ':');
    lemma_until_is(rest, ':', 6);
    let word = rest.take(6);
    assert(word[0] == 'r');
    assert(unsigned_value(word, usize::MAX as nat) is None);
}

/// A route from a receive endpoint that says `remote` can be made wherever the one with the number
/// can, and an output plays the same for it.
pub proof fn law_first_remote_is_routed_alike(
    ch: nat,
    to: Seq<char>,
    inputs: int,
    sends: int,
    per_remote: int,
    side: int,
)
    requires
        ch < MAX_CHANNELS as nat,
        stream_endpoint(to) is None,
    ensures
        ({
            let named = RouteView { source: "peer:remote:ch:"@ + decimal(ch), destination: to };
            let numbered = RouteView {
                source: remote_endpoint_name("peer:"@, 0, ch),
                destination: to,
            };
            &&& route_ok(named, inputs, sends) == route_ok(numbered, inputs, sends)
            &&& output_bit(named, per_remote, side) == output_bit(numbered, per_remote, side)
        }),
{
    law_first_remote_needs_no_number(ch);
}

// ---------------------------------------------------------------------------------------------
// The matrix that is shown

/// A line-up tone.
pub open spec fn tone_endpoint(id: Seq<char>, label: Seq<char>) -> EndpointView {
    EndpointView { id, label, kind: "test_tone"@ }
}

/// A physical input.
pub open spec fn input_endpoint(ch: int) -> EndpointView {
    EndpointView {
        id: "input:"@ + decimal(ch as nat),
        label: "Local Input "@ + decimal((ch + 1) as nat),
        kind: "physical_input"@,
    }
}

/// A channel that is received.
pub open spec fn received_endpoint(device: Seq<char>, labels: Seq<Seq<char>>, ch: int) -> EndpointView {
    EndpointView {
        id: remote_endpoint_name("peer:"@, 0, ch as nat),
        label: device + " \u{2022} "@ + label_or_default(labels, ch),
        kind: "network_receive"@,
    }
}

/// A physical output.
pub open spec fn output_endpoint(ch: int) -> EndpointView {
    EndpointView {
        id: "output:"@ + decimal(ch as nat),
        label: "Local Output "@ + decimal((ch + 1) as nat),
        kind: "physical_output"@,
    }
}

/// A channel that is sent.
pub open spec fn sent_endpoint(labels: Seq<Seq<char>>, ch: int) -> EndpointView {
    EndpointView {
        id: remote_endpoint_name("stream:"@, 0, ch as nat),
        label: "Send "@ + decimal((ch + 1) as nat) + " \u{2014} "@ + label_or_default(labels, ch),
        kind: "network_send"@,
    }
}

/// The channels of the other end that the matrix shows: those it has told, or the last that are
/// remembered.
pub open spec fn shown_channels(state: WebState) -> int {
    let n = match state.remote_metadata {
        Some(m) => m.channels as int,
        None => state.remote_channels as int,
    };
    if n < MAX_CHANNELS {
        n
    } else {
        MAX_CHANNELS as int
    }
}

/// The name of the other end that the matrix shows.
pub open spec fn shown_device(state: WebState) -> Seq<char> {
    match state.remote_metadata {
        Some(m) => match m.node_id {
            Some(id) => id@,
            None => "Connected Device"@,
        },
        None => "Connected Device"@,
    }
}

/// The labels of the channels of the other end that the matrix shows.
pub open spec fn shown_labels(state: WebState) -> Seq<Seq<char>> {
    match state.remote_metadata {
        Some(m) => texts(m.labels@),
        None => Seq::empty(),
    }
}

/// The rows of the matrix: the tones, the physical inputs, and what is received.
pub open spec fn matrix_sources(state: WebState) -> Seq<EndpointView> {
    seq![tone_endpoint("ebu:l"@, "EBU L"@), tone_endpoint("ebu:r"@, "EBU R"@)] + Seq::new(
        state.local_input_channels as nat,
        |ch: int| input_endpoint(ch),
    ) + Seq::new(
        shown_channels(state) as nat,
        |ch: int| received_endpoint(shown_device(state), shown_labels(state), ch),
    )
}

/// The columns of the matrix: the physical outputs, and what is sent.
pub open spec fn matrix_destinations(state: WebState) -> Seq<EndpointView> {
    seq![output_endpoint(0), output_endpoint(1)] + Seq::new(
        state.local_channels as nat,
        |ch: int| sent_endpoint(texts(state.local_labels@), ch),
    )
}

fn tone(id: &str, label: &str) -> (r: Endpoint)
    ensures
        r@ == tone_endpoint(id@, label@),
{
    Endpoint { id: id.to_string(), label: label.to_string(), kind: "test_tone".to_string() }
}

fn physical(
    id_prefix: &str,
    label_prefix: &str,
    kind: &str,
    ch: usize,
) -> (r: Endpoint)
    requires
        ch < usize::MAX,
    ensures
        r@.id == id_prefix@ + decimal(ch as nat),
        r@.label == label_prefix@ + decimal((ch + 1) as nat),
        r@.kind == kind@,
{
    let mut id = id_prefix.to_string();
    id.append(decimal_text(ch as u64).as_str());
    let mut label = label_prefix.to_string();
    label.append(decimal_text((ch + 1) as u64).as_str());
    Endpoint { id, label, kind: kind.to_string() }
}

proof fn lemma_zero_digit()
    ensures
        decimal(0) == "0"@,
{
    reveal_strlit("0");
    assert(decimal(0) =~= "0"@);
}

fn network_id(prefix: &str, ch: usize) -> (r: String)
    ensures
        r@ == remote_endpoint_name(prefix@, 0, ch as nat),
{
    let mut id = prefix.to_string();
    id.append("0");
    id.append(":ch:");
    id.append(decimal_text(ch as u64).as_str());
    proof {
        lemma_zero_digit();
    }
    id
}

fn received(device: &str, labels: &[String], ch: usize) -> (r: Endpoint)
    requires
        ch < usize::MAX,
    ensures
        r@ == received_endpoint(device@, texts(labels@), ch as int),
{
    let mut label = device.to_string();
    label.append(" \u{2022} ");
    label.append(label_at(labels, ch).as_str());
    Endpoint { id: network_id("peer:", ch), label, kind: "network_receive".to_string() }
}

fn sent(labels: &[String], ch: usize) -> (r: Endpoint)
    requires
        ch < usize::MAX,
    ensures
        r@ == sent_endpoint(texts(labels@), ch as int),
{
    let mut label = "Send ".to_string();
    label.append(decimal_text((ch + 1) as u64).as_str());
    label.append(" \u{2014} ");
    label.append(label_at(labels, ch).as_str());
    Endpoint { id: network_id("stream:", ch), label, kind: "network_send".to_string() }
}

fn shown_sources(state: &WebState) -> (r: Vec<Endpoint>)
    ensures
        endpoint_views(r@) == matrix_sources(*state),
{
    let no_labels: Vec<String> = Vec::new();
    assert(texts(no_labels@) =~= Seq::<Seq<char>>::empty());
    let mut count: usize = match &state.remote_metadata {
        Some(m) => m.channels,
        None => state.remote_channels,
    };
    if count > MAX_CHANNELS {
        count = MAX_CHANNELS;
    }
    let device: &str = match &state.remote_metadata {
        Some(m) => match &m.node_id {
            Some(id) => id.as_str(),
            None => "Connected Device",
        },
        None => "Connected Device",
    };
    let labels: &[String] = match &state.remote_metadata {
        Some(m) => m.labels.as_slice(),
        None => no_labels.as_slice(),
    };
    let mut out: Vec<Endpoint> = Vec::new();
    out.push(tone("ebu:l", "EBU L"));
    out.push(tone("ebu:r", "EBU R"));
    let inputs: usize = state.local_input_channels;
    for ch in 0..inputs
        invariant
            inputs == state.local_input_channels,
            out@.len() == 2 + ch,
            out@[0]@ == tone_endpoint("ebu:l"@, "EBU L"@),
            out@[1]@ == tone_endpoint("ebu:r"@, "EBU R"@),
            forall|j: int| 0 <= j < ch ==> (#[trigger] out@[2 + j])@ == input_endpoint(j),
    {
        let ghost before = out@;
        let endpoint = physical("input:", "Local Input ", "physical_input", ch);
        assert(endpoint@ == input_endpoint(ch as int));
        out.push(endpoint);
        assert forall|j: int| 0 <= j < ch + 1 implies (#[trigger] out@[2 + j])@ == input_endpoint(j) by {
            if j < ch {
                assert(out@[2 + j] == before[2 + j]);
            }
        }
    }
    let ghost shown = matrix_sources(*state);
    assert forall|j: int| 0 <= j < out@.len() implies (#[trigger] out@[j])@ == shown[j] by {
        if j >= 2 {
            assert(out@[2 + (j - 2)]@ == input_endpoint(j - 2));
        }
    }
    for ch in 0..count
        invariant
            count == shown_channels(*state),
            count <= MAX_CHANNELS,
            inputs == state.local_input_channels,
            device@ == shown_device(*state),
            texts(labels@) == shown_labels(*state),
            shown == matrix_sources(*state),
            out@.len() == 2 + inputs + ch,
            forall|j: int| 0 <= j < out@.len() ==> (#[trigger] out@[j])@ == shown[j],
    {
        let ghost before = out@;
        let endpoint = received(device, labels, ch);
        assert(endpoint@ == shown[2 + inputs + ch]);
        out.push(endpoint);
        assert forall|j: int| 0 <= j < out@.len() implies (#[trigger] out@[j])@ == shown[j] by {
            if j < before.len() {
                assert(out@[j] == before[j]);
            }
        }
    }
    assert(endpoint_views(out@) =~= shown);
    out
}

fn shown_destinations(state: &WebState) -> (r: Vec<Endpoint>)
    ensures
        endpoint_views(r@) == matrix_destinations(*state),
{
    let mut out: Vec<Endpoint> = Vec::new();
    out.push(physical("output:", "Local Output ", "physical_output", 0));
    out.push(physical("output:", "Local Output ", "physical_output", 1));
    let ghost shown = matrix_destinations(*state);
    assert(out@[0]@ == output_endpoint(0));
    assert(out@[1]@ == output_endpoint(1));
    let count: usize = state.local_channels;
    for ch in 0..count
        invariant
            count == state.local_channels,
            shown == matrix_destinations(*state),
            out@.len() == 2 + ch,
            forall|j: int| 0 <= j < out@.len() ==> (#[trigger] out@[j])@ == shown[j],
    {
        let ghost before = out@;
        let endpoint = sent(state.local_labels.as_slice(), ch);
        assert(endpoint@ == shown[2 + ch]);
        out.push(endpoint);
        assert forall|j: int| 0 <= j < out@.len() implies (#[trigger] out@[j])@ == shown[j] by {
            if j < before.len() {
                assert(out@[j] == before[j]);
            }
        }
    }
    assert(endpoint_views(out@) =~= shown);
    out
}

/// The patch matrix of an endpoint.
pub fn matrix_for_state(state: &WebState) -> (r: MatrixResponse)
    ensures
        r.monitor_mode == MonitorMode::PatchMatrix,
        endpoint_views(r.sources@) == matrix_sources(*state),
        endpoint_views(r.destinations@) == matrix_destinations(*state),
        r.routes@ == state.routes@,
{
    MatrixResponse {
        monitor_mode: state.monitor_mode(),
        sources: shown_sources(state),
        destinations: shown_destinations(state),
        routes: copy_routes(state.routes.as_slice()),
    }
}

/// Every crosspoint that the matrix offers between a tone or an input and a send channel can be made.
pub proof fn law_offered_sends_can_be_made(state: WebState, input: int, ch: int)
    requires
        0 <= input < state.local_input_channels <= MAX_CHANNELS,
        0 <= ch < state.local_channels <= MAX_CHANNELS,
    ensures
        ({
            let to = matrix_destinations(state)[2 + ch].id;
            let inputs = state.local_input_channels as int;
            let sends = state.local_channels as int;
            &&& route_ok(RouteView { source: matrix_sources(state)[0].id, destination: to }, inputs, sends)
            &&& route_ok(RouteView { source: matrix_sources(state)[1].id, destination: to }, inputs, sends)
            &&& route_ok(
                RouteView { source: matrix_sources(state)[2 + input].id, destination: to },
                inputs,
                sends,
            )
        }),
{
    law_remote_endpoint_roundtrip("stream:"@, 0, ch as nat);
    law_endpoint_roundtrip("input:"@, input as nat);
    assert(matrix_sources(state)[2 + input] == input_endpoint(input));
    assert(matrix_destinations(state)[2 + ch] == sent_endpoint(texts(state.local_labels@), ch));
}

/// Every crosspoint that the matrix offers between what is received and a physical output can be
/// made.
pub proof fn law_offered_receives_can_be_made(state: WebState, ch: int, side: int)
    requires
        0 <= ch < shown_channels(state),
        0 <= side < 2,
    ensures
        route_ok(
            RouteView {
                source: matrix_sources(state)[2 + state.local_input_channels + ch].id,
                destination: matrix_destinations(state)[side].id,
            },
            state.local_input_channels as int,
            state.local_channels as int,
        ),
{
    law_remote_endpoint_roundtrip("peer:"@, 0, ch as nat);
    law_endpoint_roundtrip("output:"@, side as nat);
    reveal_strlit("stream:");
    reveal_strlit("output:");
    let from = matrix_sources(state)[2 + state.local_input_channels + ch];
    assert(from == received_endpoint(shown_device(state), shown_labels(state), ch));
    assert(matrix_destinations(state)[side] == output_endpoint(side));
    let to = output_endpoint(side).id;
    assert(to[0] == 'o');
    assert(!("stream:"@).is_prefix_of(to)) by {
        if ("stream:"@).is_prefix_of(to) {
            assert(to.subrange(0, 7)[0] == 's');
        }
    }
}

// ---------------------------------------------------------------------------------------------
// Routes by name

/// The route from one endpoint to another.
pub open spec fn route(source: Seq<char>, destination: Seq<char>) -> RouteView {
    RouteView { source, destination }
}

/// A bit is set in a mask with that bit alone, and no other is; none is set in an empty mask, and two
/// masks put together have the bits of both.
pub proof fn law_bits_of_masks(x: u64, y: u64, b: int, k: int)
    requires
        0 <= b < 64,
        0 <= k < 64,
    ensures
        has_bit(1u64 << (b as u64), k) <==> k == b,
        !has_bit(0, k),
        has_bit(x | y, k) <==> has_bit(x, k) || has_bit(y, k),
{
    lemma_no_bit(k);
    lemma_set_bit(0, b, k);
    let n = b as u64;
    assert(0u64 | (1u64 << n) == 1u64 << n) by (bit_vector);
    let m = k as u64;
    assert((((x | y) >> m) & 1 == 1) <==> (((x >> m) & 1 == 1) || ((y >> m) & 1 == 1)))
        by (bit_vector);
}

/// An output plays a channel of a remote where a route joins the two: remote `idx` has its rings from
/// `idx` times the channels of a remote on, and the channel stands in the ring of its number there.
pub proof fn law_route_sets_its_ring(
    routes: Seq<RouteView>,
    i: int,
    idx: nat,
    ch: nat,
    side: int,
    per_remote: int,
)
    requires
        0 <= i < routes.len(),
        idx <= usize::MAX,
        ch < 64,
        0 <= side < 64,
        0 <= per_remote,
        idx * per_remote + ch < 64,
        routes[i] == route(
            "peer:"@ + decimal(idx) + ":ch:"@ + decimal(ch),
            "output:"@ + decimal(side as nat),
        ),
    ensures
        has_bit(output_mask(routes, per_remote, side), idx * per_remote + ch),
{
    law_remote_endpoint_roundtrip("peer:"@, idx, ch);
    law_endpoint_roundtrip("output:"@, side as nat);
    assert(idx * per_remote >= 0) by (nonlinear_arith)
        requires
            per_remote >= 0,
    ;
    assert(remote_endpoint_name("peer:"@, idx, ch) == "peer:"@ + decimal(idx) + ":ch:"@ + decimal(
        ch,
    ));
    assert(output_bit(routes[i], per_remote, side) == Some(idx * per_remote + ch));
    law_output_plays_what_is_routed(routes, per_remote, side, idx * per_remote + ch);
}

/// An output plays no ring without a route: there is one from the remote and channel whose ring it is
/// to that output.
pub proof fn law_ring_has_its_route(routes: Seq<RouteView>, b: int, side: int, per_remote: int)
    requires
        0 <= b < 64,
        0 <= per_remote,
        has_bit(output_mask(routes, per_remote, side), b),
    ensures
        exists|i: int|
            0 <= i < routes.len() && (peer_endpoint((#[trigger] routes[i]).source) matches Some(
                (idx, ch),
            ) && b == idx * per_remote + ch && ch < 64) && endpoint_channel(
                routes[i].destination,
                "output:"@,
            ) == Some(side as nat),
{
    law_output_plays_what_is_routed(routes, per_remote, side, b);
    let i = choose|i: int|
        0 <= i < routes.len() && output_bit(#[trigger] routes[i], per_remote, side) == Some(b);
    assert(peer_endpoint(routes[i].source) is Some);
    assert(endpoint_channel(routes[i].destination, "output:"@) is Some);
}

proof fn lemma_first_letters(k: nat)
    ensures
        endpoint_channel("ebu:l"@, "input:"@) is None,
        endpoint_channel("ebu:r"@, "input:"@) is None,
        "ebu:l"@ != "ebu:r"@,
        "input:"@ + decimal(k) != "ebu:l"@,
        "input:"@ + decimal(k) != "ebu:r"@,
{
    reveal_strlit("ebu:l");
    reveal_strlit("ebu:r");
    reveal_strlit("input:");
    assert("ebu:l"@[4] == 'l' && "ebu:r"@[4] == 'r');
    assert(("input:"@ + decimal(k))[0] == 'i');
    assert("ebu:l"@[0] == 'e' && "ebu:r"@[0] == 'e');
}

/// What can be sent: a line-up tone, or a physical input that is there, to a channel that is sent.
pub proof fn law_sends_that_can_be_made(k: nat, idx: nat, ch: nat, inputs: int, sends: int)
    requires
        k < 64,
        idx <= usize::MAX,
        ch < 64,
    ensures
        ({
            let to = "stream:"@ + decimal(idx) + ":ch:"@ + decimal(ch);
            &&& route_ok(route("ebu:l"@, to), inputs, sends) <==> ch < sends
            &&& route_ok(route("ebu:r"@, to), inputs, sends) <==> ch < sends
            &&& route_ok(route("input:"@ + decimal(k), to), inputs, sends) <==> k < inputs && ch
                < sends
        }),
{
    law_remote_endpoint_roundtrip("stream:"@, idx, ch);
    law_endpoint_roundtrip("input:"@, k);
    lemma_first_letters(k);
    assert(remote_endpoint_name("stream:"@, idx, ch) == "stream:"@ + decimal(idx) + ":ch:"@
        + decimal(ch));
}

/// What can be played: any channel of any remote, to one of the two physical outputs; and what is
/// received cannot be sent on, nor an input be played.
pub proof fn law_receives_that_can_be_made(
    idx: nat,
    ch: nat,
    side: nat,
    inputs: int,
    sends: int,
)
    requires
        idx <= usize::MAX,
        ch < 64,
        side < 64,
    ensures
        ({
            let peer = "peer:"@ + decimal(idx) + ":ch:"@ + decimal(ch);
            let stream = "stream:"@ + decimal(idx) + ":ch:"@ + decimal(ch);
            let output = "output:"@ + decimal(side);
            &&& route_ok(route(peer, output), inputs, sends) <==> side < 2
            &&& !route_ok(route(peer, stream), inputs, sends)
            &&& !route_ok(route("input:"@ + decimal(ch), output), inputs, sends)
            &&& !route_ok(route("ebu:l"@, output), inputs, sends)
        }),
{
    law_remote_endpoint_roundtrip("peer:"@, idx, ch);
    law_remote_endpoint_roundtrip("stream:"@, idx, ch);
    law_endpoint_roundtrip("output:"@, side);
    reveal_strlit("peer:");
    reveal_strlit("peer:remote:ch:");
    reveal_strlit("stream:");
    reveal_strlit("output:");
    reveal_strlit("input:");
    reveal_strlit("ebu:l");
    reveal_strlit("ebu:r");
    let peer = "peer:"@ + decimal(idx) + ":ch:"@ + decimal(ch);
    let output = "output:"@ + decimal(side);
    let input = "input:"@ + decimal(ch);
    assert(remote_endpoint_name("peer:"@, idx, ch) == peer);
    assert(remote_endpoint_name("stream:"@, idx, ch) == "stream:"@ + decimal(idx) + ":ch:"@
        + decimal(ch));
    assert(peer[0] == 'p' && output[0] == 'o' && input[0] == 'i' && "ebu:l"@[0] == 'e');
    assert(peer != "ebu:l"@ && peer != "ebu:r"@) by {
        assert("ebu:r"@[0] == 'e');
    }
    lemma_other_letter(peer, "input:"@);
    lemma_other_letter(output, "stream:"@);
    lemma_other_letter(input, "peer:"@);
    lemma_other_letter(input, "peer:remote:ch:"@);
    lemma_other_letter("ebu:l"@, "peer:"@);
    lemma_other_letter("ebu:l"@, "peer:remote:ch:"@);
}

proof fn lemma_other_letter(id: Seq<char>, prefix: Seq<char>)
    requires
        id.len() > 0,
        prefix.len() > 0,
        id[0] != prefix[0],
    ensures
        after_prefix(id, prefix) is None,
{
    if prefix.is_prefix_of(id) {
        assert(prefix == id.subrange(0, prefix.len() as int));
        assert(id.subrange(0, prefix.len() as int)[0] == id[0]);
    }
}

/// What an endpoint can look like: anything that does not begin with the prefix names no channel, and
/// neither does a number that no link carries.
pub proof fn law_endpoint_needs_its_prefix(id: Seq<char>, prefix: Seq<char>, n: nat)
    requires
        n <= usize::MAX,
    ensures
        (forall|rest: Seq<char>| id != #[trigger] (prefix + rest)) ==> endpoint_channel(id, prefix) is None,
        n >= 64 ==> endpoint_channel(prefix + decimal(n), prefix) is None,
        endpoint_channel(id, prefix) matches Some(ch) ==> ch < 64,
{
    if prefix.is_prefix_of(id) {
        let rest = id.skip(prefix.len() as int);
        assert(id =~= prefix + rest);
    }
    let other = prefix + decimal(n);
    assert(prefix =~= other.subrange(0, prefix.len() as int));
    assert(other.skip(prefix.len() as int) =~= decimal(n));
    lemma_decimal_roundtrip(n, usize::MAX as nat);
}

/// The matrix shows the two tones, each physical input and each channel that is received; and the two
/// physical outputs and each channel that is sent.
pub proof fn law_matrix_rows_and_columns(state: WebState, k: int)
    ensures
        ({
            let rows = matrix_sources(state);
            let columns = matrix_destinations(state);
            let inputs = state.local_input_channels as int;
            &&& rows.len() == 2 + inputs + shown_channels(state)
            &&& rows[0].id == "ebu:l"@ && rows[0].label == "EBU L"@ && rows[0].kind == "test_tone"@
            &&& rows[1].id == "ebu:r"@ && rows[1].label == "EBU R"@ && rows[1].kind == "test_tone"@
            &&& 0 <= k < inputs ==> rows[2 + k].id == "input:"@ + decimal(k as nat) && rows[2
                + k].label == "Local Input "@ + decimal((k + 1) as nat) && rows[2 + k].kind
                == "physical_input"@
            &&& 0 <= k < shown_channels(state) ==> rows[2 + inputs + k].id == "peer:"@ + decimal(0)
                + ":ch:"@ + decimal(k as nat) && rows[2 + inputs + k].kind == "network_receive"@
            &&& columns.len() == 2 + state.local_channels
            &&& 0 <= k < 2 ==> columns[k].id == "output:"@ + decimal(k as nat) && columns[k].label
                == "Local Output "@ + decimal((k + 1) as nat) && columns[k].kind
                == "physical_output"@
            &&& 0 <= k < state.local_channels ==> columns[2 + k].id == "stream:"@ + decimal(0)
                + ":ch:"@ + decimal(k as nat) && columns[2 + k].kind == "network_send"@
        }),
{
}

/// As many channels of the other end are shown as it has told, or as are remembered where it has told
/// nothing, up to 64; each under the name of the device and its own, and those that are sent under
/// their number and name.
pub proof fn law_matrix_names(state: WebState, ch: int)
    ensures
        state.remote_metadata matches Some(m) ==> shown_channels(state) == (if m.channels <= 64 {
            m.channels as int
        } else {
            64
        }),
        state.remote_metadata is None ==> shown_channels(state) == (if state.remote_channels <= 64 {
            state.remote_channels as int
        } else {
            64
        }),
        0 <= ch < shown_channels(state) && (state.remote_metadata matches Some(m) && m.node_id is Some
            && ch < m.labels@.len()) ==> matrix_sources(state)[2 + state.local_input_channels
            + ch].label == state.remote_metadata->0.node_id->0@ + " \u{2022} "@
            + state.remote_metadata->0.labels@[ch]@,
        0 <= ch < shown_channels(state) && state.remote_metadata is None ==> matrix_sources(state)[2
            + state.local_input_channels + ch].label == "Connected Device"@ + " \u{2022} "@ + ("Ch "@
            + decimal((ch + 1) as nat)),
        0 <= ch < shown_channels(state) && (state.remote_metadata matches Some(m) && m.node_id is None
            && ch < m.labels@.len()) ==> matrix_sources(state)[2 + state.local_input_channels
            + ch].label == "Connected Device"@ + " \u{2022} "@
            + state.remote_metadata->0.labels@[ch]@,
        0 <= ch < state.local_channels && ch >= state.local_labels@.len() ==> matrix_destinations(
            state,
        )[2 + ch].label == "Send "@ + decimal((ch + 1) as nat) + " \u{2014} "@ + ("Ch "@ + decimal(
            (ch + 1) as nat,
        )),
        0 <= ch < state.local_channels && ch < state.local_labels@.len() ==> matrix_destinations(
            state,
        )[2 + ch].label == "Send "@ + decimal((ch + 1) as nat) + " \u{2014} "@
            + state.local_labels@[ch]@,
{
}

/// What is read of an endpoint is its numbers, each as it is.
pub proof fn law_numbers_of_an_endpoint(idx: usize, ch: usize)
    ensures
        as_pair(None) is None && as_channel(None) is None,
        as_pair(Some((idx, ch))) == Some((idx as nat, ch as nat)),
        as_channel(Some(ch)) == Some(ch as nat),
{
}

} // verus!
