//! The client side of the rendezvous service: what is sent, and what the answers mean.

use crate::constants::PORT;
use crate::metadata::hex_char;
use crate::text::{
    begins_with, chars_of, decimal, decimal_text, optional_text, text_of, trim_text, trimmed,
};
use vstd::prelude::*;
use vstd::slice::slice_subrange;

verus! {

// ---------------------------------------------------------------------------------------------
// Addresses

/// A text without the slashes at its end.
pub open spec fn without_slashes(s: Seq<char>) -> Seq<char>
    decreases s.len(),
{
    if s.len() > 0 && s.last() == '/' {
        without_slashes(s.drop_last())
    } else {
        s
    }
}

/// The address of the service: without slashes at its end, and by TLS where it says nothing else.
pub open spec fn base_url(url: Seq<char>) -> Seq<char> {
    let u = without_slashes(url);
    if ("http://"@).is_prefix_of(u) || ("https://"@).is_prefix_of(u) {
        u
    } else {
        "https://"@ + u
    }
}

/// The address of the service.
pub fn rendezvous_base(url: &str) -> (r: String)
    ensures
        r@ == base_url(url@),
{
    let chars = chars_of(url);
    let mut n: usize = chars.len();
    assert(chars@.take(n as int) =~= chars@);
    while n > 0 && chars[n - 1] == '/'
        invariant
            n <= chars@.len(),
            without_slashes(chars@) == without_slashes(chars@.take(n as int)),
        decreases n,
    {
        assert(chars@.take(n as int).drop_last() =~= chars@.take(n - 1));
        n = n - 1;
    }
    let u = slice_subrange(chars.as_slice(), 0, n);
    assert(u@ =~= chars@.take(n as int));
    let plain = chars_of("http://");
    let secure = chars_of("https://");
    if begins_with(u, plain.as_slice()) || begins_with(u, secure.as_slice()) {
        text_of(u)
    } else {
        let mut out = "https://".to_string();
        out.append(text_of(u).as_str());
        out
    }
}

/// The service that an endpoint uses: none where the setting is blank.
pub fn rendezvous_in_use(url: &Option<String>) -> (r: Option<String>)
    ensures
        optional_text(r) == match *url {
            Some(u) => if trimmed(u@).len() > 0 {
                Some(base_url(u@))
            } else {
                None
            },
            None => None,
        },
{
    match url {
        Some(u) => {
            if trim_text(u.as_str()).as_str().is_empty() {
                None
            } else {
                Some(rendezvous_base(u.as_str()))
            }
        },
        None => None,
    }
}

// ---------------------------------------------------------------------------------------------
// Requests

/// A character inside a JSON string.
pub open spec fn json_char(c: char) -> Seq<char> {
    if c == '"' || c == '\\' {
        seq!['\\', c]
    } else if c == '\u{8}' {
        seq!['\\', 'b']
    } else if c == '\u{c}' {
        seq!['\\', 'f']
    } else if c == '\n' {
        seq!['\\', 'n']
    } else if c == '\r' {
        seq!['\\', 'r']
    } else if c == '\t' {
        seq!['\\', 't']
    } else if (c as int) < 32 {
        seq!['\\', 'u', '0', '0', hex_char(c as int / 16), hex_char(c as int % 16)]
    } else {
        seq![c]
    }
}

/// The characters of a JSON string, without the quotes.
pub open spec fn json_chars(s: Seq<char>) -> Seq<char>
    decreases s.len(),
{
    if s.len() == 0 {
        Seq::empty()
    } else {
        json_chars(s.drop_last()) + json_char(s.last())
    }
}

/// A JSON string.
pub open spec fn json_string(s: Seq<char>) -> Seq<char> {
    seq!['"'] + json_chars(s) + seq!['"']
}

/// Calls `to_string` on a `serde_json::Value` that is a string. Claimed of it: the text is a JSON
/// string in which quotes, backslashes and the characters below the space are escaped, and all
/// others stand for themselves.
#[verifier::external_body]
fn json_quoted(s: &str) -> (r: String)
    ensures
        r@ == json_string(s@),
{
    serde_json::Value::String(s.to_string()).to_string()
}

/// What a device sends to register: its name and its port.
pub open spec fn register_text(name: Seq<char>) -> Seq<char> {
    "{\"name\":"@ + json_string(name) + ",\"port\":"@ + decimal(PORT as nat) + "}"@
}

/// What a device sends to register.
pub fn register_body(name: &str) -> (r: String)
    ensures
        r@ == register_text(name@),
{
    let mut out = "{\"name\":".to_string();
    out.append(json_quoted(name).as_str());
    out.append(",\"port\":");
    out.append(decimal_text(PORT as u64).as_str());
    out.append("}");
    out
}

/// What a device sends to be introduced to another.
pub open spec fn connect_text(my_name: Seq<char>, remote_name: Seq<char>) -> Seq<char> {
    "{\"my_name\":"@ + json_string(my_name) + ",\"remote_name\":"@ + json_string(remote_name) + "}"@
}

/// What a device sends to be introduced to another.
pub fn connect_body(my_name: &str, remote_name: &str) -> (r: String)
    ensures
        r@ == connect_text(my_name@, remote_name@),
{
    let mut out = "{\"my_name\":".to_string();
    out.append(json_quoted(my_name).as_str());
    out.append(",\"remote_name\":");
    out.append(json_quoted(remote_name).as_str());
    out.append("}");
    out
}

/// Whether a device that has registered asks to be introduced: only one that waits to be called, has
/// a remote, and has no link.
pub fn wants_introduction(is_initiator: bool, remote_name: &str, connected: bool) -> (r: bool)
    ensures
        r == (!is_initiator && remote_name@.len() > 0 && !connected),
{
    !is_initiator && !remote_name.is_empty() && !connected
}

// ---------------------------------------------------------------------------------------------
// Answers

/// What `serde_json` makes of a text and a key: nothing where the text is no JSON; else the text
/// under the key, as far as the JSON is an object that has a string there.
pub uninterp spec fn json_field(text: Seq<char>, key: Seq<char>) -> Option<Option<Seq<char>>>;

/// The text under a key of a JSON object.
#[derive(Debug)]
pub enum JsonField {
    /// The text is no JSON.
    Unreadable,
    /// There is no string under the key.
    Missing,
    Text(String),
}

impl View for JsonField {
    type V = Option<Option<Seq<char>>>;

    open spec fn view(&self) -> Option<Option<Seq<char>>> {
        match *self {
            JsonField::Unreadable => None,
            JsonField::Missing => Some(None),
            JsonField::Text(s) => Some(Some(s@)),
        }
    }
}

/// Calls `serde_json::from_str`, indexes the value with the key, and calls `Value::as_str` on what
/// stands there. Claimed of it: the result depends on the text and the key alone.
#[verifier::external_body]
fn json_text_field(text: &str, key: &str) -> (r: JsonField)
    ensures
        r@ == json_field(text@, key@),
{
    match serde_json::from_str::<serde_json::Value>(text) {
        Ok(v) => match v[key].as_str() {
            Some(s) => JsonField::Text(s.to_string()),
            None => JsonField::Missing,
        },
        Err(_) => JsonField::Unreadable,
    }
}

/// The address that an answer names: nothing where the answer cannot be read, and a mark that is no
/// address where it names none.
pub open spec fn named_address(field: Option<Option<Seq<char>>>) -> Option<Seq<char>> {
    match field {
        None => None,
        Some(None) => Some("?"@),
        Some(Some(addr)) => Some(addr),
    }
}

/// The address that an answer names.
pub fn address_in(field: JsonField) -> (r: Option<String>)
    ensures
        optional_text(r) == named_address(field@),
{
    match field {
        JsonField::Unreadable => None,
        JsonField::Missing => Some("?".to_string()),
        JsonField::Text(addr) => Some(addr),
    }
}

/// The address of the other device, from the answer to a request to be introduced.
pub fn connect_reply(text: &str) -> (r: Option<String>)
    ensures
        optional_text(r) == named_address(json_field(text@, "remote_addr"@)),
{
    address_in(json_text_field(text, "remote_addr"))
}

/// Who wants a link.
#[derive(Debug)]
pub struct Inbound {
    pub from_name: String,
    pub from_addr: String,
}

/// Who wants a link, where the two fields of an event are these. An event without an address says
/// nothing.
pub fn inbound_from(name: JsonField, addr: JsonField) -> (r: Option<Inbound>)
    ensures
        match r {
            Some(i) => addr@ == Some(Some(i.from_addr@)) && i.from_addr@.len() > 0 && i.from_name@
                == (match name@ {
                Some(Some(n)) => n,
                _ => "?"@,
            }),
            None => addr@ is None || addr@->0 is None || addr@->0->0.len() == 0,
        },
{
    let from_addr: String = match addr {
        JsonField::Text(s) => s,
        _ => {
            return None;
        },
    };
    if from_addr.as_str().is_empty() {
        return None;
    }
    let from_name: String = match name {
        JsonField::Text(s) => s,
        _ => "?".to_string(),
    };
    Some(Inbound { from_name, from_addr })
}

/// Who wants a link, from an event of the service.
pub fn event_reply(text: &str) -> (r: Option<Inbound>)
    ensures
        ({
            let name = json_field(text@, "from_name"@);
            let addr = json_field(text@, "from_addr"@);
            match r {
                Some(i) => addr == Some(Some(i.from_addr@)) && i.from_addr@.len() > 0
                    && i.from_name@ == (match name {
                    Some(Some(n)) => n,
                    _ => "?"@,
                }),
                None => addr is None || addr->0 is None || addr->0->0.len() == 0,
            }
        }),
{
    inbound_from(json_text_field(text, "from_name"), json_text_field(text, "from_addr"))
}

/// Whether an event can be read and names no address, where this is what stands for its address.
pub fn names_nobody(addr: &JsonField) -> (r: bool)
    ensures
        r == (addr@ matches Some(a) && (a matches Some(text) ==> text.len() == 0)),
{
    match addr {
        JsonField::Unreadable => false,
        JsonField::Missing => true,
        JsonField::Text(s) => s.as_str().is_empty(),
    }
}

/// Whether an event of the service can be read and names no address.
pub fn event_is_empty(text: &str) -> (r: bool)
    ensures
        r == (json_field(text@, "from_addr"@) matches Some(a) && (a matches Some(addr) ==> addr.len()
            == 0)),
{
    names_nobody(&json_text_field(text, "from_addr"))
}

/// Milliseconds before the next request for events, where `status` is that of the answer, if there
/// was one, and `empty` says whether it brought an event that names no address: none behind such an
/// event, and more than usual where the service does not know the device or cannot be reached.
pub fn poll_pause_ms(status: Option<u16>, empty: bool) -> (r: u64)
    ensures
        r == if status is None || status == Some(404u16) {
            5_200
        } else if status == Some(200u16) && empty {
            0
        } else {
            200int
        },
{
    match status {
        Some(code) => {
            if code == 404 {
                5_200
            } else if code == 200 && empty {
                0
            } else {
                200
            }
        },
        None => 5_200,
    }
}

// ---------------------------------------------------------------------------------------------
// Laws

proof fn lemma_slashes(u: Seq<char>, n: nat)
    requires
        u.len() == 0 || u.last() != '/',
    ensures
        without_slashes(u + Seq::new(n, |i: int| '/')) == u,
    decreases n,
{
    let s = u + Seq::new(n, |i: int| '/');
    if n == 0 {
        assert(s =~= u);
    } else {
        assert(s.last() == '/');
        assert(s.drop_last() =~= u + Seq::new((n - 1) as nat, |i: int| '/'));
        lemma_slashes(u, (n - 1) as nat);
    }
}

/// The address of a service: slashes at its end do not count, however many, and one that does not say
/// how it is reached is reached by HTTPS.
pub proof fn law_address_of_a_service(u: Seq<char>, host: Seq<char>, n: nat)
    requires
        u.len() == 0 || u.last() != '/',
    ensures
        u == "http://"@ + host ==> base_url(u + Seq::new(n, |i: int| '/')) == u,
        u == "https://"@ + host ==> base_url(u + Seq::new(n, |i: int| '/')) == u,
        (forall|rest: Seq<char>| u != #[trigger] ("http://"@ + rest) && u != "https://"@ + rest)
            ==> base_url(u + Seq::new(n, |i: int| '/')) == "https://"@ + u,
{
    lemma_slashes(u, n);
    if u == "http://"@ + host {
        assert("http://"@ =~= u.subrange(0, "http://"@.len() as int));
    }
    if u == "https://"@ + host {
        assert("https://"@ =~= u.subrange(0, "https://"@.len() as int));
    }
    if ("http://"@).is_prefix_of(u) {
        assert(u =~= "http://"@ + u.skip("http://"@.len() as int));
    }
    if ("https://"@).is_prefix_of(u) {
        let rest = u.skip("https://"@.len() as int);
        assert(u =~= "https://"@ + rest);
        let same = "http://"@ + rest;
        assert(u == "https://"@ + rest);
    }
}

/// A text without quotes, backslashes and control characters stands in JSON as it is.
pub proof fn law_plain_text_stands_as_it_is(s: Seq<char>)
    requires
        forall|k: int|
            0 <= k < s.len() ==> #[trigger] s[k] != '"' && s[k] != '\\' && s[k] as int >= 32,
    ensures
        json_chars(s) == s,
        json_string(s) == seq!['"'] + s + seq!['"'],
    decreases s.len(),
{
    if s.len() > 0 {
        let front = s.drop_last();
        assert forall|k: int| 0 <= k < front.len() implies #[trigger] front[k] != '"' && front[k] != '\\'
            && front[k] as int >= 32 by {
            assert(front[k] == s[k]);
        }
        law_plain_text_stands_as_it_is(front);
        assert(s[s.len() - 1] as int >= 32);
        assert(front + seq![s.last()] =~= s);
    }
}

/// What is sent to register, and to be introduced: JSON objects with the names, and the port of the
/// protocol.
pub proof fn law_requests(my_name: Seq<char>, remote_name: Seq<char>)
    requires
        forall|k: int|
            0 <= k < my_name.len() ==> #[trigger] my_name[k] != '"' && my_name[k] != '\\'
                && my_name[k] as int >= 32,
        forall|k: int|
            0 <= k < remote_name.len() ==> #[trigger] remote_name[k] != '"' && remote_name[k] != '\\'
                && remote_name[k] as int >= 32,
    ensures
        register_text(my_name) == "{\"name\":"@ + (seq!['"'] + my_name + seq!['"']) + ",\"port\":"@
            + decimal(20102) + "}"@,
        connect_text(my_name, remote_name) == "{\"my_name\":"@ + (seq!['"'] + my_name + seq!['"'])
            + ",\"remote_name\":"@ + (seq!['"'] + remote_name + seq!['"']) + "}"@,
{
    law_plain_text_stands_as_it_is(my_name);
    law_plain_text_stands_as_it_is(remote_name);
}

/// The address in an answer: none where the answer cannot be read, the one that it names, or a question
/// mark where it names none.
pub proof fn law_address_in_an_answer(addr: Seq<char>)
    ensures
        named_address(None) is None,
        named_address(Some(None)) == Some("?"@),
        named_address(Some(Some(addr))) == Some(addr),
{
}

} // verus!
