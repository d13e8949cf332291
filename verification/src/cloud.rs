//! The rendezvous service: who is registered where, and who is told of whom.

use crate::text::{
    chars_of, decimal, decimal_text, is_white_space, law_trimmed, lemma_char_code, lemma_decimal,
    same_text, text_of, trim_text, trimmed,
};
use vstd::prelude::*;
use vstd::slice::slice_subrange;
use vstd::utf8::encode_utf8;

verus! {

/// How long a registration lasts, in nanoseconds.
pub const REGISTRATION_TTL_NS: u64 = 30_000_000_000;

/// Seconds for which a request for events is held.
pub const LONG_POLL_TIMEOUT_SECS: u64 = 25;

/// Seconds between two rounds in which old registrations are removed.
pub const REAPER_INTERVAL_SECS: u64 = 10;

// ---------------------------------------------------------------------------------------------
// The registry

/// The registration of a device.
#[derive(Debug)]
pub struct Registration {
    pub name: String,
    /// The public address of the device, with its port.
    pub pub_addr: String,
    /// When the device was last heard of, in nanoseconds.
    pub last_seen: u64,
    /// The number of the channel over which the device is told of others.
    pub channel: u64,
}

/// The registration of a device.
#[verifier::ext_equal]
pub struct RegistrationView {
    pub pub_addr: Seq<char>,
    pub last_seen: u64,
    pub channel: u64,
}

impl Clone for Registration {
    fn clone(&self) -> (r: Self)
        ensures
            r == *self,
    {
        Registration {
            name: self.name.clone(),
            pub_addr: self.pub_addr.clone(),
            last_seen: self.last_seen,
            channel: self.channel,
        }
    }
}

impl Registration {
    /// What is registered.
    pub open spec fn entry(self) -> RegistrationView {
        RegistrationView {
            pub_addr: self.pub_addr@,
            last_seen: self.last_seen,
            channel: self.channel,
        }
    }
}

/// The devices that are registered.
pub struct Registry {
    pub entries: Vec<Registration>,
    /// The number of the next channel.
    pub next_channel: u64,
}

/// The registration under a name.
pub open spec fn registered(entries: Seq<Registration>, name: Seq<char>) -> Option<RegistrationView>
    decreases entries.len(),
{
    if entries.len() == 0 {
        None
    } else if entries[0].name@ == name {
        Some(entries[0].entry())
    } else {
        registered(entries.skip(1), name)
    }
}

impl Registry {
    /// No name is registered twice, and no two devices share a channel.
    pub open spec fn wf(self) -> bool {
        &&& forall|i: int, j: int|
            0 <= i < j < self.entries@.len() ==> (#[trigger] self.entries@[i]).name@ != (
            #[trigger] self.entries@[j]).name@
        &&& forall|i: int, j: int|
            0 <= i < j < self.entries@.len() ==> (#[trigger] self.entries@[i]).channel != (
            #[trigger] self.entries@[j]).channel
        &&& forall|i: int|
            0 <= i < self.entries@.len() ==> (#[trigger] self.entries@[i]).channel
                < self.next_channel
    }

    /// The registration under a name.
    pub open spec fn at(self, name: Seq<char>) -> Option<RegistrationView> {
        registered(self.entries@, name)
    }
}

/// Whether a registration still counts.
pub open spec fn is_fresh(last_seen: u64, now: u64) -> bool {
    now - last_seen < REGISTRATION_TTL_NS
}

/// Why the service refuses.
#[derive(Debug)]
pub enum CloudError {
    BadName,
    MissingNames,
    NotRegistered { name: String },
    UnknownDevice { name: String },
    /// There is no number left for another channel.
    Exhausted,
}

impl CloudError {
    /// The HTTP status.
    pub fn status(&self) -> (r: u16)
        ensures
            r == (match *self {
                CloudError::BadName => 400,
                CloudError::MissingNames => 400,
                CloudError::Exhausted => 503,
                _ => 404u16,
            }),
    {
        match self {
            CloudError::BadName => 400,
            CloudError::MissingNames => 400,
            CloudError::Exhausted => 503,
            _ => 404,
        }
    }

    /// What is said to the device.
    pub open spec fn words(self) -> Seq<char> {
        match self {
            CloudError::BadName => "name must be 1\u{2013}64 characters"@,
            CloudError::MissingNames => "my_name and remote_name required"@,
            CloudError::NotRegistered { name } => "remote device '"@ + name@
                + "' is not currently registered"@,
            CloudError::UnknownDevice { name } => "device '"@ + name@
                + "' is not registered \u{2014} register first"@,
            CloudError::Exhausted => "no more devices can be registered"@,
        }
    }

    /// What is said to the device.
    pub fn message(&self) -> (r: String)
        ensures
            r@ == self.words(),
    {
        match self {
            CloudError::BadName => "name must be 1\u{2013}64 characters".to_string(),
            CloudError::MissingNames => "my_name and remote_name required".to_string(),
            CloudError::NotRegistered { name } => {
                let mut out = "remote device '".to_string();
                out.append(name.as_str());
                out.append("' is not currently registered");
                out
            },
            CloudError::UnknownDevice { name } => {
                let mut out = "device '".to_string();
                out.append(name.as_str());
                out.append("' is not registered \u{2014} register first");
                out
            },
            CloudError::Exhausted => "no more devices can be registered".to_string(),
        }
    }
}

/// A name as it is registered under: without white space at its ends.
pub open spec fn is_good_name(name: Seq<char>) -> bool {
    1 <= encode_utf8(trimmed(name)).len() <= 64
}

/// An address with a port; a host that is not known has a word of its own.
pub open spec fn address_text(ip: Option<Seq<char>>, port: Seq<char>) -> Seq<char> {
    (match ip {
        Some(ip) => ip,
        None => "unknown"@,
    }) + ":"@ + port
}

/// What stands behind the last `c`, or all of `s` where there is none.
pub open spec fn after_last(s: Seq<char>, c: char) -> Seq<char>
    decreases s.len(),
{
    if s.len() == 0 {
        s
    } else if s.last() == c {
        Seq::empty()
    } else {
        after_last(s.drop_last(), c).push(s.last())
    }
}

fn optional_str(o: Option<&str>) -> (r: String)
    ensures
        r@ == (match o {
            Some(s) => s@,
            None => "unknown"@,
        }),
{
    match o {
        Some(s) => s.to_string(),
        None => "unknown".to_string(),
    }
}

fn address(ip: Option<&str>, port: &str) -> (r: String)
    ensures
        r@ == address_text(
            match ip {
                Some(s) => Some(s@),
                None => None,
            },
            port@,
        ),
{
    let mut out = optional_str(ip);
    out.append(":");
    out.append(port);
    out
}

proof fn lemma_after_last(s: Seq<char>, c: char, at: int)
    requires
        0 <= at <= s.len(),
        at == 0 || s[at - 1] == c,
        forall|j: int| at <= j < s.len() ==> s[j] != c,
    ensures
        after_last(s, c) == s.skip(at),
    decreases s.len(),
{
    if s.len() == 0 {
        assert(s.skip(at) =~= s);
    } else if at == s.len() {
        assert(s.last() == c);
        assert(s.skip(at) =~= Seq::<char>::empty());
    } else {
        lemma_after_last(s.drop_last(), c, at);
        assert(s.skip(at) =~= s.drop_last().skip(at).push(s.last()));
    }
}

fn behind_last_colon(s: &str) -> (r: String)
    ensures
        r@ == after_last(s@, ':'),
{
    let chars = chars_of(s);
    let mut at: usize = chars.len();
    while at > 0 && chars[at - 1] != ':'
        invariant
            at <= chars@.len(),
            forall|j: int| at <= j < chars@.len() ==> chars@[j] != ':',
        decreases at,
    {
        at = at - 1;
    }
    proof {
        lemma_after_last(chars@, ':', at as int);
    }
    let rest = slice_subrange(chars.as_slice(), at, chars.len());
    assert(rest@ =~= chars@.skip(at as int));
    text_of(rest)
}

fn position(entries: &Vec<Registration>, name: &str) -> (r: Option<usize>)
    ensures
        match r {
            Some(i) => i < entries@.len() && entries@[i as int].name@ == name@ && registered(
                entries@,
                name@,
            ) == Some(entries@[i as int].entry()),
            None => registered(entries@, name@) is None && forall|j: int|
                0 <= j < entries@.len() ==> (#[trigger] entries@[j]).name@ != name@,
        },
{
    assert(entries@.skip(0) =~= entries@);
    for i in 0..entries.len()
        invariant
            registered(entries@, name@) == registered(entries@.skip(i as int), name@),
            forall|j: int| 0 <= j < i ==> (#[trigger] entries@[j]).name@ != name@,
    {
        assert(entries@.skip(i as int)[0] == entries@[i as int]);
        assert(entries@.skip(i as int).skip(1) =~= entries@.skip(i + 1));
        if same_text(entries[i].name.as_str(), name) {
            return Some(i);
        }
    }
    None
}

proof fn lemma_registered_replaced(
    entries: Seq<Registration>,
    i: int,
    e: Registration,
    name: Seq<char>,
)
    requires
        0 <= i < entries.len(),
        entries[i].name@ == e.name@,
        forall|j: int, k: int|
            0 <= j < k < entries.len() ==> (#[trigger] entries[j]).name@ != (
            #[trigger] entries[k]).name@,
    ensures
        registered(entries.update(i, e), name) == if name == e.name@ {
            Some(e.entry())
        } else {
            registered(entries, name)
        },
    decreases entries.len(),
{
    let changed = entries.update(i, e);
    let rest = entries.skip(1);
    if i == 0 {
        assert(changed.skip(1) =~= rest);
    } else {
        assert(entries[0].name@ != entries[i].name@);
        assert(changed.skip(1) =~= rest.update(i - 1, e));
        assert forall|j: int, k: int| 0 <= j < k < rest.len() implies (#[trigger] rest[j]).name@ != (
        #[trigger] rest[k]).name@ by {
            assert(rest[j] == entries[j + 1]);
            assert(rest[k] == entries[k + 1]);
        }
        lemma_registered_replaced(rest, i - 1, e, name);
    }
}

proof fn lemma_registered_added(entries: Seq<Registration>, e: Registration, name: Seq<char>)
    requires
        forall|j: int| 0 <= j < entries.len() ==> (#[trigger] entries[j]).name@ != e.name@,
    ensures
        registered(entries.push(e), name) == if name == e.name@ {
            Some(e.entry())
        } else {
            registered(entries, name)
        },
    decreases entries.len(),
{
    if entries.len() == 0 {
        assert(entries.push(e).skip(1) =~= entries);
    } else {
        let rest = entries.skip(1);
        assert(entries[0].name@ != e.name@);
        assert(entries.push(e).skip(1) =~= rest.push(e));
        assert forall|j: int| 0 <= j < rest.len() implies (#[trigger] rest[j]).name@ != e.name@ by {
            assert(rest[j] == entries[j + 1]);
        }
        lemma_registered_added(rest, e, name);
    }
}

/// What a device is told of another that wants a link.
#[derive(Debug)]
pub struct ConnectEvent {
    pub from_name: String,
    pub from_addr: String,
}

/// What is done for a device that wants a link.
#[derive(Debug)]
pub struct Introduction {
    /// The address of the other device, for the one that asks.
    pub remote_addr: String,
    /// The channel of the other device.
    pub channel: u64,
    /// What the other device is told.
    pub event: ConnectEvent,
}

/// A device in the list of those that are registered.
#[derive(Debug)]
pub struct StatusDevice {
    pub name: String,
    pub pub_addr: String,
    pub last_seen_secs: u64,
}

/// A device in the list of those that are registered.
#[verifier::ext_equal]
pub struct StatusView {
    pub name: Seq<char>,
    pub pub_addr: Seq<char>,
    pub last_seen_secs: int,
}

impl View for StatusDevice {
    type V = StatusView;

    open spec fn view(&self) -> StatusView {
        StatusView {
            name: self.name@,
            pub_addr: self.pub_addr@,
            last_seen_secs: self.last_seen_secs as int,
        }
    }
}

/// Nanoseconds since a device was heard of; none where that lies ahead.
pub open spec fn seen_ago(last_seen: u64, now: u64) -> int {
    if now >= last_seen {
        now - last_seen
    } else {
        0
    }
}

/// How a device is listed.
pub open spec fn listed(e: Registration, now: u64) -> StatusView {
    StatusView {
        name: e.name@,
        pub_addr: e.pub_addr@,
        last_seen_secs: seen_ago(e.last_seen, now) / 1_000_000_000,
    }
}

/// The port of a device that wants a link: the one it has registered, else the usual.
pub open spec fn caller_port(r: Registry, my_name: Seq<char>) -> Seq<char> {
    match r.at(my_name) {
        Some(e) => after_last(e.pub_addr, ':'),
        None => "20102"@,
    }
}

/// What comes of a request for a link: the address of the other device, its channel, and what it is
/// told.
#[verifier::ext_equal]
pub struct IntroductionView {
    pub remote_addr: Seq<char>,
    pub channel: u64,
    pub from_name: Seq<char>,
    pub from_addr: Seq<char>,
}

impl View for Introduction {
    type V = IntroductionView;

    open spec fn view(&self) -> IntroductionView {
        IntroductionView {
            remote_addr: self.remote_addr@,
            channel: self.channel,
            from_name: self.event.from_name@,
            from_addr: self.event.from_addr@,
        }
    }
}

/// What comes of a request for a link with a device, if its registration still counts.
pub open spec fn introduced(
    r: Registry,
    my_name: Seq<char>,
    remote_name: Seq<char>,
    ip: Option<Seq<char>>,
    now: u64,
) -> Option<IntroductionView> {
    match r.at(remote_name) {
        Some(e) => if is_fresh(e.last_seen, now) {
            Some(
                IntroductionView {
                    remote_addr: e.pub_addr,
                    channel: e.channel,
                    from_name: my_name,
                    from_addr: address_text(ip, caller_port(r, my_name)),
                },
            )
        } else {
            None
        },
        None => None,
    }
}

/// The text of a header, if there was one.
pub open spec fn header(o: Option<&str>) -> Option<Seq<char>> {
    match o {
        Some(s) => Some(s@),
        None => None,
    }
}

impl Registry {
    /// A registry without devices.
    pub fn new() -> (r: Self)
        ensures
            r.wf(),
            r.entries@.len() == 0,
            forall|name: Seq<char>| #[trigger] r.at(name) is None,
    {
        Registry { entries: Vec::new(), next_channel: 0 }
    }

    /// Registers a device, or keeps its registration alive. The address is the one that the request
    /// came from. A device that is registered keeps its channel; another gets one of its own.
    pub fn register(&mut self, name: &str, port: u16, real_ip: Option<&str>, now: u64) -> (r: Result<
        String,
        CloudError,
    >)
        requires
            old(self).wf(),
        ensures
            final(self).wf(),
            !is_good_name(name@) ==> r is Err && r->Err_0 is BadName,
            is_good_name(name@) && old(self).at(trimmed(name@)) is None && old(self).next_channel
                == u64::MAX ==> r is Err && r->Err_0 is Exhausted,
            r is Err ==> *final(self) == *old(self),
            is_good_name(name@) && (old(self).at(trimmed(name@)) is Some || old(self).next_channel
                < u64::MAX) ==> {
                &&& r is Ok
                &&& r->Ok_0@ == address_text(header(real_ip), decimal(port as nat))
                &&& forall|other: Seq<char>|
                    other != trimmed(name@) ==> #[trigger] final(self).at(other) == old(self).at(
                        other,
                    )
                &&& final(self).at(trimmed(name@)) == Some(
                    RegistrationView {
                        pub_addr: r->Ok_0@,
                        last_seen: now,
                        channel: match old(self).at(trimmed(name@)) {
                            Some(e) => e.channel,
                            None => old(self).next_channel,
                        },
                    },
                )
            },
    {
        let name = trim_text(name);
        let len: usize = name.as_str().as_bytes().len();
        if len < 1 || len > 64 {
            return Err(CloudError::BadName);
        }
        let pub_addr = address(real_ip, decimal_text(port as u64).as_str());
        let ghost before = self.entries@;
        match position(&self.entries, name.as_str()) {
            Some(i) => {
                let e = Registration {
                    name,
                    pub_addr: pub_addr.clone(),
                    last_seen: now,
                    channel: self.entries[i].channel,
                };
                proof {
                    assert forall|other: Seq<char>| #[trigger]
                        registered(before.update(i as int, e), other) == if other == e.name@ {
                            Some(e.entry())
                        } else {
                            registered(before, other)
                        } by {
                        lemma_registered_replaced(before, i as int, e, other);
                    }
                }
                self.entries.set(i, e);
            },
            None => {
                if self.next_channel == u64::MAX {
                    return Err(CloudError::Exhausted);
                }
                let e = Registration {
                    name,
                    pub_addr: pub_addr.clone(),
                    last_seen: now,
                    channel: self.next_channel,
                };
                proof {
                    assert forall|other: Seq<char>| #[trigger]
                        registered(before.push(e), other) == if other == e.name@ {
                            Some(e.entry())
                        } else {
                            registered(before, other)
                        } by {
                        lemma_registered_added(before, e, other);
                    }
                }
                self.next_channel = self.next_channel + 1;
                self.entries.push(e);
            },
        }
        Ok(pub_addr)
    }

    /// Introduces a device to another: the one that asks is given the address of the other, which is
    /// told of the one that asks.
    pub fn connect(&self, my_name: &str, remote_name: &str, real_ip: Option<&str>, now: u64) -> (r:
        Result<Introduction, CloudError>)
        ensures
            if trimmed(my_name@).len() == 0 || trimmed(remote_name@).len() == 0 {
                r is Err && r->Err_0 is MissingNames
            } else {
                match introduced(
                    *self,
                    trimmed(my_name@),
                    trimmed(remote_name@),
                    header(real_ip),
                    now,
                ) {
                    Some(i) => r is Ok && r->Ok_0@ == i,
                    None => r matches Err(CloudError::NotRegistered { name }) && name@ == trimmed(
                        remote_name@,
                    ),
                }
            },
    {
        let my_name = trim_text(my_name);
        let remote_name = trim_text(remote_name);
        if my_name.as_str().is_empty() || remote_name.as_str().is_empty() {
            return Err(CloudError::MissingNames);
        }
        let i: usize = match position(&self.entries, remote_name.as_str()) {
            Some(i) => i,
            None => {
                return Err(CloudError::NotRegistered { name: remote_name });
            },
        };
        if now.saturating_sub(self.entries[i].last_seen) >= REGISTRATION_TTL_NS {
            return Err(CloudError::NotRegistered { name: remote_name });
        }
        let port: String = match position(&self.entries, my_name.as_str()) {
            Some(j) => behind_last_colon(self.entries[j].pub_addr.as_str()),
            None => "20102".to_string(),
        };
        let from_addr = address(real_ip, port.as_str());
        Ok(
            Introduction {
                remote_addr: self.entries[i].pub_addr.clone(),
                channel: self.entries[i].channel,
                event: ConnectEvent { from_name: my_name, from_addr },
            },
        )
    }

    /// The channel of a device that waits for events.
    pub fn channel_of(&self, name: &str) -> (r: Result<u64, CloudError>)
        ensures
            match self.at(name@) {
                Some(e) => r is Ok && r->Ok_0 == e.channel,
                None => r matches Err(CloudError::UnknownDevice { name: n }) && n@ == name@,
            },
    {
        match position(&self.entries, name) {
            Some(i) => Ok(self.entries[i].channel),
            None => Err(CloudError::UnknownDevice { name: name.to_string() }),
        }
    }

    /// The devices whose registration still counts.
    pub fn status(&self, now: u64) -> (r: Vec<StatusDevice>)
        ensures
            Seq::new(r@.len(), |i: int| r@[i]@) == self.entries@.filter(
                |e: Registration| is_fresh(e.last_seen, now),
            ).map_values(|e: Registration| listed(e, now)),
    {
        let ghost keep = |e: Registration| is_fresh(e.last_seen, now);
        let ghost make = |e: Registration| listed(e, now);
        let mut out: Vec<StatusDevice> = Vec::new();
        let ghost mut views: Seq<StatusView> = Seq::empty();
        for i in 0..self.entries.len()
            invariant
                keep == (|e: Registration| is_fresh(e.last_seen, now)),
                make == (|e: Registration| listed(e, now)),
                views.len() == out@.len(),
                forall|j: int| 0 <= j < out@.len() ==> (#[trigger] out@[j])@ == views[j],
                views == self.entries@.take(i as int).filter(keep).map_values(make),
        {
            let ghost kept = self.entries@.take(i as int).filter(keep);
            proof {
                reveal(Seq::filter);
                assert(self.entries@.take(i + 1).drop_last() =~= self.entries@.take(i as int));
            }
            let age: u64 = now.saturating_sub(self.entries[i].last_seen);
            if age < REGISTRATION_TTL_NS {
                let d = StatusDevice {
                    name: self.entries[i].name.clone(),
                    pub_addr: self.entries[i].pub_addr.clone(),
                    last_seen_secs: age / 1_000_000_000,
                };
                assert(d@ =~= listed(self.entries@[i as int], now));
                out.push(d);
                proof {
                    assert(kept.push(self.entries@[i as int]).map_values(make) =~= kept.map_values(
                        make,
                    ).push(listed(self.entries@[i as int], now)));
                    views = views.push(listed(self.entries@[i as int], now));
                }
            }
        }
        assert(self.entries@.take(self.entries@.len() as int) =~= self.entries@);
        assert(Seq::new(out@.len(), |i: int| out@[i]@) =~= views);
        out
    }

    /// Removes the registrations that count no more. Returns their channels.
    pub fn reap(&mut self, now: u64) -> (r: Vec<u64>)
        requires
            old(self).wf(),
        ensures
            final(self).wf(),
            final(self).next_channel == old(self).next_channel,
            final(self).entries@ == old(self).entries@.filter(
                |e: Registration| is_fresh(e.last_seen, now),
            ),
            r@ == old(self).entries@.filter(
                |e: Registration| !is_fresh(e.last_seen, now),
            ).map_values(|e: Registration| e.channel),
            forall|name: Seq<char>| #[trigger]
                final(self).at(name) == match old(self).at(name) {
                    Some(e) => if is_fresh(e.last_seen, now) {
                        Some(e)
                    } else {
                        None
                    },
                    None => None,
                },
    {
        let ghost all = self.entries@;
        let ghost keep = |e: Registration| is_fresh(e.last_seen, now);
        let ghost gone = |e: Registration| !is_fresh(e.last_seen, now);
        let ghost chan = |e: Registration| e.channel;
        let mut kept: Vec<Registration> = Vec::new();
        let mut channels: Vec<u64> = Vec::new();
        let count: usize = self.entries.len();
        for i in 0..count
            invariant
                all == self.entries@,
                count == all.len(),
                *self == *old(self),
                keep == (|e: Registration| is_fresh(e.last_seen, now)),
                gone == (|e: Registration| !is_fresh(e.last_seen, now)),
                chan == (|e: Registration| e.channel),
                kept@ == all.take(i as int).filter(keep),
                channels@ == all.take(i as int).filter(gone).map_values(chan),
        {
            let ghost lost = all.take(i as int).filter(gone);
            proof {
                reveal(Seq::filter);
                assert(all.take(i + 1).drop_last() =~= all.take(i as int));
            }
            if now.saturating_sub(self.entries[i].last_seen) < REGISTRATION_TTL_NS {
                kept.push(self.entries[i].clone());
            } else {
                channels.push(self.entries[i].channel);
                assert(lost.push(all[i as int]).map_values(chan) =~= lost.map_values(chan).push(
                    all[i as int].channel,
                ));
            }
        }
        assert(all.take(all.len() as int) =~= all);
        proof {
            lemma_kept_order(all, keep);
            assert forall|name: Seq<char>| #[trigger]
                registered(all.filter(keep), name) == match registered(all, name) {
                    Some(e) => if is_fresh(e.last_seen, now) {
                        Some(e)
                    } else {
                        None
                    },
                    None => None,
                } by {
                lemma_registered_kept(all, name, now);
            }
        }
        self.entries = kept;
        channels
    }
}

/// What is kept of a sequence stands there in its order.
proof fn lemma_kept_order(all: Seq<Registration>, keep: spec_fn(Registration) -> bool)
    requires
        forall|i: int, j: int|
            0 <= i < j < all.len() ==> (#[trigger] all[i]).name@ != (#[trigger] all[j]).name@,
        forall|i: int, j: int|
            0 <= i < j < all.len() ==> (#[trigger] all[i]).channel != (#[trigger] all[j]).channel,
    ensures
        forall|i: int, j: int|
            0 <= i < j < all.filter(keep).len() ==> (#[trigger] all.filter(keep)[i]).name@ != (
            #[trigger] all.filter(keep)[j]).name@,
        forall|i: int, j: int|
            0 <= i < j < all.filter(keep).len() ==> (#[trigger] all.filter(keep)[i]).channel != (
            #[trigger] all.filter(keep)[j]).channel,
        forall|i: int|
            0 <= i < all.filter(keep).len() ==> all.contains(#[trigger] all.filter(keep)[i]),
    decreases all.len(),
{
    reveal(Seq::filter);
    if all.len() > 0 {
        let before = all.drop_last();
        let last = all.last();
        lemma_kept_order(before, keep);
        let some = before.filter(keep);
        let result = all.filter(keep);
        assert(all[all.len() - 1] == last);
        assert forall|i: int| 0 <= i < some.len() implies all.contains(#[trigger] some[i])
            && some[i].name@ != last.name@ && some[i].channel != last.channel by {
            assert(before.contains(some[i]));
            let k = choose|k: int| 0 <= k < before.len() && before[k] == some[i];
            assert(all[k] == some[i]);
        }
        assert forall|i: int| 0 <= i < result.len() implies all.contains(#[trigger] result[i]) by {
            if i < some.len() {
                assert(result[i] == some[i]);
            } else {
                assert(result[i] == last);
            }
        }
        assert forall|i: int, j: int| 0 <= i < j < result.len() implies (#[trigger] result[i]).name@
            != (#[trigger] result[j]).name@ && result[i].channel != result[j].channel by {
            assert(result[i] == some[i]);
            if j < some.len() {
                assert(result[j] == some[j]);
            } else {
                assert(result[j] == last);
            }
        }
    }
}

proof fn lemma_registered_kept(all: Seq<Registration>, name: Seq<char>, now: u64)
    requires
        forall|i: int, j: int|
            0 <= i < j < all.len() ==> (#[trigger] all[i]).name@ != (#[trigger] all[j]).name@,
    ensures
        registered(all.filter(|e: Registration| is_fresh(e.last_seen, now)), name)
            == match registered(all, name) {
            Some(e) => if is_fresh(e.last_seen, now) {
                Some(e)
            } else {
                None
            },
            None => None,
        },
    decreases all.len(),
{
    reveal(Seq::filter);
    let keep = |e: Registration| is_fresh(e.last_seen, now);
    if all.len() > 0 {
        let before = all.drop_last();
        let last = all.last();
        assert forall|i: int, j: int| 0 <= i < j < before.len() implies (#[trigger] before[i]).name@
            != (#[trigger] before[j]).name@ by {
            assert(all[i] == before[i]);
            assert(all[j] == before[j]);
        }
        lemma_registered_kept(before, name, now);
        assert(before.push(last) =~= all);
        assert forall|j: int| 0 <= j < before.len() implies (#[trigger] before[j]).name@
            != last.name@ by {
            assert(all[j] == before[j]);
            assert(all[all.len() - 1] == last);
        }
        lemma_kept_names(before, keep, last.name@);
        lemma_registered_added(before, last, name);
        lemma_absent(before, last.name@);
        if keep(last) {
            lemma_registered_added(before.filter(keep), last, name);
        }
    }
}

proof fn lemma_absent(entries: Seq<Registration>, name: Seq<char>)
    requires
        forall|j: int| 0 <= j < entries.len() ==> (#[trigger] entries[j]).name@ != name,
    ensures
        registered(entries, name) is None,
    decreases entries.len(),
{
    if entries.len() > 0 {
        let rest = entries.skip(1);
        assert(entries[0].name@ != name);
        assert forall|j: int| 0 <= j < rest.len() implies (#[trigger] rest[j]).name@ != name by {
            assert(rest[j] == entries[j + 1]);
        }
        lemma_absent(rest, name);
    }
}

proof fn lemma_kept_names(
    all: Seq<Registration>,
    keep: spec_fn(Registration) -> bool,
    name: Seq<char>,
)
    requires
        forall|j: int| 0 <= j < all.len() ==> (#[trigger] all[j]).name@ != name,
    ensures
        forall|j: int|
            0 <= j < all.filter(keep).len() ==> (#[trigger] all.filter(keep)[j]).name@ != name,
    decreases all.len(),
{
    reveal(Seq::filter);
    if all.len() > 0 {
        let before = all.drop_last();
        assert forall|j: int| 0 <= j < before.len() implies (#[trigger] before[j]).name@ != name by {
            assert(all[j] == before[j]);
        }
        lemma_kept_names(before, keep, name);
        assert(all[all.len() - 1] == all.last());
        let some = before.filter(keep);
        let result = all.filter(keep);
        assert forall|j: int| 0 <= j < result.len() implies (#[trigger] result[j]).name@ != name by {
            if j < some.len() {
                assert(result[j] == some[j]);
            } else {
                assert(result[j] == all.last());
            }
        }
    }
}

// ---------------------------------------------------------------------------------------------
// Laws

/// Two devices that are registered and reach the service from where they registered learn each
/// other's address: the one that asks is given the other's, and the other is told the one's.
pub proof fn law_both_learn_the_address(
    r: Registry,
    my_name: Seq<char>,
    remote_name: Seq<char>,
    ip: Option<Seq<char>>,
    port: u16,
    mine: RegistrationView,
    theirs: RegistrationView,
    now: u64,
)
    requires
        r.at(my_name) == Some(mine),
        r.at(remote_name) == Some(theirs),
        mine.pub_addr == address_text(ip, decimal(port as nat)),
        is_fresh(theirs.last_seen, now),
    ensures
        introduced(r, my_name, remote_name, ip, now) == Some(
            IntroductionView {
                remote_addr: theirs.pub_addr,
                channel: theirs.channel,
                from_name: my_name,
                from_addr: mine.pub_addr,
            },
        ),
{
    let digits = decimal(port as nat);
    let host = match ip {
        Some(ip) => ip,
        None => "unknown"@,
    };
    reveal_strlit(":");
    lemma_decimal(port as nat);
    assert(mine.pub_addr =~= host + ":"@ + digits);
    let at = host.len() as int + 1;
    assert forall|j: int| at <= j < mine.pub_addr.len() implies mine.pub_addr[j] != ':' by {
        assert(mine.pub_addr[j] == digits[j - at]);
    }
    lemma_after_last(mine.pub_addr, ':', at);
    assert(mine.pub_addr.skip(at) =~= digits);
}

/// A device that has not been heard of for thirty seconds is not introduced to anybody.
pub proof fn law_old_registration_does_not_count(
    r: Registry,
    my_name: Seq<char>,
    remote_name: Seq<char>,
    ip: Option<Seq<char>>,
    now: u64,
    theirs: RegistrationView,
)
    requires
        r.at(remote_name) == Some(theirs),
        now - theirs.last_seen >= REGISTRATION_TTL_NS,
    ensures
        introduced(r, my_name, remote_name, ip, now) is None,
{
}

/// A registration counts for thirty seconds.
pub proof fn law_registration_counts_for_thirty_seconds(last_seen: u64, now: u64)
    ensures
        is_fresh(last_seen, now) <==> now < last_seen + 30_000_000_000,
{
}

proof fn lemma_bytes_of_text(s: Seq<char>)
    ensures
        encode_utf8(s).len() >= s.len(),
        (forall|k: int| 0 <= k < s.len() ==> (#[trigger] s[k]) as int <= 127) ==> encode_utf8(s).len()
            == s.len(),
    decreases s.len(),
{
    if s.len() > 0 {
        let rest = s.drop_first();
        lemma_bytes_of_text(rest);
        let c = s[0] as u32;
        if forall|k: int| 0 <= k < s.len() ==> (#[trigger] s[k]) as int <= 127 {
            assert forall|k: int| 0 <= k < rest.len() implies (#[trigger] rest[k]) as int <= 127 by {
                assert(rest[k] == s[k + 1]);
            }
            lemma_char_code(s[0]);
            assert(s[0] as int <= 127);
            assert(vstd::utf8::has_width_1_encoding(c));
        }
    }
}

/// A name is good that is more than white space and, without the white space at its ends, no longer
/// than 64: a name of ASCII characters by their number, and no name of more characters than that.
pub proof fn law_good_names(name: Seq<char>)
    ensures
        (forall|k: int| 0 <= k < name.len() ==> is_white_space(#[trigger] name[k])) ==> !is_good_name(
            name,
        ),
        trimmed(name).len() > 64 ==> !is_good_name(name),
        1 <= trimmed(name).len() <= 64 && (forall|k: int|
            0 <= k < name.len() ==> (#[trigger] name[k]) as int <= 127) ==> is_good_name(name),
{
    let (i, j) = law_trimmed(name);
    lemma_bytes_of_text(trimmed(name));
    if forall|k: int| 0 <= k < name.len() ==> (#[trigger] name[k]) as int <= 127 {
        assert forall|k: int| 0 <= k < trimmed(name).len() implies (#[trigger] trimmed(name)[k]) as int
            <= 127 by {
            assert(trimmed(name)[k] == name[i + k]);
        }
    }
}

/// A name is registered where an entry has it, with what the first such entry holds.
pub proof fn law_name_is_looked_up(entries: Seq<Registration>, name: Seq<char>, i: int)
    requires
        0 <= i <= entries.len(),
        forall|j: int| 0 <= j < i ==> (#[trigger] entries[j]).name@ != name,
    ensures
        i == entries.len() ==> registered(entries, name) is None,
        i < entries.len() && entries[i].name@ == name ==> (registered(entries, name) matches Some(e)
            && e.pub_addr == entries[i].pub_addr@ && e.last_seen == entries[i].last_seen && e.channel
            == entries[i].channel),
    decreases i,
{
    if i > 0 {
        let rest = entries.skip(1);
        assert forall|j: int| 0 <= j < i - 1 implies (#[trigger] rest[j]).name@ != name by {
            assert(rest[j] == entries[j + 1]);
        }
        assert(entries[0].name@ != name);
        if i < entries.len() {
            assert(rest[i - 1] == entries[i]);
        }
        law_name_is_looked_up(rest, name, i - 1);
    }
}

/// What is told of a caller: the address that it calls from, with the port that it registered, or with
/// the port of the protocol where it has not registered. A caller whose address is not known is called
/// unknown.
pub proof fn law_callers_address(
    r: Registry,
    my_name: Seq<char>,
    remote_name: Seq<char>,
    ip: Seq<char>,
    host: Seq<char>,
    port: Seq<char>,
    mine: RegistrationView,
    theirs: RegistrationView,
    now: u64,
)
    requires
        r.at(remote_name) == Some(theirs),
        now < theirs.last_seen + 30_000_000_000,
        r.at(my_name) is None || r.at(my_name) == Some(mine),
        mine.pub_addr == host + seq![':'] + port,
        forall|k: int| 0 <= k < port.len() ==> #[trigger] port[k] != ':',
    ensures
        ({
            let told = introduced(r, my_name, remote_name, Some(ip), now);
            let nobody = introduced(r, my_name, remote_name, None, now);
            let from = if r.at(my_name) is Some {
                port
            } else {
                "20102"@
            };
            &&& told is Some && nobody is Some
            &&& told->0.from_name == my_name
            &&& told->0.remote_addr == theirs.pub_addr
            &&& told->0.channel == theirs.channel
            &&& told->0.from_addr == ip + seq![':'] + from
            &&& nobody->0.from_addr == "unknown"@ + seq![':'] + from
        }),
{
    reveal_strlit(":");
    assert(":"@ =~= seq![':']);
    let at = host.len() as int + 1;
    assert forall|j: int| at <= j < mine.pub_addr.len() implies mine.pub_addr[j] != ':' by {
        assert(mine.pub_addr[j] == port[j - at]);
    }
    lemma_after_last(mine.pub_addr, ':', at);
    assert(mine.pub_addr.skip(at) =~= port);
}

/// Nobody is introduced to a device that is not registered.
pub proof fn law_unknown_devices_are_not_reached(
    r: Registry,
    my_name: Seq<char>,
    remote_name: Seq<char>,
    ip: Option<Seq<char>>,
    now: u64,
)
    ensures
        r.at(remote_name) is None ==> introduced(r, my_name, remote_name, ip, now) is None,
        r.at(remote_name) matches Some(e) ==> (introduced(r, my_name, remote_name, ip, now) is Some
            <==> now < e.last_seen + 30_000_000_000),
{
}

/// A device is listed with the whole seconds since it was heard of.
pub proof fn law_listed_since(e: Registration, now: u64)
    ensures
        listed(e, now).name == e.name@,
        listed(e, now).pub_addr == e.pub_addr@,
        now >= e.last_seen ==> e.last_seen + listed(e, now).last_seen_secs * 1_000_000_000 <= now
            < e.last_seen + (listed(e, now).last_seen_secs + 1) * 1_000_000_000,
        now < e.last_seen ==> listed(e, now).last_seen_secs == 0,
{
}

/// What is answered where a request fails.
pub proof fn law_words_of_errors(name: String)
    ensures
        CloudError::BadName.words() == "name must be 1\u{2013}64 characters"@,
        CloudError::MissingNames.words() == "my_name and remote_name required"@,
        (CloudError::NotRegistered { name }).words() == "remote device '"@ + name@
            + "' is not currently registered"@,
        (CloudError::UnknownDevice { name }).words() == "device '"@ + name@
            + "' is not registered \u{2014} register first"@,
{
}

} // verus!
