//! The network interfaces that count, and what a change of them does.

use crate::link::LinkState;
use crate::text::{decimal, decimal_text, same_text};
use vstd::prelude::*;

verus! {

/// A network interface that is in use.
#[derive(Debug, PartialEq, Eq)]
pub struct NetworkInterface {
    pub name: String,
    /// The IPv4 address in dotted form.
    pub addr: String,
}

/// A network interface that is in use.
#[verifier::ext_equal]
pub struct InterfaceView {
    pub name: Seq<char>,
    pub addr: Seq<char>,
}

impl View for NetworkInterface {
    type V = InterfaceView;

    open spec fn view(&self) -> InterfaceView {
        InterfaceView { name: self.name@, addr: self.addr@ }
    }
}

impl Clone for NetworkInterface {
    fn clone(&self) -> (r: Self)
        ensures
            r@ == self@,
    {
        NetworkInterface { name: self.name.clone(), addr: self.addr.clone() }
    }
}

/// An entry of the system's list of interfaces.
#[derive(Debug)]
pub struct InterfaceEntry {
    pub name: String,
    /// The IPv4 address, if the entry has one.
    pub ipv4: Option<u32>,
    pub loopback: bool,
    pub up: bool,
}

/// An IPv4 address in dotted form.
pub open spec fn dotted(a: u32) -> Seq<char> {
    decimal(((a >> 24) & 0xff) as nat) + "."@ + decimal(((a >> 16) & 0xff) as nat) + "."@ + decimal(
        ((a >> 8) & 0xff) as nat,
    ) + "."@ + decimal((a & 0xff) as nat)
}

/// An IPv4 address in dotted form.
pub fn dotted_text(a: u32) -> (r: String)
    ensures
        r@ == dotted(a),
{
    let mut out = decimal_text(((a >> 24) & 0xff) as u64);
    out.append(".");
    out.append(decimal_text(((a >> 16) & 0xff) as u64).as_str());
    out.append(".");
    out.append(decimal_text(((a >> 8) & 0xff) as u64).as_str());
    out.append(".");
    out.append(decimal_text((a & 0xff) as u64).as_str());
    out
}

/// Whether an entry counts: it has an IPv4 address, is up, and is no loopback.
pub open spec fn counts(e: InterfaceEntry) -> bool {
    e.ipv4 is Some && !e.loopback && e.up
}

/// The interface of an entry that counts.
pub open spec fn interface_of(e: InterfaceEntry) -> InterfaceView {
    InterfaceView { name: e.name@, addr: dotted(e.ipv4->0) }
}

/// The interfaces of a list.
pub open spec fn interface_views(v: Seq<NetworkInterface>) -> Seq<InterfaceView> {
    Seq::new(v.len(), |i: int| v[i]@)
}

/// The interfaces in use, in the order of the system's list.
pub fn list_network_interfaces(entries: &[InterfaceEntry]) -> (r: Vec<NetworkInterface>)
    ensures
        interface_views(r@) == entries@.filter(|e: InterfaceEntry| counts(e)).map_values(
            |e: InterfaceEntry| interface_of(e),
        ),
{
    let ghost keep = |e: InterfaceEntry| counts(e);
    let ghost make = |e: InterfaceEntry| interface_of(e);
    let mut out: Vec<NetworkInterface> = Vec::new();
    for i in 0..entries.len()
        invariant
            keep == (|e: InterfaceEntry| counts(e)),
            make == (|e: InterfaceEntry| interface_of(e)),
            interface_views(out@) == entries@.take(i as int).filter(keep).map_values(make),
    {
        let ghost before = out@;
        let ghost kept = entries@.take(i as int).filter(keep);
        proof {
            reveal(Seq::filter);
            assert(entries@.take(i + 1).drop_last() =~= entries@.take(i as int));
        }
        if let Some(a) = entries[i].ipv4 {
            if !entries[i].loopback && entries[i].up {
                out.push(
                    NetworkInterface { name: entries[i].name.clone(), addr: dotted_text(a) },
                );
                assert(interface_views(out@) =~= interface_views(before).push(
                    interface_of(entries@[i as int]),
                ));
                assert(kept.push(entries@[i as int]).map_values(make) =~= kept.map_values(make).push(
                    interface_of(entries@[i as int]),
                ));
            }
        }
    }
    assert(entries@.take(entries@.len() as int) =~= entries@);
    out
}

/// Whether two lists of interfaces are the same.
pub fn same_interfaces(a: &[NetworkInterface], b: &[NetworkInterface]) -> (r: bool)
    ensures
        r == (interface_views(a@) == interface_views(b@)),
{
    if a.len() != b.len() {
        assert(interface_views(a@).len() != interface_views(b@).len());
        return false;
    }
    for i in 0..a.len()
        invariant
            a@.len() == b@.len(),
            forall|j: int| 0 <= j < i ==> (#[trigger] a@[j])@ == b@[j]@,
    {
        if !same_text(a[i].name.as_str(), b[i].name.as_str()) || !same_text(
            a[i].addr.as_str(),
            b[i].addr.as_str(),
        ) {
            assert(interface_views(a@)[i as int] != interface_views(b@)[i as int]);
            return false;
        }
    }
    assert(interface_views(a@) =~= interface_views(b@));
    true
}

/// Looks at the interfaces again: where they have changed while the link was up, it is taken down,
/// so that it comes up anew over what there is now. Returns whether they have changed.
pub fn check_interfaces(
    link: &mut LinkState,
    last: &[NetworkInterface],
    current: &[NetworkInterface],
) -> (r: bool)
    ensures
        r == (interface_views(last@) != interface_views(current@)),
        final(link)@ == if r && old(link).connected {
            old(link)@.unplugged()
        } else {
            old(link)@
        },
{
    if same_interfaces(last, current) {
        return false;
    }
    if link.connected {
        link.network_changed();
    }
    true
}

/// An address is shown as its four bytes, the highest first, with dots between them.
pub proof fn law_address_in_dots(a: u32, b: u32, c: u32, d: u32, address: u32)
    requires
        a < 256,
        b < 256,
        c < 256,
        d < 256,
        address == a * 0x100_0000 + b * 0x1_0000 + c * 0x100 + d,
    ensures
        dotted(address) == decimal(a as nat) + seq!['.'] + decimal(b as nat) + seq!['.'] + decimal(
            c as nat,
        ) + seq!['.'] + decimal(d as nat),
{
    reveal_strlit(".");
    assert("."@ =~= seq!['.']);
    assert((address >> 24) & 0xff == a && (address >> 16) & 0xff == b && (address >> 8) & 0xff == c
        && address & 0xff == d) by (bit_vector)
        requires
            a < 256,
            b < 256,
            c < 256,
            d < 256,
            address == a * 0x100_0000 + b * 0x1_0000 + c * 0x100 + d,
    ;
}

/// An interface counts that is up, has an IPv4 address and leads out of the machine. It is listed with
/// its name and address.
pub proof fn law_interfaces_that_count(entries: Seq<InterfaceEntry>, e: InterfaceEntry)
    ensures
        ({
            let some = entries.filter(|e: InterfaceEntry| counts(e)).map_values(
                |e: InterfaceEntry| interface_of(e),
            );
            let all = entries.push(e).filter(|e: InterfaceEntry| counts(e)).map_values(
                |e: InterfaceEntry| interface_of(e),
            );
            &&& e.up && !e.loopback && e.ipv4 is Some ==> all == some.push(
                InterfaceView { name: e.name@, addr: dotted(e.ipv4->0) },
            )
            &&& !e.up || e.loopback || e.ipv4 is None ==> all == some
        }),
{
    assert(entries.push(e).drop_last() =~= entries);
    reveal(Seq::filter);
    let some = entries.filter(|e: InterfaceEntry| counts(e));
    if counts(e) {
        assert(some.push(e).map_values(|e: InterfaceEntry| interface_of(e)) =~= some.map_values(
            |e: InterfaceEntry| interface_of(e),
        ).push(interface_of(e)));
    }
}

} // verus!
