//! The bridge between ATAK clients and the mesh.
use crate::text::{cat2, decimal, decimal_text};
use crate::vpn::routes::AddressHash;
use vstd::prelude::*;

verus! {

/// A port of ATAK, and the group that its packets are sent to.
#[derive(Debug, Clone, Copy, PartialEq, Eq)]
pub struct AtakPort {
    pub port: u16,
    pub group: [u8; 4],
}

/// The ports that are bridged.
pub fn atak_ports() -> (out: Vec<AtakPort>)
    ensures
        out@.len() == 2,
        out@[0].port == 6969 && out@[0].group@ == seq![239u8, 2, 3, 1],
        out@[1].port == 17012 && out@[1].group@ == seq![224u8, 10, 10, 1],
{
    let mut out: Vec<AtakPort> = Vec::new();
    out.push(AtakPort { port: 6969, group: [239, 2, 3, 1] });
    out.push(AtakPort { port: 17012, group: [224, 10, 10, 1] });
    out
}

/// What a bridge tells others along with its announces: its port, the higher
/// byte first.
pub open spec fn tag_of(port: u16) -> Seq<u8> {
    seq![(port / 256) as u8, (port % 256) as u8]
}

/// What a bridge tells others along with its announces.
pub fn port_tag(port: u16) -> (out: Vec<u8>)
    ensures
        out@ == tag_of(port),
{
    let mut out: Vec<u8> = Vec::new();
    out.push((port / 256) as u8);
    out.push((port % 256) as u8);
    out
}

/// The name of the destination of a bridge.
pub fn destination_name(port: u16) -> (out: String)
    ensures
        out@ == "atak."@ + decimal(port as nat),
{
    let number = decimal_text(port as u64);
    cat2("atak.", number.as_str())
}

/// Whether an address of an interface is one of the local network. An interface
/// without an IPv4 address has none.
pub open spec fn is_local_net(address: Option<[u8; 4]>) -> bool {
    match address {
        Some(a) => a[0] == 192 && a[1] == 168 && a[2] == 10,
        None => false,
    }
}

/// The first address of the local network, or no address in particular.
pub open spec fn local_of(addresses: Seq<Option<[u8; 4]>>) -> Seq<u8>
    decreases addresses.len(),
{
    if addresses.len() == 0 {
        seq![0u8, 0, 0, 0]
    } else if is_local_net(addresses[0]) {
        addresses[0]->Some_0@
    } else {
        local_of(addresses.skip(1))
    }
}

/// The address on which packets for a group are received.
pub fn local_address(addresses: &Vec<Option<[u8; 4]>>) -> (out: [u8; 4])
    ensures
        out@ == local_of(addresses@),
{
    let ghost all = addresses@;
    let mut i: usize = 0;
    assert(all.skip(0) =~= all);
    while i < addresses.len()
        invariant
            i <= addresses@.len(),
            all == addresses@,
            local_of(all.skip(i as int)) == local_of(all),
        decreases addresses@.len() - i,
    {
        proof {
            assert(all.skip(i as int)[0] == addresses@[i as int]);
            assert(all.skip(i as int).skip(1) =~= all.skip(i + 1));
        }
        if let Some(a) = addresses[i] {
            if a[0] == 192 && a[1] == 168 && a[2] == 10 {
                return a;
            }
        }
        i += 1;
    }
    assert(all.skip(i as int) =~= Seq::<Option<[u8; 4]>>::empty());
    let none: [u8; 4] = [0, 0, 0, 0];
    assert(none@ =~= seq![0u8, 0, 0, 0]);
    none
}

/// The addresses from which packets are sent to a group: those of IPv4 that do
/// not stay within the machine.
pub open spec fn outward(addresses: Seq<Option<[u8; 4]>>) -> Seq<[u8; 4]>
    decreases addresses.len(),
{
    if addresses.len() == 0 {
        Seq::empty()
    } else {
        match addresses.last() {
            Some(a) => if a[0] != 127 {
                outward(addresses.drop_last()).push(a)
            } else {
                outward(addresses.drop_last())
            },
            None => outward(addresses.drop_last()),
        }
    }
}

/// The addresses from which packets are sent to a group.
pub fn send_addresses(addresses: &Vec<Option<[u8; 4]>>) -> (out: Vec<[u8; 4]>)
    ensures
        out@ == outward(addresses@),
{
    let ghost all = addresses@;
    let mut out: Vec<[u8; 4]> = Vec::new();
    let mut i: usize = 0;
    assert(all.take(0) =~= Seq::<Option<[u8; 4]>>::empty());
    assert(out@ =~= Seq::<[u8; 4]>::empty());
    while i < addresses.len()
        invariant
            i <= addresses@.len(),
            all == addresses@,
            out@ == outward(all.take(i as int)),
        decreases addresses@.len() - i,
    {
        proof {
            assert(all.take(i + 1).drop_last() =~= all.take(i as int));
            assert(all.take(i + 1).last() == addresses@[i as int]);
        }
        if let Some(a) = addresses[i] {
            if a[0] != 127 {
                out.push(a);
            }
        }
        i += 1;
    }
    assert(all.take(i as int) =~= all);
    out
}

/// Whether a bridge takes an announce for one of another bridge for its port.
pub open spec fn is_fellow(
    port: u16,
    own: AddressHash,
    app_data: Seq<u8>,
    peer: AddressHash,
) -> bool {
    app_data == tag_of(port) && peer@ != own@
}

/// Whether two byte strings are the same.
fn same_bytes(a: &[u8], b: &[u8]) -> (out: bool)
    ensures
        out == (a@ == b@),
{
    if a.len() != b.len() {
        return false;
    }
    let mut i: usize = 0;
    while i < a.len()
        invariant
            i <= a@.len(),
            a@.len() == b@.len(),
            forall|k: int| 0 <= k < i ==> a@[k] == b@[k],
        decreases a@.len() - i,
    {
        if a[i] != b[i] {
            return false;
        }
        i += 1;
    }
    assert(a@ =~= b@);
    true
}

/// Whether a bridge links to the sender of an announce: it is another bridge for
/// the same port, and there is no link to it yet.
pub fn should_link(
    port: u16,
    own: &AddressHash,
    app_data: &[u8],
    peer: &AddressHash,
    linked: bool,
) -> (out: bool)
    ensures
        out == (is_fellow(port, *own, app_data@, *peer) && !linked),
{
    let tag = port_tag(port);
    if !same_bytes(app_data, tag.as_slice()) {
        return false;
    }
    if peer.same(own) {
        return false;
    }
    !linked
}

/// How many packets a bridge carried.
#[derive(Debug, Clone, Copy, PartialEq, Eq, Structural)]
pub struct BridgeMetrics {
    pub rx_packets: u64,
    pub tx_packets: u64,
}

impl BridgeMetrics {
    /// Nothing was carried yet.
    pub fn new() -> (out: BridgeMetrics)
        ensures
            out == (BridgeMetrics { rx_packets: 0, tx_packets: 0 }),
    {
        BridgeMetrics { rx_packets: 0, tx_packets: 0 }
    }

    /// Counts a packet from the local network.
    pub fn count_rx(&mut self)
        ensures
            *final(self) == (BridgeMetrics {
                rx_packets: old(self).rx_packets.wrapping_add(1),
                ..*old(self)
            }),
    {
        self.rx_packets = self.rx_packets.wrapping_add(1);
    }

    /// Counts a packet from the mesh, however many interfaces it was sent on.
    pub fn count_tx(&mut self)
        ensures
            *final(self) == (BridgeMetrics {
                tx_packets: old(self).tx_packets.wrapping_add(1),
                ..*old(self)
            }),
    {
        self.tx_packets = self.tx_packets.wrapping_add(1);
    }
}

// ── Laws ─────────────────────────────────────────────────────────────────────

/// Bridges for different ports never link to each other: an announce is for
/// bridges of one port at most.
pub proof fn ports_are_kept_apart(
    a: u16,
    b: u16,
    own_a: AddressHash,
    own_b: AddressHash,
    app_data: Seq<u8>,
    peer: AddressHash,
)
    requires
        is_fellow(a, own_a, app_data, peer),
        is_fellow(b, own_b, app_data, peer),
    ensures
        a == b,
{
    assert(tag_of(a)[0] == tag_of(b)[0]);
    assert(tag_of(a)[1] == tag_of(b)[1]);
}

/// The tag of a port spells it, the more significant byte first.
pub proof fn tags_spell_their_port(port: u16)
    ensures
        tag_of(port).len() == 2,
        tag_of(port)[0] * 256 + tag_of(port)[1] == port,
{
}

/// A fellow of a port announces the tag of the port under another address than
/// one's own, and who does so is one.
pub proof fn fellows_announce_the_port(
    port: u16,
    own: AddressHash,
    app_data: Seq<u8>,
    peer: AddressHash,
)
    ensures
        is_fellow(port, own, app_data, peer) <==> app_data.len() == 2 && app_data[0] * 256
            + app_data[1] == port && peer@ != own@,
{
    if app_data.len() == 2 && app_data[0] * 256 + app_data[1] == port {
        assert(port / 256 == app_data[0]);
        assert(app_data =~= tag_of(port));
    }
}

/// The address to listen at is the first one in 192.168.10.0/24, or 0.0.0.0 where
/// there is none.
pub proof fn the_local_address_is_the_first_of_its_net(addresses: Seq<Option<[u8; 4]>>, i: int)
    requires
        0 <= i < addresses.len(),
        addresses[i] is Some,
        addresses[i]->Some_0[0] == 192 && addresses[i]->Some_0[1] == 168
            && addresses[i]->Some_0[2] == 10,
        forall|k: int|
            0 <= k < i ==> ((#[trigger] addresses[k]) matches Some(a) ==> !(a[0] == 192 && a[1]
                == 168 && a[2] == 10)),
    ensures
        local_of(addresses) == addresses[i]->Some_0@,
    decreases i,
{
    if i > 0 {
        let rest = addresses.skip(1);
        assert(addresses[0] == addresses[0]);
        assert forall|k: int| 0 <= k < i - 1 implies ((#[trigger] rest[k]) matches Some(a) ==> !(
        a[0] == 192 && a[1] == 168 && a[2] == 10)) by {
            assert(rest[k] == addresses[k + 1]);
        }
        assert(rest[i - 1] == addresses[i]);
        the_local_address_is_the_first_of_its_net(rest, i - 1);
    }
}

/// Without an address in 192.168.10.0/24 one listens at all of them.
pub proof fn without_a_local_address_all_are_listened_at(addresses: Seq<Option<[u8; 4]>>)
    requires
        forall|k: int|
            0 <= k < addresses.len() ==> ((#[trigger] addresses[k]) matches Some(a) ==> !(a[0]
                == 192 && a[1] == 168 && a[2] == 10)),
    ensures
        local_of(addresses) == seq![0u8, 0, 0, 0],
    decreases addresses.len(),
{
    if addresses.len() > 0 {
        let rest = addresses.skip(1);
        assert(addresses[0] == addresses[0]);
        assert forall|k: int| 0 <= k < rest.len() implies ((#[trigger] rest[k]) matches Some(
            a,
        ) ==> !(a[0] == 192 && a[1] == 168 && a[2] == 10)) by {
            assert(rest[k] == addresses[k + 1]);
        }
        without_a_local_address_all_are_listened_at(rest);
    }
}

/// Packets are sent from exactly those addresses that are not of the loopback.
pub proof fn all_addresses_but_the_loopback_send(addresses: Seq<Option<[u8; 4]>>, a: [u8; 4])
    ensures
        outward(addresses).contains(a) <==> addresses.contains(Some(a)) && a[0] != 127,
        outward(addresses).len() <= addresses.len(),
    decreases addresses.len(),
{
    if addresses.len() > 0 {
        let rest = addresses.drop_last();
        let before = outward(rest);
        let after = outward(addresses);
        all_addresses_but_the_loopback_send(rest, a);
        assert(addresses[addresses.len() - 1] == addresses.last());
        if before.contains(a) {
            let k = choose|k: int| 0 <= k < before.len() && before[k] == a;
            assert(after[k] == a);
        }
        if rest.contains(Some(a)) {
            let k = choose|k: int| 0 <= k < rest.len() && rest[k] == Some(a);
            assert(addresses[k] == Some(a));
        }
        if addresses.contains(Some(a)) && addresses.last() != Some(a) {
            let k = choose|k: int| 0 <= k < addresses.len() && addresses[k] == Some(a);
            assert(rest[k] == Some(a));
        }
        if after.contains(a) && !before.contains(a) {
            let k = choose|k: int| 0 <= k < after.len() && after[k] == a;
            if k < before.len() {
                assert(before[k] == a);
            }
        }
        if addresses.last() == Some(a) && a[0] != 127 {
            assert(after[before.len() as int] == a);
        }
    }
}

} // verus!
