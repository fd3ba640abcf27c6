//! The addresses of the IP packets that the tunnel carries.
use crate::vpn::network::octet;
use vstd::prelude::*;

verus! {

/// Whether `etherparse::IpSlice::from_slice` takes `bytes` for an IPv4 packet.
pub uninterp spec fn is_ipv4_packet(bytes: Seq<u8>) -> bool;

/// The number that four bytes spell, most significant byte first.
pub open spec fn be32(bytes: Seq<u8>, at: int) -> u32 {
    (bytes[at] * 0x100_0000 + bytes[at + 1] * 0x1_0000 + bytes[at + 2] * 0x100 + bytes[at
        + 3]) as u32
}

/// The destination address of an IPv4 packet.
pub open spec fn destination_of(packet: Seq<u8>) -> Option<u32> {
    if is_ipv4_packet(packet) {
        Some(be32(packet, 16))
    } else {
        None
    }
}

/// The source address of an IPv4 packet.
pub open spec fn source_of(packet: Seq<u8>) -> Option<u32> {
    if is_ipv4_packet(packet) {
        Some(be32(packet, 12))
    } else {
        None
    }
}

/// `etherparse::IpSlice::from_slice` decides whether the bytes are an IPv4
/// packet, which then has at least the twenty bytes of a header; the source of
/// its header is the four bytes from byte 12 on, and the destination the four
/// bytes from byte 16 on.
#[verifier::external_body]
fn ipv4_addresses(packet: &[u8]) -> (out: Option<(u32, u32)>)
    ensures
        out == (if is_ipv4_packet(packet@) {
            Some((be32(packet@, 12), be32(packet@, 16)))
        } else {
            None
        }),
        out is Some ==> packet@.len() >= 20,
{
    match etherparse::IpSlice::from_slice(packet) {
        Ok(etherparse::IpSlice::Ipv4(slice)) => {
            let header = slice.header();
            Some((u32::from(header.source_addr()), u32::from(header.destination_addr())))
        },
        Ok(etherparse::IpSlice::Ipv6(_)) => None,
        Err(_) => None,
    }
}

/// The destination address of a packet, where it is an IPv4 packet.
pub fn packet_destination(packet: &[u8]) -> (out: Option<u32>)
    ensures
        out == destination_of(packet@),
{
    match ipv4_addresses(packet) {
        Some((_, destination)) => Some(destination),
        None => None,
    }
}

/// The source address of a packet, where it is an IPv4 packet.
pub fn packet_source(packet: &[u8]) -> (out: Option<u32>)
    ensures
        out == source_of(packet@),
{
    match ipv4_addresses(packet) {
        Some((source, _)) => Some(source),
        None => None,
    }
}

// ── Laws ─────────────────────────────────────────────────────────────────────

/// The addresses of a packet are read octet by octet, the first one first: the
/// source from the thirteenth byte on, the destination from the seventeenth on.
pub proof fn addresses_are_read_octet_by_octet(packet: Seq<u8>, i: int)
    requires
        0 <= i < 4,
        is_ipv4_packet(packet),
    ensures
        source_of(packet) matches Some(address) && octet(address, i) == packet[12 + i],
        destination_of(packet) matches Some(address) && octet(address, i) == packet[16 + i],
{
    lemma_octets(packet[12], packet[13], packet[14], packet[15]);
    lemma_octets(packet[16], packet[17], packet[18], packet[19]);
}

proof fn lemma_octets(a: u8, b: u8, c: u8, d: u8)
    ensures
        ({
            let address = (a * 0x100_0000 + b * 0x1_0000 + c * 0x100 + d) as u32;
            &&& octet(address, 0) == a
            &&& octet(address, 1) == b
            &&& octet(address, 2) == c
            &&& octet(address, 3) == d
        }),
{
    let address = (a * 0x100_0000 + b * 0x1_0000 + c * 0x100 + d) as u32;
    assert(address / 0x100_0000 == a);
    assert(address / 0x1_0000 == a * 0x100 + b);
    assert(address / 0x100 == a * 0x1_0000 + b * 0x100 + c);
}

} // verus!
