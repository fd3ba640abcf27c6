//! IPv4 networks and addresses. An address is held as the number that its four
//! octets spell, most significant octet first.
use crate::text::{
    cat5, decimal, decimal_text, is_digit, lemma_decimal_digits, lemma_decimal_injective,
    lemma_sides_unique,
};
use vstd::arithmetic::div_mod::{lemma_fundamental_div_mod, lemma_fundamental_div_mod_converse};
use vstd::arithmetic::power2::{lemma2_to64, lemma_pow2_pos, lemma_pow2_unfold, pow2};
use vstd::prelude::*;

verus! {

/// An IPv4 network: its first address and the length of its prefix in bits.
#[derive(Clone, Copy, Debug, PartialEq, Eq, Structural)]
pub struct Ipv4Cidr {
    pub address: u32,
    pub length: u8,
}

/// How many addresses a network with a prefix of `length` bits has.
pub open spec fn block_size(length: u8) -> nat {
    if length <= 32 {
        pow2((32 - length) as nat)
    } else {
        1
    }
}

impl Ipv4Cidr {
    /// The prefix fits the address, and no bit behind the prefix is set.
    pub open spec fn wf(self) -> bool {
        self.length <= 32 && self.address as nat % block_size(self.length) == 0
    }

    /// Whether the network holds `address`.
    pub open spec fn has(self, address: u32) -> bool {
        self.address <= address < self.address + block_size(self.length)
    }

    /// The network at `address` with a prefix of `length` bits, where there is
    /// one.
    pub fn new(address: u32, length: u8) -> (out: Option<Ipv4Cidr>)
        ensures
            out == (if (Ipv4Cidr { address, length }).wf() {
                Some(Ipv4Cidr { address, length })
            } else {
                None
            }),
    {
        match checked_network(address, length) {
            Some((address, length)) => Some(Ipv4Cidr { address, length }),
            None => None,
        }
    }

    /// The network that a text such as `10.20.0.0/16` names.
    pub fn parse(text: &str) -> (out: Result<Ipv4Cidr, String>)
        ensures
            result_view(out) == network_of_text(text@),
            out matches Ok(network) ==> network.wf(),
    {
        match parse_network(text) {
            Ok((address, length)) => Ok(Ipv4Cidr { address, length }),
            Err(err) => Err(err),
        }
    }

    /// The first address of the network.
    pub fn first_address(&self) -> (out: u32)
        ensures
            out == self.address,
    {
        self.address
    }

    /// The length of the prefix in bits.
    pub fn network_length(&self) -> (out: u8)
        ensures
            out == self.length,
    {
        self.length
    }

    /// The text of the network.
    pub fn text(&self) -> (out: String)
        requires
            self.wf(),
        ensures
            out@ == network_text(self.address, self.length),
            reads_as(out@, self.address, self.length),
    {
        format_network(self.address, self.length)
    }
}

/// The plain values behind a parsed network.
pub open spec fn result_view(out: Result<Ipv4Cidr, String>) -> Result<(u32, u8), Seq<char>> {
    match out {
        Ok(network) => Ok((network.address, network.length)),
        Err(err) => Err(err@),
    }
}

/// Octet `i` of an address, from the most significant one.
pub open spec fn octet(address: u32, i: int) -> u8 {
    if i == 0 {
        (address / 0x100_0000) as u8
    } else if i == 1 {
        (address / 0x1_0000 % 0x100) as u8
    } else if i == 2 {
        (address / 0x100 % 0x100) as u8
    } else {
        (address % 0x100) as u8
    }
}

/// An address in dotted decimal.
pub open spec fn address_text(address: u32) -> Seq<char> {
    decimal(octet(address, 0) as nat) + "."@ + decimal(octet(address, 1) as nat) + "."@ + decimal(
        octet(address, 2) as nat,
    ) + "."@ + decimal(octet(address, 3) as nat)
}

/// The text of a network: its first address, and the length of its prefix
/// unless the network is a single address.
pub open spec fn network_text(address: u32, length: u8) -> Seq<char> {
    if length == 32 {
        address_text(address)
    } else {
        address_text(address) + "/"@ + decimal(length as nat)
    }
}

/// What `cidr::Ipv4Cidr::from_str` makes of a text: a first address and a
/// prefix length, or the text of its error.
pub uninterp spec fn network_of_text(text: Seq<char>) -> Result<(u32, u8), Seq<char>>;

/// Whether a text reads as the network at `address` with a prefix of `length`
/// bits.
pub open spec fn reads_as(text: Seq<char>, address: u32, length: u8) -> bool {
    network_of_text(text) == Ok::<(u32, u8), Seq<char>>((address, length))
}

/// The plain values behind a network that was read.
pub open spec fn parsed_view(out: Result<(u32, u8), String>) -> Result<(u32, u8), Seq<char>> {
    match out {
        Ok(parts) => Ok(parts),
        Err(err) => Err(err@),
    }
}

/// `cidr::Ipv4Cidr::new` accepts an address and a prefix length exactly when
/// the length is at most 32 and the address has no bit set behind the prefix,
/// and keeps both as they are.
#[verifier::external_body]
fn checked_network(address: u32, length: u8) -> (out: Option<(u32, u8)>)
    ensures
        out == (if (Ipv4Cidr { address, length }).wf() {
            Some((address, length))
        } else {
            None
        }),
{
    match cidr::Ipv4Cidr::new(address.into(), length) {
        Ok(network) => Some((u32::from(network.first_address()), network.network_length())),
        Err(_) => None,
    }
}

/// `cidr::Ipv4Cidr::from_str` reads a network; its result is a function of the
/// text, and a network that it reads is one that `cidr::Ipv4Cidr::new` accepts.
#[verifier::external_body]
fn parse_network(text: &str) -> (out: Result<(u32, u8), String>)
    ensures
        parsed_view(out) == network_of_text(text@),
        out matches Ok(parts) ==> (Ipv4Cidr { address: parts.0, length: parts.1 }).wf(),
{
    match text.parse::<cidr::Ipv4Cidr>() {
        Ok(network) => Ok((u32::from(network.first_address()), network.network_length())),
        Err(err) => Err(err.to_string()),
    }
}

/// The `Display` of `cidr::Ipv4Cidr` writes the first address in dotted
/// decimal, and behind a slash the prefix length unless it is 32;
/// `cidr::Ipv4Cidr::from_str` reads that text back as the same network.
#[verifier::external_body]
fn format_network(address: u32, length: u8) -> (out: String)
    requires
        (Ipv4Cidr { address, length }).wf(),
    ensures
        out@ == network_text(address, length),
        reads_as(out@, address, length),
{
    cidr::Ipv4Cidr::new(address.into(), length).unwrap().to_string()
}

/// An address in dotted decimal.
pub fn format_address(address: u32) -> (out: String)
    ensures
        out@ == address_text(address),
{
    let a = decimal_text((address / 0x100_0000) as u64);
    let b = decimal_text((address / 0x1_0000 % 0x100) as u64);
    let c = decimal_text((address / 0x100 % 0x100) as u64);
    let d = decimal_text((address % 0x100) as u64);
    let mut out = cat5(a.as_str(), ".", b.as_str(), ".", c.as_str());
    out.append(".");
    out.append(d.as_str());
    out
}

/// The text of the octets of an address from the `i`-th on.
spec fn octets_text(address: u32, i: int) -> Seq<char>
    decreases 3 - i,
{
    if i >= 3 {
        decimal(octet(address, i) as nat)
    } else {
        decimal(octet(address, i) as nat) + seq!['.'] + octets_text(address, i + 1)
    }
}

proof fn lemma_address_text(address: u32)
    ensures
        address_text(address) == octets_text(address, 0),
{
    reveal_strlit(".");
    reveal_with_fuel(octets_text, 4);
    assert("."@ =~= seq!['.']);
    assert(address_text(address) =~= octets_text(address, 0));
}

proof fn lemma_no_separator(n: nat, c: char)
    requires
        !is_digit(c),
    ensures
        !decimal(n).contains(c),
{
    lemma_decimal_digits(n);
}

proof fn lemma_octets_text_chars(address: u32, i: int)
    requires
        0 <= i <= 3,
    ensures
        !octets_text(address, i).contains('/'),
    decreases 3 - i,
{
    lemma_no_separator(octet(address, i) as nat, '/');
    if i < 3 {
        lemma_octets_text_chars(address, i + 1);
        let head = decimal(octet(address, i) as nat);
        let rest = octets_text(address, i + 1);
        let all = head + seq!['.'] + rest;
        assert forall|k: int| 0 <= k < all.len() implies all[k] != '/' by {
            if k < head.len() {
                assert(all[k] == head[k]);
            } else if k > head.len() {
                assert(all[k] == rest[k - head.len() - 1]);
            }
        }
    }
}

proof fn lemma_octets_injective(a: u32, b: u32, i: int)
    requires
        0 <= i <= 3,
        octets_text(a, i) == octets_text(b, i),
    ensures
        forall|k: int| i <= k <= 3 ==> octet(a, k) == octet(b, k),
    decreases 3 - i,
{
    let x = decimal(octet(a, i) as nat);
    let y = decimal(octet(b, i) as nat);
    if i == 3 {
        lemma_decimal_injective(octet(a, i) as nat, octet(b, i) as nat);
    } else {
        lemma_no_separator(octet(a, i) as nat, '.');
        lemma_no_separator(octet(b, i) as nat, '.');
        lemma_sides_unique(x, octets_text(a, i + 1), y, octets_text(b, i + 1), '.');
        lemma_decimal_injective(octet(a, i) as nat, octet(b, i) as nat);
        lemma_octets_injective(a, b, i + 1);
    }
}

/// Two addresses with the same text are the same address.
pub proof fn address_text_is_injective(a: u32, b: u32)
    requires
        address_text(a) == address_text(b),
    ensures
        a == b,
{
    lemma_address_text(a);
    lemma_address_text(b);
    lemma_octets_injective(a, b, 0);
    assert(octet(a, 0) == octet(b, 0));
    assert(octet(a, 1) == octet(b, 1));
    assert(octet(a, 2) == octet(b, 2));
    assert(octet(a, 3) == octet(b, 3));
    lemma_recompose(a);
    lemma_recompose(b);
}

proof fn lemma_recompose(a: u32)
    ensures
        a == octet(a, 0) * 0x100_0000 + octet(a, 1) * 0x1_0000 + octet(a, 2) * 0x100 + octet(a, 3),
{
}

/// Two networks with the same text are the same network.
pub proof fn network_text_is_injective(a: Ipv4Cidr, b: Ipv4Cidr)
    requires
        network_text(a.address, a.length) == network_text(b.address, b.length),
    ensures
        a == b,
{
    reveal_strlit("/");
    assert("/"@ =~= seq!['/']);
    let x = address_text(a.address);
    let y = address_text(b.address);
    lemma_address_text(a.address);
    lemma_address_text(b.address);
    lemma_octets_text_chars(a.address, 0);
    lemma_octets_text_chars(b.address, 0);
    let p = decimal(a.length as nat);
    let q = decimal(b.length as nat);
    if a.length == 32 && b.length == 32 {
        address_text_is_injective(a.address, b.address);
    } else if a.length == 32 {
        assert((y + seq!['/'] + q)[y.len() as int] == '/');
        assert(x.contains('/'));
    } else if b.length == 32 {
        assert((x + seq!['/'] + p)[x.len() as int] == '/');
        assert(y.contains('/'));
    } else {
        lemma_sides_unique(x, p, y, q, '/');
        address_text_is_injective(a.address, b.address);
        lemma_decimal_injective(a.length as nat, b.length as nat);
    }
}

/// The octets of an address are written in order, the first one first.
pub proof fn addresses_are_written_octet_by_octet(a: u8, b: u8, c: u8, d: u8)
    ensures
        address_text((a * 0x100_0000 + b * 0x1_0000 + c * 0x100 + d) as u32) == decimal(a as nat)
            + "."@ + decimal(b as nat) + "."@ + decimal(c as nat) + "."@ + decimal(d as nat),
{
    let address = (a * 0x100_0000 + b * 0x1_0000 + c * 0x100 + d) as u32;
    assert(address / 0x100_0000 == a);
    assert(address / 0x1_0000 == a * 0x100 + b);
    assert(address / 0x100 == a * 0x1_0000 + b * 0x100 + c);
}

/// A network covers one address at length 32, and each bit less doubles it.
pub proof fn networks_double_with_each_bit(length: u8)
    requires
        length < 32,
    ensures
        block_size(32) == 1,
        block_size(length) == 2 * block_size((length + 1) as u8),
{
    lemma2_to64();
    lemma_pow2_unfold((32 - length) as nat);
}

/// A network covers exactly the addresses that agree with it up to its length.
pub proof fn networks_cover_what_agrees_with_them(network: Ipv4Cidr, address: u32)
    requires
        network.wf(),
    ensures
        network.has(address) <==> address as nat / block_size(network.length)
            == network.address as nat / block_size(network.length),
        network.has(network.address),
{
    let size = block_size(network.length) as int;
    lemma_pow2_pos((32 - network.length) as nat);
    let a = address as int;
    let n = network.address as int;
    lemma_fundamental_div_mod(a, size);
    lemma_fundamental_div_mod(n, size);
    assert(n == size * (n / size));
    assert(0 <= a % size < size) by (nonlinear_arith)
        requires
            size > 0,
    ;
    if network.has(address) {
        let rest = a - n;
        assert(a / size == n / size) by {
            lemma_fundamental_div_mod_converse(a, size, n / size, rest);
        }
    } else if a / size == n / size {
        assert(a == n + a % size);
    }
}

} // verus!
