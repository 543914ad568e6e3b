//! IPv4 addresses.

use crate::number;
use crate::text;
use vstd::prelude::*;

verus! {

/// An IPv4 address, as the number its four octets spell.
#[derive(Debug, Clone, Copy, PartialEq, Eq, Hash, Structural)]
pub struct Ipv4Addr {
    pub bits: u32,
}

impl View for Ipv4Addr {
    type V = Ipv4Addr;

    open spec fn view(&self) -> Ipv4Addr {
        *self
    }
}

/// An IP address a listener can be bound to.
#[derive(Debug, Clone, Copy, PartialEq, Eq, Hash, Structural)]
pub enum IpAddr {
    V4(Ipv4Addr),
    V6(u128),
}

/// The address whose octets are `a`, `b`, `c` and `d`.
pub open spec fn ipv4(a: u8, b: u8, c: u8, d: u8) -> Ipv4Addr {
    Ipv4Addr { bits: (a * 0x100_0000 + b * 0x1_0000 + c * 0x100 + d) as u32 }
}

/// Dotted-quad form, e.g. `10.99.0.2`.
pub open spec fn ipv4_text(addr: Ipv4Addr) -> Seq<char> {
    (((number::decimal(addr.octet(0)).push('.') + number::decimal(addr.octet(1))).push('.') + number::decimal(
        addr.octet(2),
    )).push('.') + number::decimal(addr.octet(3)))
}

/// The address that renders to `s`, if there is one.
pub open spec fn ipv4_read(s: Seq<char>) -> Option<Ipv4Addr> {
    if exists|a: Ipv4Addr| s == #[trigger] ipv4_text(a) {
        Some(choose|a: Ipv4Addr| s == #[trigger] ipv4_text(a))
    } else {
        None
    }
}

impl Ipv4Addr {
    /// Octet `k`, counted from the most significant one.
    pub open spec fn octet(self, k: int) -> nat {
        (if k == 0 {
            self.bits / 0x100_0000
        } else if k == 1 {
            (self.bits / 0x1_0000) % 0x100
        } else if k == 2 {
            (self.bits / 0x100) % 0x100
        } else {
            self.bits % 0x100
        }) as nat
    }

    pub fn new(a: u8, b: u8, c: u8, d: u8) -> (r: Ipv4Addr)
        ensures
            r == ipv4(a, b, c, d),
            r.octet(0) == a,
            r.octet(1) == b,
            r.octet(2) == c,
            r.octet(3) == d,
    {
        let bits: u32 = (a as u32) * 0x100_0000 + (b as u32) * 0x1_0000 + (c as u32) * 0x100 + (
        d as u32);
        proof {
            assert(bits % 0x100 == d && (bits / 0x100) % 0x100 == c && (bits / 0x1_0000) % 0x100
                == b && bits / 0x100_0000 == a) by (bit_vector)
                requires
                    bits == a * 0x100_0000 + b * 0x1_0000 + c * 0x100 + d,
            ;
        }
        Ipv4Addr { bits }
    }

    /// Dotted-quad form.
    pub fn to_string(&self) -> (r: String)
        ensures
            r@ == ipv4_text(*self),
    {
        let mut out = String::new();
        number::push_decimal(&mut out, (self.bits / 0x100_0000) as u64);
        out.push('.');
        number::push_decimal(&mut out, ((self.bits / 0x1_0000) % 0x100) as u64);
        out.push('.');
        number::push_decimal(&mut out, ((self.bits / 0x100) % 0x100) as u64);
        out.push('.');
        number::push_decimal(&mut out, (self.bits % 0x100) as u64);
        proof {
            assert(Seq::<char>::empty() + number::decimal(self.octet(0)) =~= number::decimal(self.octet(0)));
        }
        out
    }

    /// Reads dotted-quad form: exactly the texts that some address renders to.
    pub fn parse(s: &str) -> (r: Option<Ipv4Addr>)
        ensures
            r == ipv4_read(s@),
    {
        let pieces = text::split_on(s, '.');
        let ghost spec_pieces = text::split(s@, '.');
        proof {
            assert forall|a: Ipv4Addr| s@ == #[trigger] ipv4_text(a) implies spec_pieces.len() == 4
                && forall|k: int|
                0 <= k < 4 ==> number::unsigned(#[trigger] spec_pieces[k], 255) == Some(a.octet(k)) by {
                lemma_ipv4_pieces(a);
            }
        }
        if pieces.len() != 4 {
            return None;
        }
        proof {
            assert(forall|k: int| 0 <= k < 4 ==> #[trigger] text::views(pieces@)[k] == pieces@[k]@);
        }
        let p0 = number::parse_unsigned(pieces[0].as_str(), 255);
        let p1 = number::parse_unsigned(pieces[1].as_str(), 255);
        let p2 = number::parse_unsigned(pieces[2].as_str(), 255);
        let p3 = number::parse_unsigned(pieces[3].as_str(), 255);
        match (p0, p1, p2, p3) {
            (Some(a), Some(b), Some(c), Some(d)) => {
                let candidate = Ipv4Addr::new(a as u8, b as u8, c as u8, d as u8);
                let rendered = candidate.to_string();
                if text::same_text(rendered.as_str(), s) {
                    proof {
                        law_ipv4_round_trip(candidate);
                    }
                    Some(candidate)
                } else {
                    proof {
                        assert forall|x: Ipv4Addr| s@ != #[trigger] ipv4_text(x) by {
                            if s@ == ipv4_text(x) {
                                assert(number::unsigned(spec_pieces[0], 255) == Some(x.octet(0)));
                                assert(number::unsigned(spec_pieces[1], 255) == Some(x.octet(1)));
                                assert(number::unsigned(spec_pieces[2], 255) == Some(x.octet(2)));
                                assert(number::unsigned(spec_pieces[3], 255) == Some(x.octet(3)));
                                lemma_octets_determine(x, candidate);
                            }
                        }
                    }
                    None
                }
            },
            _ => {
                proof {
                    assert forall|x: Ipv4Addr| s@ != #[trigger] ipv4_text(x) by {
                        if s@ == ipv4_text(x) {
                            assert(number::unsigned(spec_pieces[0], 255) == Some(x.octet(0)));
                            assert(number::unsigned(spec_pieces[1], 255) == Some(x.octet(1)));
                            assert(number::unsigned(spec_pieces[2], 255) == Some(x.octet(2)));
                            assert(number::unsigned(spec_pieces[3], 255) == Some(x.octet(3)));
                        }
                    }
                }
                None
            },
        }
    }
}

proof fn lemma_octets_determine(x: Ipv4Addr, y: Ipv4Addr)
    requires
        x.octet(0) == y.octet(0),
        x.octet(1) == y.octet(1),
        x.octet(2) == y.octet(2),
        x.octet(3) == y.octet(3),
    ensures
        x == y,
{
    assert(x.bits == y.bits);
}

proof fn lemma_decimal_piece(n: nat)
    requires
        n <= 255,
    ensures
        !number::decimal(n).contains('.'),
        number::unsigned(number::decimal(n), 255) == Some(n),
{
    number::lemma_decimal_value(n);
    number::law_decimal_round_trip(n, 255);
}

proof fn lemma_ipv4_pieces(a: Ipv4Addr)
    ensures
        text::split(ipv4_text(a), '.').len() == 4,
        forall|k: int|
            0 <= k < 4 ==> number::unsigned(#[trigger] text::split(ipv4_text(a), '.')[k], 255) == Some(
                a.octet(k),
            ),
{
    let d0 = number::decimal(a.octet(0));
    let d1 = number::decimal(a.octet(1));
    let d2 = number::decimal(a.octet(2));
    let d3 = number::decimal(a.octet(3));
    lemma_decimal_piece(a.octet(0));
    lemma_decimal_piece(a.octet(1));
    lemma_decimal_piece(a.octet(2));
    lemma_decimal_piece(a.octet(3));
    text::lemma_split_single(d0, '.');
    text::lemma_split_append(d0, d1, '.');
    text::lemma_split_append(d0.push('.') + d1, d2, '.');
    text::lemma_split_append((d0.push('.') + d1).push('.') + d2, d3, '.');
    assert(text::split(ipv4_text(a), '.') =~= seq![d0, d1, d2, d3]);
}

/// Different addresses render differently.
pub proof fn lemma_ipv4_text_injective(a: Ipv4Addr, b: Ipv4Addr)
    requires
        ipv4_text(a) == ipv4_text(b),
    ensures
        a == b,
{
    lemma_ipv4_pieces(a);
    lemma_ipv4_pieces(b);
    let p = text::split(ipv4_text(a), '.');
    assert(number::unsigned(p[0], 255) == Some(a.octet(0)));
    assert(number::unsigned(p[1], 255) == Some(a.octet(1)));
    assert(number::unsigned(p[2], 255) == Some(a.octet(2)));
    assert(number::unsigned(p[3], 255) == Some(a.octet(3)));
    lemma_octets_determine(a, b);
}

/// Reading a rendered address gives that address.
pub proof fn law_ipv4_round_trip(a: Ipv4Addr)
    ensures
        ipv4_read(ipv4_text(a)) == Some(a),
{
    let s = ipv4_text(a);
    assert(exists|x: Ipv4Addr| s == #[trigger] ipv4_text(x));
    let x = choose|x: Ipv4Addr| s == #[trigger] ipv4_text(x);
    lemma_ipv4_text_injective(a, x);
}

} // verus!
