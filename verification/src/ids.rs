//! Identifiers for nodes, services and port mappings.

use crate::number;
use vstd::arithmetic::div_mod;
use vstd::arithmetic::power;
use vstd::prelude::*;

verus! {

/// A 128-bit identifier.
#[derive(Debug, Clone, Copy, PartialEq, Eq, Hash, Structural)]
pub struct Uuid {
    pub bits: u128,
}

impl View for Uuid {
    type V = Uuid;

    open spec fn view(&self) -> Uuid {
        *self
    }
}

/// Hexadecimal digit `k` of a 128-bit number, counted from the most
/// significant one.
pub open spec fn nibble(bits: u128, k: int) -> nat {
    ((bits as int / power::pow(16, (31 - k) as nat)) % 16) as nat
}

/// The hyphenated form: 32 lower-case hexadecimal digits in groups of 8, 4, 4,
/// 4 and 12.
pub open spec fn uuid_text(id: Uuid) -> Seq<char> {
    Seq::new(
        36,
        |i: int|
            if i == 8 || i == 13 || i == 18 || i == 23 {
                '-'
            } else {
                let hyphens: int = if i < 8 {
                    0
                } else if i < 13 {
                    1
                } else if i < 18 {
                    2
                } else if i < 23 {
                    3
                } else {
                    4
                };
                number::hex_char(nibble(id.bits, i - hyphens))
            },
    )
}

/// Dividing by one more power of sixteen is dividing once more by sixteen.
proof fn lemma_shift(bits: u128, n: nat)
    ensures
        bits as int / power::pow(16, n + 1) == (bits as int / power::pow(16, n)) / 16,
        power::pow(16, n) > 0,
{
    power::lemma_pow_positive(16, n);
    power::lemma_pow1(16);
    power::lemma_pow_adds(16, n, 1);
    div_mod::lemma_div_denominator(bits as int, power::pow(16, n), 16);
}

/// Numbers with the same hexadecimal digits from digit `31 - n` up agree there.
proof fn lemma_same_digits(a: u128, b: u128, n: nat)
    requires
        n <= 32,
        forall|k: int| 0 <= k < 32 ==> #[trigger] nibble(a, k) == nibble(b, k),
    ensures
        a as int / power::pow(16, n) == b as int / power::pow(16, n),
    decreases 32 - n,
{
    if n == 32 {
        assert(power::pow(16, 32) == 0x1_0000_0000_0000_0000_0000_0000_0000_0000int) by {
            power::lemma_pow_adds(16, 16, 16);
            assert(power::pow(16, 16) == 0x1_0000_0000_0000_0000int) by {
                power::lemma_pow_adds(16, 8, 8);
                assert(power::pow(16, 8) == 0x1_0000_0000int) by {
                    reveal_with_fuel(power::pow, 9);
                }
            }
        }
        div_mod::lemma_basic_div(a as int, power::pow(16, 32));
        div_mod::lemma_basic_div(b as int, power::pow(16, 32));
    } else {
        lemma_same_digits(a, b, n + 1);
        lemma_shift(a, n);
        lemma_shift(b, n);
        let x = a as int / power::pow(16, n);
        let y = b as int / power::pow(16, n);
        assert(nibble(a, 31 - n) == nibble(b, 31 - n));
        assert(x % 16 == y % 16) by {
            assert((31 - (31 - n)) as nat == n);
            assert(0 <= x % 16 && 0 <= y % 16);
        }
    }
}

/// Different identifiers have different texts.
pub proof fn law_uuid_text_is_distinct(a: Uuid, b: Uuid)
    requires
        a != b,
    ensures
        uuid_text(a) != uuid_text(b),
{
    if uuid_text(a) == uuid_text(b) {
        assert forall|k: int| 0 <= k < 32 implies #[trigger] nibble(a.bits, k) == nibble(
            b.bits,
            k,
        ) by {
            let i: int = if k < 8 {
                k
            } else if k < 12 {
                k + 1
            } else if k < 16 {
                k + 2
            } else if k < 20 {
                k + 3
            } else {
                k + 4
            };
            assert(uuid_text(a)[i] == number::hex_char(nibble(a.bits, k)));
            assert(uuid_text(b)[i] == number::hex_char(nibble(b.bits, k)));
            assert(nibble(a.bits, k) < 16 && nibble(b.bits, k) < 16);
        }
        lemma_same_digits(a.bits, b.bits, 0);
        power::lemma_pow0(16);
        assert(a.bits as int / 1 == a.bits);
        assert(b.bits as int / 1 == b.bits);
    }
}

/// What `uuid::Uuid::parse_str` reads in a text, as a number; `None` where it
/// refuses it.
pub uninterp spec fn uuid_read(s: Seq<char>) -> Option<u128>;

/// The identifier that `s` spells, if any.
pub open spec fn uuid_parsed(s: Seq<char>) -> Option<Uuid> {
    match uuid_read(s) {
        Some(bits) => Some(Uuid { bits }),
        None => None,
    }
}

/// `to_string` of `uuid::Uuid::from_u128`: its `Display` is the hyphenated
/// lower-case form, which `uuid::Uuid::parse_str` reads back.
#[verifier::external_body]
fn format_bits(bits: u128) -> (r: String)
    ensures
        r@ == uuid_text(Uuid { bits }),
        uuid_read(r@) == Some(bits),
{
    uuid::Uuid::from_u128(bits).to_string()
}

/// `uuid::Uuid::parse_str`. It reads several spellings, the hyphenated form
/// among them.
#[verifier::external_body]
fn parse_bits(s: &str) -> (r: Option<u128>)
    ensures
        r == uuid_read(s@),
        forall|bits: u128| s@ == #[trigger] uuid_text(Uuid { bits }) ==> r == Some(bits),
{
    match uuid::Uuid::parse_str(s) {
        Ok(id) => Some(id.as_u128()),
        Err(_) => None,
    }
}

/// `uuid::Uuid::new_v4`: random, apart from the version digit, which is 4, and
/// the two variant bits, which are 1 and 0.
#[verifier::external_body]
fn random_bits() -> (r: u128)
    ensures
        nibble(r, 12) == 4,
        8 <= nibble(r, 16) < 12,
{
    uuid::Uuid::new_v4().as_u128()
}

/// Whether an identifier is of version 4: that is its version digit, and its
/// variant bits are 1 and 0.
pub open spec fn is_v4(id: Uuid) -> bool {
    &&& nibble(id.bits, 12) == 4
    &&& 8 <= nibble(id.bits, 16) < 12
}

impl Uuid {
    /// The identifier made of zeros.
    pub fn nil() -> (r: Uuid)
        ensures
            r.bits == 0,
    {
        Uuid { bits: 0 }
    }

    /// A random identifier, version 4.
    pub fn new_v4() -> (r: Uuid)
        ensures
            is_v4(r),
    {
        Uuid { bits: random_bits() }
    }

    /// The hyphenated form.
    pub fn to_string(&self) -> (r: String)
        ensures
            r@ == uuid_text(*self),
            uuid_parsed(r@) == Some(*self),
    {
        format_bits(self.bits)
    }

    /// Reads an identifier.
    pub fn parse(s: &str) -> (r: Option<Uuid>)
        ensures
            r == uuid_parsed(s@),
            forall|id: Uuid| s@ == #[trigger] uuid_text(id) ==> r == Some(id),
    {
        let ghost text = s@;
        let read = parse_bits(s);
        proof {
            assert forall|id: Uuid| text == #[trigger] uuid_text(id) implies read == Some(
                id.bits,
            ) by {
                assert(id == Uuid { bits: id.bits });
            }
        }
        match read {
            Some(bits) => Some(Uuid { bits }),
            None => None,
        }
    }
}

} // verus!
