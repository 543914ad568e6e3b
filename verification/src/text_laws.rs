//! What holds of texts, numbers and addresses, told character by character.

use crate::addr;
use crate::addr::Ipv4Addr;
use crate::net;
use crate::number;
use crate::text;
use vstd::arithmetic::power;
use vstd::prelude::*;

verus! {

// ---- parts --------------------------------------------------------------

/// Whether a text has this part, at some place.
pub open spec fn has_part(s: Seq<char>, part: Seq<char>) -> bool {
    exists|before: Seq<char>, after: Seq<char>| s == #[trigger] (before + part + after)
}

/// A part of a part is a part.
pub proof fn lemma_part_of_part(s: Seq<char>, before: Seq<char>, t: Seq<char>, after: Seq<char>, part: Seq<char>)
    requires
        s == before + t + after,
        has_part(t, part),
    ensures
        has_part(s, part),
{
    let (a, b) = choose|a: Seq<char>, b: Seq<char>| t == #[trigger] (a + part + b);
    assert(s =~= (before + a) + part + (b + after));
}

// ---- space and case -----------------------------------------------------

/// Whether a text is nothing but space.
pub open spec fn blank(s: Seq<char>) -> bool {
    forall|i: int| 0 <= i < s.len() ==> text::is_white(#[trigger] s[i])
}

/// Trimming takes off the space at either end and nothing else: what is left
/// begins and ends with something, and what was taken is blank.
pub proof fn law_trim_takes_only_space(s: Seq<char>) -> (r: (Seq<char>, Seq<char>))
    ensures
        s == r.0 + text::trim(s) + r.1,
        blank(r.0),
        blank(r.1),
        text::trim(s).len() > 0 ==> !text::is_white(text::trim(s)[0]) && !text::is_white(
            text::trim(s).last(),
        ),
        text::trim(s).len() == 0 <==> blank(s),
{
    let a = lemma_start_taken(s);
    let t = text::trim_start(s);
    let b = lemma_end_taken(t);
    let m = text::trim_end(t);
    assert(s =~= a + m + b);
    if m.len() > 0 {
        assert(m[0] == t[0]);
    } else {
        assert(m =~= Seq::<char>::empty());
        assert(s =~= a + b);
        assert forall|i: int| 0 <= i < s.len() implies text::is_white(#[trigger] s[i]) by {
            if i < a.len() {
                assert(s[i] == a[i]);
            } else {
                assert(s[i] == b[i - a.len()]);
            }
        }
    }
    if blank(s) && m.len() > 0 {
        assert(s[a.len() as int] == m[0]);
    }
    (a, b)
}

proof fn lemma_start_taken(s: Seq<char>) -> (a: Seq<char>)
    ensures
        s == a + text::trim_start(s),
        blank(a),
        text::trim_start(s).len() > 0 ==> !text::is_white(text::trim_start(s)[0]),
    decreases s.len(),
{
    if s.len() > 0 && text::is_white(s[0]) {
        let rest = lemma_start_taken(s.drop_first());
        let a = seq![s[0]] + rest;
        assert(s =~= seq![s[0]] + s.drop_first());
        assert(s =~= seq![s[0]] + (rest + text::trim_start(s.drop_first())));
        assert(s =~= a + text::trim_start(s));
        assert forall|i: int| 0 <= i < a.len() implies text::is_white(#[trigger] a[i]) by {
            if i > 0 {
                assert(a[i] == rest[i - 1]);
            }
        }
        a
    } else {
        assert(s =~= Seq::<char>::empty() + s);
        Seq::empty()
    }
}

proof fn lemma_end_taken(s: Seq<char>) -> (b: Seq<char>)
    ensures
        s == text::trim_end(s) + b,
        blank(b),
        text::trim_end(s).len() > 0 ==> !text::is_white(text::trim_end(s).last()),
    decreases s.len(),
{
    if s.len() > 0 && text::is_white(s.last()) {
        let rest = lemma_end_taken(s.drop_last());
        let b = rest.push(s.last());
        assert(s =~= s.drop_last().push(s.last()));
        assert(s =~= (text::trim_end(s.drop_last()) + rest).push(s.last()));
        assert(s =~= text::trim_end(s) + b);
        assert forall|i: int| 0 <= i < b.len() implies text::is_white(#[trigger] b[i]) by {
            if i < rest.len() {
                assert(b[i] == rest[i]);
            }
        }
        b
    } else {
        assert(s =~= s + Seq::<char>::empty());
        Seq::empty()
    }
}

/// Space is what Unicode calls white space: tab to carriage return, the blank,
/// and the wide and narrow ones; no letter, digit or mark of ASCII is.
pub proof fn law_ascii_marks_are_no_space(c: char)
    ensures
        0x21 <= c as u32 <= 0x7e ==> !text::is_white(c),
        c == ' ' || c == '\t' || c == '\n' || c == '\r' ==> text::is_white(c),
{
}

/// Lowering changes the 26 capital letters of ASCII to the small ones, place by
/// place, and leaves everything else.
pub proof fn law_lowering_changes_capitals_only(s: Seq<char>)
    ensures
        text::lower(s).len() == s.len(),
        forall|i: int|
            0 <= i < s.len() ==> {
                let c = #[trigger] text::lower(s)[i];
                if 'A' <= s[i] <= 'Z' {
                    'a' <= c <= 'z' && c as u32 == s[i] as u32 + 32
                } else {
                    c == s[i]
                }
            },
        text::lower(text::lower(s)) == text::lower(s),
{
    assert(text::lower(text::lower(s)) =~= text::lower(s));
}

// ---- pieces and lines ---------------------------------------------------

/// What pieces make up, with a separator between every two.
pub open spec fn rejoined(pieces: Seq<Seq<char>>, sep: char) -> Seq<char>
    decreases pieces.len(),
{
    if pieces.len() == 0 {
        Seq::empty()
    } else if pieces.len() == 1 {
        pieces[0]
    } else {
        rejoined(pieces.drop_last(), sep).push(sep) + pieces.last()
    }
}

/// The pieces of a text hold no separator, and make up the text with one
/// between every two.
pub proof fn law_pieces_make_up_the_text(s: Seq<char>, sep: char)
    ensures
        text::split(s, sep).len() > 0,
        rejoined(text::split(s, sep), sep) == s,
        forall|i: int|
            0 <= i < text::split(s, sep).len() ==> !(#[trigger] text::split(s, sep)[i]).contains(
                sep,
            ),
    decreases s.len(),
{
    let pieces = text::split(s, sep);
    if s.len() == 0 {
        assert(rejoined(pieces, sep) =~= s);
    } else {
        let head = s.drop_last();
        let before = text::split(head, sep);
        law_pieces_make_up_the_text(head, sep);
        if s.last() == sep {
            assert(pieces.drop_last() =~= before);
            assert(rejoined(pieces, sep) =~= s);
            assert forall|i: int| 0 <= i < pieces.len() implies !(#[trigger] pieces[i]).contains(
                sep,
            ) by {
                if i < before.len() {
                    assert(pieces[i] == before[i]);
                }
            }
        } else {
            assert(pieces.drop_last() =~= before.drop_last());
            if before.len() == 1 {
                assert(rejoined(pieces, sep) =~= s);
            } else {
                assert(rejoined(pieces, sep) =~= rejoined(before, sep).push(s.last()));
                assert(rejoined(pieces, sep) =~= s);
            }
            assert forall|i: int| 0 <= i < pieces.len() implies !(#[trigger] pieces[i]).contains(
                sep,
            ) by {
                if i < before.len() - 1 {
                    assert(pieces[i] == before[i]);
                } else {
                    let longer = before.last().push(s.last());
                    assert(pieces[i] == longer);
                    if longer.contains(sep) {
                        let k = choose|k: int| 0 <= k < longer.len() && longer[k] == sep;
                        assert(before[before.len() - 1][k] == sep);
                    }
                }
            }
        }
    }
}

/// Replacing changes nothing in a text that does not have the pattern.
pub proof fn law_nothing_to_replace(s: Seq<char>, pattern: Seq<char>, with: Seq<char>)
    requires
        pattern.len() > 0,
        !has_part(s, pattern),
    ensures
        text::replace(s, pattern, with) == s,
    decreases s.len(),
{
    if s.len() > 0 {
        if pattern.is_prefix_of(s) {
            let after = s.skip(pattern.len() as int);
            assert(s =~= Seq::<char>::empty() + pattern + after);
        } else {
            let rest = s.drop_first();
            if has_part(rest, pattern) {
                let (a, b) = choose|a: Seq<char>, b: Seq<char>|
                    rest == #[trigger] (a + pattern + b);
                assert(s =~= seq![s[0]] + rest);
                assert(s =~= seq![s[0]] + (a + pattern + b));
                assert(s =~= (seq![s[0]] + a) + pattern + b);
            }
            law_nothing_to_replace(rest, pattern, with);
            assert(s =~= seq![s[0]] + rest);
        }
    }
}

/// The first place of a pattern gives way to what replaces it, and replacing
/// goes on after it.
pub proof fn law_first_place_is_replaced(
    before: Seq<char>,
    pattern: Seq<char>,
    after: Seq<char>,
    with: Seq<char>,
)
    requires
        pattern.len() > 0,
        forall|i: int|
            0 <= i < before.len() ==> !pattern.is_prefix_of(
                (before + pattern + after).skip(#[trigger] id_int(i)),
            ),
    ensures
        text::replace(before + pattern + after, pattern, with) == before + with + text::replace(
            after,
            pattern,
            with,
        ),
    decreases before.len(),
{
    let s = before + pattern + after;
    if before.len() == 0 {
        assert(pattern =~= s.subrange(0, pattern.len() as int));
        assert(s.skip(pattern.len() as int) =~= after);
        assert(before + with + text::replace(after, pattern, with) =~= with + text::replace(
            after,
            pattern,
            with,
        ));
    } else {
        let rest = before.drop_first();
        assert(id_int(0) == 0);
        assert(s.skip(0) =~= s);
        assert(!pattern.is_prefix_of(s.skip(id_int(0))));
        assert(s.drop_first() =~= rest + pattern + after);
        assert forall|i: int| 0 <= i < rest.len() implies !pattern.is_prefix_of(
            (rest + pattern + after).skip(#[trigger] id_int(i)),
        ) by {
            assert((rest + pattern + after).skip(i) =~= s.skip(i + 1));
            assert(!pattern.is_prefix_of(s.skip(id_int(i + 1))));
        }
        law_first_place_is_replaced(rest, pattern, after, with);
        assert(seq![s[0]] + (rest + with + text::replace(after, pattern, with)) =~= before + with
            + text::replace(after, pattern, with));
    }
}

/// A place in a text.
pub open spec fn id_int(i: int) -> int {
    i
}

// ---- numbers ------------------------------------------------------------

/// A decimal is told by its digits: from the right, the digit at place `k`
/// counts how often the `k`th power of ten is left in the number. It has no
/// leading zero, but for zero itself.
pub proof fn law_decimal_digits(n: nat, k: nat)
    ensures
        number::decimal(n).len() > 0,
        k < number::decimal(n).len() ==> number::decimal(n)[number::decimal(n).len() - 1 - k] as int
            == 48 + (n as int / power::pow(10, k)) % 10,
        number::decimal(n)[0] == '0' <==> n == 0,
        n < 10 ==> number::decimal(n).len() == 1,
    decreases n,
{
    reveal(power::pow);
    power::lemma_pow_positive(10, k);
    let s = number::decimal(n);
    if n >= 10 {
        let head = number::decimal(n / 10);
        if k == 0 {
            law_decimal_digits(n / 10, 0);
        } else {
            law_decimal_digits(n / 10, (k - 1) as nat);
            if k < s.len() {
                assert(s[s.len() - 1 - k] == head[head.len() - 1 - (k - 1)]);
                power::lemma_pow_positive(10, (k - 1) as nat);
                vstd::arithmetic::div_mod::lemma_div_denominator(
                    n as int,
                    10,
                    power::pow(10, (k - 1) as nat),
                );
            }
        }
        assert(s[0] == head[0]);
    }
}

/// Numbers are written differently where they are different.
pub proof fn law_decimals_differ(a: nat, b: nat)
    requires
        number::decimal(a) == number::decimal(b),
    ensures
        a == b,
{
    let max = a + b;
    number::law_decimal_round_trip(a, max);
    number::law_decimal_round_trip(b, max);
}

/// A decimal is digits only.
pub proof fn law_decimal_is_digits(n: nat)
    ensures
        forall|i: int|
            0 <= i < number::decimal(n).len() ==> '0' <= #[trigger] number::decimal(n)[i] <= '9',
{
    let s = number::decimal(n);
    assert forall|i: int| 0 <= i < s.len() implies '0' <= #[trigger] s[i] <= '9' by {
        law_decimal_digits(n, (s.len() - 1 - i) as nat);
    }
}

/// Bytes in hexadecimal are two lower-case digits each, the high half first.
pub proof fn law_hex_digits(bytes: Seq<u8>, i: int)
    requires
        0 <= i < bytes.len(),
    ensures
        number::hex(bytes).len() == 2 * bytes.len(),
        ({
            let value = |c: char|
                if '0' <= c <= '9' {
                    c as int - 48
                } else {
                    c as int - 87
                };
            let high = number::hex(bytes)[2 * i];
            let low = number::hex(bytes)[2 * i + 1];
            &&& ('0' <= high <= '9' || 'a' <= high <= 'f')
            &&& ('0' <= low <= '9' || 'a' <= low <= 'f')
            &&& bytes[i] == 16 * value(high) + value(low)
        }),
{
    assert((2 * i) / 2 == i && (2 * i) % 2 == 0);
    assert((2 * i + 1) / 2 == i && (2 * i + 1) % 2 == 1);
}

// ---- addresses ----------------------------------------------------------

/// An address is written as its four bytes in decimal, the leading one first,
/// with a dot between every two.
pub proof fn law_address_is_four_bytes(a: Ipv4Addr)
    ensures
        addr::ipv4_text(a) == number::decimal((a.bits / 0x100_0000) as nat) + "."@
            + number::decimal(((a.bits / 0x1_0000) % 0x100) as nat) + "."@ + number::decimal(
            ((a.bits / 0x100) % 0x100) as nat,
        ) + "."@ + number::decimal((a.bits % 0x100) as nat),
        addr::ipv4_read(addr::ipv4_text(a)) == Some(a),
{
    reveal_strlit(".");
    assert("."@ =~= seq!['.']);
    assert(addr::ipv4_text(a) =~= number::decimal((a.bits / 0x100_0000) as nat) + "."@
        + number::decimal(((a.bits / 0x1_0000) % 0x100) as nat) + "."@ + number::decimal(
        ((a.bits / 0x100) % 0x100) as nat,
    ) + "."@ + number::decimal((a.bits % 0x100) as nat));
    addr::law_ipv4_round_trip(a);
}

/// A network's address is that of its addresses with the bits after the prefix
/// cleared: it is a multiple of the network's size, and lies less than that
/// size below each of them.
pub proof fn law_network_clears_the_host_bits(a: Ipv4Addr, b: Ipv4Addr, len: u8)
    requires
        len <= 32,
    ensures
        ({
            let size = power::pow(2, (32 - len) as nat);
            let base = net::network_of(a, len).bits as int;
            &&& size > 0
            &&& base % size == 0
            &&& base <= a.bits < base + size
            &&& net::network_of(a, len) == net::network_of(b, len) <==> a.bits as int / size
                == b.bits as int / size
        }),
{
    let size = power::pow(2, (32 - len) as nat);
    vstd::arithmetic::power2::lemma_pow2((32 - len) as nat);
    vstd::arithmetic::power2::lemma_pow2_pos((32 - len) as nat);
    assert(net::block_size(len) as int == size);
    let x = a.bits as int;
    let y = b.bits as int;
    vstd::arithmetic::div_mod::lemma_fundamental_div_mod(x, size);
    vstd::arithmetic::div_mod::lemma_fundamental_div_mod(y, size);
    assert(0 <= x % size < size && 0 <= y % size < size) by {
        vstd::arithmetic::div_mod::lemma_mod_bound(x, size);
        vstd::arithmetic::div_mod::lemma_mod_bound(y, size);
    }
    assert(x - x % size == size * (x / size));
    assert(y - y % size == size * (y / size));
    assert(x - x % size >= 0) by {
        vstd::arithmetic::div_mod::lemma_div_pos_is_pos(x, size);
        vstd::arithmetic::mul::lemma_mul_nonnegative(size, x / size);
    }
    assert(y - y % size >= 0) by {
        vstd::arithmetic::div_mod::lemma_div_pos_is_pos(y, size);
        vstd::arithmetic::mul::lemma_mul_nonnegative(size, y / size);
    }
    assert(net::network_of(a, len).bits as int == size * (x / size));
    assert(net::network_of(b, len).bits as int == size * (y / size));
    vstd::arithmetic::div_mod::lemma_mod_multiples_basic(x / size, size);
    vstd::arithmetic::mul::lemma_mul_is_commutative(size, x / size);
    if size * (x / size) == size * (y / size) {
        vstd::arithmetic::mul::lemma_mul_equality_converse(size, x / size, y / size);
    }
}

} // verus!
