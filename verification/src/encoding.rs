//! Base64: bytes in groups of three, written as four symbols each.

use vstd::prelude::*;

verus! {

/// The symbol for a number below 64. Alphabets differ in the last two.
pub open spec fn symbol(value: int, for_62: char, for_63: char) -> char {
    if value < 26 {
        ('A' as int + value) as char
    } else if value < 52 {
        ('a' as int + (value - 26)) as char
    } else if value < 62 {
        ('0' as int + (value - 52)) as char
    } else if value == 62 {
        for_62
    } else {
        for_63
    }
}

/// A byte, or zero past the last one.
pub open spec fn byte_at(bytes: Seq<u8>, i: int) -> int {
    if 0 <= i < bytes.len() {
        bytes[i] as int
    } else {
        0
    }
}

/// Three bytes as one number, the first of them leading.
pub open spec fn group(bytes: Seq<u8>, k: int) -> int {
    65536 * byte_at(bytes, 3 * k) + 256 * byte_at(bytes, 3 * k + 1) + byte_at(bytes, 3 * k + 2)
}

/// Six of a group's bits, the leading ones first.
pub open spec fn six_bits(bytes: Seq<u8>, i: int) -> int {
    let group = group(bytes, i / 4);
    if i % 4 == 0 {
        group / 262144
    } else if i % 4 == 1 {
        (group / 4096) % 64
    } else if i % 4 == 2 {
        (group / 64) % 64
    } else {
        group % 64
    }
}

/// How many symbols it takes to write so many bytes.
pub open spec fn symbols_for(len: nat) -> nat {
    ((4 * len + 2) / 3) as nat
}

/// Standard base64: `+` and `/` end the alphabet, and the last group is filled
/// up with `=`.
pub open spec fn base64(bytes: Seq<u8>) -> Seq<char> {
    Seq::new(
        (4 * ((bytes.len() + 2) / 3)) as nat,
        |i: int|
            if i < symbols_for(bytes.len()) {
                symbol(six_bits(bytes, i), '+', '/')
            } else {
                '='
            },
    )
}

/// URL-safe base64 without padding: `-` and `_` end the alphabet.
pub open spec fn base64_url(bytes: Seq<u8>) -> Seq<char> {
    Seq::new(symbols_for(bytes.len()), |i: int| symbol(six_bits(bytes, i), '-', '_'))
}

/// A character that both alphabets have.
pub open spec fn alphanumeric(c: char) -> bool {
    'A' <= c <= 'Z' || 'a' <= c <= 'z' || '0' <= c <= '9'
}

/// Six bits are a number below 64.
pub proof fn lemma_six_bits(bytes: Seq<u8>, i: int)
    ensures
        0 <= six_bits(bytes, i) < 64,
{
}

/// Each number has a symbol of its own, and it is of the alphabet.
pub proof fn lemma_symbol(value: int, for_62: char, for_63: char)
    requires
        0 <= value < 64,
    ensures
        ({
            let c = symbol(value, for_62, for_63);
            alphanumeric(c) || c == for_62 || c == for_63
        }),
{
}

proof fn lemma_symbols_differ(a: int, b: int, for_62: char, for_63: char)
    requires
        0 <= a < 64,
        0 <= b < 64,
        !alphanumeric(for_62),
        !alphanumeric(for_63),
        for_62 != for_63,
        symbol(a, for_62, for_63) == symbol(b, for_62, for_63),
    ensures
        a == b,
{
}

/// What a group's first two, three and four times six bits tell of its bytes.
proof fn lemma_group_bits(x: int, y: int, z: int)
    requires
        0 <= x < 256,
        0 <= y < 256,
        0 <= z < 256,
    ensures
        ({
            let g = 65536 * x + 256 * y + z;
            let head = 64 * (g / 262144) + (g / 4096) % 64;
            let more = 64 * head + (g / 64) % 64;
            &&& x == head / 16
            &&& 256 * x + y == more / 4
            &&& g == 64 * more + g % 64
        }),
{
    let g = 65536 * x + 256 * y + z;
    let head = g / 4096;
    let more = g / 64;
    assert(head == 64 * (g / 262144) + head % 64);
    assert(more == 64 * head + more % 64);
    assert(head == 16 * x + y / 16);
    assert(more == 1024 * x + 4 * y + z / 64);
}

/// Bytes that are written alike are alike.
proof fn lemma_six_bits_tell_bytes(a: Seq<u8>, b: Seq<u8>)
    requires
        a.len() == b.len(),
        forall|i: int|
            0 <= i < symbols_for(a.len()) ==> #[trigger] six_bits(a, i) == six_bits(b, i),
    ensures
        a == b,
{
    assert forall|n: int| 0 <= n < a.len() implies a[n] == b[n] by {
        lemma_same_byte(a, b, n / 3, n % 3);
    }
}

proof fn lemma_same_byte(a: Seq<u8>, b: Seq<u8>, k: int, r: int)
    requires
        a.len() == b.len(),
        0 <= k,
        0 <= r < 3,
        3 * k + r < a.len(),
        forall|i: int|
            0 <= i < symbols_for(a.len()) ==> #[trigger] six_bits(a, i) == six_bits(b, i),
    ensures
        a[3 * k + r] == b[3 * k + r],
{
    let i = 4 * k;
    lemma_group_bits(byte_at(a, 3 * k), byte_at(a, 3 * k + 1), byte_at(a, 3 * k + 2));
    lemma_group_bits(byte_at(b, 3 * k), byte_at(b, 3 * k + 1), byte_at(b, 3 * k + 2));
    lemma_within_group(a, k);
    lemma_within_group(b, k);
    assert(six_bits(a, i) == six_bits(b, i));
    assert(six_bits(a, i + 1) == six_bits(b, i + 1));
    if r >= 1 {
        assert(six_bits(a, i + 2) == six_bits(b, i + 2));
    }
    if r == 2 {
        assert(six_bits(a, i + 3) == six_bits(b, i + 3));
    }
}

/// The four times six bits of a group.
proof fn lemma_within_group(bytes: Seq<u8>, k: int)
    requires
        0 <= k,
    ensures
        six_bits(bytes, 4 * k) == group(bytes, k) / 262144,
        six_bits(bytes, 4 * k + 1) == (group(bytes, k) / 4096) % 64,
        six_bits(bytes, 4 * k + 2) == (group(bytes, k) / 64) % 64,
        six_bits(bytes, 4 * k + 3) == group(bytes, k) % 64,
{
    assert((4 * k) / 4 == k && (4 * k + 1) / 4 == k && (4 * k + 2) / 4 == k && (4 * k + 3) / 4 == k);
}

/// No two byte strings have one standard spelling.
pub proof fn law_base64_loses_nothing(a: Seq<u8>, b: Seq<u8>)
    requires
        base64(a) == base64(b),
    ensures
        a == b,
{
    let s = base64(a);
    let t = base64(b);
    assert(s.len() == t.len());
    if symbols_for(a.len()) < symbols_for(b.len()) {
        let i = symbols_for(a.len()) as int;
        assert(s[i] == '=');
        lemma_six_bits(b, i);
        lemma_symbol(six_bits(b, i), '+', '/');
    } else if symbols_for(b.len()) < symbols_for(a.len()) {
        let i = symbols_for(b.len()) as int;
        assert(t[i] == '=');
        lemma_six_bits(a, i);
        lemma_symbol(six_bits(a, i), '+', '/');
    }
    assert forall|i: int| 0 <= i < symbols_for(a.len()) implies #[trigger] six_bits(a, i)
        == six_bits(b, i) by {
        assert(s[i] == t[i]);
        lemma_six_bits(a, i);
        lemma_six_bits(b, i);
        lemma_symbols_differ(six_bits(a, i), six_bits(b, i), '+', '/');
    }
    lemma_six_bits_tell_bytes(a, b);
}

/// No two byte strings have one URL-safe spelling.
pub proof fn law_base64_url_loses_nothing(a: Seq<u8>, b: Seq<u8>)
    requires
        base64_url(a) == base64_url(b),
    ensures
        a == b,
{
    let s = base64_url(a);
    let t = base64_url(b);
    assert(s.len() == t.len());
    assert forall|i: int| 0 <= i < symbols_for(a.len()) implies #[trigger] six_bits(a, i)
        == six_bits(b, i) by {
        assert(s[i] == t[i]);
        lemma_six_bits(a, i);
        lemma_six_bits(b, i);
        lemma_symbols_differ(six_bits(a, i), six_bits(b, i), '-', '_');
    }
    lemma_six_bits_tell_bytes(a, b);
}

} // verus!
