//! What holds of every network, every address in one, and every public port.

use crate::addr;
use crate::addr::Ipv4Addr;
use crate::allocator;
use crate::allocator::{AllocError, EdgePortRange, PortRequest};
use crate::clock;
use crate::clock::Timestamp;
use crate::model;
use crate::model::{EndpointModel, Protocol};
use crate::net;
use crate::net::{Ipv4Net, NetErrorModel};
use crate::number;
use crate::text;
use crate::text_laws;
use crate::token;
use vstd::arithmetic::power2;
use vstd::prelude::*;

verus! {

// ---- networks -----------------------------------------------------------

/// The hosts of a network are the addresses in it but the first and the last.
pub proof fn law_hosts_are_all_but_the_ends(n: Ipv4Net, a: Ipv4Addr)
    requires
        n.len() <= 32,
        net::network_of(n.network(), n.len()) == n.network(),
    ensures
        n.is_host(a) <==> {
            &&& net::network_of(a, n.len()) == n.network()
            &&& a != n.network()
            &&& a.bits != n.network().bits + power2::pow2((32 - n.len()) as nat) - 1
        },
{
    let size = power2::pow2((32 - n.len()) as nat) as int;
    power2::lemma_pow2_pos((32 - n.len()) as nat);
    assert(0 <= a.bits as int % size < size);
    assert(a.bits as int % size <= a.bits) by {
        vstd::arithmetic::div_mod::lemma_mod_decreases(a.bits as nat, size as nat);
    }
    if n.is_host(a) {
        net::law_hosts_are_inside(n, a);
    }
    if net::network_of(a, n.len()) == n.network() && a != n.network() {
        assert(a.bits - a.bits as int % size == n.network().bits);
        assert(a.bits != n.network().bits) by {
            if a.bits == n.network().bits {
                assert(a == n.network());
            }
        }
    }
}

/// A node gets the lowest address that nobody has; only where every host's
/// address is taken does it get none.
pub proof fn law_next_address_is_the_lowest_free(n: Ipv4Net, taken: Seq<Ipv4Addr>)
    ensures
        net::next_host(n, taken) matches Some(a) ==> {
            &&& n.network().bits < a.bits < n.network().bits + power2::pow2(
                (32 - n.len()) as nat,
            ) - 1
            &&& !taken.contains(a)
            &&& forall|b: Ipv4Addr|
                n.network().bits < b.bits < a.bits ==> #[trigger] taken.contains(b)
        },
        net::next_host(n, taken) is None ==> forall|b: Ipv4Addr|
            n.network().bits < b.bits < n.network().bits + power2::pow2((32 - n.len()) as nat) - 1
                ==> #[trigger] taken.contains(b),
{
    if let Some(a) = net::next_host(n, taken) {
        assert(net::lowest_free_host(n, taken, a));
        assert forall|b: Ipv4Addr| n.network().bits < b.bits < a.bits implies
            #[trigger] taken.contains(b) by {
            assert(n.is_host(b));
        }
    } else {
        assert forall|b: Ipv4Addr|
            n.network().bits < b.bits < n.network().bits + power2::pow2((32 - n.len()) as nat)
                - 1 implies #[trigger] taken.contains(b) by {
            if !taken.contains(b) {
                assert(n.is_host(b));
                lemma_a_lowest_one(n, taken, b);
            }
        }
    }
}

proof fn lemma_a_lowest_one(n: Ipv4Net, taken: Seq<Ipv4Addr>, b: Ipv4Addr)
    requires
        n.is_host(b),
        !taken.contains(b),
    ensures
        exists|a: Ipv4Addr| net::lowest_free_host(n, taken, a),
    decreases b.bits,
{
    if !net::lowest_free_host(n, taken, b) {
        let c = choose|c: Ipv4Addr| #[trigger] n.is_host(c) && c.bits < b.bits && !taken.contains(c);
        lemma_a_lowest_one(n, taken, c);
    }
}

proof fn lemma_no_slash(s: Seq<char>)
    requires
        forall|i: int| 0 <= i < s.len() ==> text::is_digit(#[trigger] s[i]) || s[i] == '.',
    ensures
        !s.contains('/'),
{
}

proof fn lemma_unspaced(s: Seq<char>)
    requires
        s.len() > 0,
        !text::is_white(s[0]),
        !text::is_white(s.last()),
    ensures
        text::trim(s) == s,
{
}

proof fn lemma_dotted(a: Ipv4Addr)
    ensures
        addr::ipv4_text(a).len() > 0,
        forall|i: int|
            0 <= i < addr::ipv4_text(a).len() ==> text::is_digit(#[trigger] addr::ipv4_text(a)[i])
                || addr::ipv4_text(a)[i] == '.',
        text::is_digit(addr::ipv4_text(a)[0]),
        text::is_digit(addr::ipv4_text(a).last()),
{
    text_laws::law_decimal_is_digits(a.octet(0));
    text_laws::law_decimal_is_digits(a.octet(1));
    text_laws::law_decimal_is_digits(a.octet(2));
    text_laws::law_decimal_is_digits(a.octet(3));
    let one = number::decimal(a.octet(0)).push('.');
    let two = (one + number::decimal(a.octet(1))).push('.');
    let three = (two + number::decimal(a.octet(2))).push('.');
    let s = three + number::decimal(a.octet(3));
    assert(addr::ipv4_text(a) == s);
    assert(one[0] == number::decimal(a.octet(0))[0]);
    assert(two[0] == one[0]);
    assert(three[0] == two[0]);
    assert(s[0] == three[0]);
    assert(forall|i: int|
        0 <= i < one.len() ==> text::is_digit(#[trigger] one[i]) || one[i] == '.');
    assert(forall|i: int|
        0 <= i < two.len() ==> text::is_digit(#[trigger] two[i]) || two[i] == '.');
    assert(forall|i: int|
        0 <= i < three.len() ==> text::is_digit(#[trigger] three[i]) || three[i] == '.');
    assert(s.last() == number::decimal(a.octet(3)).last());
}

/// A network that is written down is read as what it was: an address, a slash
/// and a length up to thirty-two; the bits beyond the length do not count.
pub proof fn law_written_networks_are_read(a: Ipv4Addr, len: u8)
    ensures
        len <= 32 ==> net::cidr_read(net::cidr_text(a, len)) == Ok::<(Ipv4Addr, u8), NetErrorModel>(
            (net::network_of(a, len), len),
        ),
        len > 32 ==> net::cidr_read(net::cidr_text(a, len)) == Err::<
            (Ipv4Addr, u8),
            NetErrorModel,
        >(NetErrorModel::PrefixLen(len)),
        net::cidr_text(a, len) == addr::ipv4_text(a) + "/"@ + number::decimal(len as nat),
{
    reveal_strlit("/");
    let address = addr::ipv4_text(a);
    let length = number::decimal(len as nat);
    let whole = net::cidr_text(a, len);
    assert("/"@ =~= seq!['/']);
    assert(whole =~= address.push('/') + length);
    lemma_dotted(a);
    lemma_no_slash(address);
    text_laws::law_decimal_is_digits(len as nat);
    lemma_no_slash(length);
    text::lemma_split_single(address, '/');
    text::lemma_split_append(address, length, '/');
    let pieces = text::split(whole, '/');
    assert(pieces =~= seq![address, length]);
    lemma_unspaced(address);
    lemma_unspaced(length);
    addr::law_ipv4_round_trip(a);
    number::law_decimal_round_trip(len as nat, 255);
}

/// Space around the address and around the length of a written network does not
/// count.
pub proof fn law_networks_are_read_without_space(a: Seq<char>, b: Seq<char>)
    requires
        !a.contains('/'),
        !b.contains('/'),
    ensures
        match (addr::ipv4_read(text::trim(a)), number::unsigned(text::trim(b), 255)) {
            (Some(address), Some(len)) => if len <= 32 {
                net::cidr_read(a.push('/') + b) == Ok::<(Ipv4Addr, u8), NetErrorModel>(
                    (net::network_of(address, len as u8), len as u8),
                )
            } else {
                net::cidr_read(a.push('/') + b) == Err::<(Ipv4Addr, u8), NetErrorModel>(
                    NetErrorModel::PrefixLen(len as u8),
                )
            },
            _ => net::cidr_read(a.push('/') + b) == Err::<(Ipv4Addr, u8), NetErrorModel>(
                NetErrorModel::Malformed(a.push('/') + b),
            ),
        },
{
    text::lemma_split_single(a, '/');
    text::lemma_split_append(a, b, '/');
    assert(text::split(a.push('/') + b, '/') =~= seq![a, b]);
}

/// A text with no slash, or with more than one, is no network.
pub proof fn law_networks_have_one_slash(s: Seq<char>, a: Seq<char>, b: Seq<char>, c: Seq<char>)
    requires
        !b.contains('/'),
        !c.contains('/'),
    ensures
        !s.contains('/') ==> net::cidr_read(s) == Err::<(Ipv4Addr, u8), NetErrorModel>(
            NetErrorModel::Malformed(s),
        ),
        net::cidr_read((a.push('/') + b).push('/') + c) is Err,
{
    if !s.contains('/') {
        text::lemma_split_single(s, '/');
    }
    text::lemma_split_append(a, b, '/');
    text::lemma_split_append(a.push('/') + b, c, '/');
    text::lemma_split_nonempty(a, '/');
}

// ---- public ports -------------------------------------------------------

/// A range covers its ends and what lies between.
pub proof fn law_ranges_cover_both_ends(start: u16, end: u16, port: u16)
    ensures
        EdgePortRange::between(start, end).covers(port) <==> start <= port <= end,
{
    allocator::lemma_between(start, end);
}

/// A port that is free is given as asked. One that is not is refused where it
/// cannot be moved; otherwise the lowest free port of the range is given, and
/// only a range with none is exhausted. What is given is taken from then on,
/// and nothing else changes.
pub proof fn law_ports_are_given_from_below(
    before: Set<(Protocol, u16)>,
    range: EdgePortRange,
    req: PortRequest,
    r: Result<u16, AllocError>,
    after: Set<(Protocol, u16)>,
)
    requires
        allocator::allocates(before, range, req, r, after),
    ensures
        !before.contains((req.protocol, req.preferred)) <==> r == Ok::<u16, AllocError>(
            req.preferred,
        ),
        before.contains((req.protocol, req.preferred)) && req.fixed ==> r == Err::<u16, AllocError>(
            AllocError::FixedPortTaken { protocol: req.protocol, port: req.preferred },
        ),
        before.contains((req.protocol, req.preferred)) && !req.fixed ==> match r {
            Ok(port) => {
                &&& range.first() <= port <= range.last()
                &&& !before.contains((req.protocol, port))
                &&& forall|q: u16|
                    range.first() <= q < port ==> #[trigger] before.contains((req.protocol, q))
            },
            Err(e) => {
                &&& forall|q: u16|
                    range.first() <= q <= range.last() ==> #[trigger] before.contains(
                        (req.protocol, q),
                    )
                &&& e == AllocError::RangeExhausted {
                    protocol: req.protocol,
                    start: range.first(),
                    end: range.last(),
                }
            },
        },
        forall|k: (Protocol, u16)|
            #[trigger] after.contains(k) <==> before.contains(k) || (r matches Ok(port) && k == (
                req.protocol,
                port,
            )),
{
}

/// What is told of a port names its protocol and number.
pub proof fn law_allocation_errors_name_the_port(protocol: Protocol, port: u16, start: u16, end: u16)
    ensures
        allocator::alloc_error_text(AllocError::FixedPortTaken { protocol, port })
            == protocol.name() + " port "@ + number::decimal(port as nat)
            + " cannot be moved (clients of this game cannot be told a different port) and is already in use"@,
        allocator::alloc_error_text(AllocError::RangeExhausted { protocol, start, end })
            == "no free "@ + protocol.name() + " port left in the edge range "@ + number::decimal(
            start as nat,
        ) + "-"@ + number::decimal(end as nat),
        allocator::alloc_error_text(AllocError::InvalidRange(start, end)) == "edge port range "@
            + number::decimal(start as nat) + "-"@ + number::decimal(end as nat)
            + " is invalid: start must be at least 1024 and not above end"@,
{
}

// ---- what players and machines are told ---------------------------------

/// Players are told the host alone where an SRV record says the port, and the
/// port with it everywhere else.
pub proof fn law_endpoints_say_the_port(e: EndpointModel)
    ensures
        e.port_implied_by_srv ==> model::endpoint_text(e) == e.host,
        !e.port_implied_by_srv ==> model::endpoint_text(e) == e.host + ":"@ + number::decimal(
            e.port as nat,
        ),
{
}

/// An SRV record is named by its service, its protocol and its host. Minecraft
/// clients look for `_minecraft._tcp`.
pub proof fn law_srv_records_are_named_in_order(
    service: Seq<char>,
    proto: Seq<char>,
    fqdn: Seq<char>,
)
    ensures
        model::srv_name(service, proto, fqdn) == service + "."@ + proto + "."@ + fqdn,
        model::srv_name(
            model::minecraft_java_spec().service,
            model::minecraft_java_spec().proto,
            fqdn,
        ) == "_minecraft"@ + "."@ + "_tcp"@ + "."@ + fqdn,
        model::minecraft_java_spec().priority == 0,
        model::minecraft_java_spec().weight == 5,
{
}

/// A token is accepted exactly where its hash is the stored one.
pub proof fn law_tokens_are_told_by_their_hash(presented: Seq<char>, issued: Seq<char>)
    ensures
        token::accepts(presented, token::token_hash(issued)) <==> token::token_hash(presented)
            == token::token_hash(issued),
        token::token_hash(presented) == number::hex(
            token::sha256_digest(vstd::utf8::encode_utf8(presented)),
        ),
{
}

// ---- time and numbers ---------------------------------------------------

/// A second of the calendar is that many thousand million nanoseconds after the
/// epoch, in UTC; seconds beyond the years -9999 to 9999 are none.
pub proof fn law_seconds_are_counted_from_the_epoch(seconds: int)
    ensures
        Timestamp::at_second(seconds) is Some <==> -377705116800 <= seconds <= 253402300799,
        Timestamp::at_second(seconds) matches Some(at) ==> at.unix_nanos == seconds * 1_000_000_000
            && at.offset_seconds == 0,
{
}

/// A point in time whose clock cannot be counted has no written form.
pub proof fn law_uncountable_times_are_not_written(at: Timestamp)
    requires
        !(i128::MIN <= at.unix_nanos + at.offset_seconds * 1_000_000_000 <= i128::MAX),
    ensures
        clock::stamp_text(at) == Err::<Seq<char>, Seq<char>>("the time is out of range"@),
{
}

/// A number over the largest one allowed is not read, with a plus sign it is
/// read as without, and one with a minus sign is as far below nothing.
pub proof fn law_numbers_are_read_within_bounds(n: nat, max: nat)
    ensures
        n <= max ==> number::unsigned(number::decimal(n), max) == Some(n),
        n > max ==> number::unsigned(number::decimal(n), max) is None,
        number::unsigned(seq!['+'] + number::decimal(n), max) == number::unsigned(
            number::decimal(n),
            max,
        ),
        number::signed_decimal(n as int) == number::decimal(n),
        n > 0 ==> number::signed_decimal(-(n as int)) == "-"@ + number::decimal(n),
        n <= 0x7fff_ffff_ffff_ffff ==> number::signed(number::signed_decimal(n as int)) == Some(
            n as int,
        ),
        0 < n <= 0x8000_0000_0000_0000 ==> number::signed(number::signed_decimal(-(n as int)))
            == Some(-(n as int)),
{
    reveal_strlit("-");
    assert("-"@ =~= seq!['-']);
    let d = number::decimal(n);
    number::law_decimal_round_trip(n, n);
    text_laws::law_decimal_is_digits(n);
    assert(text::is_digit(d[0]));
    assert(number::all_digits(d) && number::decimal_value(d) == n);
    assert((seq!['+'] + d).drop_first() =~= d);
    assert(("-"@ + d).drop_first() =~= d);
}

/// Texts are ordered by the first place where they differ; the beginning of a
/// text comes before it.
pub proof fn law_texts_are_ordered_by_their_first_difference(a: Seq<char>, b: Seq<char>, i: int)
    requires
        0 <= i <= a.len(),
        i <= b.len(),
        a.take(i) == b.take(i),
    ensures
        i == a.len() ==> text::text_le(a, b),
        i == b.len() && i < a.len() ==> !text::text_le(a, b),
        i < a.len() && i < b.len() && a[i] != b[i] ==> (text::text_le(a, b) <==> a[i] < b[i]),
    decreases i,
{
    if i > 0 {
        assert(a[0] == a.take(i)[0] && b[0] == b.take(i)[0]);
        let x = a.drop_first();
        let y = b.drop_first();
        assert(x.take(i - 1) =~= a.take(i).drop_first());
        assert(y.take(i - 1) =~= b.take(i).drop_first());
        law_texts_are_ordered_by_their_first_difference(x, y, i - 1);
    }
}

/// Each line of a text is one of its lines, without what ends it.
pub proof fn law_lines_end_in_newlines(s: Seq<char>, line: Seq<char>)
    requires
        !line.contains('\n'),
        line.len() > 0,
        line.last() != '\r',
    ensures
        text::lines(s.push('\n') + line) == text::lines(s.push('\n')).push(line),
        text::lines((s.push('\n') + line).push('\n')) == text::lines(s.push('\n')).push(line),
        text::lines((s.push('\n') + line.push('\r')).push('\n')) == text::lines(
            s.push('\n'),
        ).push(line),
        text::lines((s.push('\n') + seq!['\r']).push('\n')) == text::lines(s.push('\n')).push(
            Seq::empty(),
        ),
        text::lines(line) == seq![line],
        text::lines(Seq::empty()).len() == 0,
{
    let none = Seq::<char>::empty();
    let pieces = text::split(s, '\n');
    text::lemma_split_nonempty(s, '\n');
    text::lemma_split_append(s, none, '\n');
    assert(s.push('\n') + none =~= s.push('\n'));
    text::lemma_split_append(s, line, '\n');
    let more = s.push('\n') + line;
    text::lemma_split_append(more, none, '\n');
    assert(more.push('\n') + none =~= more.push('\n'));
    let returned = line.push('\r');
    assert(!returned.contains('\n')) by {
        assert forall|i: int| 0 <= i < returned.len() implies returned[i] != '\n' by {
            if i < line.len() {
                assert(line.contains(line[i]));
            }
        }
    }
    text::lemma_split_append(s, returned, '\n');
    let other = s.push('\n') + returned;
    text::lemma_split_append(other, none, '\n');
    assert(other.push('\n') + none =~= other.push('\n'));
    assert(returned.drop_last() =~= line);
    text::lemma_split_single(line, '\n');
    let before = text::lines(s.push('\n'));
    assert(before.len() == pieces.len());
    assert(text::lines(more) =~= before.push(line));
    assert(text::lines(more.push('\n')) =~= before.push(line));
    assert(text::lines(other.push('\n')) =~= before.push(line));
    assert(text::lines(line) =~= seq![line]);
    assert(text::split(none, '\n').last() =~= none);
    let bare = seq!['\r'];
    assert(!bare.contains('\n'));
    text::lemma_split_append(s, bare, '\n');
    let third = s.push('\n') + bare;
    text::lemma_split_append(third, none, '\n');
    assert(third.push('\n') + none =~= third.push('\n'));
    assert(bare.drop_last() =~= none);
    assert(text::lines(third.push('\n')) =~= before.push(none));
}

} // verus!
