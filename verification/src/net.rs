//! Tunnel subnet arithmetic.
//!
//! Every agent gets one address inside a small private subnet, and that
//! address is what nftables DNATs game traffic to. Handing out addresses is
//! therefore as load-bearing as handing out ports, and just as much worth
//! proving without a network.

use crate::addr;
use crate::addr::Ipv4Addr;
use crate::number;
use crate::text;
use vstd::arithmetic::power2;
use vstd::prelude::*;

verus! {

/// How many addresses share a prefix of this length.
pub open spec fn block_size(prefix_len: u8) -> nat {
    power2::pow2((32 - prefix_len) as nat)
}

/// The first address of the block that `address` lies in.
pub open spec fn network_of(address: Ipv4Addr, prefix_len: u8) -> Ipv4Addr {
    Ipv4Addr { bits: (address.bits - address.bits as int % block_size(prefix_len) as int) as u32 }
}

proof fn lemma_block_bounds(prefix_len: u8)
    requires
        prefix_len <= 32,
    ensures
        1 <= block_size(prefix_len) <= 0x1_0000_0000,
{
    power2::lemma_pow2_pos((32 - prefix_len) as nat);
    power2::lemma2_to64();
    if prefix_len > 0 {
        power2::lemma_pow2_strictly_increases((32 - prefix_len) as nat, 32);
    }
}

fn block_len(prefix_len: u8) -> (r: u64)
    requires
        prefix_len <= 32,
    ensures
        r == block_size(prefix_len),
        1 <= r <= 0x1_0000_0000,
{
    let mut size: u64 = 1;
    let mut len: u8 = 32;
    proof {
        power2::lemma2_to64();
        lemma_block_bounds(prefix_len);
    }
    while len > prefix_len
        invariant
            prefix_len <= len <= 32,
            size == block_size(len),
            block_size(prefix_len) <= 0x1_0000_0000,
        decreases len,
    {
        proof {
            power2::lemma_pow2_unfold((32 - len + 1) as nat);
            if (len - 1) as u8 > prefix_len {
                power2::lemma_pow2_strictly_increases(
                    (32 - (len - 1)) as nat,
                    (32 - prefix_len) as nat,
                );
            }
        }
        size = 2 * size;
        len = len - 1;
    }
    proof {
        lemma_block_bounds(prefix_len);
    }
    size
}

/// The first address of the block that `address` lies in.
pub fn network_base(address: Ipv4Addr, prefix_len: u8) -> (r: Ipv4Addr)
    requires
        prefix_len <= 32,
    ensures
        r == network_of(address, prefix_len),
{
    let size: u64 = block_len(prefix_len);
    let bits: u64 = address.bits as u64;
    proof {
        assert(0 <= bits % size <= bits) by (nonlinear_arith)
            requires
                size >= 1,
        ;
    }
    Ipv4Addr { bits: (bits - bits % size) as u32 }
}

/// An IPv4 network in CIDR form, e.g. `10.99.0.0/24`.
#[derive(Debug, Clone, Copy, PartialEq, Eq, Structural)]
pub struct Ipv4Net {
    base: Ipv4Addr,
    prefix_len: u8,
}

#[derive(Debug)]
pub enum NetError {
    Malformed(String),
    PrefixLen(u8),
    Exhausted,
}

/// What a [`NetError`] says.
pub enum NetErrorModel {
    Malformed(Seq<char>),
    PrefixLen(u8),
    Exhausted,
}

impl View for NetError {
    type V = NetErrorModel;

    open spec fn view(&self) -> NetErrorModel {
        match *self {
            NetError::Malformed(s) => NetErrorModel::Malformed(s@),
            NetError::PrefixLen(len) => NetErrorModel::PrefixLen(len),
            NetError::Exhausted => NetErrorModel::Exhausted,
        }
    }
}

/// What an operator is told about a subnet that cannot be used.
pub open spec fn net_error_text(e: NetErrorModel) -> Seq<char> {
    match e {
        NetErrorModel::Malformed(s) => "`"@ + s + "` is not a CIDR network like 10.99.0.0/24"@,
        NetErrorModel::PrefixLen(len) => "prefix length /"@ + number::decimal(len as nat)
            + " is out of range"@,
        NetErrorModel::Exhausted => "the tunnel subnet has no free addresses left"@,
    }
}

impl NetError {
    /// What an operator is told.
    pub fn to_string(&self) -> (r: String)
        ensures
            r@ == net_error_text(self@),
    {
        match self {
            NetError::Malformed(s) => {
                let mut out = "`".to_owned();
                out.append(s.as_str());
                out.append("` is not a CIDR network like 10.99.0.0/24");
                out
            },
            NetError::PrefixLen(len) => {
                let mut out = "prefix length /".to_owned();
                number::push_decimal(&mut out, *len as u64);
                out.append(" is out of range");
                out
            },
            NetError::Exhausted => "the tunnel subnet has no free addresses left".to_owned(),
        }
    }
}

/// A network as its CIDR form spells it: an address and a prefix length, with
/// whitespace around either ignored.
pub open spec fn cidr_read(s: Seq<char>) -> Result<(Ipv4Addr, u8), NetErrorModel> {
    let pieces = text::split(s, '/');
    if pieces.len() != 2 {
        Err(NetErrorModel::Malformed(s))
    } else {
        match (addr::ipv4_read(text::trim(pieces[0])), number::unsigned(text::trim(pieces[1]), 255)) {
            (Some(address), Some(len)) => if len > 32 {
                Err(NetErrorModel::PrefixLen(len as u8))
            } else {
                Ok((network_of(address, len as u8), len as u8))
            },
            _ => Err(NetErrorModel::Malformed(s)),
        }
    }
}

/// CIDR form.
pub open spec fn cidr_text(base: Ipv4Addr, prefix_len: u8) -> Seq<char> {
    addr::ipv4_text(base) + "/"@ + number::decimal(prefix_len as nat)
}

impl Ipv4Net {
    pub closed spec fn network(self) -> Ipv4Addr {
        self.base
    }

    pub closed spec fn len(self) -> u8 {
        self.prefix_len
    }

    /// A network starts on a boundary of its own size.
    #[verifier::type_invariant]
    spec fn aligned(self) -> bool {
        &&& self.prefix_len <= 32
        &&& network_of(self.base, self.prefix_len) == self.base
    }

    /// Whether an address may be assigned to a host: inside the network, and
    /// neither its network address nor its broadcast address.
    pub open spec fn is_host(self, a: Ipv4Addr) -> bool {
        self.network().bits < a.bits < self.network().bits + block_size(self.len()) - 1
    }

    pub fn new(address: Ipv4Addr, prefix_len: u8) -> (r: Result<Ipv4Net, NetError>)
        ensures
            match r {
                Ok(net) => prefix_len <= 32 && net.network() == network_of(address, prefix_len)
                    && net.len() == prefix_len,
                Err(e) => prefix_len > 32 && e@ == NetErrorModel::PrefixLen(prefix_len),
            },
    {
        if prefix_len > 32 {
            return Err(NetError::PrefixLen(prefix_len));
        }
        let base = network_base(address, prefix_len);
        proof {
            lemma_network_is_aligned(address, prefix_len);
        }
        Ok(Ipv4Net { base, prefix_len })
    }

    /// The tunnel's network unless an operator picks another: `10.99.0.0/24`.
    pub fn tunnel_default() -> (r: Ipv4Net)
        ensures
            r.network() == addr::ipv4(10, 99, 0, 0),
            r.len() == 24,
    {
        proof {
            power2::lemma2_to64();
        }
        Ipv4Net { base: Ipv4Addr::new(10, 99, 0, 0), prefix_len: 24 }
    }

    pub fn prefix_len(self) -> (r: u8)
        ensures
            r == self.len(),
            r <= 32,
    {
        proof {
            use_type_invariant(&self);
        }
        self.prefix_len
    }

    /// Network address, i.e. the `10.99.0.0` in `10.99.0.0/24`.
    pub fn base(self) -> (r: Ipv4Addr)
        ensures
            r == self.network(),
            self.len() <= 32,
            network_of(self.network(), self.len()) == self.network(),
    {
        proof {
            use_type_invariant(&self);
        }
        self.base
    }

    pub fn contains(self, addr: Ipv4Addr) -> (r: bool)
        ensures
            r == (network_of(addr, self.len()) == self.network()),
    {
        proof {
            use_type_invariant(&self);
        }
        network_base(addr, self.prefix_len) == self.base
    }

    /// Addresses that may be assigned to a host: everything except the network
    /// and broadcast addresses, which is what any other tool on the box will
    /// assume too.
    pub fn hosts(self) -> (r: Hosts)
        ensures
            forall|a: Ipv4Addr| #[trigger] self.is_host(a) <==> r.has(a),
            r.first() == self.network().bits + 1,
            r.count() == if block_size(self.len()) <= 2 { 0 } else { block_size(self.len()) - 2 },
            self.len() <= 32,
            network_of(self.network(), self.len()) == self.network(),
    {
        proof {
            use_type_invariant(&self);
            lemma_block_fits(self.base, self.prefix_len);
        }
        let size: u64 = block_len(self.prefix_len);
        let first: u64 = self.base.bits as u64 + 1;
        let count: u64 = if size <= 2 {
            0
        } else {
            size - 2
        };
        Hosts { first, count }
    }

    /// Lowest address in the subnet not already spoken for.
    ///
    /// Reuse is deliberate: an agent that is deleted frees its address for the
    /// next one, and the tunnel is sized for a household, not a datacenter.
    pub fn next_free(self, taken: &[Ipv4Addr]) -> (r: Result<Ipv4Addr, NetError>)
        ensures
            match r {
                Ok(a) => lowest_free_host(self, taken@, a),
                Err(e) => e@ == NetErrorModel::Exhausted && no_free_host(self, taken@),
            },
    {
        let hosts = self.hosts();
        proof {
            use_type_invariant(&hosts);
        }
        let mut i: u64 = 0;
        while i < hosts.count
            invariant
                hosts.first == self.network().bits + 1,
                hosts.first + hosts.count <= 0x1_0000_0000,
                forall|a: Ipv4Addr| #[trigger] self.is_host(a) <==> hosts.has(a),
                forall|a: Ipv4Addr|
                    #[trigger] self.is_host(a) && a.bits < hosts.first + i ==> taken@.contains(a),
                i <= hosts.count,
            decreases hosts.count - i,
        {
            let candidate = Ipv4Addr { bits: (hosts.first + i) as u32 };
            assert(hosts.has(candidate));
            if !holds(taken, candidate) {
                assert(self.is_host(candidate));
                return Ok(candidate);
            }
            i += 1;
        }
        assert forall|a: Ipv4Addr| #[trigger] self.is_host(a) implies taken@.contains(a) by {
            assert(hosts.has(a));
        }
        Err(NetError::Exhausted)
    }

    /// CIDR form.
    pub fn to_string(&self) -> (r: String)
        ensures
            r@ == cidr_text(self.network(), self.len()),
    {
        let mut out = self.base.to_string();
        out.append("/");
        number::push_decimal(&mut out, self.prefix_len as u64);
        out
    }
}

/// Whether `a` is the lowest assignable address that is not taken.
pub open spec fn lowest_free_host(net: Ipv4Net, taken: Seq<Ipv4Addr>, a: Ipv4Addr) -> bool {
    &&& net.is_host(a)
    &&& !taken.contains(a)
    &&& forall|b: Ipv4Addr| #[trigger] net.is_host(b) && b.bits < a.bits ==> taken.contains(b)
}

/// Whether every assignable address is taken.
pub open spec fn no_free_host(net: Ipv4Net, taken: Seq<Ipv4Addr>) -> bool {
    forall|b: Ipv4Addr| #[trigger] net.is_host(b) ==> taken.contains(b)
}

/// The lowest assignable address that is not taken, where one is left.
pub open spec fn next_host(net: Ipv4Net, taken: Seq<Ipv4Addr>) -> Option<Ipv4Addr> {
    if exists|a: Ipv4Addr| lowest_free_host(net, taken, a) {
        Some(choose|a: Ipv4Addr| lowest_free_host(net, taken, a))
    } else {
        None
    }
}

/// Only one address is the lowest free one.
pub proof fn lemma_next_host(net: Ipv4Net, taken: Seq<Ipv4Addr>, a: Ipv4Addr)
    requires
        lowest_free_host(net, taken, a),
    ensures
        next_host(net, taken) == Some(a),
{
    let b = next_host(net, taken)->0;
    assert(lowest_free_host(net, taken, b));
    if a.bits < b.bits {
        assert(net.is_host(a));
    } else if b.bits < a.bits {
        assert(net.is_host(b));
    }
    assert(a.bits == b.bits);
    assert(a == b);
}

/// A full network has no next address.
pub proof fn lemma_no_next_host(net: Ipv4Net, taken: Seq<Ipv4Addr>)
    requires
        no_free_host(net, taken),
    ensures
        next_host(net, taken) is None,
{
    if let Some(a) = next_host(net, taken) {
        assert(lowest_free_host(net, taken, a));
        assert(net.is_host(a));
    }
}

fn holds(addrs: &[Ipv4Addr], a: Ipv4Addr) -> (r: bool)
    ensures
        r == addrs@.contains(a),
{
    let mut i: usize = 0;
    while i < addrs.len()
        invariant
            i <= addrs@.len(),
            forall|j: int| 0 <= j < i ==> addrs@[j] != a,
        decreases addrs@.len() - i,
    {
        if addrs[i] == a {
            return true;
        }
        i += 1;
    }
    false
}

/// A run of assignable addresses, lowest first.
#[derive(Debug, Clone, Copy)]
pub struct Hosts {
    first: u64,
    count: u64,
}

impl Hosts {
    pub closed spec fn first(self) -> nat {
        self.first as nat
    }

    pub closed spec fn count(self) -> nat {
        self.count as nat
    }

    pub open spec fn has(self, a: Ipv4Addr) -> bool {
        self.first() <= a.bits < self.first() + self.count()
    }

    #[verifier::type_invariant]
    spec fn in_range(self) -> bool {
        self.count > 0 ==> self.first + self.count <= 0x1_0000_0000
    }

    /// How many there are.
    pub fn len(&self) -> (r: u64)
        ensures
            r == self.count(),
    {
        self.count
    }

    /// The one at position `i`, if there is one.
    pub fn get(&self, i: u64) -> (r: Option<Ipv4Addr>)
        ensures
            match r {
                Some(a) => i < self.count() && a.bits == self.first() + i,
                None => i >= self.count(),
            },
    {
        proof {
            use_type_invariant(self);
        }
        if i < self.count {
            Some(Ipv4Addr { bits: (self.first + i) as u32 })
        } else {
            None
        }
    }

    /// All of them.
    pub fn to_vec(&self) -> (r: Vec<Ipv4Addr>)
        ensures
            r@.len() == self.count(),
            forall|i: int| 0 <= i < r@.len() ==> (#[trigger] r@[i]).bits == self.first() + i,
    {
        let mut out: Vec<Ipv4Addr> = Vec::new();
        let mut i: u64 = 0;
        while i < self.count
            invariant
                i <= self.count,
                out@.len() == i,
                forall|j: int| 0 <= j < i ==> (#[trigger] out@[j]).bits == self.first + j,
            decreases self.count - i,
        {
            match self.get(i) {
                Some(a) => out.push(a),
                None => {},
            }
            i += 1;
        }
        out
    }
}

impl std::str::FromStr for Ipv4Net {
    type Err = NetError;

    fn from_str(s: &str) -> (r: Result<Ipv4Net, NetError>)
        ensures
            match r {
                Ok(net) => cidr_read(s@) == Ok::<(Ipv4Addr, u8), NetErrorModel>(
                    (net.network(), net.len()),
                ),
                Err(e) => cidr_read(s@) == Err::<(Ipv4Addr, u8), NetErrorModel>(e@),
            },
    {
        let pieces = text::split_on(s, '/');
        if pieces.len() != 2 {
            return Err(NetError::Malformed(s.to_owned()));
        }
        proof {
            assert(text::views(pieces@)[0] == pieces@[0]@);
            assert(text::views(pieces@)[1] == pieces@[1]@);
        }
        let left = text::trimmed(pieces[0].as_str());
        let right = text::trimmed(pieces[1].as_str());
        match (Ipv4Addr::parse(left.as_str()), number::parse_unsigned(right.as_str(), 255)) {
            (Some(address), Some(len)) => Ipv4Net::new(address, len as u8),
            _ => Err(NetError::Malformed(s.to_owned())),
        }
    }
}

proof fn lemma_network_is_aligned(address: Ipv4Addr, prefix_len: u8)
    requires
        prefix_len <= 32,
    ensures
        network_of(network_of(address, prefix_len), prefix_len) == network_of(address, prefix_len),
{
    lemma_block_bounds(prefix_len);
    let b = block_size(prefix_len) as int;
    let x = address.bits as int;
    assert(0 <= x % b <= x && (x - x % b) % b == 0) by (nonlinear_arith)
        requires
            b >= 1,
            x >= 0,
    ;
}

/// A block never runs past the end of the address space.
proof fn lemma_block_fits(base: Ipv4Addr, prefix_len: u8)
    requires
        prefix_len <= 32,
        network_of(base, prefix_len) == base,
    ensures
        base.bits + block_size(prefix_len) <= 0x1_0000_0000,
{
    lemma_block_bounds(prefix_len);
    let b = block_size(prefix_len) as int;
    let x = base.bits as int;
    power2::lemma2_to64();
    let c = power2::pow2(prefix_len as nat) as int;
    power2::lemma_pow2_adds((32 - prefix_len) as nat, prefix_len as nat);
    assert(b * c == 0x1_0000_0000);
    assert(0 <= x % b <= x) by (nonlinear_arith)
        requires
            b >= 1,
            x >= 0,
    ;
    assert(x % b == 0);
    assert(x + b <= 0x1_0000_0000) by (nonlinear_arith)
        requires
            b >= 1,
            b * c == 0x1_0000_0000,
            x % b == 0,
            0 <= x < 0x1_0000_0000,
    {
        let q = x / b;
        assert(x == b * q);
        assert(q < c) by (nonlinear_arith)
            requires
                b >= 1,
                b * q < b * c,
        ;
        assert(b * (q + 1) <= b * c) by (nonlinear_arith)
            requires
                b >= 1,
                q + 1 <= c,
        ;
    }
}

/// An assignable address lies inside its network, and is neither the network
/// address nor the broadcast address.
pub proof fn law_hosts_are_inside(net: Ipv4Net, a: Ipv4Addr)
    requires
        net.is_host(a),
        net.len() <= 32,
        network_of(net.network(), net.len()) == net.network(),
    ensures
        network_of(a, net.len()) == net.network(),
        a != net.network(),
        a.bits != net.network().bits + block_size(net.len()) - 1,
{
    lemma_block_bounds(net.len());
    let b = block_size(net.len()) as int;
    let base = net.network().bits as int;
    let x = a.bits as int;
    assert(0 <= base % b <= base) by (nonlinear_arith)
        requires
            b >= 1,
            base >= 0,
    ;
    assert(x - x % b == base && 0 <= x % b <= x) by (nonlinear_arith)
        requires
            b >= 1,
            base % b == 0,
            base >= 0,
            base < x < base + b - 1,
    {
        let q = base / b;
        assert(base == b * q);
        assert(x == b * q + (x - base));
        assert(x % b == x - base) by {
            vstd::arithmetic::div_mod::lemma_fundamental_div_mod_converse(x, b, q, x - base);
        }
    }
}

} // verus!
