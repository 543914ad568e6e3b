//! Edge port allocation.
//!
//! Two game servers on one machine can both want TCP 25565, and only one of
//! them can have it on the VPS's public IP. So the public port is allocated,
//! not assumed.
//!
//! Allocation prefers the game's well-known port whenever it is still free —
//! `mc.example.com` with nothing after it is worth something, and it keeps the
//! common single-server case looking exactly like a server with a forwarded
//! port. Only when that port is already spoken for does the allocator fall
//! back to a high range.

use crate::model::Protocol;
use crate::number;
use std::collections::HashSet;
use vstd::prelude::*;

verus! {

broadcast use vstd::std_specs::hash::group_hash_axioms;

/// First port of the default range.
pub const DEFAULT_RANGE_START: u16 = 30000;

/// Last port of the default range. It sits below Linux's default ephemeral
/// range (32768-60999), so a port handed out here can never collide with the
/// source port of an outbound connection the VPS makes on its own.
pub const DEFAULT_RANGE_END: u16 = 32767;

/// Inclusive range the gateway draws from once a preferred port is taken.
#[derive(Debug, Clone, Copy, PartialEq, Eq, Structural)]
pub struct EdgePortRange {
    start: u16,
    end: u16,
}

impl EdgePortRange {
    /// The range from `start` to `end`, both in it.
    pub closed spec fn between(start: u16, end: u16) -> EdgePortRange {
        EdgePortRange { start, end }
    }

    pub closed spec fn first(self) -> u16 {
        self.start
    }

    pub closed spec fn last(self) -> u16 {
        self.end
    }

    /// A range holds a port, and none that only the superuser may bind.
    #[verifier::type_invariant]
    spec fn unprivileged(self) -> bool {
        1024 <= self.start <= self.end
    }

    /// Whether `port` lies in the range.
    pub open spec fn covers(self, port: u16) -> bool {
        self.first() <= port <= self.last()
    }

    pub fn new(start: u16, end: u16) -> (r: Result<EdgePortRange, AllocError>)
        ensures
            match r {
                Ok(range) => 1024 <= start <= end && range == EdgePortRange::between(start, end)
                    && range.first() == start && range.last() == end,
                Err(e) => !(1024 <= start <= end) && e == AllocError::InvalidRange(start, end),
            },
    {
        if start < 1024 || start > end {
            return Err(AllocError::InvalidRange(start, end));
        }
        Ok(EdgePortRange { start, end })
    }

    pub fn start(self) -> (r: u16)
        ensures
            r == self.first(),
            1024 <= r <= self.last(),
    {
        proof {
            use_type_invariant(&self);
        }
        self.start
    }

    pub fn end(self) -> (r: u16)
        ensures
            r == self.last(),
    {
        self.end
    }

    pub fn contains(self, port: u16) -> (r: bool)
        ensures
            r == self.covers(port),
    {
        self.start <= port && port <= self.end
    }
}

/// A range begins and ends where it was said to.
pub proof fn lemma_between(start: u16, end: u16)
    ensures
        EdgePortRange::between(start, end).first() == start,
        EdgePortRange::between(start, end).last() == end,
{
}

impl Default for EdgePortRange {
    fn default() -> (r: EdgePortRange)
        ensures
            r.first() == DEFAULT_RANGE_START,
            r.last() == DEFAULT_RANGE_END,
    {
        EdgePortRange { start: DEFAULT_RANGE_START, end: DEFAULT_RANGE_END }
    }
}

#[derive(Debug, Clone, Copy, PartialEq, Eq, Structural)]
pub enum AllocError {
    InvalidRange(u16, u16),
    FixedPortTaken { protocol: Protocol, port: u16 },
    RangeExhausted { protocol: Protocol, start: u16, end: u16 },
}

/// What an operator is told about a failed allocation.
pub open spec fn alloc_error_text(e: AllocError) -> Seq<char> {
    match e {
        AllocError::InvalidRange(start, end) => "edge port range "@ + number::decimal(start as nat)
            + "-"@ + number::decimal(end as nat)
            + " is invalid: start must be at least 1024 and not above end"@,
        AllocError::FixedPortTaken { protocol, port } => protocol.name() + " port "@
            + number::decimal(port as nat)
            + " cannot be moved (clients of this game cannot be told a different port) and is already in use"@,
        AllocError::RangeExhausted { protocol, start, end } => "no free "@ + protocol.name()
            + " port left in the edge range "@ + number::decimal(start as nat) + "-"@
            + number::decimal(end as nat),
    }
}

impl AllocError {
    /// What an operator is told.
    pub fn to_string(&self) -> (r: String)
        ensures
            r@ == alloc_error_text(*self),
    {
        match *self {
            AllocError::InvalidRange(start, end) => {
                let mut out = "edge port range ".to_owned();
                number::push_decimal(&mut out, start as u64);
                out.append("-");
                number::push_decimal(&mut out, end as u64);
                out.append(" is invalid: start must be at least 1024 and not above end");
                out
            },
            AllocError::FixedPortTaken { protocol, port } => {
                let mut out = protocol.to_string();
                out.append(" port ");
                number::push_decimal(&mut out, port as u64);
                out.append(
                    " cannot be moved (clients of this game cannot be told a different port) and is already in use",
                );
                out
            },
            AllocError::RangeExhausted { protocol, start, end } => {
                let mut out = "no free ".to_owned();
                out.append(protocol.as_str());
                out.append(" port left in the edge range ");
                number::push_decimal(&mut out, start as u64);
                out.append("-");
                number::push_decimal(&mut out, end as u64);
                out
            },
        }
    }
}

/// What one port template needs from the public edge.
#[derive(Debug, Clone, Copy, PartialEq, Eq, Structural)]
pub struct PortRequest {
    pub protocol: Protocol,
    /// The game's well-known port, used as-is when nothing else holds it.
    pub preferred: u16,
    /// Set when clients cannot be told about a different port, which turns
    /// "preferred" into "required": anything else is an error, not a fallback.
    pub fixed: bool,
}

impl PortRequest {
    pub fn flexible(protocol: Protocol, preferred: u16) -> (r: PortRequest)
        ensures
            r == (PortRequest { protocol, preferred, fixed: false }),
    {
        PortRequest { protocol, preferred, fixed: false }
    }

    pub fn fixed(protocol: Protocol, port: u16) -> (r: PortRequest)
        ensures
            r == (PortRequest { protocol, preferred: port, fixed: true }),
    {
        PortRequest { protocol, preferred: port, fixed: true }
    }
}

/// A protocol and a port of it, as one number.
spec fn slot(protocol: Protocol, port: u16) -> u32 {
    match protocol {
        Protocol::Tcp => port as u32,
        Protocol::Udp => (0x1_0000 + port) as u32,
    }
}

fn slot_of(protocol: Protocol, port: u16) -> (r: u32)
    ensures
        r == slot(protocol, port),
{
    match protocol {
        Protocol::Tcp => port as u32,
        Protocol::Udp => 0x1_0000 + port as u32,
    }
}

/// Tracks which `(protocol, port)` pairs are spoken for on the public IP.
///
/// TCP and UDP are allocated independently, because they are independent on
/// the wire: a Minecraft server on TCP 25565 does not stop a voice add-on from
/// using UDP 25565.
#[derive(Debug)]
pub struct PortAllocator {
    range: EdgePortRange,
    taken: HashSet<u32>,
}

impl View for PortAllocator {
    type V = Set<(Protocol, u16)>;

    closed spec fn view(&self) -> Set<(Protocol, u16)> {
        Set::new(|k: (Protocol, u16)| self.taken@.contains(slot(k.0, k.1)))
    }
}

/// Whether `port` is the lowest one in the range that is not taken.
pub open spec fn lowest_free(
    taken: Set<(Protocol, u16)>,
    range: EdgePortRange,
    protocol: Protocol,
    port: u16,
) -> bool {
    &&& range.covers(port)
    &&& !taken.contains((protocol, port))
    &&& forall|q: u16|
        range.first() <= q < port ==> #[trigger] taken.contains((protocol, q))
}

/// What allocating for `req` gives.
pub open spec fn granted(
    before: Set<(Protocol, u16)>,
    range: EdgePortRange,
    req: PortRequest,
) -> Result<u16, AllocError> {
    if !before.contains((req.protocol, req.preferred)) {
        Ok(req.preferred)
    } else if req.fixed {
        Err(AllocError::FixedPortTaken { protocol: req.protocol, port: req.preferred })
    } else if exists|q: u16| lowest_free(before, range, req.protocol, q) {
        Ok(choose|q: u16| lowest_free(before, range, req.protocol, q))
    } else {
        Err(
            AllocError::RangeExhausted {
                protocol: req.protocol,
                start: range.first(),
                end: range.last(),
            },
        )
    }
}

/// What allocating for `req` gives, and what is taken afterwards.
///
/// The preferred port when it is free; failing that, an error when the request
/// is fixed, and otherwise the lowest free port of the range, or an error when
/// there is none. A failed allocation takes nothing.
pub open spec fn allocates(
    before: Set<(Protocol, u16)>,
    range: EdgePortRange,
    req: PortRequest,
    r: Result<u16, AllocError>,
    after: Set<(Protocol, u16)>,
) -> bool {
    if !before.contains((req.protocol, req.preferred)) {
        r == Ok::<u16, AllocError>(req.preferred) && after == before.insert(
            (req.protocol, req.preferred),
        )
    } else if req.fixed {
        r == Err::<u16, AllocError>(
            AllocError::FixedPortTaken { protocol: req.protocol, port: req.preferred },
        ) && after == before
    } else {
        match r {
            Ok(port) => lowest_free(before, range, req.protocol, port) && after == before.insert(
                (req.protocol, port),
            ),
            Err(e) => {
                &&& forall|q: u16|
                    range.covers(q) ==> #[trigger] before.contains((req.protocol, q))
                &&& e == AllocError::RangeExhausted {
                    protocol: req.protocol,
                    start: range.first(),
                    end: range.last(),
                }
                &&& after == before
            },
        }
    }
}

impl PortAllocator {
    pub closed spec fn spec_range(&self) -> EdgePortRange {
        self.range
    }

    pub fn new(range: EdgePortRange) -> (r: PortAllocator)
        ensures
            r.spec_range() == range,
            r@ == Set::<(Protocol, u16)>::empty(),
    {
        let r = PortAllocator { range, taken: HashSet::new() };
        assert(r@ =~= Set::<(Protocol, u16)>::empty());
        r
    }

    /// Seed the allocator with ports that are already in use — mappings loaded
    /// from the database at startup, plus whatever the VPS itself listens on
    /// (SSH, the gateway's own HTTP port, the WireGuard endpoint).
    pub fn with_taken(range: EdgePortRange, taken: Vec<(Protocol, u16)>) -> (r: PortAllocator)
        ensures
            r.spec_range() == range,
            forall|k: (Protocol, u16)| #[trigger] r@.contains(k) <==> taken@.contains(k),
    {
        let mut r = PortAllocator::new(range);
        let mut i: usize = 0;
        while i < taken.len()
            invariant
                i <= taken@.len(),
                r.spec_range() == range,
                forall|k: (Protocol, u16)|
                    #[trigger] r@.contains(k) <==> taken@.take(i as int).contains(k),
            decreases taken@.len() - i,
        {
            let ghost before = r@;
            let (protocol, port) = taken[i];
            r.reserve(protocol, port);
            proof {
                let seen = taken@.take(i as int);
                let next = taken@.take(i + 1);
                assert(next =~= seen.push((protocol, port)));
                assert forall|k: (Protocol, u16)| #[trigger]
                    r@.contains(k) <==> next.contains(k) by {
                    if seen.contains(k) {
                        let j = choose|j: int| 0 <= j < seen.len() && seen[j] == k;
                        assert(next[j] == k);
                    }
                    if k == (protocol, port) {
                        assert(next[i as int] == k);
                    }
                    if next.contains(k) && k != (protocol, port) {
                        let j = choose|j: int| 0 <= j < next.len() && next[j] == k;
                        assert(seen[j] == k);
                    }
                }
            }
            i += 1;
        }
        proof {
            assert(taken@.take(i as int) =~= taken@);
        }
        r
    }

    pub fn range(&self) -> (r: EdgePortRange)
        ensures
            r == self.spec_range(),
    {
        self.range
    }

    pub fn is_taken(&self, protocol: Protocol, port: u16) -> (r: bool)
        ensures
            r == self@.contains((protocol, port)),
    {
        let key = slot_of(protocol, port);
        self.taken.contains(&key)
    }

    /// Mark a port as unavailable. Returns false if it was already taken.
    pub fn reserve(&mut self, protocol: Protocol, port: u16) -> (r: bool)
        ensures
            r == !old(self)@.contains((protocol, port)),
            final(self)@ == old(self)@.insert((protocol, port)),
            final(self).spec_range() == old(self).spec_range(),
    {
        let key = slot_of(protocol, port);
        let fresh = self.taken.insert(key);
        assert(self@ =~= old(self)@.insert((protocol, port)));
        fresh
    }

    /// Give a port back, for when a service is deleted or a partially planned
    /// one is rolled back.
    pub fn release(&mut self, protocol: Protocol, port: u16)
        ensures
            final(self)@ == old(self)@.remove((protocol, port)),
            final(self).spec_range() == old(self).spec_range(),
    {
        let key = slot_of(protocol, port);
        self.taken.remove(&key);
        assert(self@ =~= old(self)@.remove((protocol, port)));
    }

    pub fn allocate(&mut self, req: PortRequest) -> (r: Result<u16, AllocError>)
        ensures
            allocates(old(self)@, old(self).spec_range(), req, r, final(self)@),
            final(self).spec_range() == old(self).spec_range(),
    {
        if self.reserve(req.protocol, req.preferred) {
            return Ok(req.preferred);
        }
        assert(self@ =~= old(self)@);
        if req.fixed {
            return Err(
                AllocError::FixedPortTaken { protocol: req.protocol, port: req.preferred },
            );
        }
        // Lowest free port first: deterministic, and it keeps allocated ports
        // clustered so the nftables ruleset stays easy to read.
        let start = self.range.start;
        let end = self.range.end;
        let mut port: u32 = start as u32;
        while port <= end as u32
            invariant
                start == old(self).spec_range().first(),
                end == old(self).spec_range().last(),
                self.spec_range() == old(self).spec_range(),
                start <= port,
                port <= end + 1 || port == start,
                self@ == old(self)@,
                old(self)@.contains((req.protocol, req.preferred)),
                !req.fixed,
                forall|q: u16|
                    start <= q < port ==> #[trigger] old(self)@.contains((req.protocol, q)),
            decreases end + 1 - port,
        {
            if self.reserve(req.protocol, port as u16) {
                return Ok(port as u16);
            }
            assert(self@ =~= old(self)@);
            port += 1;
        }
        Err(AllocError::RangeExhausted { protocol: req.protocol, start, end })
    }
}

impl Default for PortAllocator {
    fn default() -> (r: PortAllocator)
        ensures
            r.spec_range().first() == DEFAULT_RANGE_START,
            r.spec_range().last() == DEFAULT_RANGE_END,
            r@ == Set::<(Protocol, u16)>::empty(),
    {
        PortAllocator::new(EdgePortRange::default())
    }
}

// ---- what holds of every allocation -------------------------------------

/// A port is never handed out twice: what an allocation gives was free before
/// and is taken afterwards, and nothing that was taken is given up.
pub proof fn law_allocation_is_exclusive(
    before: Set<(Protocol, u16)>,
    range: EdgePortRange,
    req: PortRequest,
    port: u16,
    after: Set<(Protocol, u16)>,
)
    requires
        allocates(before, range, req, Ok(port), after),
    ensures
        !before.contains((req.protocol, port)),
        after.contains((req.protocol, port)),
        before.subset_of(after),
        port == req.preferred || (!req.fixed && range.covers(port)),
{
}

/// The other protocol's ports are untouched by an allocation.
pub proof fn law_protocols_are_independent(
    before: Set<(Protocol, u16)>,
    range: EdgePortRange,
    req: PortRequest,
    r: Result<u16, AllocError>,
    after: Set<(Protocol, u16)>,
    other: Protocol,
    port: u16,
)
    requires
        allocates(before, range, req, r, after),
        other != req.protocol,
    ensures
        after.contains((other, port)) == before.contains((other, port)),
{
}

/// Releasing the port an allocation gave restores what was taken before it.
pub proof fn law_release_undoes_allocation(
    before: Set<(Protocol, u16)>,
    range: EdgePortRange,
    req: PortRequest,
    port: u16,
    after: Set<(Protocol, u16)>,
)
    requires
        allocates(before, range, req, Ok(port), after),
    ensures
        after.remove((req.protocol, port)) == before,
{
    assert(after.remove((req.protocol, port)) =~= before);
}

/// Allocation is a function of what is taken: two outcomes for one request
/// are the same outcome.
pub proof fn law_allocation_is_deterministic(
    before: Set<(Protocol, u16)>,
    range: EdgePortRange,
    req: PortRequest,
    r1: Result<u16, AllocError>,
    after1: Set<(Protocol, u16)>,
    r2: Result<u16, AllocError>,
    after2: Set<(Protocol, u16)>,
)
    requires
        allocates(before, range, req, r1, after1),
        allocates(before, range, req, r2, after2),
    ensures
        r1 == r2,
        after1 == after2,
{
    if before.contains((req.protocol, req.preferred)) && !req.fixed {
        match (r1, r2) {
            (Ok(p), Ok(q)) => {
                assert(!before.contains((req.protocol, p)));
                assert(!before.contains((req.protocol, q)));
            },
            (Ok(p), Err(_)) => {
                assert(!before.contains((req.protocol, p)));
            },
            (Err(_), Ok(q)) => {
                assert(!before.contains((req.protocol, q)));
            },
            (Err(_), Err(_)) => {},
        }
    }
}

/// What an allocation gives is what is granted for its request.
pub proof fn lemma_granted(
    before: Set<(Protocol, u16)>,
    range: EdgePortRange,
    req: PortRequest,
    r: Result<u16, AllocError>,
    after: Set<(Protocol, u16)>,
)
    requires
        allocates(before, range, req, r, after),
    ensures
        r == granted(before, range, req),
{
    if before.contains((req.protocol, req.preferred)) && !req.fixed {
        match r {
            Ok(port) => {
                let q = choose|q: u16| lowest_free(before, range, req.protocol, q);
                assert(lowest_free(before, range, req.protocol, q));
                assert(!before.contains((req.protocol, port)));
                assert(!before.contains((req.protocol, q)));
            },
            Err(_) => {
                if exists|q: u16| lowest_free(before, range, req.protocol, q) {
                    let q = choose|q: u16| lowest_free(before, range, req.protocol, q);
                    assert(before.contains((req.protocol, q)));
                }
            },
        }
    }
}

/// A service is given its game's own port when nothing else holds it, so the
/// first server looks like one with an ordinary forwarded port.
pub proof fn law_free_preferred_port_is_given(
    before: Set<(Protocol, u16)>,
    range: EdgePortRange,
    req: PortRequest,
)
    requires
        !before.contains((req.protocol, req.preferred)),
    ensures
        granted(before, range, req) == Ok::<u16, AllocError>(req.preferred),
{
}

/// What is granted was not taken.
pub proof fn law_granted_port_was_free(
    before: Set<(Protocol, u16)>,
    range: EdgePortRange,
    req: PortRequest,
)
    ensures
        granted(before, range, req) matches Ok(port) ==> !before.contains((req.protocol, port)),
{
}

} // verus!
