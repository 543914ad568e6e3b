//! Desired DNS state, and the diff that gets Cloudflare there.
//!
//! Records here are always **DNS-only** (grey cloud). Cloudflare's proxy
//! carries HTTP/HTTPS on a fixed set of ports and will not carry TCP 25565 or
//! UDP 24454, so an orange-clouded record does not hide the origin here — it
//! breaks the game. The VPS's public IP is what players resolve to, and that
//! is the whole point: it is a host you are willing to publish, and the home
//! IP behind the tunnel never appears in the zone.
//!
//! Nothing in this module makes an HTTP request. It computes what the zone
//! should look like and what has to change; the Cloudflare client applies it.

use crate::addr::Ipv4Addr;
use crate::model;
use crate::model::{SrvSpec, SrvSpecModel};
use crate::text;
use vstd::prelude::*;

verus! {

/// Short by DNS standards, on purpose: rebuilding a VPS changes the edge IP,
/// and players should not be stuck on a dead address for an hour.
pub const DEFAULT_TTL: u32 = 120;

#[derive(Debug, PartialEq, Eq)]
pub enum DnsRecord {
    A { name: String, address: Ipv4Addr, ttl: u32 },
    Srv {
        /// Fully qualified, e.g. `_minecraft._tcp.mc.example.com`.
        name: String,
        /// Hostname carrying the A record, i.e. the service's own FQDN.
        target: String,
        port: u16,
        priority: u16,
        weight: u16,
        ttl: u32,
    },
}

/// What a [`DnsRecord`] says.
pub enum DnsRecordModel {
    A { name: Seq<char>, address: Ipv4Addr, ttl: u32 },
    Srv {
        name: Seq<char>,
        target: Seq<char>,
        port: u16,
        priority: u16,
        weight: u16,
        ttl: u32,
    },
}

/// The two kinds of record there are.
pub enum RecordKind {
    A,
    Srv,
}

/// What identifies a record when diffing: its kind and its name.
pub struct Identity {
    pub kind: RecordKind,
    pub name: Seq<char>,
}

impl View for DnsRecord {
    type V = DnsRecordModel;

    open spec fn view(&self) -> DnsRecordModel {
        match *self {
            DnsRecord::A { name, address, ttl } => DnsRecordModel::A { name: name@, address, ttl },
            DnsRecord::Srv { name, target, port, priority, weight, ttl } => DnsRecordModel::Srv {
                name: name@,
                target: target@,
                port,
                priority,
                weight,
                ttl,
            },
        }
    }
}

impl DnsRecordModel {
    pub open spec fn name(self) -> Seq<char> {
        match self {
            DnsRecordModel::A { name, .. } => name,
            DnsRecordModel::Srv { name, .. } => name,
        }
    }

    pub open spec fn kind(self) -> RecordKind {
        match self {
            DnsRecordModel::A { .. } => RecordKind::A,
            DnsRecordModel::Srv { .. } => RecordKind::Srv,
        }
    }

    pub open spec fn identity(self) -> Identity {
        Identity { kind: self.kind(), name: self.name() }
    }
}

/// Record type as Cloudflare's API spells it.
pub open spec fn kind_text(kind: RecordKind) -> Seq<char> {
    match kind {
        RecordKind::A => "A"@,
        RecordKind::Srv => "SRV"@,
    }
}

impl Clone for DnsRecord {
    fn clone(&self) -> (r: DnsRecord)
        ensures
            r@ == self@,
    {
        match self {
            DnsRecord::A { name, address, ttl } => DnsRecord::A {
                name: name.clone(),
                address: *address,
                ttl: *ttl,
            },
            DnsRecord::Srv { name, target, port, priority, weight, ttl } => DnsRecord::Srv {
                name: name.clone(),
                target: target.clone(),
                port: *port,
                priority: *priority,
                weight: *weight,
                ttl: *ttl,
            },
        }
    }
}

impl DnsRecord {
    pub fn name(&self) -> (r: &str)
        ensures
            r@ == self@.name(),
    {
        match self {
            DnsRecord::A { name, .. } => name.as_str(),
            DnsRecord::Srv { name, .. } => name.as_str(),
        }
    }

    /// Record type as Cloudflare's API spells it.
    pub fn kind(&self) -> (r: &'static str)
        ensures
            r@ == kind_text(self@.kind()),
    {
        match self {
            DnsRecord::A { .. } => "A",
            DnsRecord::Srv { .. } => "SRV",
        }
    }

    /// Always false. See the module docs: proxying game ports is not something
    /// Cloudflare's CDN does, so this is a property of the design rather than
    /// a setting anyone should be able to flip.
    pub fn proxied(&self) -> (r: bool)
        ensures
            !r,
    {
        false
    }

    /// Records are identified by type and name when diffing; content
    /// differences become updates rather than a delete/create pair, which
    /// avoids a window where the name does not resolve at all.
    pub fn same_identity(&self, other: &DnsRecord) -> (r: bool)
        ensures
            r == (self@.identity() == other@.identity()),
    {
        match (self, other) {
            (DnsRecord::A { name: a, .. }, DnsRecord::A { name: b, .. }) => {
                text::same_text(a.as_str(), b.as_str())
            },
            (DnsRecord::Srv { name: a, .. }, DnsRecord::Srv { name: b, .. }) => {
                text::same_text(a.as_str(), b.as_str())
            },
            _ => false,
        }
    }

    /// Whether two records say the same.
    pub fn same(&self, other: &DnsRecord) -> (r: bool)
        ensures
            r == (self@ == other@),
    {
        match (self, other) {
            (
                DnsRecord::A { name: n1, address: a1, ttl: t1 },
                DnsRecord::A { name: n2, address: a2, ttl: t2 },
            ) => text::same_text(n1.as_str(), n2.as_str()) && *a1 == *a2 && *t1 == *t2,
            (
                DnsRecord::Srv {
                    name: n1,
                    target: g1,
                    port: p1,
                    priority: r1,
                    weight: w1,
                    ttl: t1,
                },
                DnsRecord::Srv {
                    name: n2,
                    target: g2,
                    port: p2,
                    priority: r2,
                    weight: w2,
                    ttl: t2,
                },
            ) => text::same_text(n1.as_str(), n2.as_str()) && text::same_text(
                g1.as_str(),
                g2.as_str(),
            ) && *p1 == *p2 && *r1 == *r2 && *w1 == *w2 && *t1 == *t2,
            _ => false,
        }
    }
}

// ---- what should exist --------------------------------------------------

/// An SRV record to publish for one allocated port.
#[derive(Debug, Clone, Copy)]
pub struct SrvBinding<'a> {
    pub spec: &'a SrvSpec,
    pub edge_port: u16,
}

/// What an [`SrvBinding`] says.
pub struct SrvBindingModel {
    pub spec: SrvSpecModel,
    pub edge_port: u16,
}

impl<'a> View for SrvBinding<'a> {
    type V = SrvBindingModel;

    open spec fn view(&self) -> SrvBindingModel {
        SrvBindingModel { spec: self.spec@, edge_port: self.edge_port }
    }
}

/// The A record of a service.
pub open spec fn a_record(fqdn: Seq<char>, edge_ip: Ipv4Addr) -> DnsRecordModel {
    DnsRecordModel::A { name: fqdn, address: edge_ip, ttl: DEFAULT_TTL }
}

/// The SRV record of one binding.
pub open spec fn srv_record(fqdn: Seq<char>, binding: SrvBindingModel) -> DnsRecordModel {
    DnsRecordModel::Srv {
        name: model::srv_name(binding.spec.service, binding.spec.proto, fqdn),
        target: fqdn,
        port: binding.edge_port,
        priority: binding.spec.priority,
        weight: binding.spec.weight,
        ttl: DEFAULT_TTL,
    }
}

/// Everything that should exist in the zone for one service: the A record,
/// then one SRV record per binding.
pub open spec fn desired_records(
    fqdn: Seq<char>,
    edge_ip: Ipv4Addr,
    srvs: Seq<SrvBindingModel>,
) -> Seq<DnsRecordModel> {
    seq![a_record(fqdn, edge_ip)] + Seq::new(srvs.len(), |i: int| srv_record(fqdn, srvs[i]))
}

/// Everything that should exist in the zone for one service.
pub fn service_records(fqdn: &str, edge_ip: Ipv4Addr, srvs: &[SrvBinding]) -> (r: Vec<DnsRecord>)
    ensures
        text::views(r@) == desired_records(fqdn@, edge_ip, text::views(srvs@)),
{
    let mut records: Vec<DnsRecord> = Vec::new();
    records.push(DnsRecord::A { name: fqdn.to_owned(), address: edge_ip, ttl: DEFAULT_TTL });
    let ghost want = desired_records(fqdn@, edge_ip, text::views(srvs@));
    proof {
        assert(text::views(records@) =~= want.take(1));
    }
    let mut i: usize = 0;
    while i < srvs.len()
        invariant
            i <= srvs@.len(),
            want == desired_records(fqdn@, edge_ip, text::views(srvs@)),
            text::views(records@) == want.take(i + 1),
        decreases srvs@.len() - i,
    {
        let binding = &srvs[i];
        let ghost records0 = records@;
        records.push(
            DnsRecord::Srv {
                name: binding.spec.record_name(fqdn),
                target: fqdn.to_owned(),
                port: binding.edge_port,
                priority: binding.spec.priority,
                weight: binding.spec.weight,
                ttl: DEFAULT_TTL,
            },
        );
        proof {
            text::lemma_views_push(records0, records@.last());
            assert(text::views(srvs@)[i as int] == srvs@[i as int]@);
            assert(want[i + 1] == srv_record(fqdn@, text::views(srvs@)[i as int]));
            assert(want.take(i + 2) =~= want.take(i + 1).push(want[i + 1]));
        }
        i += 1;
    }
    proof {
        assert(want.take(i + 1) =~= want);
    }
    records
}

// ---- what has to change -------------------------------------------------

/// A record already present in the zone, with the id needed to change it.
#[derive(Debug, PartialEq, Eq)]
pub struct ExistingRecord {
    pub id: String,
    pub record: DnsRecord,
}

/// What an [`ExistingRecord`] says.
pub struct ExistingModel {
    pub id: Seq<char>,
    pub record: DnsRecordModel,
}

impl View for ExistingRecord {
    type V = ExistingModel;

    open spec fn view(&self) -> ExistingModel {
        ExistingModel { id: self.id@, record: self.record@ }
    }
}

/// The API calls that would bring the zone in line with the desired state.
#[derive(Debug, PartialEq, Eq)]
pub struct DnsPlan {
    pub create: Vec<DnsRecord>,
    /// `(record id, new content)`.
    pub update: Vec<(String, DnsRecord)>,
    /// Record ids to remove.
    pub delete: Vec<String>,
}

/// What a [`DnsPlan`] says.
#[verifier::ext_equal]
pub struct PlanModel {
    pub create: Seq<DnsRecordModel>,
    pub update: Seq<(Seq<char>, DnsRecordModel)>,
    pub delete: Seq<Seq<char>>,
}

impl View for DnsPlan {
    type V = PlanModel;

    open spec fn view(&self) -> PlanModel {
        PlanModel {
            create: text::views(self.create@),
            update: text::views(self.update@),
            delete: text::views(self.delete@),
        }
    }
}

impl PlanModel {
    pub open spec fn is_empty(self) -> bool {
        self.create.len() == 0 && self.update.len() == 0 && self.delete.len() == 0
    }
}

impl DnsPlan {
    pub fn is_empty(&self) -> (r: bool)
        ensures
            r == self@.is_empty(),
    {
        self.create.is_empty() && self.update.is_empty() && self.delete.is_empty()
    }
}

impl Default for DnsPlan {
    fn default() -> (r: DnsPlan)
        ensures
            r@.is_empty(),
    {
        DnsPlan { create: Vec::new(), update: Vec::new(), delete: Vec::new() }
    }
}

/// Whether a name is the service's own or lies beneath it.
pub open spec fn owned(record_name: Seq<char>, service_fqdn: Seq<char>) -> bool {
    record_name == service_fqdn || (seq!['.'] + service_fqdn).is_suffix_of(record_name)
}

/// True when `record_name` is a name this service owns: its own FQDN, or
/// something beneath it like `_minecraft._tcp.mc.example.com`.
///
/// Reconciliation deletes records it does not recognise, so this is the fence
/// that keeps it from touching the rest of somebody's zone — the MX records
/// for their mail, the apex A record for their website.
pub fn owned_by_service(record_name: &str, service_fqdn: &str) -> (r: bool)
    ensures
        r == owned(record_name@, service_fqdn@),
{
    if text::same_text(record_name, service_fqdn) {
        return true;
    }
    let name = text::chars_of(record_name);
    let mut beneath = ".".to_owned();
    beneath.append(service_fqdn);
    proof {
        reveal_strlit(".");
        assert("."@ =~= seq!['.']);
    }
    let suffix = text::chars_of(beneath.as_str());
    text::ends_with(name.as_slice(), suffix.as_slice())
}

/// How many of the first `n` records have this identity.
pub open spec fn count(records: Seq<DnsRecordModel>, id: Identity, n: int) -> nat
    decreases n,
{
    if n <= 0 {
        0
    } else {
        count(records, id, n - 1) + if records[n - 1].identity() == id {
            1nat
        } else {
            0nat
        }
    }
}

/// How many records before position `i` share its identity.
pub open spec fn rank(records: Seq<DnsRecordModel>, i: int) -> nat {
    count(records, records[i].identity(), i)
}

/// How many records have this identity.
pub open spec fn total(records: Seq<DnsRecordModel>, id: Identity) -> nat {
    count(records, id, records.len() as int)
}

/// The position of the record with this identity and rank.
pub open spec fn position(records: Seq<DnsRecordModel>, id: Identity, r: nat) -> int {
    choose|k: int|
        0 <= k < records.len() && (#[trigger] records[k]).identity() == id && rank(records, k) == r
}

/// The contents of records that exist.
pub open spec fn contents(existing: Seq<ExistingModel>) -> Seq<DnsRecordModel> {
    Seq::new(existing.len(), |i: int| existing[i].record)
}

/// The records of a zone that a service owns.
pub open spec fn owned_records(zone: Seq<ExistingModel>, service_fqdn: Seq<char>) -> Seq<
    ExistingModel,
> {
    zone.filter(|e: ExistingModel| owned(e.record.name(), service_fqdn))
}

/// The first `n` desired records that have no counterpart.
///
/// Records correspond when they have the same identity and, among those, the
/// same rank: the first to the first, the second to the second.
pub open spec fn to_create(
    desired: Seq<DnsRecordModel>,
    mine: Seq<ExistingModel>,
    n: int,
) -> Seq<DnsRecordModel>
    decreases n,
{
    if n <= 0 {
        Seq::empty()
    } else {
        let before = to_create(desired, mine, n - 1);
        if rank(desired, n - 1) >= total(contents(mine), desired[n - 1].identity()) {
            before.push(desired[n - 1])
        } else {
            before
        }
    }
}

/// The first `n` desired records whose counterpart says something else, each
/// with its counterpart's id.
pub open spec fn to_update(
    desired: Seq<DnsRecordModel>,
    mine: Seq<ExistingModel>,
    n: int,
) -> Seq<(Seq<char>, DnsRecordModel)>
    decreases n,
{
    if n <= 0 {
        Seq::empty()
    } else {
        let before = to_update(desired, mine, n - 1);
        let want = desired[n - 1];
        let r = rank(desired, n - 1);
        if r >= total(contents(mine), want.identity()) {
            before
        } else {
            let have = mine[position(contents(mine), want.identity(), r)];
            if have.record != want {
                before.push((have.id, want))
            } else {
                before
            }
        }
    }
}

/// The ids of the first `n` existing records that no desired record
/// corresponds to.
pub open spec fn to_delete(
    desired: Seq<DnsRecordModel>,
    mine: Seq<ExistingModel>,
    n: int,
) -> Seq<Seq<char>>
    decreases n,
{
    if n <= 0 {
        Seq::empty()
    } else {
        let before = to_delete(desired, mine, n - 1);
        if rank(contents(mine), n - 1) >= total(desired, mine[n - 1].record.identity()) {
            before.push(mine[n - 1].id)
        } else {
            before
        }
    }
}

/// The plan for one service: create what is missing, update what differs,
/// delete what is left over under the service's own names.
pub open spec fn reconciled(
    service_fqdn: Seq<char>,
    desired: Seq<DnsRecordModel>,
    zone: Seq<ExistingModel>,
) -> PlanModel {
    let mine = owned_records(zone, service_fqdn);
    PlanModel {
        create: to_create(desired, mine, desired.len() as int),
        update: to_update(desired, mine, desired.len() as int),
        delete: to_delete(desired, mine, mine.len() as int),
    }
}

pub proof fn lemma_count_grows(records: Seq<DnsRecordModel>, id: Identity, m: int, n: int)
    requires
        m <= n,
    ensures
        count(records, id, m) <= count(records, id, n),
    decreases n - m,
{
    if m < n {
        lemma_count_grows(records, id, m, n - 1);
    }
}

/// Every rank below the count is held by some record.
pub proof fn lemma_rank_is_held(records: Seq<DnsRecordModel>, id: Identity, r: nat, n: int) -> (k: int)
    requires
        r < count(records, id, n),
        n <= records.len(),
    ensures
        0 <= k < n,
        records[k].identity() == id,
        rank(records, k) == r,
    decreases n,
{
    if records[n - 1].identity() == id && count(records, id, n - 1) == r {
        n - 1
    } else {
        lemma_rank_is_held(records, id, r, n - 1)
    }
}

/// No two records share identity and rank.
pub proof fn lemma_rank_is_unique(records: Seq<DnsRecordModel>, i: int, j: int)
    requires
        0 <= i < records.len(),
        0 <= j < records.len(),
        records[i].identity() == records[j].identity(),
        rank(records, i) == rank(records, j),
    ensures
        i == j,
{
    let id = records[i].identity();
    if i < j {
        lemma_count_grows(records, id, i + 1, j);
    }
    if j < i {
        lemma_count_grows(records, id, j + 1, i);
    }
}

/// A record's rank is below the total for its identity.
pub proof fn lemma_rank_below_total(records: Seq<DnsRecordModel>, i: int)
    requires
        0 <= i < records.len(),
    ensures
        rank(records, i) < total(records, records[i].identity()),
{
    lemma_count_grows(records, records[i].identity(), i + 1, records.len() as int);
}

/// The records of the zone that this service owns.
fn select_owned<'a>(zone_records: &'a [ExistingRecord], service_fqdn: &str) -> (r: Vec<
    &'a ExistingRecord,
>)
    ensures
        text::views(r@) == owned_records(text::views(zone_records@), service_fqdn@),
{
    let ghost zone = text::views(zone_records@);
    let ghost mine = |e: ExistingModel| owned(e.record.name(), service_fqdn@);
    let mut out: Vec<&'a ExistingRecord> = Vec::new();
    let mut i: usize = 0;
    proof {
        reveal(Seq::filter);
        assert(text::views(out@) =~= zone.take(0).filter(mine));
    }
    while i < zone_records.len()
        invariant
            i <= zone_records@.len(),
            zone == text::views(zone_records@),
            mine == (|e: ExistingModel| owned(e.record.name(), service_fqdn@)),
            text::views(out@) == zone.take(i as int).filter(mine),
        decreases zone_records@.len() - i,
    {
        let e = &zone_records[i];
        let ghost out0 = out@;
        proof {
            text::lemma_views_step(zone_records@, i as int);
            zone.take(i as int).lemma_filter_push(e@, mine);
        }
        if owned_by_service(e.record.name(), service_fqdn) {
            out.push(e);
            proof {
                text::lemma_views_push(out0, e);
            }
        }
        i += 1;
    }
    proof {
        assert(zone.take(i as int) =~= zone);
    }
    out
}

/// Diff the desired records for one service against the zone as it stands.
///
/// `zone_records` may be the whole zone; anything outside the service's own
/// names is ignored rather than deleted.
pub fn reconcile_service(
    service_fqdn: &str,
    desired: &[DnsRecord],
    zone_records: &[ExistingRecord],
) -> (r: DnsPlan)
    ensures
        r@ == reconciled(service_fqdn@, text::views(desired@), text::views(zone_records@)),
{
    let mine = select_owned(zone_records, service_fqdn);
    let ghost have = text::views(mine@);
    let ghost held = contents(have);
    let ghost want_all = text::views(desired@);

    let mut create: Vec<DnsRecord> = Vec::new();
    let mut update: Vec<(String, DnsRecord)> = Vec::new();
    let mut delete: Vec<String> = Vec::new();

    let mut matched: Vec<bool> = Vec::new();
    let mut i: usize = 0;
    while i < mine.len()
        invariant
            i <= mine@.len(),
            matched@.len() == i,
            forall|k: int| 0 <= k < i ==> !(#[trigger] matched@[k]),
        decreases mine@.len() - i,
    {
        matched.push(false);
        i += 1;
    }

    let mut j: usize = 0;
    proof {
        assert(text::views(create@) =~= to_create(want_all, have, 0));
        assert(text::views(update@) =~= to_update(want_all, have, 0));
    }
    while j < desired.len()
        invariant
            j <= desired@.len(),
            have == text::views(mine@),
            held == contents(have),
            want_all == text::views(desired@),
            matched@.len() == mine@.len(),
            forall|k: int|
                0 <= k < have.len() ==> (#[trigger] matched@[k] <==> rank(held, k) < count(
                    want_all,
                    held[k].identity(),
                    j as int,
                )),
            text::views(create@) == to_create(want_all, have, j as int),
            text::views(update@) == to_update(want_all, have, j as int),
        decreases desired@.len() - j,
    {
        let want = &desired[j];
        let ghost id = want@.identity();
        let ghost c = count(want_all, id, j as int);
        let ghost create0 = create@;
        let ghost update0 = update@;
        let ghost matched0 = matched@;
        assert(want_all[j as int] == want@);
        assert(rank(want_all, j as int) == c);
        // First not-yet-matched record with the same type and name.
        let mut hit: usize = 0;
        while hit < mine.len() && (matched[hit] || !mine[hit].record.same_identity(want))
            invariant
                hit <= mine@.len(),
                have == text::views(mine@),
                held == contents(have),
                id == want@.identity(),
                matched@.len() == mine@.len(),
                forall|k: int|
                    0 <= k < hit ==> (#[trigger] matched@[k] || held[k].identity() != id),
            decreases mine@.len() - hit,
        {
            assert(have[hit as int] == mine@[hit as int]@);
            hit += 1;
        }
        if hit < mine.len() {
            let existing = mine[hit];
            proof {
                assert(have[hit as int] == existing@);
                assert(held[hit as int].identity() == id);
                assert(!matched@[hit as int]);
                if rank(held, hit as int) > c {
                    let k = lemma_rank_is_held(held, id, c, hit as int);
                    assert(matched@[k]);
                }
                assert(rank(held, hit as int) == c);
                lemma_rank_below_total(held, hit as int);
                let p = position(held, id, c);
                assert(held[hit as int].identity() == id && rank(held, hit as int) == c);
                assert(0 <= p < held.len() && held[p].identity() == id && rank(held, p) == c);
                lemma_rank_is_unique(held, hit as int, p);
            }
            matched.set(hit, true);
            if !existing.record.same(want) {
                update.push((existing.id.clone(), want.clone()));
                proof {
                    text::lemma_views_push(update0, update@.last());
                }
            }
        } else {
            create.push(want.clone());
            proof {
                text::lemma_views_push(create0, create@.last());
                if total(held, id) > c {
                    let k = lemma_rank_is_held(held, id, c, held.len() as int);
                    assert(!matched@[k]);
                }
            }
        }
        proof {
            assert forall|k: int| 0 <= k < have.len() implies (#[trigger] matched@[k] <==> rank(
                held,
                k,
            ) < count(want_all, held[k].identity(), j + 1)) by {
                assert(matched0[k] <==> rank(held, k) < count(
                    want_all,
                    held[k].identity(),
                    j as int,
                ));
                if held[k].identity() == id {
                    if hit < mine@.len() {
                        if rank(held, k) == c {
                            lemma_rank_is_unique(held, k, hit as int);
                        }
                    } else {
                        lemma_rank_below_total(held, k);
                    }
                }
            }
        }
        j += 1;
    }

    // Whatever is left under this service's names is stale: a port that moved,
    // a profile that was removed, or a duplicate of a record we just matched.
    let mut m: usize = 0;
    proof {
        assert(text::views(delete@) =~= to_delete(want_all, have, 0));
    }
    while m < mine.len()
        invariant
            m <= mine@.len(),
            have == text::views(mine@),
            held == contents(have),
            matched@.len() == mine@.len(),
            forall|k: int|
                0 <= k < have.len() ==> (#[trigger] matched@[k] <==> rank(held, k) < total(
                    want_all,
                    held[k].identity(),
                )),
            text::views(delete@) == to_delete(want_all, have, m as int),
        decreases mine@.len() - m,
    {
        let ghost delete0 = delete@;
        let existing = mine[m];
        assert(have[m as int] == existing@);
        if !matched[m] {
            delete.push(existing.id.clone());
            proof {
                text::lemma_views_push(delete0, delete@.last());
            }
        }
        m += 1;
    }

    DnsPlan { create, update, delete }
}

} // verus!
