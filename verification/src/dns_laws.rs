//! What reconciliation guarantees, whatever the zone holds.

use crate::addr::Ipv4Addr;
use crate::dns;
use crate::dns::{DnsRecordModel, ExistingModel, Identity, PlanModel, SrvBindingModel};
use crate::model;
use crate::table;
use vstd::prelude::*;

verus! {

// ---- what is published --------------------------------------------------

/// Everything published for a service lies at or beneath the service's own
/// name.
pub proof fn law_desired_records_are_owned(
    fqdn: Seq<char>,
    edge_ip: Ipv4Addr,
    srvs: Seq<SrvBindingModel>,
    i: int,
)
    requires
        0 <= i < dns::desired_records(fqdn, edge_ip, srvs).len(),
    ensures
        dns::owned(dns::desired_records(fqdn, edge_ip, srvs)[i].name(), fqdn),
{
    if i > 0 {
        let b = srvs[i - 1];
        let name = model::srv_name(b.spec.service, b.spec.proto, fqdn);
        let beneath = seq!['.'] + fqdn;
        reveal_strlit(".");
        assert("."@ =~= seq!['.']);
        let start = (name.len() - beneath.len()) as int;
        assert(beneath =~= name.subrange(start, name.len() as int));
    }
}

/// The only address ever published is the gateway's public one; where the
/// servers really are does not appear.
pub proof fn law_only_the_edge_address_is_published(
    fqdn: Seq<char>,
    edge_ip: Ipv4Addr,
    srvs: Seq<SrvBindingModel>,
    i: int,
)
    requires
        0 <= i < dns::desired_records(fqdn, edge_ip, srvs).len(),
    ensures
        match dns::desired_records(fqdn, edge_ip, srvs)[i] {
            DnsRecordModel::A { address, .. } => address == edge_ip,
            DnsRecordModel::Srv { target, .. } => target == fqdn,
        },
{
}

// ---- what a plan touches ------------------------------------------------

/// The records of a zone with this id that the service owns.
pub open spec fn owns_id(zone: Seq<ExistingModel>, service_fqdn: Seq<char>, id: Seq<char>) -> bool {
    exists|k: int|
        0 <= k < zone.len() && (#[trigger] zone[k]).id == id && dns::owned(
            zone[k].record.name(),
            service_fqdn,
        )
}

/// Reconciling one service never touches a record outside its own names:
/// every id that is deleted or updated is the id of a record it owns.
pub proof fn law_foreign_records_are_left_alone(
    service_fqdn: Seq<char>,
    desired: Seq<DnsRecordModel>,
    zone: Seq<ExistingModel>,
)
    ensures
        forall|i: int|
            0 <= i < dns::reconciled(service_fqdn, desired, zone).delete.len() ==> owns_id(
                zone,
                service_fqdn,
                #[trigger] dns::reconciled(service_fqdn, desired, zone).delete[i],
            ),
        forall|i: int|
            0 <= i < dns::reconciled(service_fqdn, desired, zone).update.len() ==> owns_id(
                zone,
                service_fqdn,
                (#[trigger] dns::reconciled(service_fqdn, desired, zone).update[i]).0,
            ),
{
    let mine = dns::owned_records(zone, service_fqdn);
    let plan = dns::reconciled(service_fqdn, desired, zone);
    lemma_owned_come_from_zone(zone, service_fqdn);
    assert forall|i: int| 0 <= i < plan.delete.len() implies owns_id(
        zone,
        service_fqdn,
        #[trigger] plan.delete[i],
    ) by {
        let k = lemma_delete_origin(desired, mine, mine.len() as int, i);
        assert(owns_id(zone, service_fqdn, mine[k].id));
    }
    assert forall|i: int| 0 <= i < plan.update.len() implies owns_id(
        zone,
        service_fqdn,
        (#[trigger] plan.update[i]).0,
    ) by {
        let j = lemma_update_origin(desired, mine, desired.len() as int, i);
        let p = dns::position(
            dns::contents(mine),
            desired[j].identity(),
            dns::rank(desired, j),
        );
        assert(owns_id(zone, service_fqdn, mine[p].id));
    }
}

proof fn lemma_owned_come_from_zone(zone: Seq<ExistingModel>, service_fqdn: Seq<char>)
    ensures
        forall|k: int|
            0 <= k < dns::owned_records(zone, service_fqdn).len() ==> owns_id(
                zone,
                service_fqdn,
                (#[trigger] dns::owned_records(zone, service_fqdn)[k]).id,
            ) && dns::owned(
                dns::owned_records(zone, service_fqdn)[k].record.name(),
                service_fqdn,
            ),
{
    let pred = |e: ExistingModel| dns::owned(e.record.name(), service_fqdn);
    zone.filter_lemma(pred);
    let mine = dns::owned_records(zone, service_fqdn);
    assert forall|k: int| 0 <= k < mine.len() implies owns_id(
        zone,
        service_fqdn,
        (#[trigger] mine[k]).id,
    ) && dns::owned(mine[k].record.name(), service_fqdn) by {
        assert(pred(mine[k]));
        assert(zone.contains(mine[k])) by {
            zone.lemma_filter_contains_rev(pred, mine[k]);
        }
        let z = choose|z: int| 0 <= z < zone.len() && zone[z] == mine[k];
        assert(zone[z].id == mine[k].id);
    }
}

/// Where a deleted id comes from.
proof fn lemma_delete_origin(
    desired: Seq<DnsRecordModel>,
    mine: Seq<ExistingModel>,
    n: int,
    i: int,
) -> (k: int)
    requires
        0 <= n <= mine.len(),
        0 <= i < dns::to_delete(desired, mine, n).len(),
    ensures
        0 <= k < n,
        mine[k].id == dns::to_delete(desired, mine, n)[i],
        dns::rank(dns::contents(mine), k) >= dns::total(desired, mine[k].record.identity()),
    decreases n,
{
    let before = dns::to_delete(desired, mine, n - 1);
    if i < before.len() {
        lemma_delete_origin(desired, mine, n - 1, i)
    } else {
        n - 1
    }
}

/// Every leftover record's id is deleted.
proof fn lemma_delete_covers(
    desired: Seq<DnsRecordModel>,
    mine: Seq<ExistingModel>,
    n: int,
    k: int,
)
    requires
        0 <= k < n <= mine.len(),
        dns::rank(dns::contents(mine), k) >= dns::total(desired, mine[k].record.identity()),
    ensures
        dns::to_delete(desired, mine, n).contains(mine[k].id),
    decreases n,
{
    let all = dns::to_delete(desired, mine, n);
    let before = dns::to_delete(desired, mine, n - 1);
    if k == n - 1 {
        assert(all.last() == mine[k].id);
    } else {
        lemma_delete_covers(desired, mine, n - 1, k);
        let i = choose|i: int| 0 <= i < before.len() && before[i] == mine[k].id;
        assert(all[i] == before[i]);
    }
}

/// Where an update comes from.
proof fn lemma_update_origin(
    desired: Seq<DnsRecordModel>,
    mine: Seq<ExistingModel>,
    n: int,
    i: int,
) -> (j: int)
    requires
        0 <= n <= desired.len(),
        0 <= i < dns::to_update(desired, mine, n).len(),
    ensures
        0 <= j < n,
        dns::rank(desired, j) < dns::total(dns::contents(mine), desired[j].identity()),
        ({
            let p = dns::position(
                dns::contents(mine),
                desired[j].identity(),
                dns::rank(desired, j),
            );
            &&& 0 <= p < mine.len()
            &&& mine[p].record.identity() == desired[j].identity()
            &&& dns::rank(dns::contents(mine), p) == dns::rank(desired, j)
            &&& mine[p].record != desired[j]
            &&& dns::to_update(desired, mine, n)[i] == (mine[p].id, desired[j])
        }),
    decreases n,
{
    let before = dns::to_update(desired, mine, n - 1);
    if i < before.len() {
        lemma_update_origin(desired, mine, n - 1, i)
    } else {
        let held = dns::contents(mine);
        let id = desired[n - 1].identity();
        let k = dns::lemma_rank_is_held(held, id, dns::rank(desired, n - 1), held.len() as int);
        assert(held[k].identity() == id);
        n - 1
    }
}

/// Every desired record whose counterpart differs is an update.
proof fn lemma_update_covers(
    desired: Seq<DnsRecordModel>,
    mine: Seq<ExistingModel>,
    n: int,
    j: int,
) -> (i: int)
    requires
        0 <= j < n <= desired.len(),
        dns::rank(desired, j) < dns::total(dns::contents(mine), desired[j].identity()),
        mine[dns::position(
            dns::contents(mine),
            desired[j].identity(),
            dns::rank(desired, j),
        )].record != desired[j],
    ensures
        0 <= i < dns::to_update(desired, mine, n).len(),
        dns::to_update(desired, mine, n)[i] == (
            mine[dns::position(
                dns::contents(mine),
                desired[j].identity(),
                dns::rank(desired, j),
            )].id,
            desired[j],
        ),
    decreases n,
{
    if j == n - 1 {
        dns::to_update(desired, mine, n - 1).len() as int
    } else {
        lemma_update_covers(desired, mine, n - 1, j)
    }
}

/// No name is deleted and created in one plan: where a record is created, every
/// record of its kind and name that the zone holds is kept, so the name never
/// stops resolving while its content changes.
pub proof fn law_no_name_is_deleted_and_created(
    service_fqdn: Seq<char>,
    desired: Seq<DnsRecordModel>,
    zone: Seq<ExistingModel>,
    c: int,
    z: int,
)
    requires
        distinct_ids(zone),
        0 <= c < dns::reconciled(service_fqdn, desired, zone).create.len(),
        0 <= z < zone.len(),
        dns::reconciled(service_fqdn, desired, zone).delete.contains(zone[z].id),
    ensures
        dns::reconciled(service_fqdn, desired, zone).create[c].identity()
            != zone[z].record.identity(),
{
    let plan = dns::reconciled(service_fqdn, desired, zone);
    let mine = dns::owned_records(zone, service_fqdn);
    let pred = |e: ExistingModel| dns::owned(e.record.name(), service_fqdn);
    let j = lemma_create_origin(desired, mine, desired.len() as int, c);
    let i = choose|i: int| 0 <= i < plan.delete.len() && plan.delete[i] == zone[z].id;
    let k = lemma_delete_origin(desired, mine, mine.len() as int, i);
    assert(mine[k] == zone[z]) by {
        assert(zone.contains(mine[k])) by {
            zone.lemma_filter_contains_rev(pred, mine[k]);
        }
        let y = choose|y: int| 0 <= y < zone.len() && zone[y] == mine[k];
        assert(zone[y].id == zone[z].id);
    }
    dns::lemma_rank_below_total(desired, j);
    dns::lemma_rank_below_total(dns::contents(mine), k);
}

/// A record is updated only where its content is another, and stays of its kind
/// and name; what it is updated to is one of the desired records.
pub proof fn law_updates_change_content_only(
    service_fqdn: Seq<char>,
    desired: Seq<DnsRecordModel>,
    zone: Seq<ExistingModel>,
    i: int,
)
    requires
        0 <= i < dns::reconciled(service_fqdn, desired, zone).update.len(),
    ensures
        ({
            let (id, record) = dns::reconciled(service_fqdn, desired, zone).update[i];
            &&& desired.contains(record)
            &&& exists|z: int|
                0 <= z < zone.len() && (#[trigger] zone[z]).id == id && zone[z].record != record
                    && zone[z].record.name() == record.name() && (zone[z].record is A <==> record
                    is A)
        }),
{
    let mine = dns::owned_records(zone, service_fqdn);
    let pred = |e: ExistingModel| dns::owned(e.record.name(), service_fqdn);
    let j = lemma_update_origin(desired, mine, desired.len() as int, i);
    let p = dns::position(dns::contents(mine), desired[j].identity(), dns::rank(desired, j));
    assert(zone.contains(mine[p])) by {
        zone.lemma_filter_contains_rev(pred, mine[p]);
    }
    let z = choose|z: int| 0 <= z < zone.len() && zone[z] == mine[p];
    assert(zone[z].record.identity() == desired[j].identity());
    assert(zone[z].id == dns::reconciled(service_fqdn, desired, zone).update[i].0);
}

/// What is created is desired.
pub proof fn law_only_desired_records_are_created(
    service_fqdn: Seq<char>,
    desired: Seq<DnsRecordModel>,
    zone: Seq<ExistingModel>,
    i: int,
)
    requires
        0 <= i < dns::reconciled(service_fqdn, desired, zone).create.len(),
    ensures
        desired.contains(dns::reconciled(service_fqdn, desired, zone).create[i]),
{
    let mine = dns::owned_records(zone, service_fqdn);
    let j = lemma_create_origin(desired, mine, desired.len() as int, i);
    assert(desired[j] == dns::reconciled(service_fqdn, desired, zone).create[i]);
}

/// The ids that a plan updates, and then those it deletes.
pub open spec fn touched_ids(plan: PlanModel) -> Seq<Seq<char>> {
    Seq::new(plan.update.len(), |i: int| plan.update[i].0) + plan.delete
}

/// No record is touched twice in one plan: no id is updated twice, deleted
/// twice, or updated and deleted.
pub proof fn law_no_record_is_touched_twice(
    service_fqdn: Seq<char>,
    desired: Seq<DnsRecordModel>,
    zone: Seq<ExistingModel>,
)
    requires
        distinct_ids(zone),
    ensures
        touched_ids(dns::reconciled(service_fqdn, desired, zone)).no_duplicates(),
{
    let plan = dns::reconciled(service_fqdn, desired, zone);
    let mine = dns::owned_records(zone, service_fqdn);
    let ids = touched_ids(plan);
    let n = plan.update.len() as int;
    lemma_owned_distinct(zone, service_fqdn);
    lemma_updates_distinct(desired, mine, desired.len() as int);
    lemma_deletes_distinct(desired, mine, mine.len() as int);
    assert forall|i: int, j: int| 0 <= i < j < ids.len() implies ids[i] != ids[j] by {
        if j < n {
            assert(plan.update[i].0 != plan.update[j].0);
        } else if i >= n {
            assert(plan.delete[i - n] != plan.delete[j - n]);
        } else {
            let u = lemma_update_origin(desired, mine, desired.len() as int, i);
            let p = dns::position(
                dns::contents(mine),
                desired[u].identity(),
                dns::rank(desired, u),
            );
            let k = lemma_delete_origin(desired, mine, mine.len() as int, j - n);
            dns::lemma_rank_below_total(desired, u);
            if ids[i] == ids[j] {
                assert(mine[p].id == mine[k].id);
                assert(p == k);
            }
        }
    }
}

proof fn lemma_updates_distinct(desired: Seq<DnsRecordModel>, mine: Seq<ExistingModel>, n: int)
    requires
        distinct_ids(mine),
        0 <= n <= desired.len(),
    ensures
        forall|i: int, j: int|
            0 <= i < j < dns::to_update(desired, mine, n).len() ==> (#[trigger] dns::to_update(
                desired,
                mine,
                n,
            )[i]).0 != (#[trigger] dns::to_update(desired, mine, n)[j]).0,
    decreases n,
{
    if n > 0 {
        lemma_updates_distinct(desired, mine, n - 1);
        let before = dns::to_update(desired, mine, n - 1);
        let all = dns::to_update(desired, mine, n);
        assert forall|i: int, j: int| 0 <= i < j < all.len() implies (#[trigger] all[i]).0 != (
        #[trigger] all[j]).0 by {
            if j < before.len() {
                assert(before[i].0 != before[j].0);
            } else {
                let held = dns::contents(mine);
                let id = desired[n - 1].identity();
                let r = dns::rank(desired, n - 1);
                let k = dns::lemma_rank_is_held(held, id, r, held.len() as int);
                assert(held[k].identity() == id);
                let q = dns::position(held, id, r);
                let u = lemma_update_origin(desired, mine, n - 1, i);
                let p = dns::position(held, desired[u].identity(), dns::rank(desired, u));
                if all[i].0 == all[j].0 {
                    assert(mine[p].id == mine[q].id);
                    assert(p == q);
                    assert(held[p].identity() == mine[p].record.identity());
                    dns::lemma_rank_is_unique(desired, u, n - 1);
                }
            }
        }
    }
}

proof fn lemma_deletes_distinct(desired: Seq<DnsRecordModel>, mine: Seq<ExistingModel>, n: int)
    requires
        distinct_ids(mine),
        0 <= n <= mine.len(),
    ensures
        forall|i: int, j: int|
            0 <= i < j < dns::to_delete(desired, mine, n).len() ==> #[trigger] dns::to_delete(
                desired,
                mine,
                n,
            )[i] != #[trigger] dns::to_delete(desired, mine, n)[j],
    decreases n,
{
    if n > 0 {
        lemma_deletes_distinct(desired, mine, n - 1);
        let before = dns::to_delete(desired, mine, n - 1);
        let all = dns::to_delete(desired, mine, n);
        assert forall|i: int, j: int| 0 <= i < j < all.len() implies #[trigger] all[i]
            != #[trigger] all[j] by {
            if j < before.len() {
                assert(before[i] != before[j]);
            } else {
                let k = lemma_delete_origin(desired, mine, n - 1, i);
                assert(mine[k].id != mine[n - 1].id);
            }
        }
    }
}

// ---- a zone in sync needs nothing ---------------------------------------

/// A service whose records are exactly the desired ones needs no calls.
pub proof fn law_in_sync_zone_needs_nothing(
    service_fqdn: Seq<char>,
    desired: Seq<DnsRecordModel>,
    zone: Seq<ExistingModel>,
)
    requires
        dns::contents(dns::owned_records(zone, service_fqdn)) == desired,
    ensures
        dns::reconciled(service_fqdn, desired, zone).is_empty(),
{
    let mine = dns::owned_records(zone, service_fqdn);
    assert forall|p: int| 0 <= p < mine.len() implies #[trigger] has_twin(
        desired,
        dns::contents(mine),
        p,
    ) by {
        assert(is_twin(desired, dns::contents(mine), p, p));
    }
    lemma_twins_need_nothing(desired, mine);
}

/// Whether desired record `j` says the same as held record `p` and corresponds
/// to it.
spec fn is_twin(
    desired: Seq<DnsRecordModel>,
    held: Seq<DnsRecordModel>,
    p: int,
    j: int,
) -> bool {
    &&& 0 <= j < desired.len()
    &&& desired[j] == held[p]
    &&& dns::rank(desired, j) == dns::rank(held, p)
}

spec fn has_twin(desired: Seq<DnsRecordModel>, held: Seq<DnsRecordModel>, p: int) -> bool {
    exists|j: int| is_twin(desired, held, p, j)
}

/// Where every held record has a twin and the totals agree, nothing is left to
/// do.
proof fn lemma_twins_need_nothing(desired: Seq<DnsRecordModel>, mine: Seq<ExistingModel>)
    requires
        forall|p: int|
            0 <= p < mine.len() ==> #[trigger] has_twin(desired, dns::contents(mine), p),
        forall|id: Identity|
            #[trigger] dns::total(dns::contents(mine), id) == dns::total(desired, id),
    ensures
        dns::to_create(desired, mine, desired.len() as int).len() == 0,
        dns::to_update(desired, mine, desired.len() as int).len() == 0,
        dns::to_delete(desired, mine, mine.len() as int).len() == 0,
{
    let held = dns::contents(mine);
    if dns::to_create(desired, mine, desired.len() as int).len() > 0 {
        let j = lemma_create_origin(desired, mine, desired.len() as int, 0);
        dns::lemma_rank_below_total(desired, j);
        assert(dns::total(held, desired[j].identity()) == dns::total(desired, desired[j].identity()));
    }
    if dns::to_update(desired, mine, desired.len() as int).len() > 0 {
        let j = lemma_update_origin(desired, mine, desired.len() as int, 0);
        let p = dns::position(held, desired[j].identity(), dns::rank(desired, j));
        assert(has_twin(desired, held, p));
        let t = choose|t: int| is_twin(desired, held, p, t);
        dns::lemma_rank_is_unique(desired, t, j);
    }
    if dns::to_delete(desired, mine, mine.len() as int).len() > 0 {
        let k = lemma_delete_origin(desired, mine, mine.len() as int, 0);
        dns::lemma_rank_below_total(held, k);
        assert(dns::total(held, held[k].identity()) == dns::total(desired, held[k].identity()));
    }
}

/// Where a created record comes from.
proof fn lemma_create_origin(
    desired: Seq<DnsRecordModel>,
    mine: Seq<ExistingModel>,
    n: int,
    i: int,
) -> (j: int)
    requires
        0 <= n <= desired.len(),
        0 <= i < dns::to_create(desired, mine, n).len(),
    ensures
        0 <= j < n,
        desired[j] == dns::to_create(desired, mine, n)[i],
        dns::rank(desired, j) >= dns::total(dns::contents(mine), desired[j].identity()),
    decreases n,
{
    let before = dns::to_create(desired, mine, n - 1);
    if i < before.len() {
        lemma_create_origin(desired, mine, n - 1, i)
    } else {
        n - 1
    }
}

// ---- applying a plan ----------------------------------------------------

/// What a record says once a plan has been carried out.
pub open spec fn updated_record(e: ExistingModel, plan: PlanModel) -> DnsRecordModel {
    if exists|i: int| 0 <= i < plan.update.len() && (#[trigger] plan.update[i]).0 == e.id {
        plan.update[choose|i: int|
            0 <= i < plan.update.len() && (#[trigger] plan.update[i]).0 == e.id].1
    } else {
        e.record
    }
}

/// What is left of the first `n` records of a zone once a plan has been
/// carried out.
pub open spec fn survivors(zone: Seq<ExistingModel>, plan: PlanModel, n: int) -> Seq<ExistingModel>
    decreases n,
{
    if n <= 0 {
        Seq::empty()
    } else {
        let before = survivors(zone, plan, n - 1);
        let e = zone[n - 1];
        if plan.delete.contains(e.id) {
            before
        } else {
            before.push(ExistingModel { id: e.id, record: updated_record(e, plan) })
        }
    }
}

/// The records a plan creates, with the ids the zone gave them.
pub open spec fn created(plan: PlanModel, new_ids: Seq<Seq<char>>) -> Seq<ExistingModel> {
    Seq::new(
        plan.create.len(),
        |i: int| ExistingModel { id: new_ids[i], record: plan.create[i] },
    )
}

/// A zone once a plan has been carried out.
pub open spec fn applied(
    zone: Seq<ExistingModel>,
    plan: PlanModel,
    new_ids: Seq<Seq<char>>,
) -> Seq<ExistingModel> {
    survivors(zone, plan, zone.len() as int) + created(plan, new_ids)
}

/// No two records of a zone share an id.
pub open spec fn distinct_ids(zone: Seq<ExistingModel>) -> bool {
    forall|i: int, j: int|
        0 <= i < j < zone.len() ==> (#[trigger] zone[i]).id != (#[trigger] zone[j]).id
}

/// What a service owns once its plan has been carried out corresponds to what
/// is desired, record for record.
proof fn lemma_applied_corresponds(
    service_fqdn: Seq<char>,
    desired: Seq<DnsRecordModel>,
    zone: Seq<ExistingModel>,
    new_ids: Seq<Seq<char>>,
)
    requires
        distinct_ids(zone),
        forall|j: int|
            0 <= j < desired.len() ==> dns::owned((#[trigger] desired[j]).name(), service_fqdn),
    ensures
        ({
            let after = applied(zone, dns::reconciled(service_fqdn, desired, zone), new_ids);
            let held = dns::contents(dns::owned_records(after, service_fqdn));
            &&& forall|id: Identity| #[trigger] dns::total(held, id) == dns::total(desired, id)
            &&& forall|p: int| 0 <= p < held.len() ==> #[trigger] has_twin(desired, held, p)
        }),
{
    let plan = dns::reconciled(service_fqdn, desired, zone);
    let mine = dns::owned_records(zone, service_fqdn);
    let after = applied(zone, plan, new_ids);
    let fresh = created(plan, new_ids);
    let pred = |e: ExistingModel| dns::owned(e.record.name(), service_fqdn);
    let kept = settled(desired, mine, mine.len() as int);

    lemma_survivors_settle(service_fqdn, desired, zone, zone.len() as int);
    assert(zone.take(zone.len() as int) =~= zone);
    assert(mine.take(mine.len() as int) =~= mine);
    assert forall|i: int| 0 <= i < fresh.len() implies pred(#[trigger] fresh[i]) by {
        let j = lemma_create_origin(desired, mine, desired.len() as int, i);
    }
    lemma_filter_all(fresh, pred);
    Seq::filter_distributes_over_add(survivors(zone, plan, zone.len() as int), fresh, pred);
    assert(dns::owned_records(after, service_fqdn) == kept + fresh);

    let held = dns::contents(kept + fresh);
    let full = dns::contents(kept) + dns::to_create(desired, mine, desired.len() as int);
    assert(held =~= full);
    lemma_settled_counts(desired, mine, mine.len() as int);
    lemma_full_counts(desired, mine, desired.len() as int);
    assert forall|id: Identity| #[trigger] dns::total(held, id) == dns::total(desired, id) by {
        dns::lemma_count_grows(desired, id, 0, desired.len() as int);
    }
    assert forall|p: int| 0 <= p < held.len() implies #[trigger] has_twin(desired, held, p) by {
        assert(has_twin(desired, full, p));
    }
}

/// Carrying out a plan is enough: reconciling the zone that results asks for
/// nothing more.
pub proof fn law_reconciliation_converges(
    service_fqdn: Seq<char>,
    desired: Seq<DnsRecordModel>,
    zone: Seq<ExistingModel>,
    new_ids: Seq<Seq<char>>,
)
    requires
        distinct_ids(zone),
        forall|j: int|
            0 <= j < desired.len() ==> dns::owned((#[trigger] desired[j]).name(), service_fqdn),
    ensures
        dns::reconciled(
            service_fqdn,
            desired,
            applied(zone, dns::reconciled(service_fqdn, desired, zone), new_ids),
        ).is_empty(),
{
    let after = applied(zone, dns::reconciled(service_fqdn, desired, zone), new_ids);
    lemma_applied_corresponds(service_fqdn, desired, zone, new_ids);
    lemma_twins_need_nothing(desired, dns::owned_records(after, service_fqdn));
}

/// Carrying out a plan leaves exactly the desired records under the service's
/// names: each as often as it is desired, and no other.
pub proof fn law_applying_leaves_the_desired_records(
    service_fqdn: Seq<char>,
    desired: Seq<DnsRecordModel>,
    zone: Seq<ExistingModel>,
    new_ids: Seq<Seq<char>>,
)
    requires
        distinct_ids(zone),
        forall|j: int|
            0 <= j < desired.len() ==> dns::owned((#[trigger] desired[j]).name(), service_fqdn),
    ensures
        dns::contents(
            dns::owned_records(
                applied(zone, dns::reconciled(service_fqdn, desired, zone), new_ids),
                service_fqdn,
            ),
        ).to_multiset() == desired.to_multiset(),
{
    let after = applied(zone, dns::reconciled(service_fqdn, desired, zone), new_ids);
    let held = dns::contents(dns::owned_records(after, service_fqdn));
    lemma_applied_corresponds(service_fqdn, desired, zone, new_ids);

    let f = Seq::new(held.len(), |p: int| choose|j: int| is_twin(desired, held, p, j));
    assert forall|p: int| 0 <= p < f.len() implies is_twin(desired, held, p, #[trigger] f[p]) by {
        assert(has_twin(desired, held, p));
    }
    assert forall|p: int, q: int| 0 <= p < q < f.len() implies #[trigger] f[p]
        != #[trigger] f[q] by {
        if f[p] == f[q] {
            dns::lemma_rank_is_unique(held, p, q);
        }
    }
    table::lemma_embedded(held, desired, f);

    let g = Seq::new(
        desired.len(),
        |j: int| dns::position(held, desired[j].identity(), dns::rank(desired, j)),
    );
    assert forall|j: int| 0 <= j < g.len() implies 0 <= #[trigger] g[j] < held.len()
        && held[g[j]] == desired[j] && dns::rank(held, g[j]) == dns::rank(desired, j) by {
        let id = desired[j].identity();
        dns::lemma_rank_below_total(desired, j);
        assert(dns::total(held, id) == dns::total(desired, id));
        let k = dns::lemma_rank_is_held(held, id, dns::rank(desired, j), held.len() as int);
        assert(held[k].identity() == id);
        let p = g[j];
        assert(is_twin(desired, held, p, f[p]));
        dns::lemma_rank_is_unique(desired, f[p], j);
    }
    assert forall|i: int, j: int| 0 <= i < j < g.len() implies #[trigger] g[i]
        != #[trigger] g[j] by {
        if g[i] == g[j] {
            dns::lemma_rank_is_unique(desired, i, j);
        }
    }
    table::lemma_embedded(desired, held, g);
    assert(held.to_multiset() =~= desired.to_multiset());
}

proof fn lemma_filter_all(s: Seq<ExistingModel>, pred: spec_fn(ExistingModel) -> bool)
    requires
        forall|i: int| 0 <= i < s.len() ==> pred(#[trigger] s[i]),
    ensures
        s.filter(pred) == s,
    decreases s.len(),
{
    reveal(Seq::filter);
    if s.len() > 0 {
        let rest = s.drop_last();
        assert forall|i: int| 0 <= i < rest.len() implies pred(#[trigger] rest[i]) by {
            assert(pred(s[i]));
        }
        lemma_filter_all(rest, pred);
        assert(rest.push(s.last()) =~= s);
    } else {
        assert(s.filter(pred) =~= s);
    }
}

/// The first `n` owned records that correspond to a desired one, saying what
/// it says.
spec fn settled(
    desired: Seq<DnsRecordModel>,
    mine: Seq<ExistingModel>,
    n: int,
) -> Seq<ExistingModel>
    decreases n,
{
    if n <= 0 {
        Seq::empty()
    } else {
        let before = settled(desired, mine, n - 1);
        let id = mine[n - 1].record.identity();
        let r = dns::rank(dns::contents(mine), n - 1);
        if r < dns::total(desired, id) {
            before.push(
                ExistingModel { id: mine[n - 1].id, record: desired[dns::position(desired, id, r)] },
            )
        } else {
            before
        }
    }
}

/// Owned records of the first `n` are a prefix of all owned records.
proof fn lemma_owned_prefix(zone: Seq<ExistingModel>, service_fqdn: Seq<char>, n: int)
    requires
        0 <= n <= zone.len(),
    ensures
        dns::owned_records(zone.take(n), service_fqdn).len() <= dns::owned_records(
            zone,
            service_fqdn,
        ).len(),
        dns::owned_records(zone, service_fqdn).take(
            dns::owned_records(zone.take(n), service_fqdn).len() as int,
        ) == dns::owned_records(zone.take(n), service_fqdn),
{
    let pred = |e: ExistingModel| dns::owned(e.record.name(), service_fqdn);
    let head = zone.take(n);
    let tail = zone.skip(n);
    assert(zone =~= head + tail);
    Seq::filter_distributes_over_add(head, tail, pred);
    assert((head.filter(pred) + tail.filter(pred)).take(head.filter(pred).len() as int)
        =~= head.filter(pred));
}

/// Owned records keep distinct ids.
proof fn lemma_owned_distinct(zone: Seq<ExistingModel>, service_fqdn: Seq<char>)
    requires
        distinct_ids(zone),
    ensures
        distinct_ids(dns::owned_records(zone, service_fqdn)),
    decreases zone.len(),
{
    reveal(Seq::filter);
    let pred = |e: ExistingModel| dns::owned(e.record.name(), service_fqdn);
    if zone.len() > 0 {
        let rest = zone.drop_last();
        assert(distinct_ids(rest)) by {
            assert forall|i: int, j: int| 0 <= i < j < rest.len() implies (
            #[trigger] rest[i]).id != (#[trigger] rest[j]).id by {
                assert(zone[i].id != zone[j].id);
            }
        }
        lemma_owned_distinct(rest, service_fqdn);
        lemma_owned_come_from_zone(rest, service_fqdn);
        let mine = dns::owned_records(zone, service_fqdn);
        let before = dns::owned_records(rest, service_fqdn);
        assert forall|i: int, j: int| 0 <= i < j < mine.len() implies (#[trigger] mine[i]).id != (
        #[trigger] mine[j]).id by {
            if j < before.len() {
                assert(before[i].id != before[j].id);
            } else {
                assert(owns_id(rest, service_fqdn, before[i].id));
                let k = choose|k: int|
                    0 <= k < rest.len() && (#[trigger] rest[k]).id == before[i].id && dns::owned(
                        rest[k].record.name(),
                        service_fqdn,
                    );
                assert(zone[k].id != zone[zone.len() - 1].id);
            }
        }
    }
}

/// The owned part of what survives is what was settled.
proof fn lemma_survivors_settle(
    service_fqdn: Seq<char>,
    desired: Seq<DnsRecordModel>,
    zone: Seq<ExistingModel>,
    n: int,
)
    requires
        distinct_ids(zone),
        0 <= n <= zone.len(),
    ensures
        dns::owned_records(
            survivors(zone, dns::reconciled(service_fqdn, desired, zone), n),
            service_fqdn,
        ) == settled(
            desired,
            dns::owned_records(zone, service_fqdn),
            dns::owned_records(zone.take(n), service_fqdn).len() as int,
        ),
    decreases n,
{
    reveal(Seq::filter);
    let plan = dns::reconciled(service_fqdn, desired, zone);
    let mine = dns::owned_records(zone, service_fqdn);
    let pred = |e: ExistingModel| dns::owned(e.record.name(), service_fqdn);
    if n == 0 {
        assert(survivors(zone, plan, 0).filter(pred) =~= Seq::<ExistingModel>::empty());
        assert(zone.take(0).filter(pred) =~= Seq::<ExistingModel>::empty());
    } else {
        lemma_survivors_settle(service_fqdn, desired, zone, n - 1);
        let e = zone[n - 1];
        let before = survivors(zone, plan, n - 1);
        let now = survivors(zone, plan, n);
        let m = dns::owned_records(zone.take(n - 1), service_fqdn).len() as int;
        assert(zone.take(n) =~= zone.take(n - 1).push(e));
        zone.take(n - 1).lemma_filter_push(e, pred);
        lemma_owned_prefix(zone, service_fqdn, n);
        lemma_owned_distinct(zone, service_fqdn);
        if pred(e) {
            let prefix = dns::owned_records(zone.take(n), service_fqdn);
            assert(prefix.len() == m + 1);
            assert(prefix[m] == e);
            assert(mine.take(m + 1)[m] == mine[m]);
            assert(mine[m] == e);
            lemma_fate(desired, mine, m);
            if !plan.delete.contains(e.id) {
                let s = ExistingModel { id: e.id, record: updated_record(e, plan) };
                before.lemma_filter_push(s, pred);
                assert(s.record.name() == e.record.name());
            }
        } else {
            law_foreign_record_survives(service_fqdn, desired, zone, n - 1);
            before.lemma_filter_push(ExistingModel { id: e.id, record: e.record }, pred);
        }
    }
}

/// A record outside the service's names survives a plan as it was: it is
/// neither deleted nor updated.
pub proof fn law_foreign_record_survives(
    service_fqdn: Seq<char>,
    desired: Seq<DnsRecordModel>,
    zone: Seq<ExistingModel>,
    z: int,
)
    requires
        distinct_ids(zone),
        0 <= z < zone.len(),
        !dns::owned(zone[z].record.name(), service_fqdn),
    ensures
        !dns::reconciled(service_fqdn, desired, zone).delete.contains(zone[z].id),
        updated_record(zone[z], dns::reconciled(service_fqdn, desired, zone)) == zone[z].record,
{
    let plan = dns::reconciled(service_fqdn, desired, zone);
    law_foreign_records_are_left_alone(service_fqdn, desired, zone);
    if plan.delete.contains(zone[z].id) {
        let i = choose|i: int| 0 <= i < plan.delete.len() && plan.delete[i] == zone[z].id;
        assert(owns_id(zone, service_fqdn, plan.delete[i]));
        let k = choose|k: int|
            0 <= k < zone.len() && (#[trigger] zone[k]).id == zone[z].id && dns::owned(
                zone[k].record.name(),
                service_fqdn,
            );
        assert(k == z);
    }
    if exists|i: int| 0 <= i < plan.update.len() && (#[trigger] plan.update[i]).0 == zone[z].id {
        let i = choose|i: int|
            0 <= i < plan.update.len() && (#[trigger] plan.update[i]).0 == zone[z].id;
        assert(owns_id(zone, service_fqdn, plan.update[i].0));
        let k = choose|k: int|
            0 <= k < zone.len() && (#[trigger] zone[k]).id == zone[z].id && dns::owned(
                zone[k].record.name(),
                service_fqdn,
            );
        assert(k == z);
    }
}

/// What becomes of one owned record: deleted when it is left over, and
/// otherwise left saying what its desired counterpart says.
proof fn lemma_fate(desired: Seq<DnsRecordModel>, mine: Seq<ExistingModel>, k: int)
    requires
        0 <= k < mine.len(),
        distinct_ids(mine),
    ensures
        ({
            let plan = PlanModel {
                create: dns::to_create(desired, mine, desired.len() as int),
                update: dns::to_update(desired, mine, desired.len() as int),
                delete: dns::to_delete(desired, mine, mine.len() as int),
            };
            let id = mine[k].record.identity();
            let r = dns::rank(dns::contents(mine), k);
            let p = dns::position(desired, id, r);
            if r < dns::total(desired, id) {
                &&& !plan.delete.contains(mine[k].id)
                &&& updated_record(mine[k], plan) == desired[p]
                &&& desired[p].identity() == id
            } else {
                plan.delete.contains(mine[k].id)
            }
        }),
{
    let plan = PlanModel {
        create: dns::to_create(desired, mine, desired.len() as int),
        update: dns::to_update(desired, mine, desired.len() as int),
        delete: dns::to_delete(desired, mine, mine.len() as int),
    };
    let held = dns::contents(mine);
    let id = mine[k].record.identity();
    let r = dns::rank(held, k);
    if r < dns::total(desired, id) {
        let w = dns::lemma_rank_is_held(desired, id, r, desired.len() as int);
        assert(desired[w].identity() == id);
        let p = dns::position(desired, id, r);
        assert(0 <= p < desired.len() && desired[p].identity() == id && dns::rank(desired, p) == r);
        if plan.delete.contains(mine[k].id) {
            let i = choose|i: int| 0 <= i < plan.delete.len() && plan.delete[i] == mine[k].id;
            let d = lemma_delete_origin(desired, mine, mine.len() as int, i);
            assert(d == k);
        }
        dns::lemma_rank_below_total(held, k);
        assert(held[k].identity() == id);
        let q = dns::position(held, id, r);
        assert(0 <= q < held.len() && held[q].identity() == id && dns::rank(held, q) == r);
        dns::lemma_rank_is_unique(held, k, q);
        if mine[k].record != desired[p] {
            let i = lemma_update_covers(desired, mine, desired.len() as int, p);
            assert(plan.update[i].0 == mine[k].id);
        }
        if exists|i: int| 0 <= i < plan.update.len() && (#[trigger] plan.update[i]).0 == mine[k].id {
            let i = choose|i: int|
                0 <= i < plan.update.len() && (#[trigger] plan.update[i]).0 == mine[k].id;
            let j = lemma_update_origin(desired, mine, desired.len() as int, i);
            let s = dns::position(held, desired[j].identity(), dns::rank(desired, j));
            assert(s == k);
            dns::lemma_rank_is_unique(desired, j, p);
        }
    } else {
        lemma_delete_covers(desired, mine, mine.len() as int, k);
    }
}

proof fn lemma_count_agrees(
    a: Seq<DnsRecordModel>,
    b: Seq<DnsRecordModel>,
    id: Identity,
    n: int,
)
    requires
        n <= a.len(),
        n <= b.len(),
        forall|i: int| 0 <= i < n ==> a[i] == b[i],
    ensures
        dns::count(a, id, n) == dns::count(b, id, n),
    decreases n,
{
    if n > 0 {
        lemma_count_agrees(a, b, id, n - 1);
    }
}

/// Appending a record that corresponds to a desired one of the same rank keeps
/// every record twinned.
proof fn lemma_twins_push(
    desired: Seq<DnsRecordModel>,
    before: Seq<DnsRecordModel>,
    x: DnsRecordModel,
    j: int,
)
    requires
        forall|p: int| 0 <= p < before.len() ==> #[trigger] has_twin(desired, before, p),
        0 <= j < desired.len(),
        desired[j] == x,
        dns::rank(desired, j) == dns::total(before, x.identity()),
    ensures
        forall|p: int|
            0 <= p < before.push(x).len() ==> #[trigger] has_twin(desired, before.push(x), p),
        forall|id: Identity|
            #[trigger] dns::total(before.push(x), id) == dns::total(before, id) + if x.identity()
                == id {
                1nat
            } else {
                0nat
            },
{
    let now = before.push(x);
    assert forall|id: Identity| #[trigger]
        dns::total(now, id) == dns::total(before, id) + if x.identity() == id {
            1nat
        } else {
            0nat
        } by {
        lemma_count_agrees(before, now, id, before.len() as int);
    }
    assert forall|p: int| 0 <= p < now.len() implies #[trigger] has_twin(desired, now, p) by {
        if p < before.len() {
            assert(has_twin(desired, before, p));
            let t = choose|t: int| is_twin(desired, before, p, t);
            lemma_count_agrees(before, now, before[p].identity(), p);
            assert(is_twin(desired, now, p, t));
        } else {
            lemma_count_agrees(before, now, x.identity(), p);
            assert(is_twin(desired, now, p, j));
        }
    }
}

spec fn lesser(a: nat, b: nat) -> nat {
    if a < b {
        a
    } else {
        b
    }
}

proof fn lemma_settled_counts(desired: Seq<DnsRecordModel>, mine: Seq<ExistingModel>, n: int)
    requires
        0 <= n <= mine.len(),
    ensures
        forall|p: int|
            0 <= p < settled(desired, mine, n).len() ==> #[trigger] has_twin(
                desired,
                dns::contents(settled(desired, mine, n)),
                p,
            ),
        forall|id: Identity|
            #[trigger] dns::total(dns::contents(settled(desired, mine, n)), id) == lesser(
                dns::count(dns::contents(mine), id, n),
                dns::total(desired, id),
            ),
    decreases n,
{
    if n > 0 {
        lemma_settled_counts(desired, mine, n - 1);
        let before = settled(desired, mine, n - 1);
        let now = settled(desired, mine, n);
        let held = dns::contents(mine);
        let id = mine[n - 1].record.identity();
        let r = dns::rank(held, n - 1);
        assert(held[n - 1].identity() == id);
        if r < dns::total(desired, id) {
            let w = dns::lemma_rank_is_held(desired, id, r, desired.len() as int);
            assert(desired[w].identity() == id);
            let p = dns::position(desired, id, r);
            assert(0 <= p < desired.len() && desired[p].identity() == id && dns::rank(desired, p)
                == r);
            assert(dns::contents(now) =~= dns::contents(before).push(desired[p]));
            assert(dns::total(dns::contents(before), id) == lesser(
                dns::count(held, id, n - 1),
                dns::total(desired, id),
            ));
            lemma_twins_push(desired, dns::contents(before), desired[p], p);
        }
    }
}

proof fn lemma_full_counts(desired: Seq<DnsRecordModel>, mine: Seq<ExistingModel>, n: int)
    requires
        0 <= n <= desired.len(),
    ensures
        ({
            let full = dns::contents(settled(desired, mine, mine.len() as int)) + dns::to_create(
                desired,
                mine,
                n,
            );
            &&& forall|p: int| 0 <= p < full.len() ==> #[trigger] has_twin(desired, full, p)
            &&& forall|id: Identity|
                #[trigger] dns::total(full, id) == lesser(
                    dns::total(dns::contents(mine), id),
                    dns::total(desired, id),
                ) + if dns::count(desired, id, n) > dns::total(dns::contents(mine), id) {
                    (dns::count(desired, id, n) - dns::total(dns::contents(mine), id)) as nat
                } else {
                    0nat
                }
        }),
    decreases n,
{
    let kept = dns::contents(settled(desired, mine, mine.len() as int));
    if n == 0 {
        lemma_settled_counts(desired, mine, mine.len() as int);
        assert(kept + dns::to_create(desired, mine, 0) =~= kept);
    } else {
        lemma_full_counts(desired, mine, n - 1);
        let before = kept + dns::to_create(desired, mine, n - 1);
        let now = kept + dns::to_create(desired, mine, n);
        let x = desired[n - 1];
        let r = dns::rank(desired, n - 1);
        if r >= dns::total(dns::contents(mine), x.identity()) {
            assert(now =~= before.push(x));
            dns::lemma_rank_below_total(desired, n - 1);
            assert(dns::total(before, x.identity()) == r);
            lemma_twins_push(desired, before, x, n - 1);
        }
    }
}

} // verus!
