//! What is published, and what Cloudflare is asked and tells, call by call.

use crate::addr;
use crate::cloudflare;
use crate::cloudflare::{
    ApiCallModel, ApiMessageModel, ApiResponse, CloudflareError, CloudflareErrorModel,
    RecordJsonModel, SrvDataModel,
};
use crate::dns;
use crate::dns::{DnsRecordModel, ExistingModel, PlanModel};
use crate::number;
use crate::text;
use vstd::prelude::*;

verus! {

// ---- names --------------------------------------------------------------

/// A service owns its own name and every name beneath it: one that ends in a
/// dot and its name. `notmc.example.com` is not beneath `mc.example.com`.
pub proof fn law_a_service_owns_what_is_beneath_it(name: Seq<char>, fqdn: Seq<char>)
    ensures
        dns::owned(name, fqdn) <==> name == fqdn || exists|label: Seq<char>|
            name == #[trigger] (label + "."@ + fqdn),
{
    reveal_strlit(".");
    assert("."@ =~= seq!['.']);
    let beneath = seq!['.'] + fqdn;
    if beneath.is_suffix_of(name) {
        let label = name.take(name.len() - beneath.len());
        assert(name =~= label + beneath);
        assert(label + beneath =~= label + "."@ + fqdn);
    }
    if exists|label: Seq<char>| name == #[trigger] (label + "."@ + fqdn) {
        let label = choose|label: Seq<char>| name == #[trigger] (label + "."@ + fqdn);
        assert(name =~= label + beneath);
        assert(beneath =~= name.subrange(name.len() - beneath.len(), name.len() as int));
    }
}

/// Two records are one to the zone where they are of one kind and name.
pub proof fn law_identity_is_kind_and_name(a: DnsRecordModel, b: DnsRecordModel)
    ensures
        a.identity() == b.identity() <==> a.name() == b.name() && (a is A <==> b is A),
        a matches DnsRecordModel::A { name, .. } ==> a.name() == name,
        a matches DnsRecordModel::Srv { name, .. } ==> a.name() == name,
        dns::kind_text(a.kind()) == if a is A {
            "A"@
        } else {
            "SRV"@
        },
{
}

/// Retracting a service's records deletes every record that it owns, and asks
/// for nothing else.
pub proof fn law_retracting_deletes_what_is_owned(fqdn: Seq<char>, zone: Seq<ExistingModel>)
    ensures
        ({
            let plan = dns::reconciled(fqdn, Seq::empty(), zone);
            &&& plan.create.len() == 0
            &&& plan.update.len() == 0
            &&& forall|z: int|
                0 <= z < zone.len() && dns::owned((#[trigger] zone[z]).record.name(), fqdn)
                    ==> plan.delete.contains(zone[z].id)
        }),
{
    let none = Seq::<DnsRecordModel>::empty();
    let mine = dns::owned_records(zone, fqdn);
    let pred = |e: ExistingModel| dns::owned(e.record.name(), fqdn);
    let plan = dns::reconciled(fqdn, none, zone);
    crate::table::lemma_filter_members(zone, pred);
    assert forall|z: int|
        0 <= z < zone.len() && dns::owned((#[trigger] zone[z]).record.name(), fqdn) implies
        plan.delete.contains(zone[z].id) by {
        assert(zone.contains(zone[z]));
        assert(mine.contains(zone[z]));
        let k = choose|k: int| 0 <= k < mine.len() && mine[k] == zone[z];
        lemma_all_deleted(none, mine, mine.len() as int, k);
    }
}

proof fn lemma_all_deleted(
    none: Seq<DnsRecordModel>,
    mine: Seq<ExistingModel>,
    n: int,
    k: int,
)
    requires
        none.len() == 0,
        0 <= k < n <= mine.len(),
    ensures
        dns::to_delete(none, mine, n).contains(mine[k].id),
    decreases n,
{
    let all = dns::to_delete(none, mine, n);
    assert(dns::total(none, mine[n - 1].record.identity()) == 0);
    if k == n - 1 {
        assert(all.last() == mine[k].id);
    } else {
        lemma_all_deleted(none, mine, n - 1, k);
        let before = dns::to_delete(none, mine, n - 1);
        let i = choose|i: int| 0 <= i < before.len() && before[i] == mine[k].id;
        assert(all[i] == before[i]);
    }
}

// ---- what is sent -------------------------------------------------------

/// What is sent of a record is the record: its kind, name and lifetime, and the
/// address or the SRV data, never through Cloudflare's proxy.
pub proof fn law_payload_is_the_record(record: DnsRecordModel)
    ensures
        ({
            let body = cloudflare::payload_of(record);
            &&& body.name == record.name()
            &&& body.proxied == Some(false)
            &&& record matches DnsRecordModel::A { address, ttl, .. } ==> {
                &&& body.kind == "A"@
                &&& body.ttl == ttl
                &&& body.data is None
                &&& body.content matches Some(content) && addr::ipv4_read(content) == Some(address)
            }
            &&& record matches DnsRecordModel::Srv { target, port, priority, weight, ttl, .. } ==> {
                &&& body.kind == "SRV"@
                &&& body.ttl == ttl
                &&& body.content is None
                &&& body.data == Some(SrvDataModel { priority, weight, port, target })
            }
        }),
{
    if let DnsRecordModel::A { address, .. } = record {
        addr::law_ipv4_round_trip(address);
    }
}

/// A listed record is understood where it is an address that can be read, or an
/// SRV record with its data; anything else is not one of ours.
pub proof fn law_listed_records_are_understood(json: RecordJsonModel)
    ensures
        json.kind == "A"@ ==> cloudflare::record_of(json) == match addr::ipv4_read(json.content) {
            Some(address) => Some(
                DnsRecordModel::A { name: json.name, address, ttl: json.ttl },
            ),
            None => None,
        },
        json.kind == "SRV"@ ==> cloudflare::record_of(json) == match json.data {
            Some(d) => Some(
                DnsRecordModel::Srv {
                    name: json.name,
                    target: d.target,
                    port: d.port,
                    priority: d.priority,
                    weight: d.weight,
                    ttl: json.ttl,
                },
            ),
            None => None,
        },
        json.kind != "A"@ && json.kind != "SRV"@ ==> cloudflare::record_of(json) is None,
{
    reveal_strlit("A");
    reveal_strlit("SRV");
    assert("A"@.len() != "SRV"@.len());
}

/// A record that is understood.
pub open spec fn understood() -> spec_fn(RecordJsonModel) -> bool {
    |json: RecordJsonModel| cloudflare::record_of(json) is Some
}

/// Of a page, every record that is understood is kept, in its order and under
/// its id; the others are passed over.
pub proof fn law_every_understood_record_is_kept(page: Seq<RecordJsonModel>)
    ensures
        ({
            let kept = cloudflare::managed(page);
            let ours = page.filter(understood());
            &&& kept.len() == ours.len()
            &&& forall|k: int|
                0 <= k < kept.len() ==> (#[trigger] kept[k]).id == ours[k].id && Some(kept[k].record)
                    == cloudflare::record_of(ours[k])
        }),
    decreases page.len(),
{
    reveal(Seq::filter);
    if page.len() > 0 {
        law_every_understood_record_is_kept(page.drop_last());
        let before = cloudflare::managed(page.drop_last());
        let kept = cloudflare::managed(page);
        let ours = page.filter(understood());
        let fewer = page.drop_last().filter(understood());
        assert forall|k: int| 0 <= k < kept.len() implies (#[trigger] kept[k]).id == ours[k].id
            && Some(kept[k].record) == cloudflare::record_of(ours[k]) by {
            if k < before.len() {
                assert(kept[k] == before[k]);
                assert(ours[k] == fewer[k]);
            }
        }
    }
}

/// A plan is carried out call by call: what is to be created is posted to the
/// zone's records, then what is to be updated is put to the record it is about,
/// then what is to be deleted is deleted there.
pub proof fn law_plan_is_carried_out_call_by_call(zone_id: Seq<char>, plan: PlanModel)
    ensures
        ({
            let calls = cloudflare::calls_of(zone_id, plan);
            let records = "https://api.cloudflare.com/client/v4/zones/"@ + zone_id + "/dns_records"@;
            let a = plan.create.len() as int;
            let b = plan.update.len() as int;
            &&& calls.len() == a + b + plan.delete.len()
            &&& forall|i: int|
                0 <= i < a ==> (#[trigger] calls[i] matches ApiCallModel::Post { url, body } && url
                    == records && body == cloudflare::payload_of(plan.create[i]))
            &&& forall|i: int|
                a <= i < a + b ==> (#[trigger] calls[i] matches ApiCallModel::Put { url, body }
                    && url == records + "/"@ + plan.update[i - a].0 && body
                    == cloudflare::payload_of(plan.update[i - a].1))
            &&& forall|i: int|
                a + b <= i < calls.len() ==> (#[trigger] calls[i] matches ApiCallModel::Delete {
                    url,
                } && url == records + "/"@ + plan.delete[i - a - b])
        }),
{
}

/// A listing asks for pages of as many records as it takes for a full one.
pub proof fn law_pages_are_asked_for_in_full(zone_id: Seq<char>, page: nat)
    ensures
        cloudflare::page_url(zone_id, page) == "https://api.cloudflare.com/client/v4/zones/"@
            + zone_id + "/dns_records"@ + ("?per_page="@ + number::decimal(
            cloudflare::PAGE_SIZE as nat,
        ) + "&page="@) + number::decimal(page),
{
    reveal_strlit("?per_page=100&page=");
    reveal_strlit("?per_page=");
    reveal_strlit("&page=");
    assert(number::decimal(100) =~= seq!['1', '0', '0']) by {
        assert(number::decimal(1) =~= seq!['1']);
        assert(number::decimal(10) =~= seq!['1', '0']);
    }
    assert("?per_page="@ + number::decimal(100) + "&page="@ =~= "?per_page=100&page="@);
}

/// Each reason is told with its code, and more than one with a semicolon
/// between; where there is none, that is said.
pub proof fn law_reasons_are_all_told(
    errors: Seq<ApiMessageModel>,
    e: ApiMessageModel,
)
    ensures
        cloudflare::rejection(Seq::empty()) == "no reason given"@,
        cloudflare::rejection(seq![e]) == e.message + " ("@ + number::signed_decimal(
            e.code as int,
        ) + ")"@,
        errors.len() > 0 ==> cloudflare::rejection(errors.push(e)) == cloudflare::rejection(errors)
            + "; "@ + cloudflare::rejection(seq![e]),
{
    if errors.len() > 0 {
        assert(errors.push(e).drop_last() =~= errors);
    }
}

/// An answer counts where it says success and has a result. Otherwise its
/// reasons are told, or that it had no result.
pub proof fn law_answers_count_where_they_succeed<T>(body: ApiResponse<T>)
    ensures
        cloudflare::accepted(body) <==> body.success && body.result is Some,
        !body.success ==> cloudflare::refusal(body) == CloudflareErrorModel::Api(
            cloudflare::rejection(text::views(body.errors@)),
        ),
        body.success && body.result is None ==> cloudflare::refusal(body)
            == CloudflareErrorModel::Api("response had no result"@),
        cloudflare::call_failure(Ok::<ApiResponse<T>, CloudflareError>(body)) is None
            <==> body.success && body.result is Some,
{
}

/// A call that did not get through has failed, with the reason it did not.
pub proof fn law_lost_calls_have_failed<T>(e: CloudflareError)
    ensures
        cloudflare::call_failure(Err::<ApiResponse<T>, CloudflareError>(e)) == Some(e@),
{
}

} // verus!
