//! What is said to Cloudflare's DNS API, and what its answers mean.
//!
//! Cloudflare is a control plane here, not a data plane. The token needs
//! `Zone:DNS:Edit` on one zone and nothing else; it cannot be scoped tighter
//! than a zone, which is exactly why reconciliation refuses to touch names
//! outside the service it was given.
//!
//! Every record written is `proxied: false`. The orange cloud will not carry
//! TCP 25565, so proxying a game record does not hide the origin, it breaks
//! the game.

use crate::addr;
use crate::addr::Ipv4Addr;
use crate::dns::{DnsPlan, DnsRecord, DnsRecordModel, ExistingModel, ExistingRecord, PlanModel};
use crate::number;
use crate::text;
use vstd::prelude::*;

verus! {

/// How many records a page of a listing has, except the last.
pub const PAGE_SIZE: usize = 100;

// ---- errors -------------------------------------------------------------

#[derive(Debug, Clone)]
pub enum CloudflareError {
    Transport(String),
    Api(String),
    UnknownRecord(String),
}

/// What a [`CloudflareError`] says.
pub enum CloudflareErrorModel {
    Transport(Seq<char>),
    Api(Seq<char>),
    UnknownRecord(Seq<char>),
}

impl View for CloudflareError {
    type V = CloudflareErrorModel;

    open spec fn view(&self) -> CloudflareErrorModel {
        match *self {
            CloudflareError::Transport(s) => CloudflareErrorModel::Transport(s@),
            CloudflareError::Api(s) => CloudflareErrorModel::Api(s@),
            CloudflareError::UnknownRecord(s) => CloudflareErrorModel::UnknownRecord(s@),
        }
    }
}

/// How the error reads.
pub open spec fn cloudflare_error_text(e: CloudflareErrorModel) -> Seq<char> {
    match e {
        CloudflareErrorModel::Transport(s) => "cloudflare request failed: "@ + s,
        CloudflareErrorModel::Api(s) => "cloudflare rejected the request: "@ + s,
        CloudflareErrorModel::UnknownRecord(s) =>
            "cloudflare returned a record this gateway does not understand: "@ + s,
    }
}

impl CloudflareError {
    /// How the error reads.
    pub fn to_string(&self) -> (r: String)
        ensures
            r@ == cloudflare_error_text(self@),
    {
        match self {
            CloudflareError::Transport(s) => {
                let mut out = "cloudflare request failed: ".to_owned();
                out.append(s.as_str());
                out
            },
            CloudflareError::Api(s) => {
                let mut out = "cloudflare rejected the request: ".to_owned();
                out.append(s.as_str());
                out
            },
            CloudflareError::UnknownRecord(s) => {
                let mut out =
                    "cloudflare returned a record this gateway does not understand: ".to_owned();
                out.append(s.as_str());
                out
            },
        }
    }
}

// ---- answers ------------------------------------------------------------

/// The envelope of every answer.
#[derive(Debug)]
pub struct ApiResponse<T> {
    pub success: bool,
    pub errors: Vec<ApiMessage>,
    pub result: Option<T>,
}

#[derive(Debug)]
pub struct ApiMessage {
    pub code: i64,
    pub message: String,
}

/// What an [`ApiMessage`] says.
pub struct ApiMessageModel {
    pub code: i64,
    pub message: Seq<char>,
}

impl View for ApiMessage {
    type V = ApiMessageModel;

    open spec fn view(&self) -> ApiMessageModel {
        ApiMessageModel { code: self.code, message: self.message@ }
    }
}

/// How one reason reads.
pub open spec fn reason_text(e: ApiMessageModel) -> Seq<char> {
    e.message + " ("@ + number::signed_decimal(e.code as int) + ")"@
}

/// How several reasons read.
pub open spec fn reasons_text(errors: Seq<ApiMessageModel>) -> Seq<char>
    decreases errors.len(),
{
    if errors.len() == 0 {
        Seq::empty()
    } else if errors.len() == 1 {
        reason_text(errors[0])
    } else {
        reasons_text(errors.drop_last()) + "; "@ + reason_text(errors.last())
    }
}

/// Why an answer that is no success was given.
pub open spec fn rejection(errors: Seq<ApiMessageModel>) -> Seq<char> {
    if errors.len() == 0 {
        "no reason given"@
    } else {
        reasons_text(errors)
    }
}

fn push_reason(out: &mut String, e: &ApiMessage)
    ensures
        final(out)@ == old(out)@ + reason_text(e@),
{
    out.append(e.message.as_str());
    out.append(" (");
    number::push_signed_decimal(out, e.code);
    out.append(")");
    proof {
        assert(out@ =~= old(out)@ + reason_text(e@));
    }
}

fn describe_rejection(errors: &Vec<ApiMessage>) -> (r: String)
    ensures
        r@ == rejection(text::views(errors@)),
{
    let ghost all = text::views(errors@);
    if errors.len() == 0 {
        return "no reason given".to_owned();
    }
    let mut out = String::new();
    push_reason(&mut out, &errors[0]);
    let mut i: usize = 1;
    proof {
        assert(all.take(1)[0] == errors@[0]@);
        assert(out@ =~= reasons_text(all.take(1)));
    }
    while i < errors.len()
        invariant
            1 <= i <= errors@.len(),
            all == text::views(errors@),
            out@ == reasons_text(all.take(i as int)),
        decreases errors@.len() - i,
    {
        proof {
            text::lemma_views_step(errors@, i as int);
        }
        out.append("; ");
        push_reason(&mut out, &errors[i]);
        i += 1;
    }
    proof {
        assert(all.take(i as int) =~= all);
    }
    out
}

/// Whether an answer has a result.
pub open spec fn accepted<T>(body: ApiResponse<T>) -> bool {
    body.success && body.result is Some
}

/// What is said of an answer that has none.
pub open spec fn refusal<T>(body: ApiResponse<T>) -> CloudflareErrorModel {
    CloudflareErrorModel::Api(
        if !body.success {
            rejection(text::views(body.errors@))
        } else {
            "response had no result"@
        },
    )
}

/// The result of an answer, or why there is none.
pub fn unwrap_response<T>(body: ApiResponse<T>) -> (r: Result<T, CloudflareError>)
    ensures
        match r {
            Ok(result) => accepted(body) && body.result == Some(result),
            Err(e) => !accepted(body) && e@ == refusal(body),
        },
{
    if !body.success {
        return Err(CloudflareError::Api(describe_rejection(&body.errors)));
    }
    match body.result {
        Some(result) => Ok(result),
        None => Err(CloudflareError::Api("response had no result".to_owned())),
    }
}

// ---- records ------------------------------------------------------------

/// A record as Cloudflare lists it.
#[derive(Debug)]
pub struct RecordJson {
    pub id: String,
    pub kind: String,
    pub name: String,
    pub content: String,
    pub ttl: u32,
    pub data: Option<SrvData>,
}

/// What a [`RecordJson`] says.
pub struct RecordJsonModel {
    pub id: Seq<char>,
    pub kind: Seq<char>,
    pub name: Seq<char>,
    pub content: Seq<char>,
    pub ttl: u32,
    pub data: Option<SrvDataModel>,
}

impl View for RecordJson {
    type V = RecordJsonModel;

    open spec fn view(&self) -> RecordJsonModel {
        RecordJsonModel {
            id: self.id@,
            kind: self.kind@,
            name: self.name@,
            content: self.content@,
            ttl: self.ttl,
            data: text::opt_view(self.data),
        }
    }
}

/// The parts of an SRV record, nested where Cloudflare wants them.
#[derive(Debug, Clone, PartialEq, Eq)]
pub struct SrvData {
    pub priority: u16,
    pub weight: u16,
    pub port: u16,
    pub target: String,
}

/// What an [`SrvData`] says.
pub struct SrvDataModel {
    pub priority: u16,
    pub weight: u16,
    pub port: u16,
    pub target: Seq<char>,
}

impl View for SrvData {
    type V = SrvDataModel;

    open spec fn view(&self) -> SrvDataModel {
        SrvDataModel {
            priority: self.priority,
            weight: self.weight,
            port: self.port,
            target: self.target@,
        }
    }
}

/// The body of a request that writes a record. What is `None` is left out.
#[derive(Debug, Clone, PartialEq, Eq)]
pub struct Payload {
    pub kind: String,
    pub name: String,
    pub content: Option<String>,
    pub ttl: u32,
    pub proxied: Option<bool>,
    pub data: Option<SrvData>,
}

/// What a [`Payload`] says.
pub struct PayloadModel {
    pub kind: Seq<char>,
    pub name: Seq<char>,
    pub content: Option<Seq<char>>,
    pub ttl: u32,
    pub proxied: Option<bool>,
    pub data: Option<SrvDataModel>,
}

impl View for Payload {
    type V = PayloadModel;

    open spec fn view(&self) -> PayloadModel {
        PayloadModel {
            kind: self.kind@,
            name: self.name@,
            content: text::opt_view(self.content),
            ttl: self.ttl,
            proxied: self.proxied,
            data: text::opt_view(self.data),
        }
    }
}

/// Cloudflare's body for a record.
pub open spec fn payload_of(record: DnsRecordModel) -> PayloadModel {
    match record {
        DnsRecordModel::A { name, address, ttl } => PayloadModel {
            kind: "A"@,
            name,
            content: Some(addr::ipv4_text(address)),
            ttl,
            proxied: Some(false),
            data: None,
        },
        DnsRecordModel::Srv { name, target, port, priority, weight, ttl } => PayloadModel {
            kind: "SRV"@,
            name,
            content: None,
            ttl,
            proxied: Some(false),
            data: Some(SrvDataModel { priority, weight, port, target }),
        },
    }
}

/// Convert a record into Cloudflare's body.
pub fn to_payload(record: &DnsRecord) -> (r: Payload)
    ensures
        r@ == payload_of(record@),
{
    match record {
        DnsRecord::A { name, address, ttl } => Payload {
            kind: "A".to_owned(),
            name: name.clone(),
            content: Some(address.to_string()),
            ttl: *ttl,
            proxied: Some(record.proxied()),
            data: None,
        },
        DnsRecord::Srv { name, target, port, priority, weight, ttl } => Payload {
            kind: "SRV".to_owned(),
            name: name.clone(),
            content: None,
            ttl: *ttl,
            proxied: Some(record.proxied()),
            data: Some(
                SrvData {
                    priority: *priority,
                    weight: *weight,
                    port: *port,
                    target: target.clone(),
                },
            ),
        },
    }
}

/// The record that Cloudflare lists, as this gateway models it; `None` for
/// what it does not manage.
pub open spec fn record_of(json: RecordJsonModel) -> Option<DnsRecordModel> {
    if json.kind == "A"@ {
        match addr::ipv4_read(json.content) {
            Some(address) => Some(
                DnsRecordModel::A { name: json.name, address, ttl: json.ttl },
            ),
            None => None,
        }
    } else if json.kind == "SRV"@ {
        match json.data {
            Some(data) => Some(
                DnsRecordModel::Srv {
                    name: json.name,
                    target: data.target,
                    port: data.port,
                    priority: data.priority,
                    weight: data.weight,
                    ttl: json.ttl,
                },
            ),
            None => None,
        }
    } else {
        None
    }
}

/// The record that Cloudflare lists, as this gateway models it.
pub fn to_dns_record(json: &RecordJson) -> (r: Option<DnsRecord>)
    ensures
        text::opt_view(r) == record_of(json@),
{
    if text::same_text(json.kind.as_str(), "A") {
        match Ipv4Addr::parse(json.content.as_str()) {
            Some(address) => Some(
                DnsRecord::A { name: json.name.clone(), address, ttl: json.ttl },
            ),
            None => None,
        }
    } else if text::same_text(json.kind.as_str(), "SRV") {
        match &json.data {
            Some(data) => Some(
                DnsRecord::Srv {
                    name: json.name.clone(),
                    target: data.target.clone(),
                    port: data.port,
                    priority: data.priority,
                    weight: data.weight,
                    ttl: json.ttl,
                },
            ),
            None => None,
        }
    } else {
        None
    }
}

/// What Cloudflare lists of a record that was written.
pub open spec fn listed(id: Seq<char>, body: PayloadModel) -> RecordJsonModel {
    RecordJsonModel {
        id,
        kind: body.kind,
        name: body.name,
        content: match body.content {
            Some(content) => content,
            None => Seq::empty(),
        },
        ttl: body.ttl,
        data: body.data,
    }
}

/// A record that was written is read back as it was.
pub proof fn law_records_round_trip(id: Seq<char>, record: DnsRecordModel)
    ensures
        record_of(listed(id, payload_of(record))) == Some(record),
{
    reveal_strlit("A");
    reveal_strlit("SRV");
    assert("A"@.len() != "SRV"@.len());
    if let DnsRecordModel::A { name, address, ttl } = record {
        addr::law_ipv4_round_trip(address);
    }
}

/// Every record written says that it is not proxied: the orange cloud cannot
/// carry a game port.
pub proof fn law_nothing_is_proxied(record: DnsRecordModel)
    ensures
        payload_of(record).proxied == Some(false),
{
}

// ---- requests -----------------------------------------------------------

/// The zone that is written to, and the token that allows it.
#[derive(Debug, Clone)]
pub struct Cloudflare {
    pub zone_id: String,
    pub token: String,
}

/// Where the records of a zone are.
pub open spec fn records_url(zone_id: Seq<char>) -> Seq<char> {
    "https://api.cloudflare.com/client/v4/zones/"@ + zone_id + "/dns_records"@
}

/// Where one record is.
pub open spec fn record_url(zone_id: Seq<char>, id: Seq<char>) -> Seq<char> {
    records_url(zone_id) + "/"@ + id
}

/// Where a page of the listing is.
pub open spec fn page_url(zone_id: Seq<char>, page: nat) -> Seq<char> {
    records_url(zone_id) + "?per_page=100&page="@ + number::decimal(page)
}

/// One call to the API.
#[derive(Debug, Clone, PartialEq, Eq)]
pub enum ApiCall {
    Post { url: String, body: Payload },
    Put { url: String, body: Payload },
    Delete { url: String },
}

/// What an [`ApiCall`] says.
pub enum ApiCallModel {
    Post { url: Seq<char>, body: PayloadModel },
    Put { url: Seq<char>, body: PayloadModel },
    Delete { url: Seq<char> },
}

impl View for ApiCall {
    type V = ApiCallModel;

    open spec fn view(&self) -> ApiCallModel {
        match *self {
            ApiCall::Post { url, body } => ApiCallModel::Post { url: url@, body: body@ },
            ApiCall::Put { url, body } => ApiCallModel::Put { url: url@, body: body@ },
            ApiCall::Delete { url } => ApiCallModel::Delete { url: url@ },
        }
    }
}

/// The calls that carry out a plan: what is created, then what is updated,
/// then what is deleted.
pub open spec fn calls_of(zone_id: Seq<char>, plan: PlanModel) -> Seq<ApiCallModel> {
    Seq::new(
        plan.create.len(),
        |i: int|
            ApiCallModel::Post { url: records_url(zone_id), body: payload_of(plan.create[i]) },
    ) + Seq::new(
        plan.update.len(),
        |i: int|
            ApiCallModel::Put {
                url: record_url(zone_id, plan.update[i].0),
                body: payload_of(plan.update[i].1),
            },
    ) + Seq::new(
        plan.delete.len(),
        |i: int| ApiCallModel::Delete { url: record_url(zone_id, plan.delete[i]) },
    )
}

impl Cloudflare {
    pub fn new(zone_id: String, token: String) -> (r: Cloudflare)
        ensures
            r.zone_id@ == zone_id@,
            r.token@ == token@,
    {
        Cloudflare { zone_id, token }
    }

    fn records_url(&self) -> (r: String)
        ensures
            r@ == records_url(self.zone_id@),
    {
        let mut out = "https://api.cloudflare.com/client/v4/zones/".to_owned();
        out.append(self.zone_id.as_str());
        out.append("/dns_records");
        out
    }

    fn record_url(&self, id: &str) -> (r: String)
        ensures
            r@ == record_url(self.zone_id@, id@),
    {
        let mut out = self.records_url();
        out.append("/");
        out.append(id);
        out
    }

    /// The calls that carry out a plan.
    pub fn calls(&self, plan: &DnsPlan) -> (r: Vec<ApiCall>)
        ensures
            text::views(r@) == calls_of(self.zone_id@, plan@),
    {
        let ghost want = calls_of(self.zone_id@, plan@);
        let mut out: Vec<ApiCall> = Vec::new();
        let mut i: usize = 0;
        while i < plan.create.len()
            invariant
                i <= plan.create@.len(),
                want == calls_of(self.zone_id@, plan@),
                out@.len() == i,
                forall|k: int| 0 <= k < out@.len() ==> (#[trigger] out@[k])@ == want[k],
            decreases plan.create@.len() - i,
        {
            let call = ApiCall::Post { url: self.records_url(), body: to_payload(&plan.create[i]) };
            proof {
                assert(plan@.create[i as int] == plan.create@[i as int]@);
                assert(call@ == want[i as int]);
            }
            out.push(call);
            i += 1;
        }
        let mut i: usize = 0;
        while i < plan.update.len()
            invariant
                i <= plan.update@.len(),
                want == calls_of(self.zone_id@, plan@),
                out@.len() == plan.create@.len() + i,
                forall|k: int| 0 <= k < out@.len() ==> (#[trigger] out@[k])@ == want[k],
            decreases plan.update@.len() - i,
        {
            let call = ApiCall::Put {
                url: self.record_url(plan.update[i].0.as_str()),
                body: to_payload(&plan.update[i].1),
            };
            proof {
                assert(plan@.update[i as int] == plan.update@[i as int]@);
                assert(call@ == want[plan@.create.len() + i]);
            }
            out.push(call);
            i += 1;
        }
        let mut i: usize = 0;
        while i < plan.delete.len()
            invariant
                i <= plan.delete@.len(),
                want == calls_of(self.zone_id@, plan@),
                out@.len() == plan.create@.len() + plan.update@.len() + i,
                forall|k: int| 0 <= k < out@.len() ==> (#[trigger] out@[k])@ == want[k],
            decreases plan.delete@.len() - i,
        {
            let call = ApiCall::Delete { url: self.record_url(plan.delete[i].as_str()) };
            proof {
                assert(plan@.delete[i as int] == plan.delete@[i as int]@);
                assert(call@ == want[plan@.create.len() + plan@.update.len() + i]);
            }
            out.push(call);
            i += 1;
        }
        proof {
            assert(text::views(out@) =~= want);
        }
        out
    }
}

// ---- carrying out a plan ------------------------------------------------

/// What to do after a call was answered.
#[derive(Debug)]
pub enum ApplyStep {
    /// Send the next call.
    SendNext,
    /// Every call was carried out.
    Done,
    /// Send nothing more.
    Stop(CloudflareError),
}

/// What an [`ApplyStep`] says.
pub enum ApplyStepModel {
    SendNext,
    Done,
    Stop(CloudflareErrorModel),
}

impl View for ApplyStep {
    type V = ApplyStepModel;

    open spec fn view(&self) -> ApplyStepModel {
        match *self {
            ApplyStep::SendNext => ApplyStepModel::SendNext,
            ApplyStep::Done => ApplyStepModel::Done,
            ApplyStep::Stop(e) => ApplyStepModel::Stop(e@),
        }
    }
}

/// Why a call was not carried out: it could not be sent, or its answer has no
/// result.
pub open spec fn call_failure<T>(answer: Result<ApiResponse<T>, CloudflareError>) -> Option<
    CloudflareErrorModel,
> {
    match answer {
        Err(e) => Some(e@),
        Ok(body) => if accepted(body) {
            None
        } else {
            Some(refusal(body))
        },
    }
}

/// What to do after a call was answered, with this many left to send.
pub open spec fn step_after<T>(left: nat, answer: Result<ApiResponse<T>, CloudflareError>) ->
    ApplyStepModel {
    match call_failure(answer) {
        Some(e) => ApplyStepModel::Stop(e),
        None => if left == 0 {
            ApplyStepModel::Done
        } else {
            ApplyStepModel::SendNext
        },
    }
}

/// What to do after a call was answered, with this many left to send. The
/// first failure ends it: the next reconciliation starts from what the zone
/// then holds.
pub fn after_call<T>(left: usize, answer: Result<ApiResponse<T>, CloudflareError>) -> (r: ApplyStep)
    ensures
        r@ == step_after(left as nat, answer),
{
    let body = match answer {
        Ok(body) => body,
        Err(e) => {
            return ApplyStep::Stop(e);
        },
    };
    match unwrap_response(body) {
        Ok(_) => if left == 0 {
            ApplyStep::Done
        } else {
            ApplyStep::SendNext
        },
        Err(e) => ApplyStep::Stop(e),
    }
}

/// How many calls are sent from call `i` on, and what comes of them, where
/// `answers` holds what each call would be answered.
pub open spec fn applied_from<T>(
    answers: Seq<Result<ApiResponse<T>, CloudflareError>>,
    i: int,
) -> (nat, Result<(), CloudflareErrorModel>)
    decreases answers.len() - i,
{
    if i < 0 || i >= answers.len() {
        (0, Ok(()))
    } else {
        match step_after((answers.len() - 1 - i) as nat, answers[i]) {
            ApplyStepModel::Stop(e) => (1, Err(e)),
            ApplyStepModel::Done => (1, Ok(())),
            ApplyStepModel::SendNext => {
                let (sent, r) = applied_from(answers, i + 1);
                (sent + 1, r)
            },
        }
    }
}

/// How many calls are sent, and what comes of them.
pub open spec fn applied<T>(answers: Seq<Result<ApiResponse<T>, CloudflareError>>) -> (
    nat,
    Result<(), CloudflareErrorModel>,
) {
    applied_from(answers, 0)
}

/// The first call that fails, where one does.
pub open spec fn first_failure<T>(
    answers: Seq<Result<ApiResponse<T>, CloudflareError>>,
    k: int,
) -> bool {
    &&& 0 <= k < answers.len()
    &&& call_failure(answers[k]) is Some
    &&& forall|i: int| 0 <= i < k ==> call_failure(#[trigger] answers[i]) is None
}

proof fn lemma_applied_from<T>(
    answers: Seq<Result<ApiResponse<T>, CloudflareError>>,
    i: int,
    k: int,
)
    requires
        0 <= i <= k <= answers.len(),
        forall|j: int| i <= j < k ==> call_failure(#[trigger] answers[j]) is None,
        k < answers.len() ==> call_failure(answers[k]) is Some,
    ensures
        k < answers.len() ==> applied_from(answers, i) == (
            (k - i + 1) as nat,
            Err::<(), CloudflareErrorModel>(call_failure(answers[k])->0),
        ),
        k == answers.len() ==> applied_from(answers, i) == (
            (k - i) as nat,
            Ok::<(), CloudflareErrorModel>(()),
        ),
    decreases k - i,
{
    if i < k {
        lemma_applied_from(answers, i + 1, k);
        assert(call_failure(answers[i]) is None);
        if i + 1 == answers.len() {
            assert(step_after(0, answers[i]) == ApplyStepModel::Done);
        }
    }
}

/// Carrying out a plan succeeds just where every call does. All of them are
/// sent then; otherwise nothing is sent after the first that fails, and what
/// comes of it is what comes of the whole.
pub proof fn law_first_failure_ends_it<T>(
    answers: Seq<Result<ApiResponse<T>, CloudflareError>>,
)
    ensures
        applied(answers).1 is Ok <==> (forall|i: int|
            0 <= i < answers.len() ==> call_failure(#[trigger] answers[i]) is None),
        applied(answers).1 is Ok ==> applied(answers).0 == answers.len(),
        forall|k: int| #[trigger]
            first_failure(answers, k) ==> applied(answers) == (
                (k + 1) as nat,
                Err::<(), CloudflareErrorModel>(call_failure(answers[k])->0),
            ),
{
    assert forall|k: int| #[trigger] first_failure(answers, k) implies applied(answers) == (
        (k + 1) as nat,
        Err::<(), CloudflareErrorModel>(call_failure(answers[k])->0),
    ) by {
        lemma_applied_from(answers, 0, k);
    }
    if forall|i: int| 0 <= i < answers.len() ==> call_failure(#[trigger] answers[i]) is None {
        lemma_applied_from(answers, 0, answers.len() as int);
    } else {
        let i = choose|i: int|
            0 <= i < answers.len() && call_failure(#[trigger] answers[i]) is Some;
        let k = lemma_first_failure(answers, i);
        assert(first_failure(answers, k));
    }
}

proof fn lemma_first_failure<T>(
    answers: Seq<Result<ApiResponse<T>, CloudflareError>>,
    n: int,
) -> (k: int)
    requires
        0 <= n < answers.len(),
        call_failure(answers[n]) is Some,
    ensures
        first_failure(answers, k),
    decreases n,
{
    if exists|i: int| 0 <= i < n && call_failure(#[trigger] answers[i]) is Some {
        let i = choose|i: int| 0 <= i < n && call_failure(#[trigger] answers[i]) is Some;
        lemma_first_failure(answers, i)
    } else {
        n
    }
}

/// An empty plan sends nothing, and any other sends something.
pub proof fn law_empty_plan_sends_nothing(zone_id: Seq<char>, plan: PlanModel)
    ensures
        calls_of(zone_id, plan).len() == plan.create.len() + plan.update.len() + plan.delete.len(),
        calls_of(zone_id, plan).len() == 0 <==> plan.is_empty(),
{
}

// ---- listing ------------------------------------------------------------

/// The records that a page lists, as this gateway models them.
///
/// Types the gateway does not manage (MX, TXT, CNAME…) are skipped rather than
/// reported: they belong to the operator, and reconciliation must be able to
/// see past them without opinions.
pub open spec fn managed(page: Seq<RecordJsonModel>) -> Seq<ExistingModel>
    decreases page.len(),
{
    if page.len() == 0 {
        Seq::empty()
    } else {
        let before = managed(page.drop_last());
        match record_of(page.last()) {
            Some(record) => before.push(ExistingModel { id: page.last().id, record }),
            None => before,
        }
    }
}

/// A listing under way, page by page.
#[derive(Debug)]
pub struct Listing {
    page: u32,
    found: Vec<ExistingRecord>,
}

impl Listing {
    /// The number of the page that comes next; the first is 1.
    pub closed spec fn next_page(self) -> u32 {
        self.page
    }

    /// What was found so far.
    pub closed spec fn so_far(self) -> Seq<ExistingModel> {
        text::views(self.found@)
    }

    /// A listing before its first page.
    pub fn new() -> (r: Listing)
        ensures
            r.next_page() == 1,
            r.so_far() == Seq::<ExistingModel>::empty(),
    {
        let r = Listing { page: 1, found: Vec::new() };
        proof {
            assert(r.so_far() =~= Seq::<ExistingModel>::empty());
        }
        r
    }

    /// Where the next page is.
    pub fn url(&self, cloudflare: &Cloudflare) -> (r: String)
        ensures
            r@ == page_url(cloudflare.zone_id@, self.next_page() as nat),
    {
        let mut out = cloudflare.records_url();
        out.append("?per_page=100&page=");
        number::push_decimal(&mut out, self.page as u64);
        out
    }

    /// Takes the answer for the next page and says whether another follows: a
    /// full page may have one after it, any other is the last.
    pub fn take_page(&mut self, body: ApiResponse<Vec<RecordJson>>) -> (r: Result<
        bool,
        CloudflareError,
    >)
        ensures
            accepted(body) <==> r is Ok,
            match r {
                Ok(more) => {
                    let page = text::views(body.result->0@);
                    &&& final(self).so_far() == old(self).so_far() + managed(page)
                    &&& more == (page.len() >= PAGE_SIZE)
                    &&& final(self).next_page() as int == if more {
                        (old(self).next_page() + 1) % 0x1_0000_0000
                    } else {
                        old(self).next_page() as int
                    }
                },
                Err(e) => *final(self) == *old(self) && e@ == refusal(body),
            },
    {
        let records = match unwrap_response(body) {
            Ok(records) => records,
            Err(e) => {
                return Err(e);
            },
        };
        let ghost all = text::views(records@);
        let ghost before = self.so_far();
        let mut i: usize = 0;
        proof {
            assert(all.take(0) =~= Seq::<RecordJsonModel>::empty());
            assert(before + managed(all.take(0)) =~= before);
        }
        while i < records.len()
            invariant
                i <= records@.len(),
                all == text::views(records@),
                self.page == old(self).page,
                self.so_far() == before + managed(all.take(i as int)),
            decreases records@.len() - i,
        {
            proof {
                text::lemma_views_step(records@, i as int);
            }
            if let Some(record) = to_dns_record(&records[i]) {
                let found = ExistingRecord { id: records[i].id.clone(), record };
                proof {
                    text::lemma_views_push(self.found@, found);
                }
                self.found.push(found);
            }
            proof {
                assert(self.so_far() =~= before + managed(all.take(i + 1)));
            }
            i += 1;
        }
        proof {
            assert(all.take(i as int) =~= all);
        }
        if records.len() < PAGE_SIZE {
            return Ok(false);
        }
        self.page = self.page.wrapping_add(1);
        Ok(true)
    }

    /// What was found.
    pub fn finish(self) -> (r: Vec<ExistingRecord>)
        ensures
            text::views(r@) == self.so_far(),
    {
        self.found
    }
}

} // verus!
