//! The broker's tasks: which are taken, and when an order is not repeated.

use vstd::prelude::*;
use vstd::string::*;
use vstd::utf8::encode_utf8;

use crate::json::{text_field, Json, JsonValue};
use crate::text::{alnum, is_alnum, outcome, same_text, to_chars};
use crate::upbit_broker::endpoint::{method_name, AllowedEndpoint};
use crate::upbit_broker::request::{PreparedRequest, UpbitHttpRequest};
use crate::upbit_broker::wire::{
    build_raw_query_string, hex_tells_bytes_apart, raw_query, sha256, sha256_hex, text_digest,
};

verus! {

/// Whether a payload is a task for the broker.
pub open spec fn names_broker(payload: Json) -> bool {
    text_field(payload, "type"@) == Some("upbit_proxy_request"@)
}

/// Whether a payload is a task for the broker.
pub fn is_upbit_proxy_request(payload: &JsonValue) -> (yes: bool)
    ensures
        yes == names_broker(payload@),
{
    match payload.get_text("type") {
        Some(name) => same_text(name, "upbit_proxy_request"),
        None => false,
    }
}

/// A task for the broker.
#[derive(Debug)]
pub struct UpbitProxyTask {
    pub task_type: String,
    pub request_id: String,
    pub action: String,
    pub request: UpbitHttpRequest,
}

pub open spec fn is_id_char(c: char) -> bool {
    is_alnum(c) || c == '-' || c == '_'
}

/// A request id is not empty and holds only letters, digits, `-` and `_`.
pub open spec fn request_id_checked(id: Seq<char>) -> Result<(), Seq<char>> {
    if id.len() == 0 {
        Err("request_id is required."@)
    } else if exists|i: int| 0 <= i < id.len() && !is_id_char(#[trigger] id[i]) {
        Err("request_id contains unsupported characters."@)
    } else {
        Ok(())
    }
}

/// Checks a request id.
pub fn validate_request_id(request_id: &str) -> (checked: Result<(), String>)
    ensures
        outcome(checked) == request_id_checked(request_id@),
{
    if request_id.is_empty() {
        return Err("request_id is required.".to_owned());
    }
    let chars = to_chars(request_id);
    let mut i: usize = 0;
    while i < chars.len()
        invariant
            i <= chars@.len(),
            chars@ == request_id@,
            chars@.len() > 0,
            forall|k: int| 0 <= k < i ==> is_id_char(#[trigger] chars@[k]),
        decreases chars@.len() - i,
    {
        let c = chars[i];
        if !(alnum(c) || c == '-' || c == '_') {
            proof {
                assert(!is_id_char(request_id@[i as int]));
            }
            return Err("request_id contains unsupported characters.".to_owned());
        }
        i += 1;
    }
    Ok(())
}

/// A task has the broker's type and action and a good request id.
pub open spec fn task_checked(
    task_type: Seq<char>,
    action: Seq<char>,
    request_id: Seq<char>,
) -> Result<(), Seq<char>> {
    if task_type != "upbit_proxy_request"@ {
        Err("unexpected upbit proxy task type: "@ + task_type)
    } else if action != "http_request"@ {
        Err("unsupported upbit proxy action: "@ + action)
    } else {
        request_id_checked(request_id)
    }
}

/// Checks a task.
pub fn check_proxy_task(task: &UpbitProxyTask) -> (checked: Result<(), String>)
    ensures
        outcome(checked) == task_checked(task.task_type@, task.action@, task.request_id@),
{
    if !same_text(task.task_type.as_str(), "upbit_proxy_request") {
        return Err(
            "unexpected upbit proxy task type: ".to_owned().concat(task.task_type.as_str()),
        );
    }
    if !same_text(task.action.as_str(), "http_request") {
        return Err("unsupported upbit proxy action: ".to_owned().concat(task.action.as_str()));
    }
    validate_request_id(task.request_id.as_str())
}

// ---------------------------------------------------------------------------
// Real orders are placed once
// ---------------------------------------------------------------------------

/// What was answered to a real order.
#[derive(Debug)]
pub struct IdempotencyRecord {
    pub idempotency_key: String,
    pub request_hash: String,
    pub response: JsonValue,
    pub created_at: String,
}

/// An order written out: method, path and body.
pub open spec fn order_text(request: PreparedRequest) -> Seq<char> {
    method_name(request.method) + ":"@ + request.path@ + ":"@ + raw_query(
        request.body_pairs.deep_view(),
    )
}

/// What tells two orders apart: the digest of method, path and body.
pub open spec fn order_fingerprint(request: PreparedRequest) -> Seq<char> {
    text_digest(order_text(request))
}

/// What tells two orders apart: the digest of method, path and body.
pub fn request_fingerprint(request: &PreparedRequest) -> (hash: String)
    ensures
        hash@ == order_fingerprint(*request),
{
    let body = build_raw_query_string(&request.body_pairs);
    let text = request.method.as_str().to_owned().concat(":").concat(
        request.path.as_str(),
    ).concat(":").concat(body.as_str());
    sha256_hex(text.as_str())
}

/// The name of the file that keeps the answer to a real order.
pub open spec fn record_file_name(key: Seq<char>) -> Seq<char> {
    text_digest(key) + ".json"@
}

/// The name of the file that keeps the answer to a real order.
pub fn idempotency_file_name(key: &str) -> (name: String)
    ensures
        name@ == record_file_name(key@),
{
    sha256_hex(key).concat(".json")
}

/// What a request does before it is sent.
#[derive(Debug)]
pub enum Execution {
    /// Send it; the answer is not kept.
    Send,
    /// Send it and keep the answer under the key.
    SendAndRecord { key: String, hash: String },
    /// It was sent before: this was the answer.
    Replay { response: JsonValue },
    /// It must not be sent.
    Refuse { message: String },
}

/// The content of an [`Execution`].
pub enum ExecutionView {
    Send,
    SendAndRecord { key: Seq<char>, hash: Seq<char> },
    Replay { response: Json },
    Refuse { message: Seq<char> },
}

impl View for Execution {
    type V = ExecutionView;

    open spec fn view(&self) -> ExecutionView {
        match *self {
            Execution::Send => ExecutionView::Send,
            Execution::SendAndRecord { key, hash } => ExecutionView::SendAndRecord {
                key: key@,
                hash: hash@,
            },
            Execution::Replay { response } => ExecutionView::Replay { response: response@ },
            Execution::Refuse { message } => ExecutionView::Refuse { message: message@ },
        }
    }
}

/// Only a real order is looked up: without a key it is refused, a repeated one
/// is answered as before, and another order under the same key is refused.
pub open spec fn execution_of(
    endpoint: AllowedEndpoint,
    key: Option<Seq<char>>,
    hash: Seq<char>,
    record: Option<(Seq<char>, Json)>,
) -> ExecutionView {
    if endpoint != AllowedEndpoint::OrderCreate {
        ExecutionView::Send
    } else {
        match key {
            None => ExecutionView::Refuse {
                message: "real order requires identifier for idempotency."@,
            },
            Some(key) => match record {
                None => ExecutionView::SendAndRecord { key, hash },
                Some((recorded, response)) => if recorded != hash {
                    ExecutionView::Refuse {
                        message: "identifier already used with a different order payload."@,
                    }
                } else {
                    ExecutionView::Replay { response }
                },
            },
        }
    }
}

pub open spec fn record_content(record: Option<IdempotencyRecord>) -> Option<(Seq<char>, Json)> {
    match record {
        Some(record) => Some((record.request_hash@, record.response@)),
        None => None,
    }
}

/// What a request does before it is sent, given what is recorded under its key.
pub fn plan_execution(request: &PreparedRequest, record: Option<IdempotencyRecord>) -> (plan:
    Execution)
    ensures
        plan@ == execution_of(
            request.endpoint,
            request.idempotency_key.deep_view(),
            order_fingerprint(*request),
            record_content(record),
        ),
{
    if request.endpoint != AllowedEndpoint::OrderCreate {
        return Execution::Send;
    }
    let hash = request_fingerprint(request);
    decide_order(request.idempotency_key.clone(), hash, record)
}

/// What a real order does before it is sent, given its key and fingerprint and
/// what is recorded under the key.
pub fn decide_order(key: Option<String>, hash: String, record: Option<IdempotencyRecord>) -> (plan:
    Execution)
    ensures
        plan@ == execution_of(
            AllowedEndpoint::OrderCreate,
            key.deep_view(),
            hash@,
            record_content(record),
        ),
{
    let key = match key {
        None => {
            return Execution::Refuse {
                message: "real order requires identifier for idempotency.".to_owned(),
            };
        },
        Some(key) => key,
    };
    match record {
        None => Execution::SendAndRecord { key, hash },
        Some(record) => {
            if !same_text(record.request_hash.as_str(), hash.as_str()) {
                return Execution::Refuse {
                    message: "identifier already used with a different order payload.".to_owned(),
                };
            }
            Execution::Replay { response: record.response }
        },
    }
}

/// The record to keep after a real order was answered.
pub fn record_answer(key: String, hash: String, response: &JsonValue, created_at: String) -> (record:
    IdempotencyRecord)
    ensures
        record.idempotency_key == key,
        record.request_hash == hash,
        record.response@ == response@,
        record.created_at == created_at,
{
    IdempotencyRecord {
        idempotency_key: key,
        request_hash: hash,
        response: response.duplicate(),
        created_at,
    }
}

/// Whether a request is to be sent.
pub open spec fn is_sent(plan: ExecutionView) -> bool {
    plan is Send || plan is SendAndRecord
}

/// What is replied in the end, given what came back if the request was sent.
pub open spec fn replied(plan: ExecutionView, answer: Result<Json, Seq<char>>) -> Result<
    Json,
    Seq<char>,
> {
    match plan {
        ExecutionView::Replay { response } => Ok(response),
        ExecutionView::Refuse { message } => Err(message),
        _ => answer,
    }
}

/// What is recorded in the end: the answer to a real order that was sent for the
/// first time and succeeded.
pub open spec fn recorded(plan: ExecutionView, answer: Result<Json, Seq<char>>) -> Option<
    (Seq<char>, Seq<char>, Json),
> {
    match (plan, answer) {
        (ExecutionView::SendAndRecord { key, hash }, Ok(response)) => Some((key, hash, response)),
        _ => None,
    }
}

/// What is replied in the end, and the record to keep, given what came back if the
/// request was sent.
pub fn conclude_execution(
    plan: Execution,
    answer: Result<JsonValue, String>,
    created_at: String,
) -> (end: (Result<JsonValue, String>, Option<IdempotencyRecord>))
    ensures
        outcome(end.0) == replied(plan@, outcome(answer)),
        match (recorded(plan@, outcome(answer)), end.1) {
            (Some((key, hash, response)), Some(record)) => {
                &&& record.idempotency_key@ == key
                &&& record.request_hash@ == hash
                &&& record.response@ == response
                &&& record.created_at == created_at
            },
            (None, None) => true,
            _ => false,
        },
{
    match (plan, answer) {
        (Execution::Replay { response }, _) => (Ok(response), None),
        (Execution::Refuse { message }, _) => (Err(message), None),
        (Execution::SendAndRecord { key, hash }, Ok(response)) => {
            let record = record_answer(key, hash, &response, created_at);
            (Ok(response), Some(record))
        },
        (_, reply) => (reply, None),
    }
}

/// The answers that are kept, each with the fingerprint of its order, by file name.
pub type Records = Map<Seq<char>, (Seq<char>, Json)>;

/// What is kept under the key of a request.
pub open spec fn kept_for(records: Records, request: PreparedRequest) -> Option<(Seq<char>, Json)> {
    match request.idempotency_key {
        Some(key) if records.contains_key(record_file_name(key@)) => Some(
            records[record_file_name(key@)],
        ),
        _ => None,
    }
}

/// What a request does before it is sent, given all that is kept.
pub open spec fn planned(records: Records, request: PreparedRequest) -> ExecutionView {
    execution_of(
        request.endpoint,
        request.idempotency_key.deep_view(),
        order_fingerprint(request),
        kept_for(records, request),
    )
}

/// What is kept after a request, given what came back if it was sent. An answer that
/// could not be kept counts as none.
pub open spec fn records_after(
    records: Records,
    request: PreparedRequest,
    answer: Result<Json, Seq<char>>,
) -> Records {
    match recorded(planned(records, request), answer) {
        Some((key, hash, response)) => records.insert(record_file_name(key), (hash, response)),
        None => records,
    }
}

/// What is kept after requests, one after the other.
pub open spec fn records_after_all(
    records: Records,
    requests: Seq<(PreparedRequest, Result<Json, Seq<char>>)>,
) -> Records
    decreases requests.len(),
{
    if requests.len() == 0 {
        records
    } else {
        let (request, answer) = requests.last();
        records_after(records_after_all(records, requests.drop_last()), request, answer)
    }
}

/// What is kept stays.
pub proof fn records_stay(
    records: Records,
    requests: Seq<(PreparedRequest, Result<Json, Seq<char>>)>,
    name: Seq<char>,
)
    requires
        records.contains_key(name),
    ensures
        records_after_all(records, requests).contains_key(name),
        records_after_all(records, requests)[name] == records[name],
    decreases requests.len(),
{
    if requests.len() > 0 {
        records_stay(records, requests.drop_last(), name);
    }
}

/// A real order is placed once under its identifier. After a request for it has
/// succeeded, and whatever other requests follow, no order under the identifier is
/// sent: the same order is answered as before, and an order with another fingerprint
/// is refused. What is kept does not change by it.
pub proof fn order_is_placed_once(
    records: Records,
    order: PreparedRequest,
    answer: Result<Json, Seq<char>>,
    later: Seq<(PreparedRequest, Result<Json, Seq<char>>)>,
    again: PreparedRequest,
    unused: Result<Json, Seq<char>>,
)
    requires
        order.endpoint == AllowedEndpoint::OrderCreate,
        replied(planned(records, order), answer) is Ok,
        again.endpoint == AllowedEndpoint::OrderCreate,
        again.idempotency_key.deep_view() == order.idempotency_key.deep_view(),
    ensures
        ({
            let kept = records_after_all(records_after(records, order, answer), later);
            let plan = planned(kept, again);
            &&& !is_sent(plan)
            &&& records_after(kept, again, unused) == kept
            &&& order_fingerprint(again) == order_fingerprint(order) ==> replied(plan, unused)
                == replied(planned(records, order), answer)
            &&& order_fingerprint(again) != order_fingerprint(order) ==> replied(plan, unused)
                == Err::<Json, Seq<char>>("identifier already used with a different order payload."@)
        }),
{
    let then = records_after(records, order, answer);
    let name = record_file_name(order.idempotency_key->Some_0@);
    assert(order.idempotency_key.deep_view() == Some(order.idempotency_key->Some_0@));
    assert(then.contains_key(name));
    records_stay(then, later, name);
    assert(again.idempotency_key is Some);
    assert(again.idempotency_key->Some_0@ == order.idempotency_key->Some_0@);
}

/// Fingerprints tell orders apart as far as their SHA-256 digests do: the same order
/// has the same fingerprint, and orders with other digests have other fingerprints.
pub proof fn fingerprints_tell_orders_apart(order: PreparedRequest, other: PreparedRequest)
    ensures
        order.method == other.method && order.path@ == other.path@ && order.body_pairs.deep_view()
            == other.body_pairs.deep_view() ==> order_fingerprint(order) == order_fingerprint(
            other,
        ),
        sha256(encode_utf8(order_text(order))) != sha256(encode_utf8(order_text(other)))
            ==> order_fingerprint(order) != order_fingerprint(other),
{
    if order_fingerprint(order) == order_fingerprint(other) {
        hex_tells_bytes_apart(
            sha256(encode_utf8(order_text(order))),
            sha256(encode_utf8(order_text(other))),
        );
    }
}

// ---------------------------------------------------------------------------
// Answers
// ---------------------------------------------------------------------------

/// The answer to a task.
#[derive(Debug)]
pub struct UpbitProxyResponse {
    pub request_id: String,
    pub ok: bool,
    pub result: Option<JsonValue>,
    pub error: Option<String>,
}

impl UpbitProxyResponse {
    /// A task that succeeded.
    pub fn ok(request_id: &str, result: JsonValue) -> (response: UpbitProxyResponse)
        ensures
            response.request_id@ == request_id@,
            response.ok,
            response.result == Some(result),
            response.error is None,
    {
        UpbitProxyResponse {
            request_id: request_id.to_owned(),
            ok: true,
            result: Some(result),
            error: None,
        }
    }

    /// A task that failed.
    pub fn err(request_id: &str, error: String) -> (response: UpbitProxyResponse)
        ensures
            response.request_id@ == request_id@,
            !response.ok,
            response.result is None,
            response.error == Some(error),
    {
        UpbitProxyResponse {
            request_id: request_id.to_owned(),
            ok: false,
            result: None,
            error: Some(error),
        }
    }
}

/// Keys that are told apart are kept in files of their own.
pub proof fn keys_have_their_own_records(a: Seq<char>, b: Seq<char>)
    ensures
        sha256(encode_utf8(a)) != sha256(encode_utf8(b)) ==> record_file_name(a)
            != record_file_name(b),
        ".json"@.is_suffix_of(record_file_name(a)),
{
    let first = record_file_name(a);
    let second = record_file_name(b);
    let end = ".json"@;
    assert(first.subrange(first.len() - end.len(), first.len() as int) =~= end);
    if first == second {
        assert(first.take(first.len() - end.len()) =~= text_digest(a));
        assert(second.take(second.len() - end.len()) =~= text_digest(b));
        hex_tells_bytes_apart(sha256(encode_utf8(a)), sha256(encode_utf8(b)));
    }
}

/// A task is taken on only where it is the broker's and names itself with letters, digits,
/// dashes and underscores.
pub proof fn only_named_tasks_are_taken_on(
    task_type: Seq<char>,
    action: Seq<char>,
    request_id: Seq<char>,
)
    ensures
        task_checked(task_type, action, request_id) is Ok <==> {
            &&& task_type == "upbit_proxy_request"@
            &&& action == "http_request"@
            &&& request_id.len() > 0
            &&& forall|i: int|
                0 <= i < request_id.len() ==> ({
                    let c = #[trigger] request_id[i];
                    'a' <= c <= 'z' || 'A' <= c <= 'Z' || '0' <= c <= '9' || c == '-' || c == '_'
                })
        },
{
    if request_id.len() > 0 && forall|i: int|
        0 <= i < request_id.len() ==> is_id_char(#[trigger] request_id[i]) {
        assert(request_id_checked(request_id) is Ok);
    } else if request_id.len() > 0 {
        let i = choose|i: int| 0 <= i < request_id.len() && !is_id_char(request_id[i]);
        assert(!is_id_char(request_id[i]));
    }
}

/// A payload is the broker's just where its type says so.
pub proof fn broker_tasks_are_known_by_their_type(payload: Json, kind: Seq<char>)
    requires
        text_field(payload, "type"@) == Some(kind),
    ensures
        names_broker(payload) <==> kind == "upbit_proxy_request"@,
{
}

/// What orders are told apart by begins with the method, ends with all that the body says,
/// and names the path between.
pub proof fn orders_are_told_apart_by_all_they_say(order: PreparedRequest)
    ensures
        ({
            let text = order_text(order);
            let said = raw_query(order.body_pairs.deep_view());
            &&& (method_name(order.method) + ":"@ + order.path@).is_prefix_of(text)
            &&& said.is_suffix_of(text)
            &&& text.len() == method_name(order.method).len() + order.path@.len() + said.len() + 2
                * ":"@.len()
        }),
{
    let text = order_text(order);
    let head = method_name(order.method) + ":"@ + order.path@;
    let said = raw_query(order.body_pairs.deep_view());
    assert(text.subrange(0, head.len() as int) =~= head);
    assert(text.subrange(text.len() - said.len(), text.len() as int) =~= said);
}

} // verus!
