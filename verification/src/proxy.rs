//! The JSON-RPC proxy surface.
//!
//! Takes what a client posts (a single request object or a batch array) apart
//! into requests to be forwarded through a pool, and puts the outcomes together
//! into the response. Listening and forwarding are the caller's part.

use vstd::prelude::*;

use crate::error::RpcError;
use crate::json::Json;
use crate::pool::{ForwardResult, PoolEntryStatus};
use crate::text::str_eq;

verus! {

/// The value of a member of an object, where the last one of a name counts.
pub open spec fn member(members: Seq<(String, Json)>, name: Seq<char>) -> Option<Json>
    decreases members.len(),
{
    if members.len() == 0 {
        None
    } else if members.last().0@ == name {
        Some(members.last().1)
    } else {
        member(members.drop_last(), name)
    }
}

/// The value of a member, of any JSON value: only objects have members.
pub open spec fn field(value: Json, name: Seq<char>) -> Option<Json> {
    match value {
        Json::Object(members) => member(members@, name),
        _ => None,
    }
}

/// The id that a reply to `request` carries: the request's own, or null.
pub open spec fn reply_id(request: Json) -> Json {
    match field(request, "id"@) {
        Some(id) => id,
        None => Json::Null,
    }
}

/// The method that `request` names, if it is a request.
pub open spec fn request_method(request: Json) -> Option<String> {
    match field(request, "method"@) {
        Some(Json::Str(method)) => Some(method),
        _ => None,
    }
}

/// `params` are the parameters of `request`: its own, or an empty array.
pub open spec fn are_params(request: Json, params: Json) -> bool {
    match field(request, "params"@) {
        Some(own) => params == own,
        None => params matches Json::Array(items) && items@.len() == 0,
    }
}

/// `value` is an object with exactly these members' names, in this order.
pub open spec fn has_shape(value: Json, names: Seq<Seq<char>>) -> bool {
    value matches Json::Object(members) && members@.map_values(|m: (String, Json)| m.0@) == names
}

/// `value` is the text `text`.
pub open spec fn is_text(value: Json, text: Seq<char>) -> bool {
    value matches Json::Str(s) && s@ == text
}

/// `reply` is the envelope of a result.
pub open spec fn is_result(reply: Json, id: Json, result: Json) -> bool {
    &&& has_shape(reply, seq!["id"@, "jsonrpc"@, "result"@])
    &&& reply matches Json::Object(members)
    &&& members@[0].1 == id
    &&& is_text(members@[1].1, "2.0"@)
    &&& members@[2].1 == result
}

/// `error` describes an error, with its data where there is any.
pub open spec fn is_error_object(
    error: Json,
    code: int,
    message: Seq<char>,
    data: Option<Json>,
) -> bool {
    &&& error matches Json::Object(members)
    &&& members@.len() > 0
    &&& members@[0].1 matches Json::Int(n)
    &&& n == code
    &&& match data {
        Some(d) => {
            &&& has_shape(error, seq!["code"@, "data"@, "message"@])
            &&& members@[1].1 == d
            &&& is_text(members@[2].1, message)
        },
        None => {
            &&& has_shape(error, seq!["code"@, "message"@])
            &&& is_text(members@[1].1, message)
        },
    }
}

/// `reply` is the envelope of an error.
pub open spec fn is_error(
    reply: Json,
    id: Json,
    code: int,
    message: Seq<char>,
    data: Option<Json>,
) -> bool {
    &&& has_shape(reply, seq!["error"@, "id"@, "jsonrpc"@])
    &&& reply matches Json::Object(members)
    &&& is_error_object(members@[0].1, code, message, data)
    &&& members@[1].1 == id
    &&& is_text(members@[2].1, "2.0"@)
}

/// The code that a pool's error is reported under.
pub open spec fn pool_error_code(error: RpcError) -> int {
    match error {
        RpcError::NoCandidates { .. } => -32011,
        RpcError::AllFailed { .. } => -32010,
        _ => -32603,
    }
}

/// The message that a pool's error is reported with.
pub open spec fn pool_error_message(error: RpcError) -> Seq<char> {
    match error {
        RpcError::NoCandidates { .. } => "no healthy endpoints: "@ + error.words(),
        RpcError::AllFailed { .. } => "all upstreams failed: "@ + error.words(),
        _ => "proxy error: "@ + error.words(),
    }
}

/// `reply` reports the outcome of a forwarded request.
pub open spec fn reports(reply: Json, id: Json, outcome: Result<ForwardResult, RpcError>) -> bool {
    match outcome {
        Ok(ForwardResult::Result(result)) => is_result(reply, id, result),
        Ok(ForwardResult::Error { code, message, data }) => is_error(
            reply,
            id,
            code as int,
            message@,
            data,
        ),
        Err(error) => is_error(
            reply,
            id,
            pool_error_code(error),
            pool_error_message(error),
            None,
        ),
    }
}

fn rpc_error(id: Json, code: i64, message: String, data: Option<Json>) -> (r: Json)
    ensures
        is_error(r, id, code as int, message@, data),
{
    let mut error: Vec<(String, Json)> = Vec::new();
    error.push(("code".to_owned(), Json::Int(code)));
    match data {
        Some(d) => {
            error.push(("data".to_owned(), d));
            error.push(("message".to_owned(), Json::Str(message)));
            assert(error@.map_values(|m: (String, Json)| m.0@) =~= seq![
                "code"@,
                "data"@,
                "message"@,
            ]);
        },
        None => {
            error.push(("message".to_owned(), Json::Str(message)));
            assert(error@.map_values(|m: (String, Json)| m.0@) =~= seq!["code"@, "message"@]);
        },
    }
    let mut reply: Vec<(String, Json)> = Vec::new();
    reply.push(("error".to_owned(), Json::Object(error)));
    reply.push(("id".to_owned(), id));
    reply.push(("jsonrpc".to_owned(), Json::Str("2.0".to_owned())));
    assert(reply@.map_values(|m: (String, Json)| m.0@) =~= seq!["error"@, "id"@, "jsonrpc"@]);
    Json::Object(reply)
}

fn map_pool_error(id: Json, error: &RpcError) -> (r: Json)
    ensures
        is_error(r, id, pool_error_code(*error), pool_error_message(*error), None),
{
    let words = error.to_string();
    match error {
        RpcError::NoCandidates { .. } => {
            let mut message = "no healthy endpoints: ".to_owned();
            message.append(words.as_str());
            rpc_error(id, -32011, message, None)
        },
        RpcError::AllFailed { .. } => {
            let mut message = "all upstreams failed: ".to_owned();
            message.append(words.as_str());
            rpc_error(id, -32010, message, None)
        },
        _ => {
            let mut message = "proxy error: ".to_owned();
            message.append(words.as_str());
            rpc_error(id, -32603, message, None)
        },
    }
}

/// Build the response envelope for a forwarded request, with the client's `id`.
pub fn respond(id: Json, outcome: Result<ForwardResult, RpcError>) -> (r: Json)
    ensures
        reports(r, id, outcome),
{
    match outcome {
        Ok(ForwardResult::Result(result)) => {
            let mut reply: Vec<(String, Json)> = Vec::new();
            reply.push(("id".to_owned(), id));
            reply.push(("jsonrpc".to_owned(), Json::Str("2.0".to_owned())));
            reply.push(("result".to_owned(), result));
            assert(reply@.map_values(|m: (String, Json)| m.0@) =~= seq![
                "id"@,
                "jsonrpc"@,
                "result"@,
            ]);
            Json::Object(reply)
        },
        Ok(ForwardResult::Error { code, message, data }) => rpc_error(id, code, message, data),
        Err(error) => map_pool_error(id, &error),
    }
}

/// What becomes of a client's request.
#[derive(Debug)]
pub enum Handled {
    /// It is answered without asking an upstream.
    Reply(Json),
    /// It is to be forwarded; its outcome is answered under `id`.
    Forward { id: Json, method: String, params: Json },
}

/// `handled` is what becomes of `request`: it is forwarded with its method and
/// parameters if it names a method, and refused otherwise.
pub open spec fn handles(request: Json, handled: Handled) -> bool {
    match request_method(request) {
        Some(name) => {
            &&& handled matches Handled::Forward { id, method, params }
            &&& id == reply_id(request)
            &&& method == name
            &&& are_params(request, params)
        },
        None => {
            &&& handled matches Handled::Reply(reply)
            &&& is_error(
                reply,
                reply_id(request),
                -32600,
                "Invalid Request: missing method"@,
                None,
            )
        },
    }
}

/// Take a single JSON-RPC request apart, preserving the client's `id`.
pub fn handle_one(request: Json) -> (r: Handled)
    ensures
        handles(request, r),
{
    let mut id: Option<Json> = None;
    let mut method: Option<Json> = None;
    let mut params: Option<Json> = None;
    if let Json::Object(members) = request {
        let ghost all = members@;
        let mut members = members;
        while members.len() > 0
            invariant
                match id {
                    Some(_) => id == member(all, "id"@),
                    None => member(all, "id"@) == member(members@, "id"@),
                },
                match method {
                    Some(_) => method == member(all, "method"@),
                    None => member(all, "method"@) == member(members@, "method"@),
                },
                match params {
                    Some(_) => params == member(all, "params"@),
                    None => member(all, "params"@) == member(members@, "params"@),
                },
            decreases members.len(),
        {
            let ghost before = members@;
            if let Some((name, value)) = members.pop() {
                assert(members@ == before.drop_last());
                proof {
                    lemma_field_names_differ();
                }
                if str_eq(name.as_str(), "id") {
                    if id.is_none() {
                        id = Some(value);
                    }
                } else if str_eq(name.as_str(), "method") {
                    if method.is_none() {
                        method = Some(value);
                    }
                } else if str_eq(name.as_str(), "params") {
                    if params.is_none() {
                        params = Some(value);
                    }
                }
            }
        }
    }
    let id = match id {
        Some(id) => id,
        None => Json::Null,
    };
    match method {
        Some(Json::Str(method)) => {
            let params = match params {
                Some(params) => params,
                None => Json::Array(Vec::new()),
            };
            Handled::Forward { id, method, params }
        },
        _ => Handled::Reply(
            rpc_error(id, -32600, "Invalid Request: missing method".to_owned(), None),
        ),
    }
}

proof fn lemma_field_names_differ()
    ensures
        "id"@ != "method"@,
        "id"@ != "params"@,
        "method"@ != "params"@,
{
    reveal_strlit("id");
    reveal_strlit("method");
    reveal_strlit("params");
    assert("id"@.len() == 2);
    assert("method"@[0] != "params"@[0]);
}

/// An exchange with a client: what was posted, as far as it has been worked
/// off.
pub struct ExchangeState {
    pub batch: bool,
    /// The requests not looked at yet.
    pub waiting: Seq<Json>,
    /// The replies so far, in the order of their requests.
    pub replies: Seq<Json>,
    /// The id of the request that is being forwarded.
    pub pending: Option<Json>,
}

/// The requests in what a client posts: the items of a batch array, or the one
/// request that it is.
pub open spec fn requests_in(payload: Json) -> Seq<Json> {
    match payload {
        Json::Array(items) => items@,
        single => seq![single],
    }
}

/// How many of the requests come before the first that names a method.
pub open spec fn refused_first(requests: Seq<Json>) -> nat
    decreases requests.len(),
{
    if requests.len() == 0 || request_method(requests[0]) is Some {
        0
    } else {
        1 + refused_first(requests.drop_first())
    }
}

/// A request to be forwarded through the pool.
#[derive(Debug)]
pub struct Forwarded {
    pub method: String,
    pub params: Json,
}

/// `after` is where the search for the next request to be forwarded leaves the
/// exchange. Requests before it that name no method are refused.
pub open spec fn takes_next(
    before: ExchangeState,
    after: ExchangeState,
    next: Option<Forwarded>,
) -> bool {
    let waiting = before.waiting;
    let done = before.replies;
    let refused = refused_first(waiting);
    &&& after.batch == before.batch
    &&& refused <= waiting.len()
    &&& after.replies.len() == done.len() + refused
    &&& after.replies.take(done.len() as int) == done
    &&& forall|k: int|
        0 <= k < refused ==> handles(
            #[trigger] waiting[k],
            Handled::Reply(after.replies[done.len() + k]),
        )
    &&& match next {
        Some(Forwarded { method, params }) => {
            &&& refused < waiting.len()
            &&& after.waiting == waiting.skip(refused as int + 1)
            &&& after.pending matches Some(id) && handles(
                waiting[refused as int],
                Handled::Forward { id, method, params },
            )
        },
        None => {
            &&& refused == waiting.len()
            &&& after.waiting == Seq::<Json>::empty()
            &&& after.pending is None
        },
    }
}

/// `after` is where the outcome of the forwarded request leaves the exchange.
pub open spec fn takes_answer(
    before: ExchangeState,
    after: ExchangeState,
    outcome: Result<ForwardResult, RpcError>,
) -> bool {
    &&& after.batch == before.batch
    &&& after.waiting == before.waiting
    &&& after.pending is None
    &&& after.replies.len() == before.replies.len() + 1
    &&& after.replies.drop_last() == before.replies
    &&& reports(after.replies.last(), before.pending->0, outcome)
}

/// An exchange with a client.
pub struct Exchange {
    batch: bool,
    /// The requests not looked at yet, the next one last.
    waiting: Vec<Json>,
    replies: Vec<Json>,
    pending: Option<Json>,
}

impl View for Exchange {
    type V = ExchangeState;

    closed spec fn view(&self) -> ExchangeState {
        ExchangeState {
            batch: self.batch,
            waiting: self.waiting@.reverse(),
            replies: self.replies@,
            pending: self.pending,
        }
    }
}

impl Exchange {
    /// Begin with what a client posted: a single request object or a batch
    /// array.
    pub fn open(payload: Json) -> (r: Self)
        ensures
            r@ == (ExchangeState {
                batch: payload is Array,
                waiting: requests_in(payload),
                replies: seq![],
                pending: None,
            }),
    {
        let mut waiting: Vec<Json> = Vec::new();
        let batch = match payload {
            Json::Array(items) => {
                let mut items = items;
                let ghost all = items@;
                while items.len() > 0
                    invariant
                        waiting@.len() + items@.len() == all.len(),
                        items@ == all.take(items@.len() as int),
                        forall|k: int|
                            0 <= k < waiting@.len() ==> #[trigger] waiting@[k] == all[all.len() - 1
                                - k],
                    decreases items.len(),
                {
                    let ghost before = items@;
                    if let Some(item) = items.pop() {
                        assert(item == all[before.len() - 1]);
                        waiting.push(item);
                        assert(items@ =~= all.take(items@.len() as int));
                    }
                }
                assert(waiting@.reverse() =~= all);
                true
            },
            single => {
                waiting.push(single);
                assert(waiting@.reverse() =~= seq![single]);
                false
            },
        };
        Exchange { batch, waiting, replies: Vec::new(), pending: None }
    }

    /// The next request to be forwarded. Requests before it that name no method
    /// are answered at once. `None` when every request has been answered.
    pub fn next(&mut self) -> (r: Option<Forwarded>)
        requires
            old(self)@.pending is None,
        ensures
            takes_next(old(self)@, final(self)@, r),
    {
        let ghost waiting = self@.waiting;
        let ghost done = self@.replies;
        let ghost mut looked: nat = 0;
        assert(waiting.skip(0) =~= waiting);
        assert(done.take(done.len() as int) =~= done);
        while self.waiting.len() > 0
            invariant
                self@.pending is None,
                self@.batch == old(self)@.batch,
                waiting == old(self)@.waiting,
                done == old(self)@.replies,
                looked <= waiting.len(),
                self@.waiting == waiting.skip(looked as int),
                refused_first(waiting) == looked + refused_first(waiting.skip(looked as int)),
                self@.replies.len() == done.len() + looked,
                self@.replies.take(done.len() as int) == done,
                forall|k: int|
                    0 <= k < looked ==> handles(
                        #[trigger] waiting[k],
                        Handled::Reply(self@.replies[done.len() + k]),
                    ),
            decreases self.waiting.len(),
        {
            let ghost left = self.waiting@;
            let ghost said = self.replies@;
            assert(left.reverse()[0] == waiting[looked as int]);
            if let Some(request) = self.waiting.pop() {
                assert(request == waiting[looked as int]);
                assert(self.waiting@.reverse() =~= left.reverse().skip(1));
                assert(waiting.skip(looked as int).skip(1) =~= waiting.skip(looked as int + 1));
                assert(waiting.skip(looked as int).drop_first() =~= waiting.skip(looked as int + 1));
                let handled = handle_one(request);
                match handled {
                    Handled::Reply(reply) => {
                        self.replies.push(reply);
                        assert(self.replies@.take(done.len() as int) =~= said.take(
                            done.len() as int,
                        ));
                        proof {
                            looked = looked + 1;
                        }
                    },
                    Handled::Forward { id, method, params } => {
                        self.pending = Some(id);
                        return Some(Forwarded { method, params });
                    },
                }
            }
        }
        assert(self@.waiting =~= Seq::<Json>::empty());
        assert(waiting.skip(looked as int).len() == 0);
        None
    }

    /// Answer the request that was forwarded.
    pub fn answer(&mut self, outcome: Result<ForwardResult, RpcError>)
        requires
            old(self)@.pending is Some,
        ensures
            takes_answer(old(self)@, final(self)@, outcome),
    {
        let mut pending: Option<Json> = None;
        std::mem::swap(&mut pending, &mut self.pending);
        if let Some(id) = pending {
            let reply = respond(id, outcome);
            self.replies.push(reply);
            assert(self.replies@.drop_last() =~= old(self)@.replies);
        }
    }

    /// The response: an array of all replies to a batch, or the one reply.
    pub fn close(self) -> (r: Json)
        requires
            !self@.batch ==> self@.replies.len() == 1,
        ensures
            if self@.batch {
                r matches Json::Array(items) && items@ == self@.replies
            } else {
                r == self@.replies[0]
            },
    {
        let mut replies = self.replies;
        if self.batch {
            return Json::Array(replies);
        }
        match replies.pop() {
            Some(reply) => reply,
            None => Json::Null,
        }
    }
}

/// The envelope of a result and that of an error carry the id they are given.
proof fn lemma_envelopes_carry_the_id(
    reply: Json,
    id: Json,
    code: int,
    message: Seq<char>,
    data: Option<Json>,
    result: Json,
)
    ensures
        is_error(reply, id, code, message, data) ==> field(reply, "id"@) == Some(id),
        is_result(reply, id, result) ==> field(reply, "id"@) == Some(id),
{
    reveal_strlit("id");
    reveal_strlit("jsonrpc");
    reveal_strlit("result");
    assert("id"@.len() == 2);
    assert("jsonrpc"@.len() == 7);
    assert("result"@.len() == 6);
    reveal_with_fuel(member, 4);
    if let Json::Object(members) = reply {
        let names = members@.map_values(|m: (String, Json)| m.0@);
        if is_error(reply, id, code, message, data) {
            assert(names =~= seq!["error"@, "id"@, "jsonrpc"@]);
            assert(names[1] == "id"@ && names[2] == "jsonrpc"@);
            assert(members@[1].0@ == "id"@ && members@[2].0@ == "jsonrpc"@);
            assert(members@.drop_last()[1] == members@[1]);
        }
        if is_result(reply, id, result) {
            assert(names =~= seq!["id"@, "jsonrpc"@, "result"@]);
            assert(names[0] == "id"@ && names[1] == "jsonrpc"@ && names[2] == "result"@);
            assert(members@[0].0@ == "id"@ && members@[1].0@ == "jsonrpc"@ && members@[2].0@
                == "result"@);
            assert(members@.drop_last()[1] == members@[1]);
            assert(members@.drop_last().drop_last()[0] == members@[0]);
        }
    }
}

proof fn lemma_refusal_carries_the_id(request: Json, reply: Json)
    requires
        handles(request, Handled::Reply(reply)),
    ensures
        field(reply, "id"@) == Some(reply_id(request)),
{
    lemma_envelopes_carry_the_id(
        reply,
        reply_id(request),
        -32600,
        "Invalid Request: missing method"@,
        None,
        Json::Null,
    );
}

proof fn lemma_outcome_carries_the_id(
    reply: Json,
    id: Json,
    outcome: Result<ForwardResult, RpcError>,
)
    requires
        reports(reply, id, outcome),
    ensures
        field(reply, "id"@) == Some(id),
{
    match outcome {
        Ok(ForwardResult::Result(result)) => {
            lemma_envelopes_carry_the_id(reply, id, 0, seq![], None, result);
        },
        Ok(ForwardResult::Error { code, message, data }) => {
            lemma_envelopes_carry_the_id(reply, id, code as int, message@, data, Json::Null);
        },
        Err(error) => {
            lemma_envelopes_carry_the_id(
                reply,
                id,
                pool_error_code(error),
                pool_error_message(error),
                None,
                Json::Null,
            );
        },
    }
}

/// The client's `id` is preserved, whatever becomes of the request: a refusal,
/// a result, a relayed error and a pool error all carry it.
pub proof fn law_reply_keeps_the_client_id(
    request: Json,
    handled: Handled,
    outcome: Result<ForwardResult, RpcError>,
    reply: Json,
)
    requires
        handles(request, handled),
        match handled {
            Handled::Reply(refusal) => reply == refusal,
            Handled::Forward { id, .. } => reports(reply, id, outcome),
        },
    ensures
        field(reply, "id"@) == Some(reply_id(request)),
{
    let id = reply_id(request);
    match handled {
        Handled::Reply(_) => {
            lemma_refusal_carries_the_id(request, reply);
        },
        Handled::Forward { .. } => {
            lemma_outcome_carries_the_id(reply, id, outcome);
        },
    }
}

/// The exchange over `requests` is in step with them: each request looked at
/// has one reply, in its place and with its id, but for the one being
/// forwarded.
pub open spec fn in_step(requests: Seq<Json>, exchange: ExchangeState) -> bool {
    &&& exchange.replies.len() + exchange.waiting.len() + (if exchange.pending is Some {
        1int
    } else {
        0int
    }) == requests.len()
    &&& exchange.waiting == requests.skip(requests.len() - exchange.waiting.len())
    &&& exchange.pending matches Some(id) ==> id == reply_id(
        requests[exchange.replies.len() as int],
    )
    &&& forall|k: int|
        0 <= k < exchange.replies.len() ==> field(#[trigger] exchange.replies[k], "id"@) == Some(
            reply_id(requests[k]),
        )
}

/// Looking for the next request keeps an exchange in step, and ends only with
/// one reply for each request.
pub proof fn law_every_request_is_answered_in_order(
    requests: Seq<Json>,
    before: ExchangeState,
    after: ExchangeState,
    next: Option<Forwarded>,
)
    requires
        in_step(requests, before),
        before.pending is None,
        takes_next(before, after, next),
    ensures
        in_step(requests, after),
        next is None ==> after.replies.len() == requests.len(),
{
    let done = before.replies.len();
    let refused = refused_first(before.waiting);
    assert(done as int == requests.len() - before.waiting.len());
    assert forall|k: int| 0 <= k < after.replies.len() implies field(
        #[trigger] after.replies[k],
        "id"@,
    ) == Some(reply_id(requests[k])) by {
        if k < done {
            assert(after.replies.take(done as int)[k] == before.replies[k]);
        } else {
            let request = before.waiting[k - done];
            assert(request == requests[k]);
            let refusal = Handled::Reply(after.replies[done + (k - done)]);
            assert(handles(request, refusal));
            lemma_refusal_carries_the_id(request, after.replies[k]);
        }
    }
    match next {
        Some(_) => {
            assert(before.waiting[refused as int] == requests[done + refused as int]);
            assert(after.waiting =~= requests.skip(requests.len() - after.waiting.len()));
        },
        None => {
            assert(after.waiting =~= requests.skip(requests.len() as int));
        },
    }
}

/// Answering the forwarded request keeps an exchange in step.
pub proof fn law_every_outcome_is_answered_in_place(
    requests: Seq<Json>,
    before: ExchangeState,
    after: ExchangeState,
    outcome: Result<ForwardResult, RpcError>,
)
    requires
        in_step(requests, before),
        before.pending is Some,
        takes_answer(before, after, outcome),
    ensures
        in_step(requests, after),
{
    let id = before.pending->0;
    let done = before.replies.len();
    let reply = after.replies.last();
    assert forall|k: int| 0 <= k < after.replies.len() implies field(
        #[trigger] after.replies[k],
        "id"@,
    ) == Some(reply_id(requests[k])) by {
        if k < done {
            assert(after.replies.drop_last()[k] == before.replies[k]);
        } else {
            lemma_outcome_carries_the_id(reply, id, outcome);
        }
    }
}

/// How many entries have had no failure since their last success.
pub open spec fn healthy_count(statuses: Seq<PoolEntryStatus>) -> nat
    decreases statuses.len(),
{
    if statuses.len() == 0 {
        0
    } else {
        healthy_count(statuses.drop_last()) + if statuses.last().health.consecutive_failures == 0 {
            1nat
        } else {
            0nat
        }
    }
}

/// What the health route reports.
#[derive(Debug)]
pub struct HealthReport {
    /// The HTTP status.
    pub code: u16,
    pub status: &'static str,
    pub endpoints_total: usize,
    pub endpoints_healthy: usize,
}

/// Liveness/readiness: 200 if the pool has any endpoints, else 503.
pub fn health_report(statuses: &Vec<PoolEntryStatus>) -> (r: HealthReport)
    ensures
        r.code == if statuses@.len() > 0 {
            200
        } else {
            503int
        },
        r.status@ == if statuses@.len() > 0 {
            "ok"@
        } else {
            "empty"@
        },
        r.endpoints_total == statuses@.len(),
        r.endpoints_healthy == healthy_count(statuses@),
{
    let mut healthy: usize = 0;
    let mut i: usize = 0;
    assert(statuses@.take(0) =~= seq![]);
    while i < statuses.len()
        invariant
            i <= statuses@.len(),
            healthy <= i,
            healthy == healthy_count(statuses@.take(i as int)),
        decreases statuses.len() - i,
    {
        assert(statuses@.take(i + 1).drop_last() =~= statuses@.take(i as int));
        if statuses[i].health.consecutive_failures == 0 {
            healthy += 1;
        }
        i += 1;
    }
    assert(statuses@.take(i as int) =~= statuses@);
    let ok = statuses.len() > 0;
    HealthReport {
        code: if ok {
            200
        } else {
            503
        },
        status: if ok {
            "ok"
        } else {
            "empty"
        },
        endpoints_total: statuses.len(),
        endpoints_healthy: healthy,
    }
}

/// The last member of a name is the one that counts, and a name that no member
/// has has no value.
pub proof fn law_last_member_of_a_name_counts(
    members: Seq<(String, Json)>,
    name: Seq<char>,
    i: int,
)
    ensures
        0 <= i < members.len() && members[i].0@ == name && (forall|j: int|
            i < j < members.len() ==> (#[trigger] members[j]).0@ != name) ==> member(members, name)
            == Some(members[i].1),
        (forall|j: int| 0 <= j < members.len() ==> (#[trigger] members[j]).0@ != name) ==> member(
            members,
            name,
        ) is None,
    decreases members.len(),
{
    if members.len() > 0 {
        let shorter = members.drop_last();
        law_last_member_of_a_name_counts(shorter, name, i);
        assert(members[members.len() - 1] == members.last());
        if 0 <= i < shorter.len() && (forall|j: int|
            i < j < members.len() ==> (#[trigger] members[j]).0@ != name) {
            assert forall|j: int| i < j < shorter.len() implies (#[trigger] shorter[j]).0@
                != name by {
                assert(members[j].0@ != name);
            }
            assert(members[members.len() - 1].0@ != name);
        }
        if forall|j: int| 0 <= j < members.len() ==> (#[trigger] members[j]).0@ != name {
            assert forall|j: int| 0 <= j < shorter.len() implies (#[trigger] shorter[j]).0@
                != name by {
                assert(members[j].0@ != name);
            }
            assert(members[members.len() - 1].0@ != name);
        }
    }
}

/// Only objects have members.
pub proof fn law_only_objects_have_members(value: Json, name: Seq<char>)
    ensures
        value matches Json::Object(members) ==> field(value, name) == member(members@, name),
        !(value is Object) ==> field(value, name) is None,
{
}

/// A request is forwarded as the client wrote it: under its method, and with its
/// parameters exactly, of whatever kind they are. Only where it has none is an
/// empty array sent.
pub proof fn law_request_is_forwarded_as_written(request: Json, handled: Handled, name: String)
    requires
        handles(request, handled),
        field(request, "method"@) == Some(Json::Str(name)),
    ensures
        handled matches Handled::Forward { id, method, params } && {
            &&& method == name
            &&& field(request, "params"@) matches Some(own) ==> params == own
            &&& field(request, "params"@) is None ==> (params matches Json::Array(items)
                && items@.len() == 0)
            &&& field(request, "id"@) matches Some(own) ==> id == own
            &&& field(request, "id"@) is None ==> id is Null
        },
{
}

/// A request without a method, or whose method is no text, is refused and never
/// forwarded: the reply is an error with code -32600 under the client's id.
pub proof fn law_request_without_method_is_refused(request: Json, handled: Handled)
    requires
        handles(request, handled),
        !(field(request, "method"@) matches Some(Json::Str(_))),
    ensures
        handled matches Handled::Reply(reply) && {
            &&& field(reply, "error"@) matches Some(error) && {
                &&& field(error, "code"@) == Some(Json::Int(-32600i64))
                &&& field(error, "message"@) matches Some(Json::Str(m)) && m@
                    == "Invalid Request: missing method"@
                &&& field(error, "data"@) is None
            }
            &&& field(reply, "result"@) is None
            &&& field(request, "id"@) matches Some(own) ==> field(reply, "id"@) == Some(own)
            &&& field(request, "id"@) is None ==> field(reply, "id"@) == Some(Json::Null)
        },
{
    if let Handled::Reply(reply) = handled {
        lemma_error_members(
            reply,
            reply_id(request),
            -32600,
            "Invalid Request: missing method"@,
            None,
        );
        lemma_refusal_carries_the_id(request, reply);
    }
}

proof fn lemma_envelope_names_differ()
    ensures
        "id"@ != "jsonrpc"@,
        "id"@ != "result"@,
        "id"@ != "error"@,
        "jsonrpc"@ != "result"@,
        "jsonrpc"@ != "error"@,
        "result"@ != "error"@,
        "code"@ != "data"@,
        "code"@ != "message"@,
        "data"@ != "message"@,
{
    reveal_strlit("id");
    reveal_strlit("jsonrpc");
    reveal_strlit("result");
    reveal_strlit("error");
    reveal_strlit("code");
    reveal_strlit("data");
    reveal_strlit("message");
    assert("id"@.len() == 2);
    assert("jsonrpc"@.len() == 7);
    assert("result"@.len() == 6);
    assert("error"@.len() == 5);
    assert("message"@.len() == 7);
    assert("code"@[0] != "data"@[0]);
    assert("code"@.len() == 4);
    assert("data"@.len() == 4);
}

proof fn lemma_three_members(value: Json, a: Seq<char>, b: Seq<char>, c: Seq<char>)
    requires
        has_shape(value, seq![a, b, c]),
        a != b,
        a != c,
        b != c,
    ensures
        value matches Json::Object(members) && {
            &&& members@.len() == 3
            &&& field(value, a) == Some(members@[0].1)
            &&& field(value, b) == Some(members@[1].1)
            &&& field(value, c) == Some(members@[2].1)
            &&& forall|name: Seq<char>|
                name != a && name != b && name != c ==> #[trigger] field(value, name) is None
        },
{
    if let Json::Object(members) = value {
        let names = members@.map_values(|m: (String, Json)| m.0@);
        assert(names.len() == 3);
        assert(names[0] == a && names[1] == b && names[2] == c);
        assert(members@[0].0@ == a && members@[1].0@ == b && members@[2].0@ == c);
        let two = members@.drop_last();
        let one = two.drop_last();
        assert(two[1] == members@[1] && one[0] == members@[0]);
        assert(one.drop_last().len() == 0);
        reveal_with_fuel(member, 5);
    }
}

proof fn lemma_two_members(value: Json, a: Seq<char>, b: Seq<char>)
    requires
        has_shape(value, seq![a, b]),
        a != b,
    ensures
        value matches Json::Object(members) && {
            &&& members@.len() == 2
            &&& field(value, a) == Some(members@[0].1)
            &&& field(value, b) == Some(members@[1].1)
            &&& forall|name: Seq<char>|
                name != a && name != b ==> #[trigger] field(value, name) is None
        },
{
    if let Json::Object(members) = value {
        let names = members@.map_values(|m: (String, Json)| m.0@);
        assert(names.len() == 2);
        assert(names[0] == a && names[1] == b);
        assert(members@[0].0@ == a && members@[1].0@ == b);
        let one = members@.drop_last();
        assert(one[0] == members@[0]);
        assert(one.drop_last().len() == 0);
        reveal_with_fuel(member, 4);
    }
}

proof fn lemma_error_members(
    reply: Json,
    id: Json,
    code: int,
    message: Seq<char>,
    data: Option<Json>,
)
    requires
        is_error(reply, id, code, message, data),
        i64::MIN <= code <= i64::MAX,
    ensures
        field(reply, "id"@) == Some(id),
        field(reply, "jsonrpc"@) matches Some(Json::Str(v)) && v@ == "2.0"@,
        field(reply, "result"@) is None,
        field(reply, "error"@) matches Some(error) && {
            &&& field(error, "code"@) == Some(Json::Int(code as i64))
            &&& field(error, "message"@) matches Some(Json::Str(m)) && m@ == message
            &&& field(error, "data"@) == data
        },
{
    lemma_envelope_names_differ();
    lemma_three_members(reply, "error"@, "id"@, "jsonrpc"@);
    if let Json::Object(members) = reply {
        let error = members@[0].1;
        match data {
            Some(_) => {
                lemma_three_members(error, "code"@, "data"@, "message"@);
            },
            None => {
                lemma_two_members(error, "code"@, "message"@);
            },
        }
    }
}

/// What the client gets back, member by member: always its own id and the
/// version; the upstream's result exactly, or its error with the same code,
/// message and data; and for a failure of the pool the code that says which, and
/// its words.
pub proof fn law_reply_says_what_came_of_it(
    reply: Json,
    id: Json,
    outcome: Result<ForwardResult, RpcError>,
)
    requires
        reports(reply, id, outcome),
    ensures
        field(reply, "id"@) == Some(id),
        field(reply, "jsonrpc"@) matches Some(Json::Str(v)) && v@ == "2.0"@,
        outcome matches Ok(ForwardResult::Result(result)) ==> field(reply, "result"@) == Some(
            result,
        ) && field(reply, "error"@) is None,
        outcome matches Ok(ForwardResult::Error { code, message, data }) ==> {
            &&& field(reply, "result"@) is None
            &&& field(reply, "error"@) matches Some(error) && {
                &&& field(error, "code"@) == Some(Json::Int(code))
                &&& field(error, "message"@) matches Some(Json::Str(m)) && m@ == message@
                &&& field(error, "data"@) == data
            }
        },
        outcome matches Err(failure) ==> {
            &&& field(reply, "result"@) is None
            &&& field(reply, "error"@) matches Some(error) && {
                &&& field(error, "data"@) is None
                &&& field(error, "code"@) == Some(
                    Json::Int(
                        match failure {
                            RpcError::NoCandidates { .. } => -32011i64,
                            RpcError::AllFailed { .. } => -32010i64,
                            _ => -32603i64,
                        },
                    ),
                )
                &&& field(error, "message"@) matches Some(Json::Str(m)) && m@ == match failure {
                    RpcError::NoCandidates { .. } => "no healthy endpoints: "@,
                    RpcError::AllFailed { .. } => "all upstreams failed: "@,
                    _ => "proxy error: "@,
                } + failure.words()
            }
        },
{
    lemma_envelope_names_differ();
    match outcome {
        Ok(ForwardResult::Result(result)) => {
            lemma_three_members(reply, "id"@, "jsonrpc"@, "result"@);
        },
        Ok(ForwardResult::Error { code, message, data }) => {
            lemma_error_members(reply, id, code as int, message@, data);
        },
        Err(failure) => {
            lemma_error_members(
                reply,
                id,
                pool_error_code(failure),
                pool_error_message(failure),
                None,
            );
        },
    }
}

/// What a client posts is taken apart without loss: a batch into its items, in
/// order, and anything else into itself alone.
pub proof fn law_payload_is_taken_apart_without_loss(payload: Json)
    ensures
        payload matches Json::Array(items) ==> requests_in(payload) == items@,
        !(payload is Array) ==> requests_in(payload).len() == 1 && requests_in(payload)[0]
            == payload,
{
}

/// Exactly the requests before the first with a method are refused.
pub proof fn law_refusals_stop_at_the_first_with_a_method(requests: Seq<Json>)
    ensures
        refused_first(requests) <= requests.len(),
        forall|k: int|
            0 <= k < refused_first(requests) ==> !(field(#[trigger] requests[k], "method"@) matches
            Some(Json::Str(_))),
        refused_first(requests) < requests.len() ==> (field(
            requests[refused_first(requests) as int],
            "method"@,
        ) matches Some(Json::Str(_))),
    decreases requests.len(),
{
    if requests.len() > 0 && !(request_method(requests[0]) is Some) {
        let rest = requests.drop_first();
        law_refusals_stop_at_the_first_with_a_method(rest);
        assert forall|k: int| 0 <= k < refused_first(requests) implies !(field(
            #[trigger] requests[k],
            "method"@,
        ) matches Some(Json::Str(_))) by {
            if k > 0 {
                assert(requests[k] == rest[k - 1]);
            }
        }
    }
}

/// The next request to be forwarded is the first one waiting that names a
/// method, with that method and its own parameters, and with its id kept for the
/// answer. Replies already made stay as they are, and those waiting behind it
/// keep their order.
pub proof fn law_next_request_is_the_first_with_a_method(
    before: ExchangeState,
    after: ExchangeState,
    next: Forwarded,
    at: int,
    k: int,
)
    requires
        takes_next(before, after, Some(next)),
        0 <= at < before.waiting.len(),
        field(before.waiting[at], "method"@) matches Some(Json::Str(_)),
        forall|j: int|
            0 <= j < at ==> !(field(#[trigger] before.waiting[j], "method"@) matches Some(
                Json::Str(_),
            )),
    ensures
        after.batch == before.batch,
        field(before.waiting[at], "method"@) == Some(Json::Str(next.method)),
        field(before.waiting[at], "params"@) matches Some(own) ==> next.params == own,
        field(before.waiting[at], "params"@) is None ==> (next.params matches Json::Array(items)
            && items@.len() == 0),
        field(before.waiting[at], "id"@) matches Some(own) ==> after.pending == Some(own),
        field(before.waiting[at], "id"@) is None ==> after.pending == Some(Json::Null),
        after.waiting == before.waiting.skip(at + 1),
        after.replies.len() == before.replies.len() + at,
        0 <= k < before.replies.len() ==> after.replies[k] == before.replies[k],
        0 <= k < at ==> (field(after.replies[before.replies.len() + k], "error"@) matches Some(
            error,
        ) && field(error, "code"@) == Some(Json::Int(-32600i64))),
{
    let refused = refused_first(before.waiting);
    law_refusals_stop_at_the_first_with_a_method(before.waiting);
    if refused < at {
        assert(field(before.waiting[refused as int], "method"@) matches Some(Json::Str(_)));
    }
    if at < refused {
        assert(!(field(before.waiting[at], "method"@) matches Some(Json::Str(_))));
    }
    assert(refused == at);
    if 0 <= k < before.replies.len() {
        assert(after.replies.take(before.replies.len() as int)[k] == before.replies[k]);
    }
    if 0 <= k < at {
        let refusal = Handled::Reply(after.replies[before.replies.len() + k]);
        assert(handles(before.waiting[k], refusal));
        law_request_without_method_is_refused(before.waiting[k], refusal);
    }
}

/// Where nothing is left to be forwarded, no request waiting named a method, and
/// each of them was refused.
pub proof fn law_exchange_ends_when_no_method_is_left(
    before: ExchangeState,
    after: ExchangeState,
    k: int,
)
    requires
        takes_next(before, after, None),
    ensures
        after.batch == before.batch,
        after.pending is None,
        after.waiting.len() == 0,
        after.replies.len() == before.replies.len() + before.waiting.len(),
        0 <= k < before.replies.len() ==> after.replies[k] == before.replies[k],
        0 <= k < before.waiting.len() ==> !(field(before.waiting[k], "method"@) matches Some(
            Json::Str(_),
        )),
        0 <= k < before.waiting.len() ==> (field(
            after.replies[before.replies.len() + k],
            "error"@,
        ) matches Some(error) && field(error, "code"@) == Some(Json::Int(-32600i64))),
{
    law_refusals_stop_at_the_first_with_a_method(before.waiting);
    if 0 <= k < before.replies.len() {
        assert(after.replies.take(before.replies.len() as int)[k] == before.replies[k]);
    }
    if 0 <= k < before.waiting.len() {
        let refusal = Handled::Reply(after.replies[before.replies.len() + k]);
        assert(handles(before.waiting[k], refusal));
        law_request_without_method_is_refused(before.waiting[k], refusal);
    }
}

/// The answer to the forwarded request comes behind the replies so far, under
/// the id that was kept for it and with the result that came back.
pub proof fn law_answer_comes_next(
    before: ExchangeState,
    after: ExchangeState,
    outcome: Result<ForwardResult, RpcError>,
    id: Json,
    k: int,
)
    requires
        before.pending == Some(id),
        takes_answer(before, after, outcome),
    ensures
        ({
            let reply = after.replies[before.replies.len() as int];
            &&& after.batch == before.batch
            &&& after.waiting == before.waiting
            &&& after.pending is None
            &&& after.replies.len() == before.replies.len() + 1
            &&& 0 <= k < before.replies.len() ==> after.replies[k] == before.replies[k]
            &&& field(reply, "id"@) == Some(id)
            &&& outcome matches Ok(ForwardResult::Result(result)) ==> field(reply, "result"@)
                == Some(result) && field(reply, "error"@) is None
            &&& outcome matches Ok(ForwardResult::Error { code, message, data }) ==> (field(
                reply,
                "error"@,
            ) matches Some(error) && field(error, "code"@) == Some(Json::Int(code)) && (field(
                error,
                "message"@,
            ) matches Some(Json::Str(m)) && m@ == message@) && field(error, "data"@) == data)
            &&& outcome is Err ==> field(reply, "error"@) is Some && field(reply, "result"@)
                is None
        }),
{
    law_reply_says_what_came_of_it(after.replies.last(), id, outcome);
    if 0 <= k < before.replies.len() {
        assert(after.replies.drop_last()[k] == before.replies[k]);
    }
}

/// Opening an exchange loses nothing of what was posted: every item of a batch
/// waits, in order, or else the one request does, and nothing is answered yet.
pub proof fn law_exchange_opens_with_all_requests(payload: Json, exchange: Exchange)
    requires
        call_ensures(Exchange::open, (payload,), exchange),
    ensures
        exchange@.replies.len() == 0,
        exchange@.pending is None,
        payload matches Json::Array(items) ==> exchange@.batch && exchange@.waiting == items@,
        !(payload is Array) ==> !exchange@.batch && exchange@.waiting == seq![payload],
        in_step(requests_in(payload), exchange@),
{
    let requests = requests_in(payload);
    assert(requests.skip(0) =~= requests);
}

/// A batch is answered with all its replies in order, and a single request with
/// its one reply.
pub proof fn law_response_holds_all_replies(exchange: Exchange, response: Json)
    requires
        !exchange@.batch ==> exchange@.replies.len() == 1,
        call_ensures(Exchange::close, (exchange,), response),
    ensures
        exchange@.batch ==> (response matches Json::Array(items) && items@ == exchange@.replies),
        !exchange@.batch ==> seq![response] == exchange@.replies,
{
    if !exchange@.batch {
        assert(seq![response] =~= exchange@.replies);
    }
}

/// The health route counts the endpoints and those without a run of failures,
/// and is ready exactly when there are any.
pub proof fn law_health_report_counts_endpoints(
    statuses: &Vec<PoolEntryStatus>,
    report: HealthReport,
)
    requires
        call_ensures(health_report, (statuses,), report),
    ensures
        report.endpoints_total == statuses@.len(),
        report.endpoints_healthy == statuses@.filter(
            |s: PoolEntryStatus| s.health.consecutive_failures == 0,
        ).len(),
        report.code == 200 || report.code == 503,
        report.code == 200 <==> statuses@.len() > 0,
        report.status@ == (if report.code == 200 {
            "ok"@
        } else {
            "empty"@
        }),
{
    lemma_healthy_count_is_filter(statuses@);
}

proof fn lemma_healthy_count_is_filter(statuses: Seq<PoolEntryStatus>)
    ensures
        healthy_count(statuses) == statuses.filter(
            |s: PoolEntryStatus| s.health.consecutive_failures == 0,
        ).len(),
    decreases statuses.len(),
{
    reveal(Seq::filter);
    if statuses.len() > 0 {
        lemma_healthy_count_is_filter(statuses.drop_last());
    }
}

/// What is taken apart is what was posted: the request that is forwarded has the
/// client's method and the client's parameters, of whatever kind they are, and
/// is answered under the client's id with what came back.
pub proof fn law_request_and_answer_pass_through(
    request: Json,
    handled: Handled,
    name: String,
    sent: Json,
    id: Json,
    result: Json,
    reply: Json,
)
    requires
        call_ensures(handle_one, (request,), handled),
        field(request, "method"@) == Some(Json::Str(name)),
        field(request, "params"@) == Some(sent),
        field(request, "id"@) == Some(id),
        call_ensures(respond, (id, Ok::<ForwardResult, RpcError>(ForwardResult::Result(result))), reply),
    ensures
        handled matches Handled::Forward { id: kept, method, params } && kept == id && method
            == name && params == sent,
        field(reply, "id"@) == Some(id),
        field(reply, "result"@) == Some(result),
        field(reply, "error"@) is None,
{
    law_request_is_forwarded_as_written(request, handled, name);
    law_reply_says_what_came_of_it(
        reply,
        id,
        Ok::<ForwardResult, RpcError>(ForwardResult::Result(result)),
    );
}

} // verus!
