//! JSON-RPC wire shapes and response parsing for the pool.

use vstd::prelude::*;
use vstd::utf8::encode_utf8;

use crate::json::{escaped, escaped_char, json_quote, json_quoted, json_text, members_text, Json};
use crate::text::{decimal, push_decimal, push_signed_decimal, signed_decimal};

verus! {

/// The JSON text of a request.
pub open spec fn request_text(id: u64, method: Seq<char>, params: Json) -> Seq<char> {
    "{\"jsonrpc\":\"2.0\",\"id\":"@ + decimal(id as nat) + ",\"method\":"@ + json_quoted(method)
        + ",\"params\":"@ + json_text(params) + "}"@
}

/// The bytes of a JSON-RPC request.
pub fn encode_request(id: u64, method: &str, params: &Json) -> (r: Vec<u8>)
    ensures
        r@ == encode_utf8(request_text(id, method@, *params)),
{
    let mut out = "{\"jsonrpc\":\"2.0\",\"id\":".to_owned();
    push_decimal(&mut out, id);
    out.append(",\"method\":");
    out.append(json_quote(method).as_str());
    out.append(",\"params\":");
    out.append(params.to_text().as_str());
    out.append("}");
    out.as_str().as_bytes_vec()
}

/// What a response body says, beside its version and id. A result of null is
/// `Some(Json::Null)`; `None` means that the body names no result.
#[derive(Debug)]
pub struct JsonRpcResponse {
    pub result: Option<Json>,
    pub error: Option<JsonRpcErrorBody>,
}

/// The error envelope of a response. Data of null is `Some(Json::Null)`.
#[derive(Debug)]
pub struct JsonRpcErrorBody {
    pub code: i64,
    pub message: String,
    pub data: Option<Json>,
}

/// Why a response is no usable answer.
#[derive(Debug)]
pub enum ResponseError {
    InvalidJson(String),
    RpcError { code: i64, message: String },
    EmptyResult,
}

impl ResponseError {
    /// The error in words.
    pub open spec fn words(self) -> Seq<char> {
        match self {
            ResponseError::InvalidJson(complaint) => "invalid json: "@ + complaint@,
            ResponseError::RpcError { code, message } => "rpc error "@ + signed_decimal(code as int)
                + " "@ + message@,
            ResponseError::EmptyResult => "no result in response"@,
        }
    }

    /// The error in words.
    pub fn to_string(&self) -> (r: String)
        ensures
            r@ == self.words(),
    {
        match self {
            ResponseError::InvalidJson(complaint) => {
                let mut out = "invalid json: ".to_owned();
                out.append(complaint.as_str());
                out
            },
            ResponseError::RpcError { code, message } => {
                let mut out = "rpc error ".to_owned();
                push_signed_decimal(&mut out, *code);
                out.append(" ");
                out.append(message.as_str());
                out
            },
            ResponseError::EmptyResult => "no result in response".to_owned(),
        }
    }
}

/// What a response means for a call: only a `result` is an answer. An error
/// envelope counts before a result.
pub open spec fn answer(parsed: Result<JsonRpcResponse, String>) -> Result<Json, ResponseError> {
    match parsed {
        Err(complaint) => Err(ResponseError::InvalidJson(complaint)),
        Ok(response) => match response.error {
            Some(body) => Err(ResponseError::RpcError { code: body.code, message: body.message }),
            None => match response.result {
                Some(value) => Ok(value),
                None => Err(ResponseError::EmptyResult),
            },
        },
    }
}

/// Read the answer off a response. `parsed` holds the parser's complaint when
/// the body was no JSON-RPC response.
pub fn parse_rpc_response(parsed: Result<JsonRpcResponse, String>) -> (r: Result<
    Json,
    ResponseError,
>)
    ensures
        r == answer(parsed),
{
    match parsed {
        Err(complaint) => Err(ResponseError::InvalidJson(complaint)),
        Ok(response) => match response.error {
            Some(body) => Err(ResponseError::RpcError { code: body.code, message: body.message }),
            None => match response.result {
                Some(value) => Ok(value),
                None => Err(ResponseError::EmptyResult),
            },
        },
    }
}

/// A JSON-RPC error envelope relayed verbatim from an upstream. Distinct from a
/// transport failure: a revert or "method not found" is a *valid* answer that
/// the proxy must pass through rather than fail over on.
#[derive(Debug)]
pub struct UpstreamRpcError {
    pub code: i64,
    pub message: String,
    pub data: Option<Json>,
}

/// Outcome of forwarding a request to a single upstream, before failover logic.
#[derive(Debug)]
pub enum RawOutcome {
    /// A successful `result`.
    Result(Json),
    /// A well-formed JSON-RPC error envelope (relay, do not fail over).
    RpcError(UpstreamRpcError),
}

/// What a response means for the relay: both `result` and `error` envelopes are
/// a usable answer.
pub open spec fn relayed(parsed: Result<JsonRpcResponse, String>) -> Result<
    RawOutcome,
    ResponseError,
> {
    match parsed {
        Err(complaint) => Err(ResponseError::InvalidJson(complaint)),
        Ok(response) => match response.error {
            Some(body) => Ok(
                RawOutcome::RpcError(
                    UpstreamRpcError { code: body.code, message: body.message, data: body.data },
                ),
            ),
            None => match response.result {
                Some(value) => Ok(RawOutcome::Result(value)),
                None => Err(ResponseError::EmptyResult),
            },
        },
    }
}

/// Classify a response for the failover-relay path: only a body that is no
/// JSON-RPC response, or that answers nothing, triggers failover.
pub fn classify_response(parsed: Result<JsonRpcResponse, String>) -> (r: Result<
    RawOutcome,
    ResponseError,
>)
    ensures
        r == relayed(parsed),
{
    match parsed {
        Err(complaint) => Err(ResponseError::InvalidJson(complaint)),
        Ok(response) => match response.error {
            Some(body) => Ok(
                RawOutcome::RpcError(
                    UpstreamRpcError { code: body.code, message: body.message, data: body.data },
                ),
            ),
            None => match response.result {
                Some(value) => Ok(RawOutcome::Result(value)),
                None => Err(ResponseError::EmptyResult),
            },
        },
    }
}

/// A request is a JSON object of four members in this order: the version, the
/// number, the method and the parameters, each with the value it was given.
pub proof fn law_request_is_a_json_object(
    id: u64,
    method: String,
    params: Json,
    members: Vec<(String, Json)>,
)
    requires
        members@.len() == 4,
        members@[0].0@ == "jsonrpc"@,
        members@[0].1 matches Json::Str(version) && version@ == "2.0"@,
        members@[1].0@ == "id"@,
        members@[1].1 == Json::UInt(id),
        members@[2].0@ == "method"@,
        members@[2].1 == Json::Str(method),
        members@[3].0@ == "params"@,
        members@[3].1 == params,
    ensures
        request_text(id, method@, params) == json_text(Json::Object(members)),
{
    let m = members@;
    lemma_four_members(m);
    lemma_request_punctuation();
    lemma_regrouped(
        "{"@,
        json_quoted("jsonrpc"@) + ":"@ + json_quoted("2.0"@),
        ","@,
        json_quoted("id"@) + ":"@,
        decimal(id as nat),
        json_quoted("method"@) + ":"@,
        json_quoted(method@),
        json_quoted("params"@) + ":"@,
        json_text(params),
        "}"@,
    );
    assert(member_text(m[0]) == json_quoted("jsonrpc"@) + ":"@ + json_quoted("2.0"@));
    assert(member_text(m[1]) == json_quoted("id"@) + ":"@ + decimal(id as nat));
    assert(member_text(m[2]) == json_quoted("method"@) + ":"@ + json_quoted(method@));
    assert(member_text(m[3]) == json_quoted("params"@) + ":"@ + json_text(params));
}

/// The text of one object member.
spec fn member_text(member: (String, Json)) -> Seq<char> {
    json_quoted(member.0@) + ":"@ + json_text(member.1)
}

proof fn lemma_four_members(m: Seq<(String, Json)>)
    requires
        m.len() == 4,
    ensures
        members_text(m) == member_text(m[0]) + ","@ + (member_text(m[1]) + ","@ + (member_text(m[2])
            + ","@ + member_text(m[3]))),
{
    let s1 = m.subrange(1, 4);
    let s2 = s1.subrange(1, 3);
    let s3 = s2.subrange(1, 2);
    assert(s1[0] == m[1] && s2[0] == m[2] && s3[0] == m[3]);
    assert(members_text(s3) == member_text(m[3]));
    assert(members_text(s2) == member_text(m[2]) + ","@ + members_text(s3));
    assert(members_text(s1) == member_text(m[1]) + ","@ + members_text(s2));
    assert(members_text(m) == member_text(m[0]) + ","@ + members_text(s1));
}

/// The two ways to group the parts of a request.
proof fn lemma_regrouped(
    open: Seq<char>,
    first: Seq<char>,
    comma: Seq<char>,
    k2: Seq<char>,
    v2: Seq<char>,
    k3: Seq<char>,
    v3: Seq<char>,
    k4: Seq<char>,
    v4: Seq<char>,
    close: Seq<char>,
)
    ensures
        (open + (first + comma + k2)) + v2 + (comma + k3) + v3 + (comma + k4) + v4 + close == open
            + (first + comma + ((k2 + v2) + comma + ((k3 + v3) + comma + (k4 + v4)))) + close,
{
    assert((open + (first + comma + k2)) + v2 + (comma + k3) + v3 + (comma + k4) + v4 + close
        =~= open + (first + comma + ((k2 + v2) + comma + ((k3 + v3) + comma + (k4 + v4))))
        + close);
}

/// A text with nothing to escape is quoted as it is.
proof fn lemma_plain_literal(s: Seq<char>)
    ensures
        (forall|i: int|
            0 <= i < s.len() ==> (#[trigger] s[i]) as u32 >= 0x20 && s[i] != '"' && s[i] != '\\')
            ==> json_quoted(s) == seq!['"'] + s + seq!['"'],
    decreases s.len(),
{
    if forall|i: int|
        0 <= i < s.len() ==> (#[trigger] s[i]) as u32 >= 0x20 && s[i] != '"' && s[i] != '\\' {
        lemma_escapes_nothing(s);
    }
}

proof fn lemma_escapes_nothing(s: Seq<char>)
    requires
        forall|i: int|
            0 <= i < s.len() ==> (#[trigger] s[i]) as u32 >= 0x20 && s[i] != '"' && s[i] != '\\',
    ensures
        escaped(s) == s,
    decreases s.len(),
{
    if s.len() > 0 {
        let shorter = s.drop_last();
        assert forall|i: int| 0 <= i < shorter.len() implies (#[trigger] shorter[i]) as u32 >= 0x20
            && shorter[i] != '"' && shorter[i] != '\\' by {
            assert(s[i] == shorter[i]);
        }
        lemma_escapes_nothing(shorter);
        let last = s[s.len() - 1];
        assert(escaped_char(last) =~= seq![last]);
        assert(escaped(s) =~= s);
    }
}

proof fn lemma_request_punctuation()
    ensures
        "{\"jsonrpc\":\"2.0\",\"id\":"@ == "{"@ + (json_quoted("jsonrpc"@) + ":"@ + json_quoted("2.0"@)
            + ","@ + (json_quoted("id"@) + ":"@)),
        ",\"method\":"@ == ","@ + (json_quoted("method"@) + ":"@),
        ",\"params\":"@ == ","@ + (json_quoted("params"@) + ":"@),
{
    reveal_strlit("{\"jsonrpc\":\"2.0\",\"id\":");
    reveal_strlit(",\"method\":");
    reveal_strlit(",\"params\":");
    reveal_strlit("{");
    reveal_strlit(":");
    reveal_strlit(",");
    reveal_strlit("jsonrpc");
    reveal_strlit("2.0");
    reveal_strlit("id");
    reveal_strlit("method");
    reveal_strlit("params");
    lemma_plain_literal("jsonrpc"@);
    lemma_plain_literal("2.0"@);
    lemma_plain_literal("id"@);
    lemma_plain_literal("method"@);
    lemma_plain_literal("params"@);
    assert("{\"jsonrpc\":\"2.0\",\"id\":"@ =~= "{"@ + (json_quoted("jsonrpc"@) + ":"@ + json_quoted(
        "2.0"@,
    ) + ","@ + (json_quoted("id"@) + ":"@)));
    assert(",\"method\":"@ =~= ","@ + (json_quoted("method"@) + ":"@));
    assert(",\"params\":"@ =~= ","@ + (json_quoted("params"@) + ":"@));
}

/// What a response says is what is read off it. An error comes first, whatever
/// else there is; without one the result is the answer, exactly as it is; and
/// with neither there is none.
pub proof fn law_response_is_read_as_it_is(result: Option<Json>, error: Option<JsonRpcErrorBody>)
    ensures
        ({
            let parsed = Ok::<JsonRpcResponse, String>(JsonRpcResponse { result, error });
            match error {
                Some(body) => {
                    &&& answer(parsed) matches Err(ResponseError::RpcError { code, message })
                    &&& code == body.code
                    &&& message == body.message
                    &&& relayed(parsed) matches Ok(RawOutcome::RpcError(relay))
                    &&& relay.code == body.code
                    &&& relay.message == body.message
                    &&& relay.data == body.data
                },
                None => match result {
                    Some(value) => {
                        &&& answer(parsed) matches Ok(v)
                        &&& v == value
                        &&& relayed(parsed) matches Ok(RawOutcome::Result(w))
                        &&& w == value
                    },
                    None => {
                        &&& answer(parsed) matches Err(ResponseError::EmptyResult)
                        &&& relayed(parsed) matches Err(ResponseError::EmptyResult)
                    },
                },
            }
        }),
{
}

/// A body that is no response is a failure in the parser's own words.
pub proof fn law_parser_is_quoted(complaint: String)
    ensures
        answer(Err(complaint)) matches Err(ResponseError::InvalidJson(m)) && m == complaint,
        relayed(Err(complaint)) matches Err(ResponseError::InvalidJson(m)) && m == complaint,
{
}

/// A failure is told in words that name its cause.
pub proof fn law_response_errors_name_their_cause(error: ResponseError)
    ensures
        error matches ResponseError::InvalidJson(complaint) ==> error.words() == "invalid json: "@
            + complaint@,
        error matches ResponseError::RpcError { code, message } ==> error.words() == "rpc error "@
            + signed_decimal(code as int) + " "@ + message@,
        error is EmptyResult ==> error.words() == "no result in response"@,
{
}

/// The result that a response names is the answer, to a call and to the relay
/// alike, whatever value it is.
pub proof fn law_result_is_handed_on(
    value: Json,
    called: Result<Json, ResponseError>,
    forwarded: Result<RawOutcome, ResponseError>,
)
    requires
        ({
            let parsed = Ok::<JsonRpcResponse, String>(
                JsonRpcResponse { result: Some(value), error: None },
            );
            &&& call_ensures(parse_rpc_response, (parsed,), called)
            &&& call_ensures(classify_response, (parsed,), forwarded)
        }),
    ensures
        called == Ok::<Json, ResponseError>(value),
        forwarded == Ok::<RawOutcome, ResponseError>(RawOutcome::Result(value)),
{
}

} // verus!
