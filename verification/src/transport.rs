//! What a transport's reply comes to.
//!
//! The pool does not care how bytes move. A transport sends the request body as
//! a POST with `Content-Type: application/json`, returns the raw response bytes
//! on 2xx, and an error message on any transport failure or other status.

use vstd::prelude::*;
use vstd::utf8::{decode_utf8, valid_utf8};

use crate::text::{decimal, push_decimal};

verus! {

/// Bytes as text, with a replacement character for whatever is not UTF-8.
pub uninterp spec fn lossy_text(bytes: Seq<u8>) -> Seq<char>;

/// Reads bytes as text with `std`'s `String::from_utf8_lossy`. The contract
/// claims that the text depends on the bytes alone, and that bytes which are
/// UTF-8 are read as what they encode. How other bytes are replaced is left to
/// the name.
#[verifier::external_body]
fn lossy(bytes: &[u8]) -> (r: String)
    ensures
        r@ == lossy_text(bytes@),
        valid_utf8(bytes@) ==> r@ == decode_utf8(bytes@),
{
    String::from_utf8_lossy(bytes).into_owned()
}

/// What an HTTP response means to the pool: the body of a 2xx is the reply, and
/// any other status (429 rate-limit, 5xx, ...) is a failure.
pub fn http_outcome(status: u16, body: Vec<u8>) -> (r: Result<Vec<u8>, String>)
    ensures
        if 200 <= status < 300 {
            r == Ok::<Vec<u8>, String>(body)
        } else {
            r matches Err(m) && m@ == "http "@ + decimal(status as nat) + " "@ + lossy_text(body@)
        },
        r matches Err(m) ==> (valid_utf8(body@) ==> m@ == "http "@ + decimal(status as nat) + " "@
            + decode_utf8(body@)),
{
    if 200 <= status && status < 300 {
        return Ok(body);
    }
    let mut message = "http ".to_owned();
    push_decimal(&mut message, status as u64);
    message.append(" ");
    message.append(lossy(body.as_slice()).as_str());
    Err(message)
}

/// The message for an error that a JavaScript host threw: its text if it is
/// one, else its JSON form if it has one.
pub fn js_err_to_string(prefix: &str, text: Option<String>, json: Option<String>) -> (r: String)
    ensures
        r@ == prefix@ + ": "@ + match (text, json) {
            (Some(t), _) => t@,
            (None, Some(j)) => j@,
            (None, None) => "<non-string JS error>"@,
        },
{
    let mut out = prefix.to_owned();
    out.append(": ");
    match (text, json) {
        (Some(t), _) => {
            out.append(t.as_str());
        },
        (None, Some(j)) => {
            out.append(j.as_str());
        },
        (None, None) => {
            out.append("<non-string JS error>");
        },
    }
    out
}

/// What comes of a response depends on its status: the bytes of one from 200 to
/// 299 are handed on as they are, and any other is a failure that tells its
/// status and its text, for whatever bytes.
pub proof fn law_only_success_hands_the_body_on(
    status: u16,
    body: Vec<u8>,
    outcome: Result<Vec<u8>, String>,
)
    requires
        call_ensures(http_outcome, (status, body), outcome),
    ensures
        outcome is Ok <==> status / 100 == 2,
        outcome matches Ok(bytes) ==> bytes == body,
        outcome matches Err(words) ==> words@ == "http "@ + decimal(status as nat) + " "@
            + lossy_text(body@),
        outcome matches Err(words) ==> (valid_utf8(body@) ==> words@ == "http "@ + decimal(
            status as nat,
        ) + " "@ + decode_utf8(body@)),
{
}

/// What a host threw is told behind the prefix: its text, or else its JSON form,
/// and words of the library's own only where it has neither.
pub proof fn law_thrown_error_is_told(
    prefix: &str,
    text: Option<String>,
    json: Option<String>,
    told: String,
)
    requires
        call_ensures(js_err_to_string, (prefix, text, json), told),
    ensures
        (prefix@ + ": "@).is_prefix_of(told@),
        text matches Some(own) ==> told@ == prefix@ + ": "@ + own@,
        text is None ==> (json matches Some(own) ==> told@ == prefix@ + ": "@ + own@),
        text is None && json is None ==> told@ == prefix@ + ": "@ + "<non-string JS error>"@,
{
    let start = prefix@ + ": "@;
    assert(start =~= told@.subrange(0, start.len() as int));
}

} // verus!
