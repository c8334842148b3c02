//! The decisions of one exchange: what is written, what a read of the
//! response head leads to, and when a connection must be repaired.
use vstd::prelude::*;
use crate::config::ClientBuilder;
use crate::chars::string_from_chars;
use crate::errors::SendingRequestError;
use crate::request::{HttpBody, HttpRequest, header_insert, request_head};
use crate::response::{BodyPlan, HeadError, HttpResponse, body_plan_spec};
use crate::head::parse_head;

verus! {

/// The decimal digit for `d < 10`.
pub open spec fn digit_char(d: nat) -> char {
    if d == 0 { '0' } else if d == 1 { '1' } else if d == 2 { '2' } else if d == 3 { '3' }
    else if d == 4 { '4' } else if d == 5 { '5' } else if d == 6 { '6' } else if d == 7 { '7' }
    else if d == 8 { '8' } else { '9' }
}

/// `n` in decimal, without leading zeros.
pub open spec fn decimal_chars(n: nat) -> Seq<char>
    decreases n,
{
    if n < 10 {
        seq![digit_char(n)]
    } else {
        decimal_chars(n / 10) + seq![digit_char(n % 10)]
    }
}

/// The decimal digit for `d < 10`.
fn digit_of(d: usize) -> (r: char)
    requires
        d < 10,
    ensures
        r == digit_char(d as nat),
{
    if d == 0 { '0' } else if d == 1 { '1' } else if d == 2 { '2' } else if d == 3 { '3' }
    else if d == 4 { '4' } else if d == 5 { '5' } else if d == 6 { '6' } else if d == 7 { '7' }
    else if d == 8 { '8' } else { '9' }
}

/// Appends `n` in decimal.
fn push_decimal(out: &mut Vec<char>, n: usize)
    ensures
        final(out)@ == old(out)@ + decimal_chars(n as nat),
    decreases n,
{
    if n >= 10 {
        push_decimal(out, n / 10);
    }
    out.push(digit_of(n % 10));
    assert(final(out)@ =~= old(out)@ + decimal_chars(n as nat));
}

/// `n` in decimal, without sign or leading zeros.
pub fn decimal_string(n: usize) -> (r: String)
    ensures
        r@ == decimal_chars(n as nat),
{
    let mut v: Vec<char> = Vec::new();
    push_decimal(&mut v, n);
    assert(v@ =~= decimal_chars(n as nat));
    string_from_chars(&v)
}

/// "Content-Length"
pub open spec fn content_length_key() -> Seq<char> {
    seq!['C', 'o', 'n', 't', 'e', 'n', 't', '-', 'L', 'e', 'n', 'g', 't', 'h']
}

/// The length that a body declares: its byte count, or the declared length
/// of a stream.
pub open spec fn body_length(b: HttpBody) -> nat {
    match b {
        HttpBody::Bytes(d) => d@.len(),
        HttpBody::Stream(s) => s.length as nat,
    }
}

/// Makes a request ready to send: a request with a body gets a
/// Content-Length header with the body's length, and the head bytes are
/// returned.
pub fn prepare_request(request: &mut HttpRequest) -> (head: Vec<u8>)
    requires
        old(request).wf(),
    ensures
        final(request).wf(),
        final(request).method == old(request).method,
        final(request).path == old(request).path,
        final(request).body == old(request).body,
        match old(request).body {
            None => final(request).headers == old(request).headers,
            Some(b) => final(request).headers_spec() == header_insert(
                old(request).headers_spec(),
                content_length_key(),
                decimal_chars(body_length(b)),
            ),
        },
        head@ == request_head(final(request).method@, final(request).path@, final(request).headers_spec()),
{
    let len: Option<usize> = match &request.body {
        None => None,
        Some(HttpBody::Bytes(d)) => Some(d.len()),
        Some(HttpBody::Stream(s)) => Some(s.length),
    };
    if let Some(n) = len {
        let key = "Content-Length".to_owned();
        proof {
            reveal_strlit("Content-Length");
            assert(key@ =~= content_length_key());
        }
        request.set_header(key, decimal_string(n));
    }
    request.writeable_head_bytes()
}

/// A failure after a connection was acquired leaves its stream in an unknown
/// state: the slot is then repaired in the background.
pub open spec fn spec_needs_repair(e: SendingRequestError) -> bool {
    !(e is TcpCErrors)
}

/// Whether a failed exchange must have its connection repaired.
pub fn needs_repair(e: &SendingRequestError) -> (r: bool)
    ensures
        r == spec_needs_repair(*e),
{
    match e {
        SendingRequestError::TcpCErrors(_) => false,
        _ => true,
    }
}

/// Where reading the response head stands after a read.
pub enum HeadStep {
    /// the head is not complete yet: read again
    ReadMore,
    /// the exchange fails
    Fail(SendingRequestError),
    /// the head is parsed; the body goes as planned
    Ready(HttpResponse, BodyPlan),
}

/// The head in `b` declares a body longer than `limit`.
pub open spec fn declares_too_large(b: Seq<u8>, limit: usize) -> bool {
    match parse_head(b) {
        Some(hv) => match hv.4 {
            Some(n) => n > limit,
            None => false,
        },
        None => false,
    }
}

/// Decides what the bytes read so far lead to. A malformed head fails the
/// exchange at once, as does a declared body longer than the configured
/// bound; a complete head is parsed and its body planned.
pub fn on_head_bytes(buffer: &[u8], config: &ClientBuilder) -> (r: HeadStep)
    ensures
        match r {
            HeadStep::ReadMore => crate::head::head_end(buffer@) is None,
            HeadStep::Fail(e) => (e == SendingRequestError::ReadingErrors && crate::head::head_end(
                buffer@,
            ) is Some && parse_head(buffer@) is None) || (e == SendingRequestError::BodyTooLarge
                && declares_too_large(buffer@, config.spec_body_limit())),
            HeadStep::Ready(resp, plan) => parse_head(buffer@) == Some(resp.head_view())
                && resp.body is None && plan.view() == body_plan_spec(
                buffer@,
                resp.size_of_head as int,
                resp.content_length,
                config.spec_body_limit(),
            ) && plan.view().0 != 4,
        },
{
    match HttpResponse::read(buffer) {
        Err(HeadError::Incomplete) => HeadStep::ReadMore,
        Err(HeadError::Malformed) => HeadStep::Fail(SendingRequestError::ReadingErrors),
        Ok(resp) => {
            let limit = config.body_limit();
            proof {
                assert(resp.size_of_head <= buffer@.len()) by {
                    let i = crate::head::head_end(buffer@)->Some_0;
                    assert(crate::head::is_first_occurrence(buffer@, crate::head::head_terminator(), i));
                }
            }
            let plan = crate::response::plan_body(buffer, resp.size_of_head, resp.content_length, limit);
            if let BodyPlan::TooLarge = plan {
                HeadStep::Fail(SendingRequestError::BodyTooLarge)
            } else {
                HeadStep::Ready(resp, plan)
            }
        },
    }
}

} // verus!
