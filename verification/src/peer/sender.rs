//! Turning typed input into request frames.

use vstd::prelude::*;
use vstd::utf8::encode_utf8;
use crate::text::{chars_of, string_of, trim_whitespace, trim_ws, utf8_bytes};

verus! {

/// First byte of a request frame.
pub const REQUEST_TAG: u8 = 0;

/// A sender's addresses: where it sends from, and to whom.
pub struct RequestSender {
    /// The address the sender sends from.
    pub addr: String,
    /// The address the sender sends to.
    pub recepient_addr: String,
}

/// The frame a sender makes of typed input: the request tag, then the input
/// without white space at its ends, in UTF-8.
pub open spec fn request_frame_spec(input: Seq<char>) -> Seq<u8> {
    seq![REQUEST_TAG] + encode_utf8(trim_ws(input))
}

/// Builds the frame for typed input.
pub fn request_frame(input: &str) -> (frame: Vec<u8>)
    ensures
        frame@ == request_frame_spec(input@),
{
    let chars = chars_of(input);
    let trimmed = trim_whitespace(chars.as_slice());
    let text = string_of(trimmed.as_slice());
    let body = utf8_bytes(text.as_str());
    let mut frame: Vec<u8> = Vec::new();
    frame.push(REQUEST_TAG);
    let mut i: usize = 0;
    while i < body.len()
        invariant
            i <= body@.len(),
            frame@ == seq![REQUEST_TAG] + body@.take(i as int),
        decreases body@.len() - i,
    {
        frame.push(body[i]);
        assert(body@.take(i as int + 1) =~= body@.take(i as int).push(body@[i as int]));
        i = i + 1;
    }
    assert(body@.take(body@.len() as int) =~= body@);
    frame
}

impl RequestSender {
    /// A sender on `addr` that sends to `recepient_addr`.
    pub fn new(addr: String, recepient_addr: String) -> (s: RequestSender)
        ensures
            s.addr@ == addr@,
            s.recepient_addr@ == recepient_addr@,
    {
        RequestSender { addr, recepient_addr }
    }
}

} // verus!
