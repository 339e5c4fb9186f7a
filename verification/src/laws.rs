//! Properties that span the client, the server and the two-party mode.

use vstd::prelude::*;
use vstd::utf8::{decode_utf8, encode_utf8, valid_utf8};
use crate::text::{
    drop_leading, drop_trailing, lemma_decode_zero_padded, lemma_first_byte, nuls, trim_nul,
    trim_ws, zeros,
};
use crate::wire::{
    be_value, fill_buffer, kind_of, DatagramKind, ACK_TAG, LOAD_QUERY_TAG, REQUEST_BUFFER_LEN,
};
use crate::client::sender::reply_verdict;
use crate::peer::receiver::{ack_spec, receive_buffer, RECEIVE_BUFFER_LEN};
use crate::peer::sender::{request_frame_spec, REQUEST_TAG};

verus! {

proof fn lemma_drop_leading_nuls(k: nat, p: spec_fn(char) -> bool)
    requires
        p('\0'),
    ensures
        drop_leading(nuls(k), p) == Seq::<char>::empty(),
    decreases k,
{
    if k > 0 {
        assert(nuls(k).drop_first() =~= nuls((k - 1) as nat));
        lemma_drop_leading_nuls((k - 1) as nat, p);
    } else {
        assert(nuls(0) =~= Seq::<char>::empty());
    }
}

proof fn lemma_drop_trailing_nuls(x: Seq<char>, k: nat, p: spec_fn(char) -> bool)
    requires
        p('\0'),
    ensures
        drop_trailing(x + nuls(k), p) == drop_trailing(x, p),
    decreases k,
{
    if k > 0 {
        assert((x + nuls(k)).drop_last() =~= x + nuls((k - 1) as nat));
        assert((x + nuls(k)).last() == '\0');
        lemma_drop_trailing_nuls(x, (k - 1) as nat, p);
    } else {
        assert(x + nuls(0) =~= x);
    }
}

/// Text that neither starts nor ends with NUL comes back unchanged from
/// padding it with NULs and trimming NULs at both ends.
pub proof fn lemma_trim_nul_padding(t: Seq<char>, k: nat)
    requires
        t.len() > 0 ==> t[0] != '\0' && t.last() != '\0',
    ensures
        trim_nul(t + nuls(k)) == t,
{
    let p = |c: char| c == '\0';
    if t.len() == 0 {
        assert(t + nuls(k) =~= nuls(k));
        lemma_drop_leading_nuls(k, p);
    } else {
        assert((t + nuls(k))[0] == t[0]);
        assert(drop_leading(t + nuls(k), p) == t + nuls(k));
        lemma_drop_trailing_nuls(t, k, p);
    }
}

/// A request echoed by the server is recognised by the client that sent it.
///
/// A message whose UTF-8 form fits the request buffer, that does not start
/// with the load-query or acknowledgement tag, and that neither starts nor
/// ends with NUL, is taken by the server as a request; the buffer it queues
/// and later sends back, received into the client's buffer, is judged by the
/// client to be the echo of that message.
pub proof fn lemma_echo_acknowledged(message: Seq<char>)
    requires
        encode_utf8(message).len() <= REQUEST_BUFFER_LEN,
        message.len() > 0 ==> {
            &&& message[0] != '\u{1}'
            &&& message[0] != '\u{2}'
            &&& message[0] != '\0'
            &&& message.last() != '\0'
        },
    ensures
        ({
            let buf = fill_buffer(encode_utf8(message), REQUEST_BUFFER_LEN as nat);
            &&& buf.len() == REQUEST_BUFFER_LEN
            &&& kind_of(buf[0]) == DatagramKind::Request
            &&& fill_buffer(buf, REQUEST_BUFFER_LEN as nat) == buf
            &&& reply_verdict(buf, message) == Some(true)
        }),
{
    let bytes = encode_utf8(message);
    let k = (REQUEST_BUFFER_LEN - bytes.len()) as nat;
    let buf = fill_buffer(bytes, REQUEST_BUFFER_LEN as nat);
    if bytes.len() == REQUEST_BUFFER_LEN {
        assert(zeros(0) =~= Seq::<u8>::empty());
        assert(bytes.take(REQUEST_BUFFER_LEN as int) =~= bytes + zeros(k));
    }
    assert(buf == bytes + zeros(k));
    assert(buf.take(REQUEST_BUFFER_LEN as int) =~= buf);
    lemma_decode_zero_padded(message, k);
    assert(decode_utf8(buf) == message + nuls(k));
    lemma_trim_nul_padding(message, k);
    if message.len() > 0 {
        lemma_first_byte(message);
        assert(buf[0] == bytes[0]);
        assert(('\u{1}' as u32) == 1u32 && ('\u{2}' as u32) == 2u32);
        if (message[0] as u32) < 0x80 {
            assert(buf[0] != LOAD_QUERY_TAG && buf[0] != ACK_TAG);
        }
    } else {
        assert(buf[0] == 0u8);
    }
}

/// The load a client reads from a server's report is the load the server
/// reported.
pub proof fn lemma_load_report_roundtrip(report: [u8; 2])
    ensures
        be_value([fill_buffer(report@, 2)[0], fill_buffer(report@, 2)[1]]) == be_value(report),
{
    assert(report@.len() == 2);
    assert(report@.take(2) =~= report@);
}

/// In the two-party mode a frame made from typed input is acknowledged,
/// and the receiver prints the input without white space at its ends
/// (followed by the NULs of the unused buffer), when its UTF-8 form fits
/// the receive buffer after the tag.
pub proof fn lemma_frame_acknowledged(input: Seq<char>)
    requires
        encode_utf8(trim_ws(input)).len() < RECEIVE_BUFFER_LEN,
    ensures
        ({
            let buf = receive_buffer(request_frame_spec(input));
            let rest = buf.subrange(1, buf.len() as int);
            &&& buf[0] == REQUEST_TAG
            &&& valid_utf8(rest)
            &&& decode_utf8(rest) == trim_ws(input) + nuls(
                (RECEIVE_BUFFER_LEN - 1 - encode_utf8(trim_ws(input)).len()) as nat,
            )
        }),
{
    let body = encode_utf8(trim_ws(input));
    let frame = request_frame_spec(input);
    let k = (RECEIVE_BUFFER_LEN - 1 - body.len()) as nat;
    let buf = receive_buffer(frame);
    assert(frame =~= seq![REQUEST_TAG] + body);
    assert(frame.len() <= RECEIVE_BUFFER_LEN);
    if frame.len() == RECEIVE_BUFFER_LEN {
        assert(frame.take(RECEIVE_BUFFER_LEN as int) =~= frame + zeros(0));
    }
    assert(buf == frame + zeros((RECEIVE_BUFFER_LEN - frame.len()) as nat));
    assert(buf.subrange(1, buf.len() as int) =~= body + zeros(k));
    lemma_decode_zero_padded(trim_ws(input), k);
}

/// An acknowledgement is never itself acknowledged: whatever the
/// receiver's address, the acknowledgement does not start with the request
/// tag.
pub proof fn lemma_ack_not_acknowledged(addr: Seq<char>)
    ensures
        receive_buffer(ack_spec(addr))[0] != REQUEST_TAG,
{
    let ack = ack_spec(addr);
    if ack.len() >= RECEIVE_BUFFER_LEN {
        assert(ack.take(RECEIVE_BUFFER_LEN as int)[0] == ack[0]);
    } else {
        assert((ack + zeros((RECEIVE_BUFFER_LEN - ack.len()) as nat))[0] == ack[0]);
    }
}

/// The load query a client sends is taken by the server as a load query.
pub proof fn lemma_load_query_recognised()
    ensures
        kind_of(fill_buffer(seq![LOAD_QUERY_TAG, LOAD_QUERY_TAG], REQUEST_BUFFER_LEN as nat)[0])
            == DatagramKind::LoadQuery,
{
    let q = seq![LOAD_QUERY_TAG, LOAD_QUERY_TAG];
    assert((q + zeros((REQUEST_BUFFER_LEN - 2) as nat))[0] == LOAD_QUERY_TAG);
}


/// A client's verdict on a reply: `None` exactly when the reply is not
/// UTF-8 text; `Some(true)` exactly when the text, without NULs and then
/// white space at its ends, equals the message without white space at its
/// ends; `Some(false)` whenever the two differ.
pub proof fn lemma_reply_verdict_exact(reply: Seq<u8>, message: Seq<char>)
    ensures
        reply_verdict(reply, message) is None <==> !valid_utf8(reply),
        reply_verdict(reply, message) == Some(true) <==> valid_utf8(reply) && trim_ws(
            trim_nul(decode_utf8(reply)),
        ) == trim_ws(message),
        reply_verdict(reply, message) == Some(false) <==> valid_utf8(reply) && trim_ws(
            trim_nul(decode_utf8(reply)),
        ) != trim_ws(message),
{
}

/// One reply is taken as the echo of at most one message, up to white
/// space at the message's ends: two messages it is accepted for agree once
/// trimmed.
pub proof fn lemma_reply_accepts_one_message(reply: Seq<u8>, m1: Seq<char>, m2: Seq<char>)
    requires
        reply_verdict(reply, m1) == Some(true),
        reply_verdict(reply, m2) == Some(true),
    ensures
        trim_ws(m1) == trim_ws(m2),
{
}

/// The echo of one message is rejected as the echo of a message that
/// differs from it once trimmed, and accepted for one that does not.
pub proof fn lemma_echo_of_other_message(sent: Seq<char>, other: Seq<char>)
    requires
        encode_utf8(sent).len() <= REQUEST_BUFFER_LEN,
        sent.len() > 0 ==> sent[0] != '\0' && sent.last() != '\0',
    ensures
        reply_verdict(fill_buffer(encode_utf8(sent), REQUEST_BUFFER_LEN as nat), other)
            == Some(trim_ws(sent) == trim_ws(other)),
{
    let bytes = encode_utf8(sent);
    let k = (REQUEST_BUFFER_LEN - bytes.len()) as nat;
    let buf = fill_buffer(bytes, REQUEST_BUFFER_LEN as nat);
    if bytes.len() == REQUEST_BUFFER_LEN {
        assert(zeros(0) =~= Seq::<u8>::empty());
        assert(bytes.take(REQUEST_BUFFER_LEN as int) =~= bytes + zeros(k));
    }
    assert(buf == bytes + zeros(k));
    lemma_decode_zero_padded(sent, k);
    lemma_trim_nul_padding(sent, k);
}

} // verus!
