//! Printing received requests and acknowledging them.

use vstd::prelude::*;
use vstd::utf8::{decode_utf8, encode_utf8, valid_utf8};
use crate::text::{decode_text, push_str, utf8_bytes};
use crate::wire::{fill_buffer, receive_into, ACK_TAG};
use crate::peer::sender::REQUEST_TAG;

verus! {

/// Size of the buffer into which a receiver takes datagrams.
pub const RECEIVE_BUFFER_LEN: usize = 1000;

/// A receiver, known by the address it listens on.
pub struct RequestReceiver {
    /// The address the receiver listens on.
    pub addr: String,
}

/// What a receiver makes of one datagram.
pub struct Receipt {
    /// The text after the first byte, to be printed.
    pub text: String,
    /// The acknowledgement to send back, when the datagram was a request.
    pub ack: Option<Vec<u8>>,
}

/// The acknowledgement a receiver on `addr` sends: the acknowledgement tag,
/// then `Message Recieved By ` and the address, in UTF-8.
pub open spec fn ack_spec(addr: Seq<char>) -> Seq<u8> {
    seq![ACK_TAG] + encode_utf8("Message Recieved By "@ + addr)
}

/// The buffer into which a receiver takes `datagram`.
pub open spec fn receive_buffer(datagram: Seq<u8>) -> Seq<u8> {
    fill_buffer(datagram, RECEIVE_BUFFER_LEN as nat)
}

impl RequestReceiver {
    /// A receiver listening on `addr`.
    pub fn new(addr: String) -> (r: RequestReceiver)
        ensures
            r.addr@ == addr@,
    {
        RequestReceiver { addr }
    }

    /// The acknowledgement this receiver sends.
    pub fn ack_message(&self) -> (ack: Vec<u8>)
        ensures
            ack@ == ack_spec(self.addr@),
    {
        let mut text = String::new();
        push_str(&mut text, "Message Recieved By ");
        push_str(&mut text, self.addr.as_str());
        let body = utf8_bytes(text.as_str());
        let mut ack: Vec<u8> = Vec::new();
        ack.push(ACK_TAG);
        let mut i: usize = 0;
        while i < body.len()
            invariant
                i <= body@.len(),
                ack@ == seq![ACK_TAG] + body@.take(i as int),
            decreases body@.len() - i,
        {
            ack.push(body[i]);
            assert(body@.take(i as int + 1) =~= body@.take(i as int).push(body@[i as int]));
            i = i + 1;
        }
        assert(body@.take(body@.len() as int) =~= body@);
        ack
    }

    /// Takes in a datagram, received into the receive buffer: the text after
    /// its first byte is to be printed, and a request (first byte 0) is
    /// acknowledged. `None` when that text is not UTF-8.
    pub fn receive(&self, datagram: &[u8]) -> (r: Option<Receipt>)
        ensures
            ({
                let buf = receive_buffer(datagram@);
                let rest = buf.subrange(1, buf.len() as int);
                match r {
                    Some(rc) => {
                        &&& valid_utf8(rest)
                        &&& rc.text@ == decode_utf8(rest)
                        &&& (buf[0] == REQUEST_TAG <==> rc.ack is Some)
                        &&& rc.ack matches Some(a) ==> a@ == ack_spec(self.addr@)
                    },
                    None => !valid_utf8(rest),
                }
            }),
    {
        let buf = receive_into(datagram, RECEIVE_BUFFER_LEN);
        let mut rest: Vec<u8> = Vec::new();
        let mut i: usize = 1;
        while i < buf.len()
            invariant
                1 <= i <= buf@.len(),
                buf@.len() == RECEIVE_BUFFER_LEN,
                rest@ == buf@.subrange(1, i as int),
            decreases buf@.len() - i,
        {
            rest.push(buf[i]);
            assert(buf@.subrange(1, i as int + 1) =~= buf@.subrange(1, i as int).push(buf@[i as int]));
            i = i + 1;
        }
        match decode_text(rest.as_slice()) {
            None => None,
            Some(text) => {
                let ack = if buf[0] == REQUEST_TAG {
                    Some(self.ack_message())
                } else {
                    None
                };
                Some(Receipt { text, ack })
            },
        }
    }
}

/// The port to which a receiver sends the acknowledgement of a request
/// from `port`.
pub fn ack_port(port: u16) -> (p: u16)
    requires
        port < u16::MAX,
    ensures
        p == port + 1,
{
    port + 1
}

} // verus!
