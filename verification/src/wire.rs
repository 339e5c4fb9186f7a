//! Byte-level formats exchanged between clients and servers.

use vstd::prelude::*;
use crate::text::zeros;

verus! {

/// The value of a two-byte big-endian load report.
pub open spec fn be_value(bytes: [u8; 2]) -> int {
    bytes[0] as int * 256 + bytes[1] as int
}

/// Encodes a load as the two big-endian bytes a server sends in reply to a
/// load query.
pub fn encode_load(load: u16) -> (bytes: [u8; 2])
    ensures
        be_value(bytes) == load as int,
{
    let hi: u8 = (load / 256) as u8;
    let lo: u8 = (load % 256) as u8;
    [hi, lo]
}

/// Reads a load report: the two bytes taken as a big-endian number.
pub fn decode_load(bytes: [u8; 2]) -> (load: u16)
    ensures
        load as int == be_value(bytes),
{
    let hi: u16 = bytes[0] as u16;
    let lo: u16 = bytes[1] as u16;
    hi * 256 + lo
}


/// Size of the buffer into which servers and clients receive requests and
/// their echoes; longer datagrams are cut to this length.
pub const REQUEST_BUFFER_LEN: usize = 100;

/// Size of the buffer into which a client receives a load report.
pub const LOAD_REPORT_LEN: usize = 2;

/// First byte of a load query.
pub const LOAD_QUERY_TAG: u8 = 2;

/// First byte of an acknowledgement.
pub const ACK_TAG: u8 = 1;

/// What a server makes of a datagram, by its first byte.
#[derive(PartialEq, Eq, Structural, Clone, Copy, Debug)]
pub enum DatagramKind {
    /// A client asks for the server's current load.
    LoadQuery,
    /// An acknowledgement, which the server ignores.
    Ack,
    /// A request to be queued and echoed back.
    Request,
}

/// The kind of a datagram whose first byte is `first`.
pub open spec fn kind_of(first: u8) -> DatagramKind {
    if first == LOAD_QUERY_TAG {
        DatagramKind::LoadQuery
    } else if first == ACK_TAG {
        DatagramKind::Ack
    } else {
        DatagramKind::Request
    }
}

/// Classifies a datagram by its first byte.
pub fn classify(first: u8) -> (k: DatagramKind)
    ensures
        k == kind_of(first),
{
    if first == LOAD_QUERY_TAG {
        DatagramKind::LoadQuery
    } else if first == ACK_TAG {
        DatagramKind::Ack
    } else {
        DatagramKind::Request
    }
}

/// The contents of a zeroed buffer of `n` bytes after a datagram `d` was
/// received into it: `d` cut to `n` bytes, then zeros.
pub open spec fn fill_buffer(d: Seq<u8>, n: nat) -> Seq<u8> {
    if d.len() >= n {
        d.take(n as int)
    } else {
        d + zeros((n - d.len()) as nat)
    }
}

/// A zeroed buffer of `len` bytes into which `datagram` was received.
pub fn receive_into(datagram: &[u8], len: usize) -> (buf: Vec<u8>)
    ensures
        buf@ == fill_buffer(datagram@, len as nat),
{
    let mut buf: Vec<u8> = Vec::new();
    let mut i: usize = 0;
    while i < len
        invariant
            i <= len,
            buf@.len() == i,
            forall|j: int| 0 <= j < i ==> buf@[j] == (if j < datagram@.len() { datagram@[j] } else { 0u8 }),
        decreases len - i,
    {
        if i < datagram.len() {
            buf.push(datagram[i]);
        } else {
            buf.push(0u8);
        }
        i = i + 1;
    }
    assert(buf@ =~= fill_buffer(datagram@, len as nat));
    buf
}

/// The load read from a reply to a load query: the reply received into a
/// zeroed two-byte buffer, taken as a big-endian number.
pub fn load_from_reply(reply: &[u8]) -> (load: u16)
    ensures
        load as int == be_value(
            [fill_buffer(reply@, 2)[0], fill_buffer(reply@, 2)[1]],
        ),
{
    let buf = receive_into(reply, LOAD_REPORT_LEN);
    decode_load([buf[0], buf[1]])
}


/// Only the load-query tag makes a load query and only the acknowledgement
/// tag an acknowledgement; every other first byte makes a request.
pub proof fn lemma_kinds_by_tag(first: u8)
    ensures
        (kind_of(first) == DatagramKind::LoadQuery) <==> first == 2,
        (kind_of(first) == DatagramKind::Ack) <==> first == 1,
        (kind_of(first) == DatagramKind::Request) <==> (first != 1 && first != 2),
{
}

/// A receive buffer of `n` bytes holds the datagram's first bytes, as many
/// as fit, and zeros after them.
pub proof fn lemma_fill_buffer_contents(d: Seq<u8>, n: nat)
    ensures
        fill_buffer(d, n).len() == n,
        forall|i: int| 0 <= i < n && i < d.len() ==> #[trigger] fill_buffer(d, n)[i] == d[i],
        forall|i: int| d.len() <= i < n ==> #[trigger] fill_buffer(d, n)[i] == 0u8,
{
}

/// A load report carries the high byte first: its first byte is the load
/// divided by 256 and its second the remainder.
pub proof fn lemma_report_high_byte_first(load: u16, report: [u8; 2])
    requires
        be_value(report) == load,
    ensures
        report[0] == load / 256,
        report[1] == load % 256,
{
}

} // verus!
