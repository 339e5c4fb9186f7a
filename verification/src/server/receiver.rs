//! A server's load and its queue of requests awaiting their echo.

use vstd::prelude::*;
use std::collections::VecDeque;
use crate::text::{chars_of, push_char, push_str};
use crate::wire::{
    classify, encode_load, fill_buffer, kind_of, receive_into, be_value, DatagramKind,
    REQUEST_BUFFER_LEN,
};

verus! {

/// What a server does with a datagram it received.
pub enum ListenAction<A> {
    /// Send the load report to the sender.
    ReplyLoad([u8; 2], A),
    /// Nothing: the datagram was an acknowledgement.
    Ignore,
    /// The request was queued; it will be echoed when its turn comes.
    Queued,
}

/// The abstract state of a [`RequestReceiver`].
pub struct ReceiverView<A> {
    /// The address the server listens on.
    pub addr: Seq<char>,
    /// The load the server reports.
    pub load: u16,
    /// The queued requests, oldest first, each with its sender.
    pub queue: Seq<(Seq<u8>, A)>,
}

struct Backlog<A> {
    load: u16,
    queue: VecDeque<(Vec<u8>, A)>,
}

/// A server's state: its address, its load, and the requests awaiting their
/// echo. The load is always the number of queued requests.
pub struct RequestReceiver<A> {
    addr: String,
    backlog: Backlog<A>,
}

/// The queued buffers, by their bytes.
pub open spec fn queue_view<A>(q: Seq<(Vec<u8>, A)>) -> Seq<(Seq<u8>, A)> {
    q.map_values(|e: (Vec<u8>, A)| (e.0@, e.1))
}

/// The server's load is the number of queued requests, and each queued
/// request is a full receive buffer.
pub open spec fn receiver_consistent<A>(v: ReceiverView<A>) -> bool {
    &&& v.load == v.queue.len()
    &&& forall|i: int| 0 <= i < v.queue.len() ==> (#[trigger] v.queue[i]).0.len() == REQUEST_BUFFER_LEN
}

impl<A> View for RequestReceiver<A> {
    type V = ReceiverView<A>;

    closed spec fn view(&self) -> ReceiverView<A> {
        ReceiverView {
            addr: self.addr@,
            load: self.backlog.load,
            queue: queue_view(self.backlog.queue@),
        }
    }
}

impl<A> RequestReceiver<A> {
    #[verifier::type_invariant]
    spec fn inv(self) -> bool {
        receiver_consistent(self@)
    }

    /// A server listening on `addr`, with no load and nothing queued.
    pub fn new(addr: String) -> (r: RequestReceiver<A>)
        ensures
            r@.addr == addr@,
            r@.load == 0,
            r@.queue == Seq::<(Seq<u8>, A)>::empty(),
    {
        let r = RequestReceiver { addr, backlog: Backlog { load: 0, queue: VecDeque::new() } };
        assert(r@.queue =~= Seq::<(Seq<u8>, A)>::empty());
        r
    }

    /// The server's load and queue agree in every state it can reach.
    pub fn consistent(&self) -> (b: bool)
        ensures
            b,
            receiver_consistent(self@),
    {
        proof {
            use_type_invariant(self);
        }
        true
    }

    /// The load the server reports.
    pub fn load(&self) -> (l: u16)
        ensures
            l == self@.load,
    {
        self.backlog.load
    }

    /// The address the server listens on.
    pub fn addr(&self) -> (a: &String)
        ensures
            a@ == self@.addr,
    {
        &self.addr
    }

    /// Takes in a datagram from `src`, received into the request buffer: a
    /// load query is answered with the current load, an acknowledgement is
    /// ignored, and anything else is queued as a request, raising the load.
    pub fn on_datagram(&mut self, datagram: &[u8], src: A) -> (action: ListenAction<A>)
        requires
            kind_of(fill_buffer(datagram@, REQUEST_BUFFER_LEN as nat)[0]) == DatagramKind::Request
                ==> old(self)@.load < u16::MAX,
        ensures
            final(self)@.addr == old(self)@.addr,
            receiver_consistent(final(self)@),
            ({
                let buf = fill_buffer(datagram@, REQUEST_BUFFER_LEN as nat);
                match kind_of(buf[0]) {
                    DatagramKind::LoadQuery => {
                        &&& action matches ListenAction::ReplyLoad(report, to)
                        &&& be_value(report) == old(self)@.load
                        &&& to == src
                        &&& final(self)@ == old(self)@
                    },
                    DatagramKind::Ack => {
                        &&& action is Ignore
                        &&& final(self)@ == old(self)@
                    },
                    DatagramKind::Request => {
                        &&& action is Queued
                        &&& final(self)@.load == old(self)@.load + 1
                        &&& final(self)@.queue == old(self)@.queue.push((buf, src))
                    },
                }
            }),
    {
        proof {
            use_type_invariant(&*self);
        }
        let buf = receive_into(datagram, REQUEST_BUFFER_LEN);
        match classify(buf[0]) {
            DatagramKind::LoadQuery => ListenAction::ReplyLoad(encode_load(self.backlog.load), src),
            DatagramKind::Ack => ListenAction::Ignore,
            DatagramKind::Request => {
                let mut b = Backlog { load: 0, queue: VecDeque::new() };
                proof {
                    assert(queue_view(b.queue@) =~= Seq::<(Seq<u8>, A)>::empty());
                }
                std::mem::swap(&mut b, &mut self.backlog);
                let Backlog { load, mut queue } = b;
                let ghost q0 = queue@;
                queue.push_back((buf, src));
                proof {
                    assert(queue_view(queue@) =~= queue_view(q0).push((buf@, src)));
                }
                self.backlog = Backlog { load: load + 1, queue };
                ListenAction::Queued
            },
        }
    }

    /// Hands out the oldest queued request with its sender, lowering the
    /// load; `None` when nothing is queued.
    pub fn next_request(&mut self) -> (next: Option<(Vec<u8>, A)>)
        ensures
            final(self)@.addr == old(self)@.addr,
            receiver_consistent(final(self)@),
            match next {
                Some(r) => {
                    &&& old(self)@.queue.len() > 0
                    &&& (r.0@, r.1) == old(self)@.queue[0]
                    &&& final(self)@.queue == old(self)@.queue.drop_first()
                    &&& final(self)@.load == old(self)@.load - 1
                },
                None => {
                    &&& old(self)@.queue.len() == 0
                    &&& final(self)@ == old(self)@
                },
            },
    {
        proof {
            use_type_invariant(&*self);
        }
        if self.backlog.load == 0 {
            return None;
        }
        let mut b = Backlog { load: 0, queue: VecDeque::new() };
        proof {
            assert(queue_view(b.queue@) =~= Seq::<(Seq<u8>, A)>::empty());
        }
        std::mem::swap(&mut b, &mut self.backlog);
        let Backlog { load, mut queue } = b;
        let ghost q0 = queue@;
        let front = queue.pop_front();
        proof {
            assert(queue_view(queue@) =~= queue_view(q0).drop_first());
        }
        self.backlog = Backlog { load: load - 1, queue };
        front
    }

    /// The name of the file the server logs its load to: its address with
    /// `:` replaced by `-`, then `.txt`.
    pub fn stats_file_name(&self) -> (name: String)
        ensures
            name@ == stats_file_name_spec(self@.addr),
    {
        let v = chars_of(self.addr.as_str());
        let mut name = String::new();
        let mut i: usize = 0;
        while i < v.len()
            invariant
                i <= v@.len(),
                name@ == dash_colons(v@.take(i as int)),
            decreases v@.len() - i,
        {
            let c = if v[i] == ':' { '-' } else { v[i] };
            push_char(&mut name, c);
            assert(v@.take(i as int + 1) =~= v@.take(i as int).push(v@[i as int]));
            assert(dash_colons(v@.take(i as int + 1)) =~= dash_colons(v@.take(i as int)).push(c));
            i = i + 1;
        }
        assert(v@.take(v@.len() as int) =~= v@);
        push_str(&mut name, ".txt");
        name
    }
}

/// `s` with every `:` replaced by `-`.
pub open spec fn dash_colons(s: Seq<char>) -> Seq<char> {
    s.map_values(|c: char| if c == ':' { '-' } else { c })
}

/// The load log's file name for a server listening on `addr`.
pub open spec fn stats_file_name_spec(addr: Seq<char>) -> Seq<char> {
    dash_colons(addr) + ".txt"@
}

/// The port on which a server listening on `port` sends its echoes.
pub fn request_port(port: u16) -> (p: u16)
    requires
        port + 100 <= u16::MAX,
    ensures
        p == port + 100,
{
    port + 100
}

} // verus!
