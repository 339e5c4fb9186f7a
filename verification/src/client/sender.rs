//! The client's record of what it sent where, what came back, and how fast.

use vstd::prelude::*;
use vstd::utf8::*;
use vstd::array::*;
use crate::text::{
    chars_eq, chars_of, decimal, decode_text, push_decimal, push_str, trim_nul, trim_nuls,
    trim_whitespace, trim_ws,
};

verus! {

/// Number of servers for which a client keeps per-server counters.
pub const TRACKED_SERVERS: usize = 3;

/// What one server was sent and how many of those requests came back.
pub struct ServerStat {
    /// The server's position in the server list, in decimal.
    pub name: String,
    /// Requests sent to the server.
    pub num_sent: u32,
    /// Requests the server echoed back in time.
    pub num_ackd: u32,
}

/// A client's statistics, as it reports them at the end of a run.
pub struct ClientStats {
    /// The client's name.
    pub name: String,
    /// Requests sent in all.
    pub total_sent: u128,
    /// Requests echoed back in time.
    pub total_successful: u128,
    /// Running mean of the response times of the successful requests, in
    /// microseconds.
    pub avg_response_time: u128,
    /// Per-server counters, one entry per tracked server in list order.
    pub server_stats: Vec<ServerStat>,
}

/// The abstract state of a [`RequestSender`].
pub struct SenderView {
    pub name: Seq<char>,
    pub servers: Seq<Seq<char>>,
    /// `(sent, acknowledged)` for each tracked server.
    pub per_server: Seq<(u32, u32)>,
    /// Number of successful requests.
    pub successful: u128,
    /// Running mean of their response times in microseconds.
    pub avg_response_time: u128,
    /// Number of requests sent.
    pub total_sent: u128,
    /// The server of the last request sent, while its echo is awaited.
    pub pending: Option<usize>,
    /// The response times of the successful requests, in microseconds, in
    /// the order they came back.
    pub response_times: Seq<u128>,
}

/// The counters agree with each other: the total is the sum of the
/// per-server counts, the successes are the sum of the acknowledgements, and
/// no server has more acknowledgements than requests, counting the one
/// awaited.
pub open spec fn counters_consistent(v: SenderView) -> bool {
    &&& v.per_server.len() == TRACKED_SERVERS
    &&& v.total_sent == v.per_server[0].0 + v.per_server[1].0 + v.per_server[2].0
    &&& v.successful == v.per_server[0].1 + v.per_server[1].1 + v.per_server[2].1
    &&& forall|i: int|
        0 <= i < TRACKED_SERVERS ==> #[trigger] v.per_server[i].1 + (if v.pending == Some(
            i as usize,
        ) {
            1int
        } else {
            0int
        }) <= v.per_server[i].0
    &&& v.pending matches Some(i) ==> i < TRACKED_SERVERS
    &&& v.response_times.len() == v.successful
    &&& v.avg_response_time == mean_of_run(v.response_times)
}

/// The running mean after the responses `times`, taken in order, starting
/// from no response and mean 0.
pub open spec fn mean_of_run(times: Seq<u128>) -> int
    decreases times.len(),
{
    if times.len() == 0 {
        0
    } else {
        next_mean(
            times.len() - 1,
            mean_of_run(times.drop_last()),
            times.last() as int,
        )
    }
}

/// The running mean after one more response of `elapsed` microseconds,
/// when `count` responses had mean `mean`.
pub open spec fn next_mean(count: int, mean: int, elapsed: int) -> int {
    (elapsed + count * mean) / (count + 1)
}

#[derive(Clone, Copy)]
struct Counters {
    per_server: [(u32, u32); 3],
    successful: u128,
    avg_micros: u128,
    total_sent: u128,
    pending: Option<usize>,
    response_times: Ghost<Seq<u128>>,
}

/// A client's record: its name, the servers it may send to, and its
/// counters.
pub struct RequestSender {
    name: String,
    servers: Vec<String>,
    counters: Counters,
}

impl View for RequestSender {
    type V = SenderView;

    closed spec fn view(&self) -> SenderView {
        SenderView {
            name: self.name@,
            servers: self.servers@.map_values(|s: String| s@),
            per_server: self.counters.per_server@,
            successful: self.counters.successful,
            avg_response_time: self.counters.avg_micros,
            total_sent: self.counters.total_sent,
            pending: self.counters.pending,
            response_times: self.counters.response_times@,
        }
    }
}

impl RequestSender {
    #[verifier::type_invariant]
    spec fn inv(self) -> bool {
        counters_consistent(self@)
    }

    /// A sender named `name` for the given servers, with all counters zero.
    pub fn new(name: String, servers: Vec<String>) -> (s: RequestSender)
        ensures
            s@.name == name@,
            s@.servers == servers@.map_values(|t: String| t@),
            s@.per_server == seq![(0u32, 0u32), (0u32, 0u32), (0u32, 0u32)],
            s@.successful == 0,
            s@.avg_response_time == 0,
            s@.total_sent == 0,
            s@.pending is None,
            s@.response_times == Seq::<u128>::empty(),
    {
        let c = Counters {
            per_server: [(0u32, 0u32), (0u32, 0u32), (0u32, 0u32)],
            successful: 0,
            avg_micros: 0,
            total_sent: 0,
            pending: None,
            response_times: Ghost(Seq::<u128>::empty()),
        };
        assert(c.per_server@ =~= seq![(0u32, 0u32), (0u32, 0u32), (0u32, 0u32)]);
        RequestSender { name, servers, counters: c }
    }

    /// The counters are consistent in every state a sender can reach.
    pub fn consistent(&self) -> (b: bool)
        ensures
            b,
            counters_consistent(self@),
    {
        proof {
            use_type_invariant(self);
        }
        true
    }

    /// The number of servers in the list.
    pub fn server_count(&self) -> (n: usize)
        ensures
            n == self@.servers.len(),
    {
        self.servers.len()
    }

    /// The address of server `i`.
    pub fn server(&self, i: usize) -> (addr: &String)
        requires
            i < self@.servers.len(),
        ensures
            addr@ == self@.servers[i as int],
    {
        &self.servers[i]
    }

    /// The sender's name.
    pub fn name(&self) -> (n: &String)
        ensures
            n@ == self@.name,
    {
        &self.name
    }

    /// Requests sent in all.
    pub fn total_sent(&self) -> (n: u128)
        ensures
            n == self@.total_sent,
    {
        self.counters.total_sent
    }

    /// Requests echoed back in time.
    pub fn total_successful(&self) -> (n: u128)
        ensures
            n == self@.successful,
    {
        self.counters.successful
    }

    /// Mean response time of the successful requests, in microseconds.
    pub fn avg_response_time(&self) -> (n: u128)
        ensures
            n == self@.avg_response_time,
    {
        self.counters.avg_micros
    }

    /// `(sent, acknowledged)` for tracked server `i`.
    pub fn server_counts(&self, i: usize) -> (c: (u32, u32))
        requires
            i < TRACKED_SERVERS,
        ensures
            c == self@.per_server[i as int],
    {
        proof {
            use_type_invariant(self);
        }
        self.counters.per_server[i]
    }

    /// The server whose echo is awaited, if any.
    pub fn pending(&self) -> (p: Option<usize>)
        ensures
            p == self@.pending,
    {
        self.counters.pending
    }

    /// Records that a request was sent to server `server`, whose echo is now
    /// awaited.
    pub fn record_send(&mut self, server: usize)
        requires
            server < TRACKED_SERVERS,
            old(self)@.per_server[server as int].0 < u32::MAX,
        ensures
            final(self)@.name == old(self)@.name,
            final(self)@.servers == old(self)@.servers,
            final(self)@.per_server == old(self)@.per_server.update(
                server as int,
                (
                    (old(self)@.per_server[server as int].0 + 1) as u32,
                    old(self)@.per_server[server as int].1,
                ),
            ),
            final(self)@.total_sent == old(self)@.total_sent + 1,
            final(self)@.successful == old(self)@.successful,
            final(self)@.avg_response_time == old(self)@.avg_response_time,
            final(self)@.pending == Some(server),
            final(self)@.response_times == old(self)@.response_times,
            counters_consistent(final(self)@),
    {
        proof {
            use_type_invariant(&*self);
        }
        let mut c = self.counters;
        let (sent, ackd) = c.per_server[server];
        c.per_server.set(server, (sent + 1, ackd));
        c.total_sent = c.total_sent + 1;
        c.pending = Some(server);
        proof {
            assert(c.per_server@ =~= self.counters.per_server@.update(server as int, ((sent + 1) as u32, ackd)));
            assert forall|i: int| 0 <= i < TRACKED_SERVERS implies #[trigger] c.per_server@[i].1 + (
            if c.pending == Some(i as usize) {
                1int
            } else {
                0int
            }) <= c.per_server@[i].0 by {
                assert(self.counters.per_server@[i].1 + (if self.counters.pending == Some(i as usize) {
                    1int
                } else {
                    0int
                }) <= self.counters.per_server@[i].0);
            }
        }
        self.counters = c;
        proof {
            use_type_invariant(&*self);
        }
    }

    /// Records that the awaited echo came back after `elapsed_micros`
    /// microseconds: the server's acknowledgements and the successes grow by
    /// one, and the mean takes in the new response time.
    pub fn record_success(&mut self, elapsed_micros: u128)
        requires
            old(self)@.pending is Some,
            elapsed_micros + old(self)@.successful * old(self)@.avg_response_time <= u128::MAX,
        ensures
            ({
                let i = old(self)@.pending->0 as int;
                &&& final(self)@.per_server == old(self)@.per_server.update(
                    i,
                    (old(self)@.per_server[i].0, (old(self)@.per_server[i].1 + 1) as u32),
                )
            }),
            final(self)@.name == old(self)@.name,
            final(self)@.servers == old(self)@.servers,
            final(self)@.total_sent == old(self)@.total_sent,
            final(self)@.successful == old(self)@.successful + 1,
            final(self)@.avg_response_time == next_mean(
                old(self)@.successful as int,
                old(self)@.avg_response_time as int,
                elapsed_micros as int,
            ),
            final(self)@.pending is None,
            final(self)@.response_times == old(self)@.response_times.push(elapsed_micros),
            counters_consistent(final(self)@),
    {
        proof {
            use_type_invariant(&*self);
        }
        let mut c = self.counters;
        let server = c.pending.unwrap();
        let (sent, ackd) = c.per_server[server];
        proof {
            assert(c.per_server@[server as int].1 + 1 <= c.per_server@[server as int].0);
        }
        c.per_server.set(server, (sent, ackd + 1));
        let n = c.successful;
        proof {
            assert(n <= c.total_sent);
            assert(0 <= n * c.avg_micros) by (nonlinear_arith)
                requires 0 <= n, 0 <= c.avg_micros;
        }
        c.avg_micros = (elapsed_micros + n * c.avg_micros) / (n + 1);
        c.successful = n + 1;
        c.pending = None;
        let ghost times = self.counters.response_times@.push(elapsed_micros);
        c.response_times = Ghost(times);
        proof {
            assert(times.drop_last() =~= self.counters.response_times@);
        }
        proof {
            assert(c.per_server@ =~= self.counters.per_server@.update(server as int, (sent, (ackd + 1) as u32)));
            assert forall|i: int| 0 <= i < TRACKED_SERVERS implies #[trigger] c.per_server@[i].1 + (
            if c.pending == Some(i as usize) {
                1int
            } else {
                0int
            }) <= c.per_server@[i].0 by {
                assert(self.counters.per_server@[i].1 + (if self.counters.pending == Some(i as usize) {
                    1int
                } else {
                    0int
                }) <= self.counters.per_server@[i].0);
            }
        }
        self.counters = c;
    }
}


impl RequestSender {
    /// The sender's statistics: its name, totals and mean, and the counters
    /// of each tracked server, named by its position in the list.
    pub fn get_stats(&self) -> (st: ClientStats)
        ensures
            st.name@ == self@.name,
            st.total_sent == self@.total_sent,
            st.total_successful == self@.successful,
            st.avg_response_time == self@.avg_response_time,
            st.server_stats@.len() == TRACKED_SERVERS,
            forall|i: int|
                0 <= i < TRACKED_SERVERS ==> {
                    &&& (#[trigger] st.server_stats@[i]).name@ == decimal(i as nat)
                    &&& st.server_stats@[i].num_sent == self@.per_server[i].0
                    &&& st.server_stats@[i].num_ackd == self@.per_server[i].1
                },
    {
        proof {
            use_type_invariant(self);
        }
        let mut server_stats: Vec<ServerStat> = Vec::new();
        let mut i: usize = 0;
        while i < TRACKED_SERVERS
            invariant
                i <= TRACKED_SERVERS,
                self.counters.per_server@.len() == TRACKED_SERVERS,
                server_stats@.len() == i,
                forall|j: int|
                    0 <= j < i ==> {
                        &&& (#[trigger] server_stats@[j]).name@ == decimal(j as nat)
                        &&& server_stats@[j].num_sent == self.counters.per_server@[j].0
                        &&& server_stats@[j].num_ackd == self.counters.per_server@[j].1
                    },
            decreases TRACKED_SERVERS - i,
        {
            let (sent, ackd) = self.counters.per_server[i];
            let mut name = String::new();
            push_decimal(&mut name, i as u128);
            server_stats.push(ServerStat { name, num_sent: sent, num_ackd: ackd });
            i = i + 1;
        }
        ClientStats {
            name: self.name.clone(),
            total_sent: self.counters.total_sent,
            total_successful: self.counters.successful,
            avg_response_time: self.counters.avg_micros,
            server_stats,
        }
    }

    /// The table a client prints at the end of a run.
    pub fn stats_report(&self) -> (r: String)
        ensures
            r@ == stats_report_spec(self@),
    {
        proof {
            use_type_invariant(self);
        }
        let mut r = String::new();
        push_str(&mut r, "\n");
        push_str(&mut r, self.name.as_str());
        push_str(&mut r, " :");
        push_str(&mut r, "\n");
        push_str(&mut r, "Server\tSent\tAcknowledged");
        let mut i: usize = 0;
        while i < TRACKED_SERVERS
            invariant
                i <= TRACKED_SERVERS,
                self.counters.per_server@.len() == TRACKED_SERVERS,
                r@ == report_prefix(self@, i as nat),
            decreases TRACKED_SERVERS - i,
        {
            let (sent, ackd) = self.counters.per_server[i];
            push_str(&mut r, "\n");
            push_decimal(&mut r, i as u128);
            push_str(&mut r, "\t");
            push_decimal(&mut r, sent as u128);
            push_str(&mut r, "\t");
            push_decimal(&mut r, ackd as u128);
            i = i + 1;
        }
        r
    }
}

/// One row of the report: the server's position, requests sent and
/// acknowledged, separated by tabs.
pub open spec fn report_row(i: nat, sent: u32, ackd: u32) -> Seq<char> {
    decimal(i) + "\t"@ + decimal(sent as nat) + "\t"@ + decimal(ackd as nat)
}

/// The report's heading and its first `n` rows, each row on a line of its
/// own.
pub open spec fn report_prefix(v: SenderView, n: nat) -> Seq<char>
    decreases n,
{
    if n == 0 {
        "\n"@ + v.name + " :"@ + "\n"@ + "Server\tSent\tAcknowledged"@
    } else {
        report_prefix(v, (n - 1) as nat) + "\n"@ + report_row(
            (n - 1) as nat,
            v.per_server[n - 1].0,
            v.per_server[n - 1].1,
        )
    }
}

/// The whole report: the heading and one row per tracked server.
pub open spec fn stats_report_spec(v: SenderView) -> Seq<char> {
    report_prefix(v, TRACKED_SERVERS as nat)
}

/// What a client makes of a reply to its request `message`, received into
/// its buffer `reply`: `None` when the buffer is not UTF-8 text; otherwise
/// whether the text, without NULs and then white space at its ends, equals
/// the message without white space at its ends.
pub open spec fn reply_verdict(reply: Seq<u8>, message: Seq<char>) -> Option<bool> {
    if valid_utf8(reply) {
        Some(trim_ws(trim_nul(decode_utf8(reply))) == trim_ws(message))
    } else {
        None
    }
}

/// Decides whether `reply` is the echo of `message`; `None` when the reply
/// is not UTF-8 text.
pub fn check_reply(reply: &[u8], message: &str) -> (r: Option<bool>)
    ensures
        r == reply_verdict(reply@, message@),
{
    match decode_text(reply) {
        None => None,
        Some(text) => {
            let chars = chars_of(text.as_str());
            let stripped = trim_nuls(chars.as_slice());
            let got = trim_whitespace(stripped.as_slice());
            let sent = chars_of(message);
            let want = trim_whitespace(sent.as_slice());
            Some(chars_eq(got.as_slice(), want.as_slice()))
        },
    }
}

/// The text of request `j` of a client sending from `addr`.
pub fn hello_message(addr: &str, j: u32) -> (m: String)
    ensures
        m@ == "Hello from "@ + addr@ + " ["@ + decimal(j as nat) + "]"@,
{
    let mut m = String::new();
    push_str(&mut m, "Hello from ");
    push_str(&mut m, addr);
    push_str(&mut m, " [");
    push_decimal(&mut m, j as u128);
    push_str(&mut m, "]");
    m
}

/// The name of client worker `i`.
pub fn client_name(i: u32) -> (n: String)
    ensures
        n@ == "Client "@ + decimal(i as nat),
{
    let mut n = String::new();
    push_str(&mut n, "Client ");
    push_decimal(&mut n, i as u128);
    n
}

/// The ports of client worker `i` when workers start at port `base`: it
/// sends from `base + i` and listens for load reports on 1000 ports above.
pub fn worker_ports(base: u16, i: u16) -> (p: (u16, u16))
    requires
        base + i + 1000 <= u16::MAX,
    ensures
        p.0 == base + i,
        p.1 == base + i + 1000,
{
    let send = base + i;
    (send, send + 1000)
}

/// The printed table, line by line: an empty line, the client's name
/// followed by ` :`, the heading `Server`, `Sent`, `Acknowledged`, then for
/// each tracked server in list order its position, the requests sent to it
/// and the requests it acknowledged, separated by tabs.
pub proof fn lemma_report_layout(v: SenderView)
    requires
        v.per_server.len() == TRACKED_SERVERS,
    ensures
        stats_report_spec(v) == "\n"@ + v.name + " :"@ + "\n"@ + "Server\tSent\tAcknowledged"@
            + "\n"@ + (decimal(0) + "\t"@ + decimal(v.per_server[0].0 as nat) + "\t"@
            + decimal(v.per_server[0].1 as nat)) + "\n"@ + (decimal(1) + "\t"@ + decimal(
            v.per_server[1].0 as nat,
        ) + "\t"@ + decimal(v.per_server[1].1 as nat)) + "\n"@ + (decimal(2) + "\t"@ + decimal(
            v.per_server[2].0 as nat,
        ) + "\t"@ + decimal(v.per_server[2].1 as nat)),
{
    assert(report_prefix(v, 1) == report_prefix(v, 0) + "\n"@ + report_row(
        0,
        v.per_server[0].0,
        v.per_server[0].1,
    ));
    assert(report_prefix(v, 2) == report_prefix(v, 1) + "\n"@ + report_row(
        1,
        v.per_server[1].0,
        v.per_server[1].1,
    ));
    assert(report_prefix(v, 3) == report_prefix(v, 2) + "\n"@ + report_row(
        2,
        v.per_server[2].0,
        v.per_server[2].1,
    ));
}

/// One step of the running mean stays between the least and the greatest
/// response time that went into it.
pub proof fn lemma_mean_within_bounds(count: nat, mean: nat, elapsed: nat, lo: nat, hi: nat)
    requires
        lo <= elapsed <= hi,
        count > 0 ==> lo <= mean <= hi,
    ensures
        lo <= next_mean(count as int, mean as int, elapsed as int) <= hi,
{
    let total = elapsed + count * mean;
    assert(count * lo <= count * mean <= count * hi || count == 0) by (nonlinear_arith)
        requires count > 0 ==> lo <= mean <= hi;
    assert((count + 1) * lo <= total <= (count + 1) * hi) by (nonlinear_arith)
        requires
            total == elapsed + count * mean,
            lo <= elapsed <= hi,
            count * lo <= count * mean <= count * hi || count == 0;
    assert(lo <= total / (count + 1) <= hi) by (nonlinear_arith)
        requires (count + 1) * lo <= total <= (count + 1) * hi, count >= 0;
}


/// Over a whole run the running mean stays between the least and the
/// greatest response time: whenever every response time lies in
/// `lo ..= hi`, so does the mean.
pub proof fn lemma_mean_of_run_within(times: Seq<u128>, lo: nat, hi: nat)
    requires
        times.len() > 0,
        forall|i: int| 0 <= i < times.len() ==> lo <= #[trigger] times[i] <= hi,
    ensures
        lo <= mean_of_run(times) <= hi,
    decreases times.len(),
{
    let prev = times.drop_last();
    if prev.len() > 0 {
        assert forall|i: int| 0 <= i < prev.len() implies lo <= #[trigger] prev[i] <= hi by {
            assert(prev[i] == times[i]);
        }
        lemma_mean_of_run_within(prev, lo, hi);
    }
    let m = mean_of_run(prev);
    assert(m >= 0) by {
        if prev.len() == 0 {
        }
    }
    assert(times.last() == times[times.len() - 1]);
    lemma_mean_within_bounds(prev.len(), m as nat, times.last() as nat, lo, hi);
}

/// A client's reported mean response time lies between the least and the
/// greatest response time of its successful requests.
pub proof fn lemma_sender_mean_within(v: SenderView, lo: nat, hi: nat)
    requires
        counters_consistent(v),
        v.successful > 0,
        forall|i: int| 0 <= i < v.response_times.len() ==> lo <= #[trigger] v.response_times[i] <= hi,
    ensures
        lo <= v.avg_response_time <= hi,
{
    lemma_mean_of_run_within(v.response_times, lo, hi);
}

} // verus!
