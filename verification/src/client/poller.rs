//! Choosing the least loaded server from the loads that servers report.

use vstd::prelude::*;

verus! {

/// The server a client currently sends to, and the lowest load reported
/// so far in the current polling round.
///
/// A round asks every server for its load in list order; a server whose
/// report is strictly lower than the lowest seen so far becomes the chosen
/// one. At the end of a round the lowest load is forgotten (set to
/// `u16::MAX`) while the chosen server stays.
#[derive(Clone, Copy, Debug, PartialEq, Eq, Structural)]
pub struct LoadPoller {
    /// Index of the chosen server in the server list.
    pub min_server: u16,
    /// Lowest load reported in the current round, `u16::MAX` when none.
    pub min_server_load: u16,
}

/// The poller after server `index` answered with `load`, or did not answer
/// (`None`).
pub open spec fn observe_spec(p: LoadPoller, index: u16, load: Option<u16>) -> LoadPoller {
    match load {
        Some(l) => if l < p.min_server_load {
            LoadPoller { min_server: index, min_server_load: l }
        } else {
            p
        },
        None => p,
    }
}

/// The poller after the servers `0 .. loads.len()` answered in order with
/// `loads`.
pub open spec fn round_spec(p: LoadPoller, loads: Seq<Option<u16>>) -> LoadPoller
    decreases loads.len(),
{
    if loads.len() == 0 {
        p
    } else {
        observe_spec(round_spec(p, loads.drop_last()), (loads.len() - 1) as u16, loads.last())
    }
}

impl LoadPoller {
    /// A poller that has chosen the first server and seen no load yet.
    pub fn new() -> (p: LoadPoller)
        ensures
            p.min_server == 0,
            p.min_server_load == u16::MAX,
    {
        LoadPoller { min_server: 0, min_server_load: u16::MAX }
    }

    /// Takes in the answer of server `index` to a load query: its load, or
    /// `None` when it did not answer.
    pub fn observe(&mut self, index: u16, load: Option<u16>)
        ensures
            *final(self) == observe_spec(*old(self), index, load),
    {
        if let Some(l) = load {
            if l < self.min_server_load {
                self.min_server_load = l;
                self.min_server = index;
            }
        }
    }

    /// Ends a polling round: the lowest load is forgotten, the chosen server
    /// stays.
    pub fn end_round(&mut self)
        ensures
            final(self).min_server == old(self).min_server,
            final(self).min_server_load == u16::MAX,
            *final(self) == end_round_spec(*old(self)),
    {
        self.min_server_load = u16::MAX;
    }

    /// Index of the chosen server.
    pub fn min_server(&self) -> (s: u16)
        ensures
            s == self.min_server,
    {
        self.min_server
    }
}

/// A polling round keeps the lowest load among the answers: the chosen
/// server is the first one whose load is strictly below the load known at
/// the start of the round and no greater than any other answer; when no
/// answer is below that load the choice is unchanged.
pub proof fn lemma_round_picks_least_loaded(start: LoadPoller, loads: Seq<Option<u16>>)
    requires
        loads.len() <= 0x10000,
    ensures
        ({
            let r = round_spec(start, loads);
            &&& r.min_server_load <= start.min_server_load
            &&& forall|j: int|
                0 <= j < loads.len() && #[trigger] loads[j] is Some ==> r.min_server_load
                    <= loads[j]->0
            &&& r.min_server_load == start.min_server_load ==> r == start
            &&& r.min_server_load < start.min_server_load ==> {
                &&& r.min_server < loads.len()
                &&& loads[r.min_server as int] == Some(r.min_server_load)
                &&& forall|j: int|
                    0 <= j < r.min_server && #[trigger] loads[j] is Some ==> loads[j]->0
                        > r.min_server_load
            }
        }),
    decreases loads.len(),
{
    if loads.len() > 0 {
        let prev = loads.drop_last();
        lemma_round_picks_least_loaded(start, prev);
        let r0 = round_spec(start, prev);
        let r = round_spec(start, loads);
        assert(r == observe_spec(r0, (loads.len() - 1) as u16, loads.last()));
        assert forall|j: int| 0 <= j < prev.len() implies prev[j] == loads[j] by {}
        assert forall|j: int|
            0 <= j < loads.len() && #[trigger] loads[j] is Some implies r.min_server_load
                <= loads[j]->0 by {
            if j < prev.len() {
                assert(prev[j] == loads[j]);
            }
        }
        if r.min_server_load < start.min_server_load {
            assert forall|j: int|
                0 <= j < r.min_server && #[trigger] loads[j] is Some implies loads[j]->0
                    > r.min_server_load by {
                assert(prev[j] == loads[j]);
            }
        }
    }
}


/// The poller after [`LoadPoller::end_round`].
pub open spec fn end_round_spec(p: LoadPoller) -> LoadPoller {
    LoadPoller { min_server: p.min_server, min_server_load: u16::MAX }
}

/// The poller after the complete polling rounds `rounds`, each given by the
/// answers of its servers in order and closed by `end_round`.
pub open spec fn poll_history(p: LoadPoller, rounds: Seq<Seq<Option<u16>>>) -> LoadPoller
    decreases rounds.len(),
{
    if rounds.len() == 0 {
        p
    } else {
        end_round_spec(round_spec(poll_history(p, rounds.drop_last()), rounds.last()))
    }
}

/// A round over at most `n` servers keeps the chosen server among the first
/// `n`.
pub proof fn lemma_round_choice_in_range(start: LoadPoller, loads: Seq<Option<u16>>, n: nat)
    requires
        start.min_server < n,
        loads.len() <= n <= 0x10000,
    ensures
        round_spec(start, loads).min_server < n,
    decreases loads.len(),
{
    if loads.len() > 0 {
        lemma_round_choice_in_range(start, loads.drop_last(), n);
    }
}

/// Across all rounds, and in the middle of a round, a poller started by
/// [`LoadPoller::new`] on a list of `n` servers has chosen one of those
/// servers. Each round starts with no load known, so in the round under
/// way the chosen server is either the one chosen before it, while no
/// server of the round has reported a load below `u16::MAX`, or a server of
/// this round that reported the lowest load of the round so far, lower than
/// every earlier report of the round.
pub proof fn lemma_polling_choice(rounds: Seq<Seq<Option<u16>>>, current: Seq<Option<u16>>, n: nat)
    requires
        1 <= n <= 0x10000,
        forall|k: int| 0 <= k < rounds.len() ==> (#[trigger] rounds[k]).len() <= n,
        current.len() <= n,
    ensures
        ({
            let before = poll_history(LoadPoller { min_server: 0, min_server_load: u16::MAX }, rounds);
            let now = round_spec(before, current);
            &&& before.min_server < n
            &&& before.min_server_load == u16::MAX
            &&& now.min_server < n
            &&& now.min_server_load == u16::MAX ==> now.min_server == before.min_server
            &&& now.min_server_load < u16::MAX ==> {
                &&& now.min_server < current.len()
                &&& current[now.min_server as int] == Some(now.min_server_load)
                &&& forall|j: int|
                    0 <= j < current.len() && #[trigger] current[j] is Some ==> now.min_server_load
                        <= current[j]->0
                &&& forall|j: int|
                    0 <= j < now.min_server && #[trigger] current[j] is Some ==> current[j]->0
                        > now.min_server_load
            }
        }),
    decreases rounds.len(),
{
    let p0 = LoadPoller { min_server: 0, min_server_load: u16::MAX };
    let before = poll_history(p0, rounds);
    if rounds.len() > 0 {
        let earlier = rounds.drop_last();
        assert forall|k: int| 0 <= k < earlier.len() implies (#[trigger] earlier[k]).len() <= n by {
            assert(earlier[k] == rounds[k]);
        }
        assert(rounds.last() == rounds[rounds.len() - 1]);
        lemma_polling_choice(earlier, rounds.last(), n);
    }
    lemma_round_choice_in_range(before, current, n);
    lemma_round_picks_least_loaded(before, current);
}

} // verus!
