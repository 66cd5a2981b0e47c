//! The event selector and the dispatch loop step.
//!
//! A [`Mux`] owns a fixed set of pairings and serves them from one
//! execution context, cooperatively: each dispatch round re-arms every
//! pairing, races the pending waits, completes the first that is ready,
//! and abandons the rest for that round.  Ties are broken
//! deterministically: when several pairings are ready in the same round,
//! the lowest-indexed one wins.  Abandonment keeps the losers' latched
//! edges, so nothing is starved: every latched edge is served within a
//! bounded number of rounds.

use vstd::prelude::*;

use crate::level::Level;
use crate::pair::Pairing;

verus! {

/// The outcome of one dispatch round: which pairing won and the level it
/// observed.  Constructed per round and consumed immediately.
#[derive(Clone, Copy, Debug, PartialEq, Eq, Structural)]
pub struct RoundResult {
    /// Index of the pairing whose wait completed this round.
    pub winner: usize,
    /// The level the winning watcher observed.
    pub value: Level,
}

/// Some pairing's wait would complete now.
pub open spec fn some_ready(ps: Seq<Pairing>) -> bool {
    exists|i: int| 0 <= i < ps.len() && ps[i].ready()
}

/// Some watcher holds a latched, unserved edge.
pub open spec fn some_pending(ps: Seq<Pairing>) -> bool {
    exists|i: int| 0 <= i < ps.len() && ps[i].watcher.edge_pending
}

/// The first index at or after `i` whose pairing is ready, or the length
/// if none is.
pub open spec fn first_ready_from(ps: Seq<Pairing>, i: int) -> int
    decreases ps.len() - i when 0 <= i <= ps.len()
{
    if i >= ps.len() {
        ps.len() as int
    } else if ps[i].ready() {
        i
    } else {
        first_ready_from(ps, i + 1)
    }
}

/// The winner of a selection round: the lowest ready index, or the
/// length if no pairing is ready.
pub open spec fn winner_of(ps: Seq<Pairing>) -> int {
    first_ready_from(ps, 0)
}

/// The pairings after one selection round: the winner's round completes,
/// every other pairing is abandoned for this round.
pub open spec fn round_spec(ps: Seq<Pairing>) -> Seq<Pairing> {
    Seq::new(
        ps.len(),
        |i: int|
            if i == winner_of(ps) {
                ps[i].after_win()
            } else {
                ps[i].abandoned()
            },
    )
}

/// The pairings with every wait (re-)armed, as the dispatch loop does at
/// the start of a round.
pub open spec fn armed_all(ps: Seq<Pairing>) -> Seq<Pairing> {
    Seq::new(ps.len(), |i: int| ps[i].armed())
}

/// The pairings after one full dispatch step: re-arm everything, then
/// run one selection round.
pub open spec fn step_spec(ps: Seq<Pairing>) -> Seq<Pairing> {
    round_spec(armed_all(ps))
}

/// The winner of the next dispatch step: the lowest index holding a
/// latched edge, or the length if none does.
pub open spec fn next_winner(ps: Seq<Pairing>) -> int {
    winner_of(armed_all(ps))
}

/// Pairings `a` and `b` share no line: their input lines differ and
/// their output lines differ.
pub open spec fn lines_differ(ps: Seq<Pairing>, a: int, b: int) -> bool {
    ps[a].watcher.line.id() != ps[b].watcher.line.id() && ps[a].driver.line.id()
        != ps[b].driver.line.id()
}

/// No two pairings share an input line, and no two share an output line.
pub open spec fn distinct_lines(ps: Seq<Pairing>) -> bool {
    forall|a: int, b: int| 0 <= a < b < ps.len() ==> #[trigger] lines_differ(ps, a, b)
}

/// `first_ready_from` finds a ready index, skips no ready index, and
/// stays within bounds.
pub proof fn lemma_first_ready_from(ps: Seq<Pairing>, i: int)
    requires
        0 <= i <= ps.len(),
    ensures
        i <= first_ready_from(ps, i) <= ps.len(),
        first_ready_from(ps, i) < ps.len() ==> ps[first_ready_from(ps, i)].ready(),
        forall|j: int| i <= j < first_ready_from(ps, i) ==> !ps[j].ready(),
    decreases ps.len() - i,
{
    if i < ps.len() && !ps[i].ready() {
        lemma_first_ready_from(ps, i + 1);
    }
}

/// The winner is the least ready index, and one exists exactly when some
/// pairing is ready.
pub proof fn lemma_winner_of(ps: Seq<Pairing>)
    ensures
        0 <= winner_of(ps) <= ps.len(),
        some_ready(ps) <==> winner_of(ps) < ps.len(),
        winner_of(ps) < ps.len() ==> ps[winner_of(ps)].ready(),
        forall|j: int| 0 <= j < winner_of(ps) ==> !ps[j].ready(),
{
    lemma_first_ready_from(ps, 0);
    if some_ready(ps) {
        let i = choose|i: int| 0 <= i < ps.len() && ps[i].ready();
        assert(winner_of(ps) <= i);
    }
}

/// The per-pairing latched-edge flags.
pub open spec fn pending_flags(ps: Seq<Pairing>) -> Seq<bool> {
    Seq::new(ps.len(), |i: int| ps[i].watcher.edge_pending)
}

/// How many of the flags in `s` are set.
pub open spec fn count_true(s: Seq<bool>) -> nat
    decreases s.len(),
{
    if s.len() == 0 {
        0
    } else {
        count_true(s.drop_last()) + (if s.last() {
            1nat
        } else {
            0nat
        })
    }
}

/// How many watchers hold a latched, unserved edge.
pub open spec fn pending_count(ps: Seq<Pairing>) -> nat {
    count_true(pending_flags(ps))
}

/// The pairings after `k` full dispatch steps with no new edges arriving
/// in between.
pub open spec fn steps(ps: Seq<Pairing>, k: nat) -> Seq<Pairing>
    decreases k,
{
    if k == 0 {
        ps
    } else {
        steps(step_spec(ps), (k - 1) as nat)
    }
}

proof fn lemma_count_true_pos(s: Seq<bool>, i: int)
    requires
        0 <= i < s.len(),
        s[i],
    ensures
        count_true(s) >= 1,
    decreases s.len(),
{
    if i < s.len() - 1 {
        lemma_count_true_pos(s.drop_last(), i);
    }
}

proof fn lemma_count_true_update_false(s: Seq<bool>, i: int)
    requires
        0 <= i < s.len(),
        s[i],
    ensures
        count_true(s.update(i, false)) + 1 == count_true(s),
    decreases s.len(),
{
    let s2 = s.update(i, false);
    if i == s.len() - 1 {
        assert(s2.drop_last() =~= s.drop_last());
    } else {
        assert(s2.drop_last() =~= s.drop_last().update(i, false));
        lemma_count_true_update_false(s.drop_last(), i);
    }
}

/// One dispatch step delivers exactly one event: the winner is the
/// lowest-indexed watcher holding a latched edge, its driver — and only
/// its driver — is commanded to the level that watcher observed, its
/// edge is consumed, and every other watcher keeps its latched edge and
/// its level, so no wakeup is lost.
pub proof fn lemma_step_delivers_exactly_one(ps: Seq<Pairing>)
    requires
        some_pending(ps),
    ensures
        0 <= next_winner(ps) < ps.len(),
        step_spec(ps).len() == ps.len(),
        ps[next_winner(ps)].watcher.edge_pending,
        forall|j: int| 0 <= j < next_winner(ps) ==> !(#[trigger] ps[j]).watcher.edge_pending,
        step_spec(ps)[next_winner(ps)].driver == ps[next_winner(ps)].driver.with_level(
            ps[next_winner(ps)].watcher.level,
        ),
        !step_spec(ps)[next_winner(ps)].watcher.edge_pending,
        step_spec(ps)[next_winner(ps)].watcher.level == ps[next_winner(ps)].watcher.level,
        forall|j: int|
            0 <= j < ps.len() && j != next_winner(ps) ==> (#[trigger] step_spec(ps)[j]).driver
                == ps[j].driver && step_spec(ps)[j].watcher.edge_pending
                == ps[j].watcher.edge_pending && step_spec(ps)[j].watcher.level
                == ps[j].watcher.level,
{
    let psa = armed_all(ps);
    lemma_winner_of(psa);
    assert forall|i: int| 0 <= i < ps.len() implies ((#[trigger] psa[i]).ready()
        <==> ps[i].watcher.edge_pending) by {
        assert(psa[i] == ps[i].armed());
    }
    let i0 = choose|i: int| 0 <= i < ps.len() && ps[i].watcher.edge_pending;
    assert(psa[i0].ready());
    assert(some_ready(psa));
    let w = next_winner(ps);
    assert(psa[w] == ps[w].armed());
    assert forall|j: int| 0 <= j < w implies !(#[trigger] ps[j]).watcher.edge_pending by {
        assert(!psa[j].ready());
        assert(psa[j] == ps[j].armed());
    }
    assert forall|j: int| 0 <= j < ps.len() && j != w implies (#[trigger] step_spec(ps)[j]).driver
        == ps[j].driver && step_spec(ps)[j].watcher.edge_pending == ps[j].watcher.edge_pending
        && step_spec(ps)[j].watcher.level == ps[j].watcher.level by {
        assert(psa[j] == ps[j].armed());
        assert(step_spec(ps)[j] == psa[j].abandoned());
    }
}

/// Each served round consumes exactly one latched edge: the number of
/// pending edges falls by one per step until none is left.
pub proof fn lemma_step_consumes_one_pending(ps: Seq<Pairing>)
    requires
        some_pending(ps),
    ensures
        pending_count(step_spec(ps)) + 1 == pending_count(ps),
{
    lemma_step_delivers_exactly_one(ps);
    let w = next_winner(ps);
    assert forall|i: int| 0 <= i < ps.len() implies pending_flags(step_spec(ps))[i]
        == pending_flags(ps).update(w, false)[i] by {
        if i != w {
            assert(step_spec(ps)[i].watcher.edge_pending == ps[i].watcher.edge_pending);
        }
    }
    assert(pending_flags(step_spec(ps)) =~= pending_flags(ps).update(w, false));
    lemma_count_true_update_false(pending_flags(ps), w);
}

/// Tie-break determinism: whenever watcher `i` holds a latched edge, the
/// next dispatch step serves a watcher of index at most `i` that also
/// holds one — ready participants are always served in registration
/// order.
pub proof fn lemma_tie_break_lowest_index(ps: Seq<Pairing>, i: int)
    requires
        0 <= i < ps.len(),
        ps[i].watcher.edge_pending,
    ensures
        0 <= next_winner(ps) <= i,
        ps[next_winner(ps)].watcher.edge_pending,
{
    let psa = armed_all(ps);
    lemma_winner_of(psa);
    assert(psa[i] == ps[i].armed());
    assert(psa[i].ready());
    let w = winner_of(psa);
    assert(w <= i);
    assert(psa[w] == ps[w].armed());
}

/// No starvation: every watcher holding a latched edge is served within
/// `pending_count` dispatch steps, provided no further edges arrive in
/// between — a losing line is never passed over indefinitely.
pub proof fn lemma_every_pending_line_served(ps: Seq<Pairing>, j: int)
    requires
        0 <= j < ps.len(),
        ps[j].watcher.edge_pending,
    ensures
        exists|k: nat| k < pending_count(ps) && next_winner(steps(ps, k)) == j,
    decreases pending_count(ps),
{
    assert(some_pending(ps));
    lemma_step_delivers_exactly_one(ps);
    lemma_step_consumes_one_pending(ps);
    lemma_count_true_pos(pending_flags(ps), j);
    let w = next_winner(ps);
    if w == j {
        assert(steps(ps, 0) == ps);
        assert(0 < pending_count(ps) && next_winner(steps(ps, 0)) == j);
    } else {
        let ps2 = step_spec(ps);
        assert(ps2[j].watcher.edge_pending);
        lemma_every_pending_line_served(ps2, j);
        let k2 = choose|k: nat| k < pending_count(ps2) && next_winner(steps(ps2, k)) == j;
        assert(steps(ps, k2 + 1) == steps(ps2, k2));
        assert(k2 + 1 < pending_count(ps) && next_winner(steps(ps, (k2 + 1) as nat)) == j);
    }
}

/// How many pairings in `ps` hold an armed watcher on line `id`.
pub open spec fn armed_on(ps: Seq<Pairing>, id: usize) -> nat
    decreases ps.len(),
{
    if ps.len() == 0 {
        0
    } else {
        armed_on(ps.drop_last(), id) + (if ps.last().watcher.armed && ps.last().watcher.line.id()
            == id {
            1nat
        } else {
            0nat
        })
    }
}

proof fn lemma_armed_on_absent(ps: Seq<Pairing>, id: usize)
    requires
        forall|k: int| 0 <= k < ps.len() ==> (#[trigger] ps[k]).watcher.line.id() != id,
    ensures
        armed_on(ps, id) == 0,
    decreases ps.len(),
{
    if ps.len() > 0 {
        lemma_armed_on_absent(ps.drop_last(), id);
        assert(ps[ps.len() - 1].watcher.line.id() != id);
    }
}

/// No line is ever watched by two pending waits simultaneously: with
/// pairwise distinct input lines, at most one armed watcher sits on any
/// line.
pub proof fn lemma_no_double_watch(ps: Seq<Pairing>, id: usize)
    requires
        distinct_lines(ps),
    ensures
        armed_on(ps, id) <= 1,
    decreases ps.len(),
{
    if ps.len() > 0 {
        let prefix = ps.drop_last();
        assert forall|a: int, b: int|
            0 <= a < b < prefix.len() implies #[trigger] lines_differ(prefix, a, b) by {
            assert(lines_differ(ps, a, b));
            assert(prefix[a] == ps[a] && prefix[b] == ps[b]);
        }
        lemma_no_double_watch(prefix, id);
        if ps.last().watcher.armed && ps.last().watcher.line.id() == id {
            assert forall|k: int|
                0 <= k < prefix.len() implies (#[trigger] prefix[k]).watcher.line.id() != id by {
                assert(lines_differ(ps, k, ps.len() - 1));
            }
            lemma_armed_on_absent(prefix, id);
        }
    }
}

/// Line ownership never changes hands: two pairing sequences that agree
/// pointwise on their lines are equally well-formed.
pub proof fn lemma_distinct_lines_same_ids(ps1: Seq<Pairing>, ps2: Seq<Pairing>)
    requires
        ps1.len() == ps2.len(),
        forall|i: int|
            0 <= i < ps1.len() ==> (#[trigger] ps2[i]).watcher.line.id()
                == ps1[i].watcher.line.id() && ps2[i].driver.line.id() == ps1[i].driver.line.id(),
    ensures
        distinct_lines(ps1) ==> distinct_lines(ps2),
{
    if distinct_lines(ps1) {
        assert forall|a: int, b: int|
            0 <= a < b < ps2.len() implies #[trigger] lines_differ(ps2, a, b) by {
            assert(lines_differ(ps1, a, b));
        }
    }
}

/// A dispatch step never moves a line between pairings: well-formedness
/// is preserved across arming, selection, and completion.
pub proof fn lemma_step_preserves_wf(ps: Seq<Pairing>)
    requires
        some_pending(ps),
    ensures
        distinct_lines(ps) ==> distinct_lines(step_spec(ps)),
{
    lemma_step_delivers_exactly_one(ps);
    assert forall|i: int|
        0 <= i < ps.len() implies (#[trigger] step_spec(ps)[i]).watcher.line.id()
        == ps[i].watcher.line.id() && step_spec(ps)[i].driver.line.id()
        == ps[i].driver.line.id() by {
        let psa = armed_all(ps);
        assert(psa[i] == ps[i].armed());
        if i == winner_of(psa) {
            assert(step_spec(ps)[i] == psa[i].after_win());
        } else {
            assert(step_spec(ps)[i] == psa[i].abandoned());
        }
    }
    lemma_distinct_lines_same_ids(ps, step_spec(ps));
}

/// Re-arming moves no line between pairings: well-formedness is
/// preserved when a round finds nothing ready and leaves every wait
/// armed.
pub proof fn lemma_arm_all_preserves_wf(ps: Seq<Pairing>)
    ensures
        distinct_lines(ps) ==> distinct_lines(armed_all(ps)),
{
    assert forall|i: int|
        0 <= i < ps.len() implies (#[trigger] armed_all(ps)[i]).watcher.line.id()
        == ps[i].watcher.line.id() && armed_all(ps)[i].driver.line.id()
        == ps[i].driver.line.id() by {
        assert(armed_all(ps)[i] == ps[i].armed());
    }
    lemma_distinct_lines_same_ids(ps, armed_all(ps));
}

/// An arriving edge moves no line between pairings: well-formedness is
/// preserved under stimulus.
pub proof fn lemma_inject_preserves_wf(ps: Seq<Pairing>, i: int)
    requires
        0 <= i < ps.len(),
    ensures
        distinct_lines(ps) ==> distinct_lines(ps.update(i, ps[i].injected())),
{
    let ps2 = ps.update(i, ps[i].injected());
    assert forall|k: int|
        0 <= k < ps.len() implies (#[trigger] ps2[k]).watcher.line.id()
        == ps[k].watcher.line.id() && ps2[k].driver.line.id() == ps[k].driver.line.id() by {
        if k != i {
            assert(ps2[k] == ps[k]);
        }
    }
    lemma_distinct_lines_same_ids(ps, ps2);
}

/// The multiplexer: a fixed set of pairings served cooperatively from
/// one execution context.
pub struct Mux {
    /// The pairings, raced in index order each round.
    pub pairs: Vec<Pairing>,
}

/// Finds the lowest-indexed ready pairing, or the length if none is
/// ready.
fn find_ready(pairs: &Vec<Pairing>) -> (r: usize)
    ensures
        r as int == winner_of(pairs@),
{
    let n = pairs.len();
    let mut i: usize = 0;
    while i < n
        invariant
            i <= n,
            n == pairs@.len(),
            first_ready_from(pairs@, 0) == first_ready_from(pairs@, i as int),
        decreases n - i,
    {
        if pairs[i].is_ready() {
            return i;
        }
        i = i + 1;
    }
    n
}

impl Mux {
    /// No two of the multiplexer's pairings share a line.
    pub open spec fn wf(self) -> bool {
        distinct_lines(self.pairs@)
    }

    /// Builds a multiplexer over `pairs`, refusing any configuration in
    /// which two pairings share an input line or share an output line.
    pub fn try_new(pairs: Vec<Pairing>) -> (r: Option<Mux>)
        ensures
            r is Some <==> distinct_lines(pairs@),
            r matches Some(m) ==> m.pairs@ == pairs@ && m.wf(),
    {
        let n = pairs.len();
        let mut i: usize = 0;
        while i < n
            invariant
                i <= n,
                n == pairs@.len(),
                forall|a: int, b: int|
                    0 <= a < b < n && a < i ==> #[trigger] lines_differ(pairs@, a, b),
            decreases n - i,
        {
            let mut j: usize = i + 1;
            while j < n
                invariant
                    i < j <= n,
                    n == pairs@.len(),
                    forall|b: int| i < b < j ==> #[trigger] lines_differ(pairs@, i as int, b),
                decreases n - j,
            {
                if pairs[i].watcher.line.id() == pairs[j].watcher.line.id()
                    || pairs[i].driver.line.id() == pairs[j].driver.line.id() {
                    proof {
                        assert(!lines_differ(pairs@, i as int, j as int));
                    }
                    return None;
                }
                proof {
                    assert(lines_differ(pairs@, i as int, j as int));
                }
                j = j + 1;
            }
            proof {
                assert forall|a: int, b: int|
                    0 <= a < b < n && a < i + 1 implies #[trigger] lines_differ(pairs@, a, b) by {
                    if a == i as int {
                        assert(i < b < j);
                    }
                }
            }
            i = i + 1;
        }
        Some(Mux { pairs })
    }

    /// Runs one selection round over the pairings as they stand: if any
    /// wait would complete, the lowest-indexed ready pairing's round runs
    /// to completion, every other pairing is abandoned for this round,
    /// and the result names the winner and the level it observed.  If no
    /// wait would complete, nothing changes.
    pub fn select_round(&mut self) -> (r: Option<RoundResult>)
        ensures
            r is Some <==> some_ready(old(self).pairs@),
            r is None ==> *final(self) == *old(self),
            r matches Some(rr) ==> ({
                &&& rr.winner as int == winner_of(old(self).pairs@)
                &&& (rr.winner as int) < old(self).pairs@.len()
                &&& old(self).pairs@[rr.winner as int].ready()
                &&& forall|j: int| 0 <= j < rr.winner ==> !old(self).pairs@[j].ready()
                &&& rr.value == old(self).pairs@[rr.winner as int].watcher.level
                &&& final(self).pairs@ == round_spec(old(self).pairs@)
            }),
    {
        proof {
            lemma_winner_of(self.pairs@);
        }
        let ghost ps0 = self.pairs@;
        let n = self.pairs.len();
        let w = find_ready(&self.pairs);
        if w >= n {
            return None;
        }
        let value = self.pairs[w].complete_round();
        let mut j: usize = 0;
        while j < n
            invariant
                j <= n,
                w < n,
                n == self.pairs@.len(),
                n == ps0.len(),
                w as int == winner_of(ps0),
                forall|k: int|
                    #![trigger self.pairs@[k]]
                    0 <= k < n ==> self.pairs@[k] == (if k == w as int {
                        ps0[k].after_win()
                    } else if k < j {
                        ps0[k].abandoned()
                    } else {
                        ps0[k]
                    }),
            decreases n - j,
        {
            if j != w {
                self.pairs[j].abandon_round();
            }
            j = j + 1;
        }
        proof {
            assert(self.pairs@ =~= round_spec(ps0));
        }
        Some(RoundResult { winner: w, value })
    }

    /// Issues a pending wait on every pairing that has none, as the
    /// dispatch loop does at the start of each round.
    pub fn arm_all(&mut self)
        ensures
            final(self).pairs@ == armed_all(old(self).pairs@),
    {
        let ghost ps0 = self.pairs@;
        let n = self.pairs.len();
        let mut i: usize = 0;
        while i < n
            invariant
                i <= n,
                n == self.pairs@.len(),
                n == ps0.len(),
                forall|k: int|
                    #![trigger self.pairs@[k]]
                    0 <= k < n ==> self.pairs@[k] == (if k < i as int {
                        ps0[k].armed()
                    } else {
                        ps0[k]
                    }),
            decreases n - i,
        {
            if !self.pairs[i].watcher.is_armed() {
                self.pairs[i].arm_round();
            }
            i = i + 1;
        }
        proof {
            assert(self.pairs@ =~= armed_all(ps0));
        }
    }

    /// An edge arrives on the input line of pairing `i`: its level flips
    /// and the edge is latched.  This is the stimulus boundary; tests and
    /// simulators call it in place of the physical pin.
    pub fn inject_edge(&mut self, i: usize)
        requires
            i < old(self).pairs@.len(),
        ensures
            final(self).pairs@ == old(self).pairs@.update(
                i as int,
                old(self).pairs@[i as int].injected(),
            ),
    {
        self.pairs[i].watcher.inject_edge();
    }

    /// Counts the pairings holding an armed watcher on line `id`: an
    /// instrumentation hook for observing the single-wait invariant from
    /// outside.  In a well-formed multiplexer the count never exceeds
    /// one.
    pub fn armed_watch_count(&self, id: usize) -> (r: usize)
        ensures
            r as nat == armed_on(self.pairs@, id),
            self.wf() ==> r <= 1,
    {
        let n = self.pairs.len();
        let mut count: usize = 0;
        let mut i: usize = 0;
        while i < n
            invariant
                i <= n,
                n == self.pairs@.len(),
                count <= i,
                count as nat == armed_on(self.pairs@.take(i as int), id),
            decreases n - i,
        {
            proof {
                assert(self.pairs@.take(i as int + 1).drop_last() =~= self.pairs@.take(i as int));
                assert(self.pairs@.take(i as int + 1).last() == self.pairs@[i as int]);
            }
            if self.pairs[i].watcher.is_armed() && self.pairs[i].watcher.line.id() == id {
                count = count + 1;
            }
            i = i + 1;
        }
        proof {
            assert(self.pairs@.take(n as int) =~= self.pairs@);
            if self.wf() {
                lemma_no_double_watch(self.pairs@, id);
            }
        }
        count
    }

    /// Runs one full dispatch step: re-arm every pairing, then run one
    /// selection round.  If any watcher holds a latched edge, the
    /// lowest-indexed such pairing wins, its driver is commanded to the
    /// observed level, and the result reports both; otherwise the step
    /// reports nothing and leaves every pairing armed and waiting.
    pub fn step(&mut self) -> (r: Option<RoundResult>)
        ensures
            r is Some <==> some_pending(old(self).pairs@),
            r is None ==> final(self).pairs@ == armed_all(old(self).pairs@),
            r matches Some(rr) ==> ({
                &&& rr.winner as int == next_winner(old(self).pairs@)
                &&& (rr.winner as int) < old(self).pairs@.len()
                &&& old(self).pairs@[rr.winner as int].watcher.edge_pending
                &&& forall|j: int|
                    0 <= j < rr.winner ==> !old(self).pairs@[j].watcher.edge_pending
                &&& rr.value == old(self).pairs@[rr.winner as int].watcher.level
                &&& final(self).pairs@ == step_spec(old(self).pairs@)
            }),
    {
        let ghost ps0 = self.pairs@;
        self.arm_all();
        let r = self.select_round();
        proof {
            let psa = armed_all(ps0);
            assert forall|i: int| 0 <= i < ps0.len() implies (#[trigger] psa[i].ready()
                <==> ps0[i].watcher.edge_pending) by {
                assert(psa[i] == ps0[i].armed());
            }
            if some_pending(ps0) {
                let i = choose|i: int| 0 <= i < ps0.len() && ps0[i].watcher.edge_pending;
                assert(psa[i].ready());
                assert(some_ready(psa));
            }
            if some_ready(psa) {
                let i = choose|i: int| 0 <= i < psa.len() && psa[i].ready();
                assert(ps0[i].watcher.edge_pending);
                assert(some_pending(ps0));
            }
            if r is Some {
                let rr = r->0;
                let w = rr.winner as int;
                assert(psa[w].ready());
                assert(ps0[w].watcher.edge_pending);
                assert forall|j: int| 0 <= j < w implies !ps0[j].watcher.edge_pending by {
                    assert(!psa[j].ready());
                }
                assert(psa[w].watcher.level == ps0[w].watcher.level);
            }
        }
        r
    }
}

} // verus!
