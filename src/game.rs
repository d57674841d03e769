use vstd::prelude::*;
use crate::draw::{admission_draw, DRAW_RANGE};
use crate::ledger::{apply_delta, balance_in, clamp_balance, clamped_add, same_identity, update_balance, Ledger};
use crate::matches::{payoff, Match, Player, Vote, COOPERATE_CODE, DEFECT_CODE};
use crate::text::{decimal, decimal_text, lemma_decimal_injective};

verus! {

/// Most completed matches kept for lookup.
pub const MAX_HISTORY_CAPACITY: usize = 100;

/// Admission threshold of a fresh game.
pub const INITIAL_THRESHOLD: u32 = 50;

/// Errors surfaced to the caller of an entry point.
#[derive(Clone, Copy, Debug, PartialEq, Eq, Structural)]
pub enum GameError {
    InvalidVote,
    MatchStillWaiting,
    MatchNotFound,
    ZeroBalance,
}

/// Who played a completed match and what each was paid (net deltas).
#[derive(Clone, Copy, Debug)]
pub struct Settlement {
    pub p1_sender: [u8; 32],
    pub p1_payout: i128,
    pub p2_sender: [u8; 32],
    pub p2_payout: i128,
}

/// Response to a play: parked as a new waiting match, or paired with a waiting one.
#[derive(Debug)]
pub enum PlayOutcome {
    Waiting { match_id: String },
    Paired { match_id: String, settlement: Settlement },
}

/// A request for the host to pay `amount` out to `destination`.
#[derive(Clone, Copy, Debug)]
pub struct TransferRequest {
    pub destination: [u8; 32],
    pub amount: u64,
}

/// The vote that a wire code stands for, if any.
pub open spec fn vote_of(code: u8) -> Option<Vote> {
    if code == COOPERATE_CODE {
        Some(Vote::Cooperate)
    } else if code == DEFECT_CODE {
        Some(Vote::Defect)
    } else {
        None
    }
}

/// The payout record of a completed match.
pub open spec fn settlement_of(m: Match) -> Settlement {
    Settlement {
        p1_sender: m.p1.sender,
        p1_payout: m.p1_payout,
        p2_sender: m.p2.unwrap().sender,
        p2_payout: m.p2_payout,
    }
}

/// Waiting match `w` completed against `p` on a pot of `pot`.
pub open spec fn completed_match(w: Match, p: Player, pot: u64) -> Match {
    let d = payoff(w.p1.vote, w.p1.stake as int, p.vote, p.stake as int, pot as int);
    Match { id: w.id, p1: w.p1, p2: Some(p), p1_payout: d.0 as i128, p2_payout: d.1 as i128, pot_payout: d.2 as i128 }
}

/// History after `m` is appended, the oldest entry evicted when over capacity.
pub open spec fn archived(history: Seq<Match>, m: Match) -> Seq<Match> {
    let h = history.push(m);
    if h.len() > MAX_HISTORY_CAPACITY {
        h.drop_first()
    } else {
        h
    }
}

/// Every waiting match was opened by `sender`, so none can be paired with it.
pub open spec fn no_partner(waiting: Seq<Match>, sender: Seq<u8>) -> bool {
    forall|j: int| 0 <= j < waiting.len() ==> #[trigger] waiting[j].p1.sender@ == sender
}

/// `i` is the first waiting match opened by someone other than `sender`.
pub open spec fn first_partner(waiting: Seq<Match>, sender: Seq<u8>, i: int) -> bool {
    &&& 0 <= i < waiting.len()
    &&& waiting[i].p1.sender@ != sender
    &&& forall|j: int| 0 <= j < i ==> #[trigger] waiting[j].p1.sender@ == sender
}

/// `id` is the decimal rendering of one of the first `issued` match numbers.
pub open spec fn id_issued(id: Seq<char>, issued: nat) -> bool {
    exists|k: nat| 1 <= k <= issued && #[trigger] decimal(k) == id
}

/// No two matches of `s` share an id.
pub open spec fn ids_distinct(s: Seq<Match>) -> bool {
    forall|i: int, j: int| 0 <= i < j < s.len() ==> s[i].id@ != s[j].id@
}

/// No match of `a` shares an id with a match of `b`.
pub open spec fn ids_disjoint(a: Seq<Match>, b: Seq<Match>) -> bool {
    forall|i: int, j: int| 0 <= i < a.len() && 0 <= j < b.len() ==> a[i].id@ != b[j].id@
}

/// The whole state of the game: ledger, pot, admission threshold, waiting pool,
/// history of completed matches, and the number of match ids issued so far.
pub struct PrisonerDilemma {
    ledger: Ledger,
    pot: u64,
    threshold: u32,
    waiting: Vec<Match>,
    history: Vec<Match>,
    issued: u64,
}

impl PrisonerDilemma {
    pub closed spec fn balances(&self) -> Map<Seq<u8>, u64> {
        self.ledger@
    }

    pub closed spec fn pot_value(&self) -> u64 {
        self.pot
    }

    pub closed spec fn threshold_value(&self) -> u32 {
        self.threshold
    }

    pub closed spec fn waiting_matches(&self) -> Seq<Match> {
        self.waiting@
    }

    pub closed spec fn history_matches(&self) -> Seq<Match> {
        self.history@
    }

    pub closed spec fn issued_count(&self) -> u64 {
        self.issued
    }

    /// A match with id `q` is in the waiting pool.
    pub open spec fn is_waiting(&self, q: Seq<char>) -> bool {
        exists|i: int| 0 <= i < self.waiting_matches().len() && #[trigger] self.waiting_matches()[i].id@ == q
    }

    /// A match with id `q` is in the history.
    pub open spec fn is_archived(&self, q: Seq<char>) -> bool {
        exists|i: int| 0 <= i < self.history_matches().len() && #[trigger] self.history_matches()[i].id@ == q
    }

    /// Well-formedness: a sound ledger, a threshold within [0, 100], a history within
    /// capacity, waiting matches unpaired and archived ones paired, and every held id
    /// issued and held once.
    pub closed spec fn wf(&self) -> bool {
        &&& self.ledger.wf()
        &&& self.threshold <= DRAW_RANGE
        &&& self.history@.len() <= MAX_HISTORY_CAPACITY
        &&& forall|i: int| 0 <= i < self.waiting@.len() ==> (#[trigger] self.waiting@[i]).p2 is None
        &&& forall|i: int| 0 <= i < self.history@.len() ==> (#[trigger] self.history@[i]).p2 is Some
        &&& forall|i: int|
            0 <= i < self.waiting@.len() ==> id_issued(#[trigger] self.waiting@[i].id@, self.issued as nat)
        &&& forall|i: int|
            0 <= i < self.history@.len() ==> id_issued(#[trigger] self.history@[i].id@, self.issued as nat)
        &&& ids_distinct(self.waiting@)
        &&& ids_distinct(self.history@)
        &&& ids_disjoint(self.waiting@, self.history@)
    }

    /// `post` is `pre` with `p` parked as a new waiting match under the next id;
    /// ledger, pot and history are unchanged.
    pub open spec fn parked(pre: Self, post: Self, p: Player, r: Result<PlayOutcome, GameError>) -> bool {
        let id = decimal(pre.issued_count() as nat + 1);
        &&& post.issued_count() == pre.issued_count() + 1
        &&& post.waiting_matches().len() == pre.waiting_matches().len() + 1
        &&& post.waiting_matches().drop_last() == pre.waiting_matches()
        &&& post.waiting_matches().last().id@ == id
        &&& post.waiting_matches().last().p1 == p
        &&& post.waiting_matches().last().p2 is None
        &&& post.waiting_matches().last().p1_payout == 0
        &&& post.waiting_matches().last().p2_payout == 0
        &&& post.waiting_matches().last().pot_payout == 0
        &&& post.history_matches() == pre.history_matches()
        &&& post.balances() == pre.balances()
        &&& post.pot_value() == pre.pot_value()
        &&& r matches Ok(PlayOutcome::Waiting { match_id }) && match_id@ == id
    }

    /// `post` is `pre` after `p` completes waiting match `i`: the match leaves the
    /// pool, the payoffs reach both balances and the pot, and the match is archived.
    pub open spec fn paired(pre: Self, post: Self, i: int, p: Player, r: Result<PlayOutcome, GameError>) -> bool {
        let w = pre.waiting_matches()[i];
        let c = completed_match(w, p, pre.pot_value());
        &&& post.issued_count() == pre.issued_count()
        &&& post.waiting_matches() == pre.waiting_matches().remove(i)
        &&& post.history_matches() == archived(pre.history_matches(), c)
        &&& post.balances() == apply_delta(
            apply_delta(pre.balances(), p.sender@, c.p2_payout as int),
            w.p1.sender@,
            c.p1_payout as int,
        )
        &&& post.pot_value() == clamp_balance(pre.pot_value() + c.pot_payout)
        &&& r matches Ok(PlayOutcome::Paired { match_id, settlement }) && match_id == w.id
            && settlement == settlement_of(c)
    }

    /// One play of `sender` with vote code `vote` and stake `stake`, given the
    /// admission draw `draw`.
    pub open spec fn play_step(
        pre: Self,
        post: Self,
        vote: u8,
        stake: u64,
        sender: [u8; 32],
        tx_id: [u8; 32],
        draw: u32,
        r: Result<PlayOutcome, GameError>,
    ) -> bool {
        match vote_of(vote) {
            None => r == Err::<PlayOutcome, GameError>(GameError::InvalidVote) && post == pre,
            Some(v) => {
                let p = Player { sender, tx_id, stake, vote: v };
                if draw > pre.threshold_value() {
                    post.threshold_value() == pre.threshold_value() + 1 && Self::parked(pre, post, p, r)
                } else {
                    &&& post.threshold_value() == (if pre.threshold_value() > 0 {
                        pre.threshold_value() - 1
                    } else {
                        0
                    })
                    &&& no_partner(pre.waiting_matches(), sender@) ==> Self::parked(pre, post, p, r)
                    &&& forall|i: int|
                        first_partner(pre.waiting_matches(), sender@, i) ==> Self::paired(pre, post, i, p, r)
                }
            },
        }
    }

    /// A fresh game: empty ledger, pool and history, pot 0, threshold 50.
    pub fn init() -> (g: PrisonerDilemma)
        ensures
            g.wf(),
            g.balances() == Map::<Seq<u8>, u64>::empty(),
            g.pot_value() == 0,
            g.threshold_value() == INITIAL_THRESHOLD,
            g.waiting_matches().len() == 0,
            g.history_matches().len() == 0,
            g.issued_count() == 0,
    {
        PrisonerDilemma {
            ledger: Ledger::new(),
            pot: 0,
            threshold: INITIAL_THRESHOLD,
            waiting: Vec::new(),
            history: Vec::new(),
            issued: 0,
        }
    }

    /// One play given its admission draw. A vote code other than 1 or 2 is
    /// rejected and changes nothing. When the draw exceeds the threshold the play
    /// is parked and the threshold rises by one; otherwise the threshold falls by
    /// one (not below zero) and the play completes the first waiting match opened
    /// by someone else, or is parked when there is none.
    pub fn play_with_draw(
        &mut self,
        vote: u8,
        stake: u64,
        sender: [u8; 32],
        tx_id: [u8; 32],
        draw: u32,
    ) -> (r: Result<PlayOutcome, GameError>)
        requires
            old(self).wf(),
            old(self).issued_count() < u64::MAX,
            draw < DRAW_RANGE,
        ensures
            final(self).wf(),
            Self::play_step(*old(self), *final(self), vote, stake, sender, tx_id, draw, r),
            vote_of(vote) is Some <==> r is Ok,
            r is Ok && draw > old(self).threshold_value() ==> final(self).threshold_value()
                == old(self).threshold_value() + 1 && (r matches Ok(PlayOutcome::Waiting { .. })),
            r is Ok && draw <= old(self).threshold_value() ==> final(self).threshold_value() == (if old(
                self,
            ).threshold_value() > 0 {
                old(self).threshold_value() - 1
            } else {
                0
            }),
            r matches Ok(PlayOutcome::Paired { settlement, .. }) ==> settlement.p1_sender@ != sender@
                && settlement.p2_sender == sender,
            (old(self).history_matches().len() == MAX_HISTORY_CAPACITY && (r matches Ok(
                PlayOutcome::Paired { .. },
            ))) ==> !final(self).is_waiting(old(self).history_matches()[0].id@)
                && !final(self).is_archived(old(self).history_matches()[0].id@),
    {
        let v = match Vote::from_code(vote) {
            Some(v) => v,
            None => {
                return Err(GameError::InvalidVote);
            },
        };
        let p = Player { sender, tx_id, stake, vote: v };
        if draw > self.threshold {
            self.threshold = self.threshold + 1;
            return self.park(p);
        }
        if self.threshold > 0 {
            self.threshold = self.threshold - 1;
        }
        match self.find_partner(&sender) {
            None => self.park(p),
            Some(index) => {
                let ghost pre = *self;
                let r = self.settle(index, p);
                proof {
                    assert forall|i: int| first_partner(old(self).waiting@, sender@, i) implies i == index by {
                        if i < index {
                            assert(old(self).waiting@[i].p1.sender@ == sender@);
                        } else if i > index {
                            assert(old(self).waiting@[index as int].p1.sender@ == sender@);
                        }
                    }
                    let hs = old(self).history@;
                    if hs.len() == MAX_HISTORY_CAPACITY {
                        let q = hs[0].id@;
                        let c = completed_match(pre.waiting@[index as int], p, pre.pot);
                        assert(c.id@ == pre.waiting@[index as int].id@);
                        assert forall|i: int| 0 <= i < self.waiting@.len() implies self.waiting@[i].id@ != q by {
                            let oi = if i < index { i } else { i + 1 };
                            assert(self.waiting@[i] == pre.waiting@[oi]);
                        }
                        assert forall|i: int| 0 <= i < self.history@.len() implies self.history@[i].id@ != q by {
                            assert(self.history@[i] == hs.push(c)[i + 1]);
                        }
                    }
                }
                r
            },
        }
    }

    /// One play as the host delivers it: the admission draw comes from a generator
    /// seeded with the round id and the request id. Whatever value in `[0, 100)`
    /// the generator gives, the play goes as `play_with_draw` states for it.
    pub fn play(
        &mut self,
        vote: u8,
        stake: u64,
        sender: [u8; 32],
        round_id: [u8; 32],
        tx_id: [u8; 32],
    ) -> (r: Result<PlayOutcome, GameError>)
        requires
            old(self).wf(),
            old(self).issued_count() < u64::MAX,
        ensures
            final(self).wf(),
            exists|draw: u32|
                draw < DRAW_RANGE && Self::play_step(*old(self), *final(self), vote, stake, sender, tx_id, draw, r),
            vote_of(vote) is Some <==> r is Ok,
            r matches Ok(PlayOutcome::Paired { settlement, .. }) ==> settlement.p1_sender@ != sender@
                && settlement.p2_sender == sender,
            r is Ok ==> (final(self).threshold_value() == old(self).threshold_value() + 1 && (r matches Ok(
                PlayOutcome::Waiting { .. },
            ))) || final(self).threshold_value() == (if old(self).threshold_value() > 0 {
                old(self).threshold_value() - 1
            } else {
                0
            }),
            final(self).history_matches().len() <= MAX_HISTORY_CAPACITY,
            (old(self).history_matches().len() == MAX_HISTORY_CAPACITY && (r matches Ok(
                PlayOutcome::Paired { .. },
            ))) ==> !final(self).is_waiting(old(self).history_matches()[0].id@)
                && !final(self).is_archived(old(self).history_matches()[0].id@),
    {
        if Vote::from_code(vote).is_none() {
            let r = Err(GameError::InvalidVote);
            assert(Self::play_step(*old(self), *self, vote, stake, sender, tx_id, 0, r));
            return r;
        }
        let draw = admission_draw(&round_id, &tx_id);
        self.play_with_draw(vote, stake, sender, tx_id, draw)
    }

    /// Looks a match up by id: still waiting, completed (with its payouts), or unknown.
    pub fn result(&self, match_id: &String) -> (r: Result<Settlement, GameError>)
        requires
            self.wf(),
        ensures
            self.is_waiting(match_id@) ==> r == Err::<Settlement, GameError>(GameError::MatchStillWaiting),
            !self.is_waiting(match_id@) && self.is_archived(match_id@) ==> exists|i: int|
                0 <= i < self.history_matches().len() && self.history_matches()[i].id@ == match_id@ && r
                    == Ok::<Settlement, GameError>(settlement_of(self.history_matches()[i])),
            !self.is_waiting(match_id@) && !self.is_archived(match_id@) ==> r == Err::<Settlement, GameError>(
                GameError::MatchNotFound,
            ),
    {
        let mut i: usize = 0;
        while i < self.waiting.len()
            invariant
                0 <= i <= self.waiting@.len(),
                forall|j: int| 0 <= j < i ==> #[trigger] self.waiting@[j].id@ != match_id@,
            decreases self.waiting@.len() - i,
        {
            if self.waiting[i].id == *match_id {
                return Err(GameError::MatchStillWaiting);
            }
            i = i + 1;
        }
        let mut k: usize = 0;
        while k < self.history.len()
            invariant
                0 <= k <= self.history@.len(),
                self.wf(),
                !self.is_waiting(match_id@),
                forall|j: int| 0 <= j < k ==> #[trigger] self.history@[j].id@ != match_id@,
            decreases self.history@.len() - k,
        {
            let m = &self.history[k];
            if m.id == *match_id {
                let partner = match &m.p2 {
                    Some(p2) => p2.sender,
                    None => {
                        // Archived matches are always completed.
                        proof {
                            assert(self.history@[k as int].p2 is Some);
                        }
                        m.p1.sender
                    },
                };
                return Ok(
                    Settlement {
                        p1_sender: m.p1.sender,
                        p1_payout: m.p1_payout,
                        p2_sender: partner,
                        p2_payout: m.p2_payout,
                    },
                );
            }
            k = k + 1;
        }
        Err(GameError::MatchNotFound)
    }

    /// The balance of `sender`, zero when it has none.
    pub fn get_balance(&self, sender: &[u8; 32]) -> (r: u64)
        requires
            self.wf(),
        ensures
            r == balance_in(self.balances(), sender@),
    {
        self.ledger.balance_of(sender)
    }

    /// Pays out the whole balance of `sender`: returns the transfer for the host
    /// to perform and zeroes the balance. A zero balance is an error and changes
    /// nothing.
    pub fn cash_out(&mut self, sender: [u8; 32]) -> (r: Result<TransferRequest, GameError>)
        requires
            old(self).wf(),
        ensures
            final(self).wf(),
            balance_in(old(self).balances(), sender@) == 0 ==> r == Err::<TransferRequest, GameError>(
                GameError::ZeroBalance,
            ) && *final(self) == *old(self),
            balance_in(old(self).balances(), sender@) != 0 ==> r == Ok::<TransferRequest, GameError>(
                TransferRequest { destination: sender, amount: balance_in(old(self).balances(), sender@) },
            ) && final(self).balances() == old(self).balances().insert(sender@, 0) && final(self).pot_value()
                == old(self).pot_value() && final(self).threshold_value() == old(self).threshold_value()
                && final(self).waiting_matches() == old(self).waiting_matches() && final(self).history_matches()
                == old(self).history_matches() && final(self).issued_count() == old(self).issued_count(),
    {
        let amount = self.ledger.balance_of(&sender);
        if amount == 0 {
            return Err(GameError::ZeroBalance);
        }
        self.ledger.set_balance(sender, 0);
        Ok(TransferRequest { destination: sender, amount })
    }

    /// The pot.
    pub fn pot(&self) -> (r: u64)
        ensures
            r == self.pot_value(),
    {
        self.pot
    }

    /// The admission threshold.
    pub fn threshold(&self) -> (r: u32)
        ensures
            r == self.threshold_value(),
    {
        self.threshold
    }

    /// Number of matches in the waiting pool.
    pub fn waiting_len(&self) -> (r: usize)
        ensures
            r == self.waiting_matches().len(),
    {
        self.waiting.len()
    }

    /// Number of completed matches kept in the history.
    pub fn history_len(&self) -> (r: usize)
        ensures
            r == self.history_matches().len(),
    {
        self.history.len()
    }

    /// Number of match ids issued so far.
    pub fn issued(&self) -> (r: u64)
        ensures
            r == self.issued_count(),
    {
        self.issued
    }

    /// Issues the next match id.
    fn generate_id(&mut self) -> (id: String)
        requires
            old(self).issued < u64::MAX,
        ensures
            final(self).issued == old(self).issued + 1,
            id@ == decimal(final(self).issued as nat),
            final(self).ledger == old(self).ledger,
            final(self).pot == old(self).pot,
            final(self).threshold == old(self).threshold,
            final(self).waiting == old(self).waiting,
            final(self).history == old(self).history,
    {
        self.issued = self.issued + 1;
        decimal_text(self.issued)
    }

    /// Position of the first waiting match that `sender` did not open.
    fn find_partner(&self, sender: &[u8; 32]) -> (r: Option<usize>)
        ensures
            r is None ==> no_partner(self.waiting@, sender@),
            r matches Some(i) ==> first_partner(self.waiting@, sender@, i as int),
    {
        let mut i: usize = 0;
        while i < self.waiting.len()
            invariant
                0 <= i <= self.waiting@.len(),
                forall|j: int| 0 <= j < i ==> #[trigger] self.waiting@[j].p1.sender@ == sender@,
            decreases self.waiting@.len() - i,
        {
            if !same_identity(&self.waiting[i].p1.sender, sender) {
                return Some(i);
            }
            i = i + 1;
        }
        None
    }

    /// Parks `p` as a new waiting match.
    fn park(&mut self, p: Player) -> (r: Result<PlayOutcome, GameError>)
        requires
            old(self).wf(),
            old(self).issued < u64::MAX,
        ensures
            final(self).wf(),
            final(self).threshold == old(self).threshold,
            Self::parked(*old(self), *final(self), p, r),
    {
        let ghost pre = *self;
        let id = self.generate_id();
        let reply = id.clone();
        self.waiting.push(Match::new(id, p));
        proof {
            let n = self.issued as nat;
            assert forall|k: nat| 1 <= k <= pre.issued implies decimal(k) != decimal(n) by {
                if decimal(k) == decimal(n) {
                    lemma_decimal_injective(k, n);
                }
            }
            assert forall|i: int| 0 <= i < pre.waiting@.len() implies id_issued(
                #[trigger] self.waiting@[i].id@,
                n,
            ) && self.waiting@[i].id@ != decimal(n) by {
                assert(self.waiting@[i] == pre.waiting@[i]);
                assert(id_issued(pre.waiting@[i].id@, pre.issued as nat));
            }
            assert forall|i: int| 0 <= i < self.history@.len() implies id_issued(
                #[trigger] self.history@[i].id@,
                n,
            ) && self.history@[i].id@ != decimal(n) by {
                assert(id_issued(pre.history@[i].id@, pre.issued as nat));
            }
            let last = self.waiting@.len() - 1;
            assert(id_issued(self.waiting@[last].id@, n));
            assert(self.waiting@.drop_last() =~= pre.waiting@);
        }
        Ok(PlayOutcome::Waiting { match_id: reply })
    }

    /// Completes waiting match `index` against `p` and applies its payoffs.
    fn settle(&mut self, index: usize, p: Player) -> (r: Result<PlayOutcome, GameError>)
        requires
            old(self).wf(),
            first_partner(old(self).waiting@, p.sender@, index as int),
        ensures
            final(self).wf(),
            final(self).threshold == old(self).threshold,
            Self::paired(*old(self), *final(self), index as int, p, r),
    {
        let ghost pre = *self;
        let mut m = self.waiting.remove(index);
        m.play(p, self.pot);
        let match_id = m.id.clone();
        let settlement = Settlement {
            p1_sender: m.p1.sender,
            p1_payout: m.p1_payout,
            p2_sender: p.sender,
            p2_payout: m.p2_payout,
        };
        update_balance(&mut self.ledger, p.sender, m.p2_payout);
        update_balance(&mut self.ledger, m.p1.sender, m.p1_payout);
        self.pot = clamped_add(self.pot, m.pot_payout);
        let ghost c = m;
        assert(c == completed_match(pre.waiting@[index as int], p, pre.pot));
        self.history.push(m);
        proof {
            let h = pre.history@.push(c);
            assert(self.history@ == h);
            assert forall|i: int, j: int| 0 <= i < j < h.len() implies h[i].id@ != h[j].id@ by {
                if j == h.len() - 1 {
                    assert(c.id@ == pre.waiting@[index as int].id@);
                }
            }
            assert forall|i: int, j: int|
                0 <= i < self.waiting@.len() && 0 <= j < h.len() implies self.waiting@[i].id@ != h[j].id@ by {
                let oi = if i < index { i } else { i + 1 };
                assert(self.waiting@[i] == pre.waiting@[oi]);
                if j == h.len() - 1 {
                    assert(c.id@ == pre.waiting@[index as int].id@);
                }
            }
            assert forall|i: int, j: int|
                0 <= i < j < self.waiting@.len() implies self.waiting@[i].id@ != self.waiting@[j].id@ by {
                let oi = if i < index { i } else { i + 1 };
                let oj = if j < index { j } else { j + 1 };
                assert(self.waiting@[i] == pre.waiting@[oi]);
                assert(self.waiting@[j] == pre.waiting@[oj]);
            }
            assert forall|i: int| 0 <= i < self.waiting@.len() implies id_issued(
                #[trigger] self.waiting@[i].id@,
                self.issued as nat,
            ) && self.waiting@[i].p2 is None by {
                let oi = if i < index { i } else { i + 1 };
                assert(self.waiting@[i] == pre.waiting@[oi]);
            }
            assert forall|j: int| 0 <= j < h.len() implies id_issued(#[trigger] h[j].id@, self.issued as nat)
                && h[j].p2 is Some by {
                if j == h.len() - 1 {
                    assert(id_issued(pre.waiting@[index as int].id@, pre.issued as nat));
                }
            }
        }
        self.prune_old_history();
        proof {
            let h = pre.history@.push(c);
            if h.len() > MAX_HISTORY_CAPACITY {
                assert forall|j: int| 0 <= j < self.history@.len() implies self.history@[j] == h[j + 1] by {}
            }
            assert(self.history@ == archived(pre.history@, c));
        }
        Ok(PlayOutcome::Paired { match_id, settlement })
    }

    /// Drops the oldest completed match once the history is over capacity.
    fn prune_old_history(&mut self)
        requires
            old(self).history@.len() <= MAX_HISTORY_CAPACITY + 1,
        ensures
            final(self).history@ == (if old(self).history@.len() > MAX_HISTORY_CAPACITY {
                old(self).history@.drop_first()
            } else {
                old(self).history@
            }),
            final(self).ledger == old(self).ledger,
            final(self).pot == old(self).pot,
            final(self).threshold == old(self).threshold,
            final(self).waiting == old(self).waiting,
            final(self).issued == old(self).issued,
    {
        if self.history.len() > MAX_HISTORY_CAPACITY {
            self.history.remove(0);
            assert(self.history@ =~= old(self).history@.drop_first());
        }
    }
}

/// The history never holds more than its capacity of completed matches.
pub proof fn lemma_history_bounded(g: PrisonerDilemma)
    requires
        g.wf(),
    ensures
        g.history_matches().len() <= MAX_HISTORY_CAPACITY,
{
}

/// Every match id held in the game (waiting or archived) is the decimal rendering
/// of one of the numbers issued so far, and no two held matches share an id.
pub proof fn lemma_ids_unique(g: PrisonerDilemma)
    requires
        g.wf(),
    ensures
        forall|i: int|
            0 <= i < g.waiting_matches().len() ==> id_issued(#[trigger] g.waiting_matches()[i].id@, g.issued_count() as nat),
        forall|i: int|
            0 <= i < g.history_matches().len() ==> id_issued(#[trigger] g.history_matches()[i].id@, g.issued_count() as nat),
        ids_distinct(g.waiting_matches()),
        ids_distinct(g.history_matches()),
        ids_disjoint(g.waiting_matches(), g.history_matches()),
{
}

/// An id that was never issued names no match, so looking it up reports
/// `MatchNotFound`.
pub proof fn lemma_unissued_id_unknown(g: PrisonerDilemma, q: Seq<char>)
    requires
        g.wf(),
        !id_issued(q, g.issued_count() as nat),
    ensures
        !g.is_waiting(q),
        !g.is_archived(q),
{
    if g.is_waiting(q) {
        let i = choose|i: int| 0 <= i < g.waiting_matches().len() && #[trigger] g.waiting_matches()[i].id@ == q;
        assert(id_issued(g.waiting_matches()[i].id@, g.issued_count() as nat));
    }
    if g.is_archived(q) {
        let i = choose|i: int| 0 <= i < g.history_matches().len() && #[trigger] g.history_matches()[i].id@ == q;
        assert(id_issued(g.history_matches()[i].id@, g.issued_count() as nat));
    }
}

/// Once an issued id names no match (its match was evicted from the history), no
/// later play brings it back: looking it up keeps reporting `MatchNotFound`.
pub proof fn lemma_forgotten_id_stays_unknown(
    pre: PrisonerDilemma,
    post: PrisonerDilemma,
    vote: u8,
    stake: u64,
    sender: [u8; 32],
    tx_id: [u8; 32],
    draw: u32,
    r: Result<PlayOutcome, GameError>,
    q: Seq<char>,
)
    requires
        pre.wf(),
        PrisonerDilemma::play_step(pre, post, vote, stake, sender, tx_id, draw, r),
        id_issued(q, pre.issued_count() as nat),
        !pre.is_waiting(q),
        !pre.is_archived(q),
    ensures
        id_issued(q, post.issued_count() as nat),
        !post.is_waiting(q),
        !post.is_archived(q),
{
    let k = choose|k: nat| 1 <= k <= pre.issued_count() && #[trigger] decimal(k) == q;
    let n = pre.issued_count() as nat + 1;
    if decimal(n) == q {
        lemma_decimal_injective(k, n);
    }
    let pw = pre.waiting_matches();
    let ph = pre.history_matches();
    let w = post.waiting_matches();
    let h = post.history_matches();
    if vote_of(vote) is None {
        assert(post == pre);
    } else {
        let p = Player { sender, tx_id, stake, vote: vote_of(vote).unwrap() };
        if PrisonerDilemma::parked(pre, post, p, r) {
            assert forall|i: int| 0 <= i < w.len() implies w[i].id@ != q by {
                if i < pw.len() {
                    assert(w[i] == w.drop_last()[i]);
                }
            }
            assert(1 <= k <= post.issued_count());
        } else {
            assert(draw <= pre.threshold_value() && !no_partner(pw, sender@));
            let j = choose|j: int| 0 <= j < pw.len() && !(#[trigger] pw[j].p1.sender@ == sender@);
            let i0 = first_index(pw, sender@, j);
            assert(PrisonerDilemma::paired(pre, post, i0, p, r));
            assert(1 <= k <= post.issued_count());
            let c = completed_match(pw[i0], p, pre.pot_value());
            assert forall|i: int| 0 <= i < w.len() implies w[i].id@ != q by {
                let oi = if i < i0 { i } else { i + 1 };
                assert(w[i] == pw[oi]);
            }
            assert forall|i: int| 0 <= i < h.len() implies h[i].id@ != q by {
                let hp = ph.push(c);
                if hp.len() > MAX_HISTORY_CAPACITY {
                    assert(h[i] == hp[i + 1]);
                    if i + 1 == ph.len() {
                        assert(c.id == pw[i0].id);
                    }
                } else {
                    assert(h[i] == hp[i]);
                    if i == ph.len() {
                        assert(c.id == pw[i0].id);
                    }
                }
            }
        }
    }
}

/// The first waiting match at or before `j` that `sender` did not open.
proof fn first_index(waiting: Seq<Match>, sender: Seq<u8>, j: int) -> (i: int)
    requires
        0 <= j < waiting.len(),
        waiting[j].p1.sender@ != sender,
    ensures
        first_partner(waiting, sender, i),
    decreases j,
{
    if exists|m: int| 0 <= m < j && !(#[trigger] waiting[m].p1.sender@ == sender) {
        let m = choose|m: int| 0 <= m < j && !(#[trigger] waiting[m].p1.sender@ == sender);
        first_index(waiting, sender, m)
    } else {
        j
    }
}

} // verus!
