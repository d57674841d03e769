use vstd::prelude::*;

verus! {

/// A participant's choice for one play.
#[derive(Clone, Copy, Debug, PartialEq, Eq, Structural)]
pub enum Vote {
    Cooperate,
    Defect,
}

/// Wire code of `Vote::Cooperate`.
pub const COOPERATE_CODE: u8 = 1;

/// Wire code of `Vote::Defect`.
pub const DEFECT_CODE: u8 = 2;

impl Vote {
    /// Decodes a vote; any code but the two known ones is rejected.
    pub fn from_code(code: u8) -> (r: Option<Vote>)
        ensures
            code == COOPERATE_CODE ==> r == Some(Vote::Cooperate),
            code == DEFECT_CODE ==> r == Some(Vote::Defect),
            code != COOPERATE_CODE && code != DEFECT_CODE ==> r is None,
    {
        if code == COOPERATE_CODE {
            Some(Vote::Cooperate)
        } else if code == DEFECT_CODE {
            Some(Vote::Defect)
        } else {
            None
        }
    }
}

/// One play: who submitted it, from which request, for how much, and how.
#[derive(Clone, Copy, Debug)]
pub struct Player {
    pub sender: [u8; 32],
    pub tx_id: [u8; 32],
    pub stake: u64,
    pub vote: Vote,
}

/// A match: waiting while `p2` is `None`, completed once it is set.
/// The three payouts are net deltas for player one, player two and the pot.
#[derive(Debug)]
pub struct Match {
    pub id: String,
    pub p1: Player,
    pub p2: Option<Player>,
    pub p1_payout: i128,
    pub p2_payout: i128,
    pub pot_payout: i128,
}

/// What each cooperator of a cooperating pair takes from the pot: 1% of it, truncated.
pub open spec fn cooperation_dividend(pot: int) -> int {
    pot / 100
}

/// What a lone defector takes from the pot: 1.5% of it, truncated.
pub open spec fn defection_bonus(pot: int) -> int {
    pot * 3 / 200
}

/// The payoff matrix: net deltas (player one, player two, pot).
pub open spec fn payoff(v1: Vote, s1: int, v2: Vote, s2: int, pot: int) -> (int, int, int) {
    match (v1, v2) {
        (Vote::Defect, Vote::Defect) => (-s1, -s2, s1 + s2),
        (Vote::Cooperate, Vote::Cooperate) => (
            cooperation_dividend(pot),
            cooperation_dividend(pot),
            -2 * cooperation_dividend(pot),
        ),
        (Vote::Cooperate, Vote::Defect) => (-s1, s1 + s2 + defection_bonus(pot), -defection_bonus(pot)),
        (Vote::Defect, Vote::Cooperate) => (s1 + s2 + defection_bonus(pot), -s2, -defection_bonus(pot)),
    }
}

/// The stake that a one-sided defection adds to the players' side without taking it
/// from the pot: zero unless exactly one of the two defects.
pub open spec fn defector_stake(v1: Vote, s1: int, v2: Vote, s2: int) -> int {
    match (v1, v2) {
        (Vote::Cooperate, Vote::Defect) => s2,
        (Vote::Defect, Vote::Cooperate) => s1,
        _ => 0,
    }
}

/// Conservation: the three deltas of the payoff matrix sum to zero, whenever a lone
/// defector (if there is one) staked nothing. Mutual defection and mutual cooperation
/// always conserve value; a one-sided defection creates exactly the defector's stake.
pub proof fn lemma_payoff_conserves(v1: Vote, s1: int, v2: Vote, s2: int, pot: int)
    requires
        s1 >= 0,
        s2 >= 0,
        pot >= 0,
    ensures
        payoff(v1, s1, v2, s2, pot).0 + payoff(v1, s1, v2, s2, pot).1 + payoff(v1, s1, v2, s2, pot).2
            == defector_stake(v1, s1, v2, s2),
        defector_stake(v1, s1, v2, s2) == 0 ==> payoff(v1, s1, v2, s2, pot).0 + payoff(v1, s1, v2, s2, pot).1
            + payoff(v1, s1, v2, s2, pot).2 == 0,
{
}

/// The pot never pays out more than it holds.
pub proof fn lemma_payoff_pot_covered(v1: Vote, s1: int, v2: Vote, s2: int, pot: int)
    requires
        s1 >= 0,
        s2 >= 0,
        pot >= 0,
    ensures
        pot + payoff(v1, s1, v2, s2, pot).2 >= 0,
{
}

impl Match {
    /// A new waiting match holding only its first player.
    pub fn new(id: String, player: Player) -> (m: Match)
        ensures
            m.id == id,
            m.p1 == player,
            m.p2 is None,
            m.p1_payout == 0,
            m.p2_payout == 0,
            m.pot_payout == 0,
    {
        Match { id: id, p1: player, p2: None, p1_payout: 0, p2_payout: 0, pot_payout: 0 }
    }

    /// Completes the match against `p2`, with the payoffs computed on the current `pot`.
    pub fn play(&mut self, p2: Player, pot: u64)
        ensures
            final(self).id == old(self).id,
            final(self).p1 == old(self).p1,
            final(self).p2 == Some(p2),
            (final(self).p1_payout as int, final(self).p2_payout as int, final(self).pot_payout as int)
                == payoff(old(self).p1.vote, old(self).p1.stake as int, p2.vote, p2.stake as int, pot as int),
    {
        let s1 = self.p1.stake as i128;
        let s2 = p2.stake as i128;
        let dividend = (pot / 100) as i128;
        let bonus = ((pot as u128) * 3 / 200) as i128;
        match (self.p1.vote, p2.vote) {
            (Vote::Defect, Vote::Defect) => {
                // Both stakes are forfeited to the pot.
                self.p1_payout = -s1;
                self.p2_payout = -s2;
                self.pot_payout = s1 + s2;
            },
            (Vote::Cooperate, Vote::Cooperate) => {
                // Both keep their stakes and share a dividend of the pot.
                self.p1_payout = dividend;
                self.p2_payout = dividend;
                self.pot_payout = -(dividend + dividend);
            },
            (Vote::Cooperate, Vote::Defect) => {
                // The defector takes both stakes and a bonus from the pot.
                self.p1_payout = -s1;
                self.p2_payout = s1 + s2 + bonus;
                self.pot_payout = -bonus;
            },
            (Vote::Defect, Vote::Cooperate) => {
                self.p1_payout = s1 + s2 + bonus;
                self.p2_payout = -s2;
                self.pot_payout = -bonus;
            },
        }
        self.p2 = Some(p2);
    }
}

} // verus!
