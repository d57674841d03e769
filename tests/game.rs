use prisoners_dilemma::{GameError, PlayOutcome, PrisonerDilemma, Settlement};

const PARK: u32 = 99;
const PAIR: u32 = 0;
const COOPERATE: u8 = 1;
const DEFECT: u8 = 2;

fn id(tag: u8) -> [u8; 32] {
    [tag; 32]
}

fn waiting_id(r: Result<PlayOutcome, GameError>) -> String {
    match r {
        Ok(PlayOutcome::Waiting { match_id }) => match_id,
        other => panic!("expected a parked play, got {:?}", other),
    }
}

fn paired(r: Result<PlayOutcome, GameError>) -> (String, Settlement) {
    match r {
        Ok(PlayOutcome::Paired { match_id, settlement }) => (match_id, settlement),
        other => panic!("expected a pairing, got {:?}", other),
    }
}

#[test]
fn fresh_game() {
    let g = PrisonerDilemma::init();
    assert_eq!(g.pot(), 0);
    assert_eq!(g.threshold(), 50);
    assert_eq!(g.waiting_len(), 0);
    assert_eq!(g.history_len(), 0);
    assert_eq!(g.get_balance(&id(1)), 0);
}

#[test]
fn invalid_vote_is_rejected_without_change() {
    let mut g = PrisonerDilemma::init();
    assert!(matches!(g.play_with_draw(0, 10, id(1), id(9), PARK), Err(GameError::InvalidVote)));
    assert!(matches!(g.play_with_draw(3, 10, id(1), id(9), PAIR), Err(GameError::InvalidVote)));
    assert!(matches!(g.play(7, 10, id(1), id(5), id(9)), Err(GameError::InvalidVote)));
    assert_eq!(g.threshold(), 50);
    assert_eq!(g.waiting_len(), 0);
    assert_eq!(g.issued(), 0);
}

#[test]
fn play_through_the_seeded_draw() {
    let mut g = PrisonerDilemma::init();
    let r = g.play(COOPERATE, 10, id(1), id(5), id(9));
    // With an empty pool the play is parked whatever the draw was.
    assert_eq!(waiting_id(r), "1");
    assert!(g.threshold() == 49 || g.threshold() == 51);
    let r = g.play(DEFECT, 10, id(2), id(6), id(8));
    match r {
        Ok(PlayOutcome::Waiting { match_id }) => {
            assert_eq!(match_id, "2");
            assert_eq!(g.waiting_len(), 2);
        }
        Ok(PlayOutcome::Paired { match_id, settlement }) => {
            assert_eq!(match_id, "1");
            assert_eq!(settlement.p1_payout, -10);
            assert_eq!(settlement.p2_payout, 20);
            assert_eq!(g.waiting_len(), 0);
        }
        Err(e) => panic!("unexpected {:?}", e),
    }
}

#[test]
fn example_cooperator_exploited_by_defector() {
    let mut g = PrisonerDilemma::init();
    // Fill the pot: a mutual defection of 50000 each.
    waiting_id(g.play_with_draw(DEFECT, 50000, id(10), id(0), PARK));
    paired(g.play_with_draw(DEFECT, 50000, id(11), id(0), PAIR));
    assert_eq!(g.pot(), 100000);
    // Give A a balance: A defects against a cooperator staking 2000.
    waiting_id(g.play_with_draw(COOPERATE, 2000, id(12), id(0), PARK));
    paired(g.play_with_draw(DEFECT, 0, id(1), id(0), PAIR));
    assert_eq!(g.get_balance(&id(1)), 3500);
    assert_eq!(g.pot(), 98500);

    let a_before = g.get_balance(&id(1));
    let pot_before = g.pot();
    let match_id = waiting_id(g.play_with_draw(COOPERATE, 1000, id(1), id(0), PARK));
    assert_eq!(match_id, "3");
    let (pid, s) = paired(g.play_with_draw(DEFECT, 500, id(2), id(0), PAIR));
    assert_eq!(pid, "3");
    let bonus = (pot_before as u128 * 15 / 1000) as u64;
    assert_eq!(bonus, 1477);
    assert_eq!(g.get_balance(&id(1)), a_before - 1000);
    assert_eq!(g.get_balance(&id(2)), 1500 + bonus);
    assert_eq!(g.pot(), pot_before - bonus);
    assert_eq!(s.p1_sender, id(1));
    assert_eq!(s.p2_sender, id(2));
    assert_eq!(s.p1_payout, -1000);
    assert_eq!(s.p2_payout, (1500 + bonus) as i128);
}

#[test]
fn example_first_play_is_parked_as_match_one() {
    let mut g = PrisonerDilemma::init();
    assert_eq!(waiting_id(g.play_with_draw(COOPERATE, 1000, id(1), id(0), PARK)), "1");
    let (_, s) = paired(g.play_with_draw(DEFECT, 500, id(2), id(0), PAIR));
    // A had nothing: the loss is floored at zero.
    assert_eq!(g.get_balance(&id(1)), 0);
    assert_eq!(g.get_balance(&id(2)), 1500);
    assert_eq!(g.pot(), 0);
    assert_eq!(s.p1_payout, -1000);
}

#[test]
fn example_cooperating_pair_shares_pot() {
    let mut g = PrisonerDilemma::init();
    waiting_id(g.play_with_draw(DEFECT, 60000, id(10), id(0), PARK));
    paired(g.play_with_draw(DEFECT, 40000, id(11), id(0), PAIR));
    assert_eq!(g.pot(), 100000);
    waiting_id(g.play_with_draw(COOPERATE, 300, id(1), id(0), PARK));
    let (_, s) = paired(g.play_with_draw(COOPERATE, 700, id(2), id(0), PAIR));
    assert_eq!(s.p1_payout, 1000);
    assert_eq!(s.p2_payout, 1000);
    assert_eq!(g.get_balance(&id(1)), 1000);
    assert_eq!(g.get_balance(&id(2)), 1000);
    assert_eq!(g.pot(), 98000);
}

#[test]
fn never_pairs_a_player_with_itself() {
    let mut g = PrisonerDilemma::init();
    assert_eq!(waiting_id(g.play_with_draw(COOPERATE, 5, id(1), id(0), PARK)), "1");
    assert_eq!(waiting_id(g.play_with_draw(DEFECT, 5, id(1), id(0), PAIR)), "2");
    assert_eq!(g.waiting_len(), 2);
    assert_eq!(g.history_len(), 0);
    // A second player is paired with the first entry.
    let (pid, s) = paired(g.play_with_draw(DEFECT, 5, id(2), id(0), PAIR));
    assert_eq!(pid, "1");
    assert_eq!(s.p1_sender, id(1));
    // Player one skips its own entry "2"... and there is no other.
    assert_eq!(waiting_id(g.play_with_draw(DEFECT, 5, id(1), id(0), PAIR)), "3");
}

#[test]
fn pairing_skips_own_entries_for_the_first_other() {
    let mut g = PrisonerDilemma::init();
    waiting_id(g.play_with_draw(COOPERATE, 5, id(1), id(0), PARK));
    waiting_id(g.play_with_draw(COOPERATE, 5, id(2), id(0), PARK));
    waiting_id(g.play_with_draw(COOPERATE, 5, id(3), id(0), PARK));
    let (pid, s) = paired(g.play_with_draw(COOPERATE, 5, id(1), id(0), PAIR));
    assert_eq!(pid, "2");
    assert_eq!(s.p1_sender, id(2));
    assert_eq!(g.waiting_len(), 2);
}

#[test]
fn threshold_moves_by_one_and_floors_at_zero() {
    let mut g = PrisonerDilemma::init();
    waiting_id(g.play_with_draw(COOPERATE, 1, id(1), id(0), PARK));
    assert_eq!(g.threshold(), 51);
    waiting_id(g.play_with_draw(COOPERATE, 1, id(1), id(0), 52));
    assert_eq!(g.threshold(), 52);
    // A draw equal to the threshold attempts a pairing.
    waiting_id(g.play_with_draw(COOPERATE, 1, id(1), id(0), 52));
    assert_eq!(g.threshold(), 51);
    paired(g.play_with_draw(COOPERATE, 1, id(2), id(0), PAIR));
    assert_eq!(g.threshold(), 50);
    for _ in 0..60 {
        waiting_id(g.play_with_draw(COOPERATE, 1, id(1), id(0), PAIR));
    }
    assert_eq!(g.threshold(), 0);
    waiting_id(g.play_with_draw(COOPERATE, 1, id(1), id(0), 1));
    assert_eq!(g.threshold(), 1);
}

#[test]
fn result_reports_waiting_completed_and_unknown() {
    let mut g = PrisonerDilemma::init();
    let first = waiting_id(g.play_with_draw(DEFECT, 40, id(1), id(0), PARK));
    assert!(matches!(g.result(&first), Err(GameError::MatchStillWaiting)));
    assert!(matches!(g.result(&String::from("2")), Err(GameError::MatchNotFound)));
    assert!(matches!(g.result(&String::from("")), Err(GameError::MatchNotFound)));
    paired(g.play_with_draw(COOPERATE, 60, id(2), id(0), PAIR));
    let s = g.result(&first).unwrap();
    assert_eq!(s.p1_sender, id(1));
    assert_eq!(s.p2_sender, id(2));
    assert_eq!(s.p1_payout, 100);
    assert_eq!(s.p2_payout, -60);
}

#[test]
fn history_keeps_the_latest_hundred() {
    let mut g = PrisonerDilemma::init();
    let mut ids = Vec::new();
    for i in 0..101u32 {
        let parked = waiting_id(g.play_with_draw(COOPERATE, 1, id(1), id(0), PARK));
        let (pid, _) = paired(g.play_with_draw(COOPERATE, 1, id(2), id(0), PAIR));
        assert_eq!(pid, parked);
        ids.push(pid);
        assert_eq!(g.history_len(), std::cmp::min(i as usize + 1, 100));
    }
    assert_eq!(g.history_len(), 100);
    assert!(matches!(g.result(&ids[0]), Err(GameError::MatchNotFound)));
    assert!(g.result(&ids[1]).is_ok());
    assert!(g.result(&ids[100]).is_ok());
}

#[test]
fn cash_out_pays_the_balance_once() {
    let mut g = PrisonerDilemma::init();
    assert!(matches!(g.cash_out(id(1)), Err(GameError::ZeroBalance)));
    waiting_id(g.play_with_draw(COOPERATE, 300, id(2), id(0), PARK));
    paired(g.play_with_draw(DEFECT, 200, id(1), id(0), PAIR));
    let t = g.cash_out(id(1)).unwrap();
    assert_eq!(t.destination, id(1));
    assert_eq!(t.amount, 500);
    assert_eq!(g.get_balance(&id(1)), 0);
    assert!(matches!(g.cash_out(id(1)), Err(GameError::ZeroBalance)));
}
