use lottery_game::errors::LotteryError;
use lottery_game::pool::{start_lottery, AccountId, Lottery, ENTRY_FEE, MAX_PLAYERS};

fn acct(n: u64) -> AccountId {
    AccountId(n, 0, 0, 0)
}

const MANAGER: AccountId = AccountId(1, 1, 1, 1);

fn started(prize: u64) -> Lottery {
    start_lottery(MANAGER, 7, prize).unwrap()
}

#[test]
fn start_with_zero_prize_is_refused() {
    assert_eq!(
        start_lottery(MANAGER, 7, 0).unwrap_err(),
        LotteryError::InvalidAmount
    );
}

#[test]
fn start_initializes_the_record() {
    let l = started(1000);
    assert_eq!(l.lottery_manager, MANAGER);
    assert_eq!(l.lottery_id, 7);
    assert_eq!(l.prize_amount, 1000);
    assert_eq!(l.total_pot, 1000);
    assert!(l.is_active);
    assert!(l.players.is_empty());
    assert!(!l.randomness_requested);
    assert_eq!(l.winner, None);
}

#[test]
fn pot_tracks_prize_plus_fee_per_entry() {
    let mut l = started(1000);
    for n in 0..3u64 {
        l.participate_in_lottery(acct(10 + n)).unwrap();
        assert_eq!(l.total_pot, 1000 + ENTRY_FEE * (n + 1));
        assert_eq!(l.players.len() as u64, n + 1);
    }
}

#[test]
fn duplicate_participant_is_refused() {
    let mut l = started(1000);
    l.participate_in_lottery(acct(10)).unwrap();
    let before = l.total_pot;
    assert_eq!(
        l.participate_in_lottery(acct(10)).unwrap_err(),
        LotteryError::AlreadyJoined
    );
    assert_eq!(l.total_pot, before);
    assert_eq!(l.players.len(), 1);
}

#[test]
fn full_pool_refuses_the_next_distinct_participant() {
    let mut l = started(1000);
    for n in 0..MAX_PLAYERS as u64 {
        l.participate_in_lottery(acct(100 + n)).unwrap();
    }
    assert_eq!(
        l.participate_in_lottery(acct(999)).unwrap_err(),
        LotteryError::Full
    );
    assert_eq!(l.players.len(), MAX_PLAYERS);
}

#[test]
fn duplicate_is_reported_even_when_the_pool_is_full() {
    let mut l = started(1000);
    for n in 0..MAX_PLAYERS as u64 {
        l.participate_in_lottery(acct(100 + n)).unwrap();
    }
    assert_eq!(
        l.participate_in_lottery(acct(100)).unwrap_err(),
        LotteryError::AlreadyJoined
    );
}

#[test]
fn admissions_end_once_randomness_is_requested() {
    let mut l = started(1000);
    l.participate_in_lottery(acct(10)).unwrap();
    l.request_randomness(MANAGER, 42).unwrap();
    assert_eq!(
        l.participate_in_lottery(acct(11)).unwrap_err(),
        LotteryError::RandomnessAlreadyRequested
    );
}

#[test]
fn inactive_pool_refuses_entries() {
    let mut l = started(1000);
    l.participate_in_lottery(acct(10)).unwrap();
    l.draw_winner(MANAGER, 3).unwrap();
    assert_eq!(
        l.participate_in_lottery(acct(11)).unwrap_err(),
        LotteryError::NotActive
    );
}

#[test]
fn overflowing_pot_refuses_the_entry_and_collects_no_fee() {
    let mut l = started(u64::MAX - ENTRY_FEE);
    l.participate_in_lottery(acct(10)).unwrap();
    assert_eq!(l.total_pot, u64::MAX);
    assert_eq!(
        l.participate_in_lottery(acct(11)).unwrap_err(),
        LotteryError::MathOverflow
    );
    assert_eq!(l.total_pot, u64::MAX);
    assert_eq!(l.players.len(), 1);
}

#[test]
fn randomness_request_is_guarded_and_one_shot() {
    let mut l = started(1000);
    assert_eq!(
        l.request_randomness(acct(66), 42).unwrap_err(),
        LotteryError::Unauthorized
    );
    assert_eq!(
        l.request_randomness(MANAGER, 42).unwrap_err(),
        LotteryError::NoParticipants
    );
    l.participate_in_lottery(acct(10)).unwrap();
    l.request_randomness(MANAGER, 42).unwrap();
    assert!(l.randomness_requested);
    assert_eq!(l.randomness_seed, 42);
    assert_eq!(
        l.request_randomness(MANAGER, 43).unwrap_err(),
        LotteryError::RandomnessAlreadyRequested
    );
    assert_eq!(l.randomness_seed, 42);
}

#[test]
fn randomness_request_after_drawing_is_refused() {
    let mut l = started(1000);
    l.participate_in_lottery(acct(10)).unwrap();
    l.draw_winner(MANAGER, 0).unwrap();
    assert_eq!(
        l.request_randomness(MANAGER, 42).unwrap_err(),
        LotteryError::WinnerAlreadyDrawn
    );
}

#[test]
fn drawing_picks_the_random_index_and_closes_the_pool() {
    let mut l = started(1000);
    l.participate_in_lottery(acct(10)).unwrap();
    l.participate_in_lottery(acct(11)).unwrap();
    l.participate_in_lottery(acct(12)).unwrap();
    let w = l.draw_winner(MANAGER, 7).unwrap();
    assert_eq!(w, acct(7 % 3 + 10));
    assert_eq!(l.winner, Some(w));
    assert!(!l.is_active);
}

#[test]
fn drawing_is_guarded() {
    let mut empty = started(1000);
    assert_eq!(
        empty.draw_winner(MANAGER, 1).unwrap_err(),
        LotteryError::NoParticipants
    );
    let mut l = started(1000);
    l.participate_in_lottery(acct(10)).unwrap();
    assert_eq!(
        l.draw_winner(acct(66), 1).unwrap_err(),
        LotteryError::Unauthorized
    );
}

#[test]
fn second_drawing_always_reports_winner_already_drawn() {
    let mut l = started(1000);
    l.participate_in_lottery(acct(10)).unwrap();
    l.participate_in_lottery(acct(11)).unwrap();
    let w = l.draw_winner(MANAGER, 5).unwrap();
    assert_eq!(
        l.draw_winner(MANAGER, 6).unwrap_err(),
        LotteryError::WinnerAlreadyDrawn
    );
    assert_eq!(
        l.draw_winner(acct(66), 6).unwrap_err(),
        LotteryError::WinnerAlreadyDrawn
    );
    assert_eq!(
        l.fulfill_and_draw_winner(MANAGER, Some(6)).unwrap_err(),
        LotteryError::WinnerAlreadyDrawn
    );
    assert_eq!(l.winner, Some(w));
}

#[test]
fn fulfillment_path_is_guarded() {
    let mut l = started(1000);
    l.participate_in_lottery(acct(10)).unwrap();
    assert_eq!(
        l.fulfill_and_draw_winner(MANAGER, Some(3)).unwrap_err(),
        LotteryError::RandomnessNotRequested
    );
    l.request_randomness(MANAGER, 42).unwrap();
    assert_eq!(
        l.fulfill_and_draw_winner(MANAGER, None).unwrap_err(),
        LotteryError::RandomnessNotFulfilled
    );
    assert!(l.is_active);
    let w = l.fulfill_and_draw_winner(MANAGER, Some(3)).unwrap();
    assert_eq!(w, acct(10));
    assert!(!l.is_active);
}

#[test]
fn claim_before_drawing_is_refused() {
    let l = started(1000);
    let (back, e) = l.claim_prize(MANAGER).unwrap_err();
    assert_eq!(e, LotteryError::WinnerNotDrawn);
    assert!(back.is_active);
}

#[test]
fn claim_on_an_active_record_with_a_winner_is_refused() {
    let l = Lottery {
        lottery_manager: MANAGER,
        lottery_id: 7,
        prize_amount: 1000,
        total_pot: 1000,
        is_active: true,
        players: vec![acct(10)],
        randomness_requested: false,
        randomness_seed: 0,
        winner: Some(acct(10)),
    };
    let (_, e) = l.claim_prize(acct(10)).unwrap_err();
    assert_eq!(e, LotteryError::StillActive);
}

#[test]
fn only_the_winner_claims_and_the_claim_pays_the_whole_pot() {
    let mut l = started(1000);
    l.participate_in_lottery(acct(10)).unwrap();
    l.participate_in_lottery(acct(11)).unwrap();
    let w = l.draw_winner(MANAGER, 4).unwrap();
    assert_eq!(w, acct(10));
    let pot = l.total_pot;
    let (back, e) = l.claim_prize(acct(11)).unwrap_err();
    assert_eq!(e, LotteryError::NotTheWinner);
    let amount = back.claim_prize(acct(10)).unwrap();
    assert_eq!(amount, pot);
    assert_eq!(amount, 1000 + 2 * ENTRY_FEE);
}
