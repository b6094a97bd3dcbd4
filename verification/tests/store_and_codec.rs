use lottery_game::codec::{decode_pool, encode_pool, pool_from_words, pool_to_words};
use lottery_game::errors::LotteryError;
use lottery_game::pool::{start_lottery, AccountId, ENTRY_FEE};
use lottery_game::store::PoolStore;

fn acct(n: u64) -> AccountId {
    AccountId(n, 0, 0, 0)
}

const MANAGER: AccountId = AccountId(1, 1, 1, 1);

#[test]
fn whole_round_through_the_store() {
    let mut store = PoolStore::new();
    let pool = start_lottery(MANAGER, 1, 1000).unwrap();
    assert!(store.insert_pool(pool));
    assert!(store.has_pool(MANAGER, 1));
    assert_eq!(store.len(), 1);

    // A second record under the same key is refused, as the ledger's
    // atomic create refuses an address that already exists.
    let again = start_lottery(MANAGER, 1, 500).unwrap();
    assert!(!store.insert_pool(again));
    assert_eq!(store.len(), 1);

    // Load, mutate and re-file the record, as the ledger does per
    // transaction.
    let mut l = store.take_pool(MANAGER, 1).unwrap();
    l.participate_in_lottery(acct(10)).unwrap();
    l.participate_in_lottery(acct(11)).unwrap();
    assert_eq!(
        l.participate_in_lottery(acct(11)).unwrap_err(),
        LotteryError::AlreadyJoined
    );
    l.request_randomness(MANAGER, 42).unwrap();
    assert_eq!(
        l.request_randomness(MANAGER, 42).unwrap_err(),
        LotteryError::RandomnessAlreadyRequested
    );
    let fulfilled: u64 = 12345;
    let w = l.fulfill_and_draw_winner(MANAGER, Some(fulfilled)).unwrap();
    assert_eq!(w, acct(10 + fulfilled % 2));
    let pot = l.total_pot;
    let loser = acct(10 + (fulfilled + 1) % 2);
    assert!(store.insert_pool(l));

    // Settlement: the wrong claimant is refused, the winner is paid the
    // whole pot, and the record then no longer exists anywhere.
    assert_eq!(
        store.claim_prize(MANAGER, 1, loser).unwrap().unwrap_err(),
        LotteryError::NotTheWinner
    );
    assert!(store.has_pool(MANAGER, 1));
    let amount = store.claim_prize(MANAGER, 1, w).unwrap().unwrap();
    assert_eq!(amount, pot);
    assert_eq!(amount, 1000 + 2 * ENTRY_FEE);
    assert!(!store.has_pool(MANAGER, 1));
    assert_eq!(store.len(), 0);
    assert!(store.claim_prize(MANAGER, 1, w).is_none());
}

#[test]
fn store_distinguishes_rounds_of_one_manager() {
    let mut store = PoolStore::new();
    assert!(store.insert_pool(start_lottery(MANAGER, 1, 100).unwrap()));
    assert!(store.insert_pool(start_lottery(MANAGER, 2, 200).unwrap()));
    assert!(store.insert_pool(start_lottery(acct(9), 1, 300).unwrap()));
    assert_eq!(store.len(), 3);
    assert_eq!(store.get_pool(MANAGER, 2).unwrap().prize_amount, 200);
    assert_eq!(store.get_pool(acct(9), 1).unwrap().prize_amount, 300);
    assert!(store.get_pool(acct(9), 2).is_none());
}

#[test]
fn encoded_record_decodes_to_the_same_record() {
    let mut l = start_lottery(AccountId(1, 2, 3, 4), 77, 5000).unwrap();
    l.participate_in_lottery(AccountId(5, 6, 7, 8)).unwrap();
    l.participate_in_lottery(AccountId(9, 10, 11, 12)).unwrap();
    l.request_randomness(AccountId(1, 2, 3, 4), 424242).unwrap();
    let bytes = encode_pool(&l);
    let back = decode_pool(&bytes).unwrap();
    assert_eq!(back.lottery_manager, l.lottery_manager);
    assert_eq!(back.lottery_id, l.lottery_id);
    assert_eq!(back.prize_amount, l.prize_amount);
    assert_eq!(back.total_pot, l.total_pot);
    assert_eq!(back.is_active, l.is_active);
    assert_eq!(back.players, l.players);
    assert_eq!(back.randomness_requested, l.randomness_requested);
    assert_eq!(back.randomness_seed, l.randomness_seed);
    assert_eq!(back.winner, l.winner);
}

#[test]
fn completed_record_round_trips_through_words() {
    let mut l = start_lottery(MANAGER, 3, 900).unwrap();
    l.participate_in_lottery(acct(20)).unwrap();
    let w = l.draw_winner(MANAGER, 0).unwrap();
    assert_eq!(w, acct(20));
    let words = pool_to_words(&l);
    let back = pool_from_words(&words).unwrap();
    assert_eq!(back.winner, Some(acct(20)));
    assert!(!back.is_active);
    assert_eq!(back.players, l.players);
}

#[test]
fn full_pool_round_trips() {
    let mut l = start_lottery(MANAGER, 8, 1).unwrap();
    for n in 0..50u64 {
        l.participate_in_lottery(acct(1000 + n)).unwrap();
    }
    let bytes = encode_pool(&l);
    assert_eq!(bytes.len(), (17 + 4 * 50) * 8);
    let back = decode_pool(&bytes).unwrap();
    assert_eq!(back.players, l.players);
    assert_eq!(back.total_pot, 1 + 50 * ENTRY_FEE);
}

#[test]
fn tampered_bytes_are_refused() {
    let l = start_lottery(MANAGER, 3, 900).unwrap();
    let good = encode_pool(&l);

    let empty: Vec<u8> = Vec::new();
    assert_eq!(
        decode_pool(&empty).unwrap_err(),
        LotteryError::InternalDecodeError
    );

    let mut ragged = good.clone();
    ragged.pop();
    assert_eq!(
        decode_pool(&ragged).unwrap_err(),
        LotteryError::InternalDecodeError
    );

    let mut bad_tag = good.clone();
    bad_tag[0] ^= 1;
    assert_eq!(
        decode_pool(&bad_tag).unwrap_err(),
        LotteryError::InternalDecodeError
    );

    // The word that persists `is_active` must be zero or one.
    let mut bad_bool = good.clone();
    bad_bool[6 * 8] = 2;
    assert_eq!(
        decode_pool(&bad_bool).unwrap_err(),
        LotteryError::InternalDecodeError
    );

    // With no winner drawn, the winner's four words must be zero.
    let mut ghost_winner = good.clone();
    ghost_winner[8 * 8] = 1;
    assert_eq!(
        decode_pool(&ghost_winner).unwrap_err(),
        LotteryError::InternalDecodeError
    );

    // A registry length beyond the cap is refused.
    let mut bad_count = good.clone();
    bad_count[12 * 8] = 51;
    assert_eq!(
        decode_pool(&bad_count).unwrap_err(),
        LotteryError::InternalDecodeError
    );

    assert!(decode_pool(&good).is_ok());
}
