use vstd::prelude::*;

use crate::errors::LotteryError;
use crate::pool::{AccountId, Lottery, LotteryView, MAX_PLAYERS};

verus! {

/// Tag that opens every persisted pool record.
pub const RECORD_TAG: u64 = 0x59524554_544f4c31;

/// How a boolean is persisted: one word, zero or one.
pub open spec fn spec_bool_word(b: bool) -> u64 {
    if b {
        1
    } else {
        0
    }
}

/// How an identity is persisted: its four words in order.
pub open spec fn spec_id_words(a: AccountId) -> Seq<u64> {
    seq![a.0, a.1, a.2, a.3]
}

/// How the registry is persisted: each participant's four words, in
/// registry order.
pub open spec fn spec_player_words(s: Seq<AccountId>) -> Seq<u64>
    decreases s.len(),
{
    if s.len() == 0 {
        Seq::empty()
    } else {
        spec_player_words(s.drop_last()) + spec_id_words(s.last())
    }
}

/// How the optional winner is persisted: a zero-or-one tag word, then the
/// winner's identity, or four zero words while no winner is drawn.
pub open spec fn spec_winner_words(w: Option<AccountId>) -> Seq<u64> {
    match w {
        None => seq![0u64, 0u64, 0u64, 0u64, 0u64],
        Some(a) => seq![1u64] + spec_id_words(a),
    }
}

/// The persisted layout of a pool record, as a sequence of words: the tag,
/// the fixed-width fields, and the one bounded-length sequence — the
/// registry — prefixed with its length.
pub open spec fn spec_words(v: LotteryView) -> Seq<u64> {
    seq![RECORD_TAG] + spec_id_words(v.lottery_manager) + seq![
        v.prize_amount,
        spec_bool_word(v.is_active),
    ] + spec_winner_words(v.winner) + seq![v.players.len() as u64] + spec_player_words(v.players)
        + seq![
        v.lottery_id,
        v.total_pot,
        spec_bool_word(v.randomness_requested),
        v.randomness_seed,
    ]
}

/// Which word sequences decode: exactly the well-shaped ones — right tag,
/// boolean words in range, zero words where no winner stands, a registry
/// length within the cap that the total length matches exactly.
pub open spec fn spec_valid_words(w: Seq<u64>) -> bool {
    &&& w.len() >= 17
    &&& w[0] == RECORD_TAG
    &&& (w[6] == 0 || w[6] == 1)
    &&& (w[7] == 0 || w[7] == 1)
    &&& (w[7] == 0 ==> w[8] == 0 && w[9] == 0 && w[10] == 0 && w[11] == 0)
    &&& w[12] <= MAX_PLAYERS as u64
    &&& w.len() == 17 + 4 * (w[12] as int)
    &&& (w[15 + 4 * (w[12] as int)] == 0 || w[15 + 4 * (w[12] as int)] == 1)
}

/// The registry's words are four per participant.
pub proof fn lemma_player_words_len(s: Seq<AccountId>)
    ensures
        spec_player_words(s).len() == 4 * s.len(),
    decreases s.len(),
{
    if s.len() > 0 {
        lemma_player_words_len(s.drop_last());
    }
}

/// Persisting one more participant appends that participant's four words.
proof fn lemma_player_words_step(s: Seq<AccountId>, i: int)
    requires
        0 <= i < s.len(),
    ensures
        spec_player_words(s.take(i + 1)) == spec_player_words(s.take(i)) + spec_id_words(s[i]),
{
    assert(s.take(i + 1).drop_last() =~= s.take(i));
    assert(s.take(i + 1).last() == s[i]);
}

/// Each participant's words stand at their slot in the registry's words.
pub proof fn lemma_player_words_index(s: Seq<AccountId>, k: int)
    requires
        0 <= k < s.len(),
    ensures
        spec_player_words(s).len() == 4 * s.len(),
        spec_player_words(s)[4 * k] == s[k].0,
        spec_player_words(s)[4 * k + 1] == s[k].1,
        spec_player_words(s)[4 * k + 2] == s[k].2,
        spec_player_words(s)[4 * k + 3] == s[k].3,
    decreases s.len(),
{
    lemma_player_words_len(s);
    if k + 1 < s.len() {
        lemma_player_words_len(s.drop_last());
        lemma_player_words_index(s.drop_last(), k);
    }
}

/// Writes a pool record in its persisted word layout.
pub fn pool_to_words(l: &Lottery) -> (r: Vec<u64>)
    ensures
        r@ == spec_words(l@),
{
    let mut out: Vec<u64> = Vec::new();
    out.push(RECORD_TAG);
    out.push(l.lottery_manager.0);
    out.push(l.lottery_manager.1);
    out.push(l.lottery_manager.2);
    out.push(l.lottery_manager.3);
    out.push(l.prize_amount);
    out.push(if l.is_active {
        1
    } else {
        0
    });
    match l.winner {
        Some(w) => {
            out.push(1);
            out.push(w.0);
            out.push(w.1);
            out.push(w.2);
            out.push(w.3);
        },
        None => {
            out.push(0);
            out.push(0);
            out.push(0);
            out.push(0);
            out.push(0);
        },
    }
    out.push(l.players.len() as u64);
    let ghost head = out@;
    proof {
        assert(spec_player_words(l.players@.take(0)) =~= Seq::<u64>::empty());
        assert(out@ =~= head + spec_player_words(l.players@.take(0)));
    }
    let mut i: usize = 0;
    while i < l.players.len()
        invariant
            i <= l.players@.len(),
            out@ == head + spec_player_words(l.players@.take(i as int)),
        decreases l.players@.len() - i,
    {
        let p = l.players[i];
        out.push(p.0);
        out.push(p.1);
        out.push(p.2);
        out.push(p.3);
        proof {
            lemma_player_words_step(l.players@, i as int);
            assert(out@ =~= head + spec_player_words(l.players@.take(i as int + 1)));
        }
        i = i + 1;
    }
    proof {
        assert(l.players@.take(l.players@.len() as int) =~= l.players@);
    }
    out.push(l.lottery_id);
    out.push(l.total_pot);
    out.push(if l.randomness_requested {
        1
    } else {
        0
    });
    out.push(l.randomness_seed);
    proof {
        lemma_player_words_len(l.players@);
        assert(out@ =~= spec_words(l@));
    }
    out
}

/// Reads a pool record back from its persisted word layout. Exactly the
/// well-shaped sequences decode; every other input is refused as a decode
/// error. The result is the structural record: well-formedness is the
/// state machine's to establish, not the layout's.
pub fn pool_from_words(words: &Vec<u64>) -> (r: Result<Lottery, LotteryError>)
    ensures
        r is Ok <==> spec_valid_words(words@),
        r matches Ok(l) ==> words@ == spec_words(l@),
        r matches Err(e) ==> e == LotteryError::InternalDecodeError,
{
    if words.len() < 17 {
        return Err(LotteryError::InternalDecodeError);
    }
    if words[0] != RECORD_TAG {
        return Err(LotteryError::InternalDecodeError);
    }
    let active_word = words[6];
    if active_word > 1 {
        return Err(LotteryError::InternalDecodeError);
    }
    let winner_word = words[7];
    if winner_word > 1 {
        return Err(LotteryError::InternalDecodeError);
    }
    if winner_word == 0 && !(words[8] == 0 && words[9] == 0 && words[10] == 0 && words[11] == 0) {
        return Err(LotteryError::InternalDecodeError);
    }
    let count_word = words[12];
    if count_word > MAX_PLAYERS as u64 {
        return Err(LotteryError::InternalDecodeError);
    }
    let count = count_word as usize;
    if words.len() != 17 + 4 * count {
        return Err(LotteryError::InternalDecodeError);
    }
    let requested_word = words[15 + 4 * count];
    if requested_word > 1 {
        return Err(LotteryError::InternalDecodeError);
    }
    let mut players: Vec<AccountId> = Vec::new();
    let mut i: usize = 0;
    while i < count
        invariant
            i <= count,
            count <= MAX_PLAYERS,
            count == words@[12],
            words@.len() == 17 + 4 * count,
            players@.len() == i,
            spec_player_words(players@) == words@.subrange(13, 13 + 4 * i as int),
        decreases count - i,
    {
        let p = AccountId(
            words[13 + 4 * i],
            words[13 + 4 * i + 1],
            words[13 + 4 * i + 2],
            words[13 + 4 * i + 3],
        );
        let ghost pre_players = players@;
        players.push(p);
        proof {
            assert(players@.drop_last() =~= pre_players);
            assert(spec_player_words(players@) == spec_player_words(pre_players) + spec_id_words(
                p,
            ));
            assert(spec_id_words(p) =~= words@.subrange(
                13 + 4 * i as int,
                13 + 4 * (i as int + 1),
            ));
            assert(words@.subrange(13, 13 + 4 * (i as int + 1)) =~= words@.subrange(
                13,
                13 + 4 * i as int,
            ) + words@.subrange(13 + 4 * i as int, 13 + 4 * (i as int + 1)));
            assert(spec_player_words(players@) =~= words@.subrange(13, 13 + 4 * (i as int + 1)));
        }
        i = i + 1;
    }
    let lottery = Lottery {
        lottery_manager: AccountId(words[1], words[2], words[3], words[4]),
        lottery_id: words[13 + 4 * count],
        prize_amount: words[5],
        total_pot: words[14 + 4 * count],
        is_active: active_word == 1,
        players,
        randomness_requested: requested_word == 1,
        randomness_seed: words[16 + 4 * count],
        winner: if winner_word == 1 {
            Some(AccountId(words[8], words[9], words[10], words[11]))
        } else {
            None
        },
    };
    proof {
        lemma_player_words_len(lottery.players@);
        assert(words@ =~= spec_words(lottery@));
    }
    Ok(lottery)
}

/// Two records with the same persisted words are the same record.
pub proof fn lemma_words_injective(a: LotteryView, b: LotteryView)
    requires
        spec_words(a) == spec_words(b),
    ensures
        a == b,
{
    lemma_player_words_len(a.players);
    lemma_player_words_len(b.players);
    assert(spec_winner_words(a.winner).len() == 5) by {
        match a.winner {
            Some(_) => {},
            None => {},
        }
    }
    assert(spec_winner_words(b.winner).len() == 5) by {
        match b.winner {
            Some(_) => {},
            None => {},
        }
    }
    assert(spec_words(a).len() == 17 + 4 * a.players.len());
    assert(spec_words(b).len() == 17 + 4 * b.players.len());
    assert(a.players.len() == b.players.len());
    assert(a.players =~= b.players) by {
        assert forall|k: int| 0 <= k < a.players.len() implies a.players[k] == b.players[k] by {
            lemma_player_words_index(a.players, k);
            lemma_player_words_index(b.players, k);
            assert(spec_words(a)[13 + 4 * k] == a.players[k].0);
            assert(spec_words(a)[13 + 4 * k + 1] == a.players[k].1);
            assert(spec_words(a)[13 + 4 * k + 2] == a.players[k].2);
            assert(spec_words(a)[13 + 4 * k + 3] == a.players[k].3);
        }
    }
    assert(spec_words(a)[7] == spec_words(b)[7]);
    match (a.winner, b.winner) {
        (Some(x), Some(y)) => {
            assert(spec_words(a)[8] == x.0 && spec_words(a)[9] == x.1 && spec_words(a)[10] == x.2
                && spec_words(a)[11] == x.3);
            assert(spec_words(b)[8] == y.0 && spec_words(b)[9] == y.1 && spec_words(b)[10] == y.2
                && spec_words(b)[11] == y.3);
        },
        (None, Some(_)) => {
            assert(spec_words(a)[7] == 0 && spec_words(b)[7] == 1);
        },
        (Some(_), None) => {
            assert(spec_words(a)[7] == 1 && spec_words(b)[7] == 0);
        },
        (None, None) => {},
    }
    let n = a.players.len() as int;
    assert(spec_words(a)[1] == a.lottery_manager.0 && spec_words(a)[2] == a.lottery_manager.1
        && spec_words(a)[3] == a.lottery_manager.2 && spec_words(a)[4] == a.lottery_manager.3);
    assert(spec_words(b)[1] == b.lottery_manager.0 && spec_words(b)[2] == b.lottery_manager.1
        && spec_words(b)[3] == b.lottery_manager.2 && spec_words(b)[4] == b.lottery_manager.3);
    assert(spec_words(a)[5] == a.prize_amount && spec_words(b)[5] == b.prize_amount);
    assert(spec_words(a)[6] == spec_bool_word(a.is_active) && spec_words(b)[6] == spec_bool_word(
        b.is_active,
    ));
    assert(spec_words(a)[13 + 4 * n] == a.lottery_id && spec_words(b)[13 + 4 * n]
        == b.lottery_id);
    assert(spec_words(a)[14 + 4 * n] == a.total_pot && spec_words(b)[14 + 4 * n] == b.total_pot);
    assert(spec_words(a)[15 + 4 * n] == spec_bool_word(a.randomness_requested) && spec_words(b)[15
        + 4 * n] == spec_bool_word(b.randomness_requested));
    assert(spec_words(a)[16 + 4 * n] == a.randomness_seed && spec_words(b)[16 + 4 * n]
        == b.randomness_seed);
    assert(a =~= b);
}

/// How one word is persisted: its eight bytes, least significant first.
pub open spec fn spec_u64_le(x: u64) -> Seq<u8> {
    seq![
        (x & 0xff) as u8,
        ((x >> 8) & 0xff) as u8,
        ((x >> 16) & 0xff) as u8,
        ((x >> 24) & 0xff) as u8,
        ((x >> 32) & 0xff) as u8,
        ((x >> 40) & 0xff) as u8,
        ((x >> 48) & 0xff) as u8,
        ((x >> 56) & 0xff) as u8,
    ]
}

/// How a word sequence is persisted: each word's eight bytes, in order.
pub open spec fn spec_bytes(w: Seq<u64>) -> Seq<u8>
    decreases w.len(),
{
    if w.len() == 0 {
        Seq::empty()
    } else {
        spec_bytes(w.drop_last()) + spec_u64_le(w.last())
    }
}

/// The byte form is eight bytes per word.
pub proof fn lemma_bytes_len(w: Seq<u64>)
    ensures
        spec_bytes(w).len() == 8 * w.len(),
    decreases w.len(),
{
    if w.len() > 0 {
        lemma_bytes_len(w.drop_last());
    }
}

/// Appends one word's eight bytes, least significant first.
fn push_u64_le(out: &mut Vec<u8>, x: u64)
    ensures
        final(out)@ == old(out)@ + spec_u64_le(x),
{
    let ghost pre = out@;
    out.push((x & 0xff) as u8);
    out.push(((x >> 8) & 0xff) as u8);
    out.push(((x >> 16) & 0xff) as u8);
    out.push(((x >> 24) & 0xff) as u8);
    out.push(((x >> 32) & 0xff) as u8);
    out.push(((x >> 40) & 0xff) as u8);
    out.push(((x >> 48) & 0xff) as u8);
    out.push(((x >> 56) & 0xff) as u8);
    proof {
        assert(out@ =~= pre + spec_u64_le(x));
    }
}

/// Reads one word back from eight bytes, least significant first.
fn u64_from_le(b0: u8, b1: u8, b2: u8, b3: u8, b4: u8, b5: u8, b6: u8, b7: u8) -> (r: u64)
    ensures
        spec_u64_le(r) == seq![b0, b1, b2, b3, b4, b5, b6, b7],
{
    let r = (b0 as u64) | ((b1 as u64) << 8) | ((b2 as u64) << 16) | ((b3 as u64) << 24) | (
    (b4 as u64) << 32) | ((b5 as u64) << 40) | ((b6 as u64) << 48) | ((b7 as u64) << 56);
    proof {
        let x0 = b0 as u64;
        let x1 = b1 as u64;
        let x2 = b2 as u64;
        let x3 = b3 as u64;
        let x4 = b4 as u64;
        let x5 = b5 as u64;
        let x6 = b6 as u64;
        let x7 = b7 as u64;
        assert({
            let v = x0 | (x1 << 8) | (x2 << 16) | (x3 << 24) | (x4 << 32) | (x5 << 40) | (x6
                << 48) | (x7 << 56);
            &&& v & 0xff == x0
            &&& (v >> 8) & 0xff == x1
            &&& (v >> 16) & 0xff == x2
            &&& (v >> 24) & 0xff == x3
            &&& (v >> 32) & 0xff == x4
            &&& (v >> 40) & 0xff == x5
            &&& (v >> 48) & 0xff == x6
            &&& (v >> 56) & 0xff == x7
        }) by (bit_vector)
            requires
                x0 < 256 && x1 < 256 && x2 < 256 && x3 < 256 && x4 < 256 && x5 < 256 && x6 < 256
                    && x7 < 256,
        ;
        assert(spec_u64_le(r) =~= seq![b0, b1, b2, b3, b4, b5, b6, b7]);
    }
    r
}

/// Writes a word sequence in its persisted byte form.
pub fn words_to_bytes(words: &Vec<u64>) -> (r: Vec<u8>)
    ensures
        r@ == spec_bytes(words@),
{
    let mut out: Vec<u8> = Vec::new();
    proof {
        assert(out@ =~= spec_bytes(words@.take(0)));
    }
    let mut i: usize = 0;
    while i < words.len()
        invariant
            i <= words@.len(),
            out@ == spec_bytes(words@.take(i as int)),
        decreases words@.len() - i,
    {
        push_u64_le(&mut out, words[i]);
        proof {
            assert(words@.take(i as int + 1).drop_last() =~= words@.take(i as int));
            assert(out@ =~= spec_bytes(words@.take(i as int + 1)));
        }
        i = i + 1;
    }
    proof {
        assert(words@.take(words@.len() as int) =~= words@);
    }
    out
}

/// Reads a word sequence back from its persisted byte form. Exactly the
/// byte strings of whole words decode; a ragged length is refused.
pub fn words_from_bytes(bytes: &Vec<u8>) -> (r: Result<Vec<u64>, LotteryError>)
    ensures
        r is Ok <==> bytes@.len() % 8 == 0,
        r matches Ok(w) ==> spec_bytes(w@) == bytes@ && w@.len() == bytes@.len() / 8,
        r matches Err(e) ==> e == LotteryError::InternalDecodeError,
{
    let len = bytes.len();
    if len % 8 != 0 {
        return Err(LotteryError::InternalDecodeError);
    }
    let count = len / 8;
    let mut words: Vec<u64> = Vec::new();
    proof {
        assert(spec_bytes(words@) =~= bytes@.subrange(0, 0));
    }
    let mut i: usize = 0;
    while i < count
        invariant
            i <= count,
            count == bytes@.len() / 8,
            bytes@.len() % 8 == 0,
            8 * count == len,
            len == bytes@.len(),
            words@.len() == i,
            spec_bytes(words@) == bytes@.subrange(0, 8 * i as int),
        decreases count - i,
    {
        let x = u64_from_le(
            bytes[8 * i],
            bytes[8 * i + 1],
            bytes[8 * i + 2],
            bytes[8 * i + 3],
            bytes[8 * i + 4],
            bytes[8 * i + 5],
            bytes[8 * i + 6],
            bytes[8 * i + 7],
        );
        let ghost pre_words = words@;
        words.push(x);
        proof {
            assert(words@.drop_last() =~= pre_words);
            assert(spec_bytes(words@) == spec_bytes(pre_words) + spec_u64_le(x));
            assert(spec_u64_le(x) =~= bytes@.subrange(8 * i as int, 8 * (i as int + 1)));
            assert(bytes@.subrange(0, 8 * (i as int + 1)) =~= bytes@.subrange(0, 8 * i as int)
                + bytes@.subrange(8 * i as int, 8 * (i as int + 1)));
            assert(spec_bytes(words@) =~= bytes@.subrange(0, 8 * (i as int + 1)));
        }
        i = i + 1;
    }
    proof {
        assert(bytes@.subrange(0, 8 * (count as int)) =~= bytes@);
    }
    Ok(words)
}

/// Two words with the same eight persisted bytes are the same word.
proof fn lemma_u64_le_injective(x: u64, y: u64)
    requires
        spec_u64_le(x) == spec_u64_le(y),
    ensures
        x == y,
{
    assert(spec_u64_le(x)[0] == spec_u64_le(y)[0]);
    assert(spec_u64_le(x)[1] == spec_u64_le(y)[1]);
    assert(spec_u64_le(x)[2] == spec_u64_le(y)[2]);
    assert(spec_u64_le(x)[3] == spec_u64_le(y)[3]);
    assert(spec_u64_le(x)[4] == spec_u64_le(y)[4]);
    assert(spec_u64_le(x)[5] == spec_u64_le(y)[5]);
    assert(spec_u64_le(x)[6] == spec_u64_le(y)[6]);
    assert(spec_u64_le(x)[7] == spec_u64_le(y)[7]);
    assert(x == y) by (bit_vector)
        requires
            (x & 0xff) as u8 == (y & 0xff) as u8,
            ((x >> 8) & 0xff) as u8 == ((y >> 8) & 0xff) as u8,
            ((x >> 16) & 0xff) as u8 == ((y >> 16) & 0xff) as u8,
            ((x >> 24) & 0xff) as u8 == ((y >> 24) & 0xff) as u8,
            ((x >> 32) & 0xff) as u8 == ((y >> 32) & 0xff) as u8,
            ((x >> 40) & 0xff) as u8 == ((y >> 40) & 0xff) as u8,
            ((x >> 48) & 0xff) as u8 == ((y >> 48) & 0xff) as u8,
            ((x >> 56) & 0xff) as u8 == ((y >> 56) & 0xff) as u8,
    ;
}

/// Two word sequences with the same persisted bytes are the same sequence.
pub proof fn lemma_bytes_injective(a: Seq<u64>, b: Seq<u64>)
    requires
        spec_bytes(a) == spec_bytes(b),
    ensures
        a == b,
    decreases a.len(),
{
    lemma_bytes_len(a);
    lemma_bytes_len(b);
    if a.len() == 0 {
        assert(a =~= b);
    } else {
        lemma_bytes_len(a.drop_last());
        lemma_bytes_len(b.drop_last());
        assert(spec_bytes(a) == spec_bytes(a.drop_last()) + spec_u64_le(a.last()));
        assert(spec_bytes(b) == spec_bytes(b.drop_last()) + spec_u64_le(b.last()));
        assert(spec_bytes(a.drop_last()) =~= spec_bytes(b.drop_last())) by {
            assert forall|k: int|
                0 <= k < spec_bytes(a.drop_last()).len() implies spec_bytes(a.drop_last())[k]
                == spec_bytes(b.drop_last())[k] by {
                assert(spec_bytes(a) == spec_bytes(a.drop_last()) + spec_u64_le(a.last()));
                assert(spec_bytes(b) == spec_bytes(b.drop_last()) + spec_u64_le(b.last()));
                assert((spec_bytes(a.drop_last()) + spec_u64_le(a.last()))[k] == spec_bytes(
                    a.drop_last(),
                )[k]);
                assert((spec_bytes(b.drop_last()) + spec_u64_le(b.last()))[k] == spec_bytes(
                    b.drop_last(),
                )[k]);
            }
        }
        assert(spec_u64_le(a.last()) =~= spec_u64_le(b.last())) by {
            assert forall|k: int| 0 <= k < 8 implies spec_u64_le(a.last())[k] == spec_u64_le(
                b.last(),
            )[k] by {
                let base = spec_bytes(a.drop_last()).len() as int;
                assert(spec_bytes(a) == spec_bytes(a.drop_last()) + spec_u64_le(a.last()));
                assert(spec_bytes(b) == spec_bytes(b.drop_last()) + spec_u64_le(b.last()));
                assert((spec_bytes(a.drop_last()) + spec_u64_le(a.last()))[base + k]
                    == spec_u64_le(a.last())[k]);
                assert((spec_bytes(b.drop_last()) + spec_u64_le(b.last()))[base + k]
                    == spec_u64_le(b.last())[k]);
                assert(spec_bytes(a)[base + k] == spec_bytes(b)[base + k]);
            }
        }
        lemma_u64_le_injective(a.last(), b.last());
        lemma_bytes_injective(a.drop_last(), b.drop_last());
        assert forall|k: int| 0 <= k < a.len() implies a[k] == b[k] by {
            if k < a.len() - 1 {
                assert(a.drop_last()[k] == b.drop_last()[k]);
            } else {
                assert(a.last() == b.last());
            }
        }
        assert(a =~= b);
    }
}

/// Two records with the same persisted bytes are the same record.
pub proof fn lemma_encode_injective(a: LotteryView, b: LotteryView)
    requires
        spec_encode(a) == spec_encode(b),
    ensures
        a == b,
{
    lemma_bytes_injective(spec_words(a), spec_words(b));
    lemma_words_injective(a, b);
}

/// Every record within the registry cap — so every record the state
/// machine maintains — persists to a well-shaped word sequence: what was
/// written always reads back.
pub proof fn lemma_record_words_valid(v: LotteryView)
    requires
        v.players.len() <= MAX_PLAYERS,
    ensures
        spec_valid_words(spec_words(v)),
{
    lemma_player_words_len(v.players);
    let w = spec_words(v);
    let n = v.players.len() as int;
    assert(spec_winner_words(v.winner).len() == 5) by {
        match v.winner {
            Some(_) => {},
            None => {},
        }
    }
    assert(w.len() == 17 + 4 * n);
    assert(w[0] == RECORD_TAG);
    assert(w[6] == spec_bool_word(v.is_active));
    match v.winner {
        Some(x) => {
            assert(w[7] == 1);
        },
        None => {
            assert(w[7] == 0 && w[8] == 0 && w[9] == 0 && w[10] == 0 && w[11] == 0);
        },
    }
    assert(w[12] == n as u64);
    assert(w[15 + 4 * n] == spec_bool_word(v.randomness_requested));
}

/// The persisted byte form of a pool record.
pub open spec fn spec_encode(v: LotteryView) -> Seq<u8> {
    spec_bytes(spec_words(v))
}

/// What was persisted reloads, and to nothing else: the byte form of any
/// record within the registry cap is among the byte strings the decoder
/// accepts, and no other record shares that byte form. Together with the
/// decoder's contract this gives the round trip: decoding an encoded
/// record yields exactly that record.
pub proof fn lemma_encode_then_decode(v: LotteryView)
    requires
        v.players.len() <= MAX_PLAYERS,
    ensures
        exists|w: Seq<u64>| spec_bytes(w) == spec_encode(v) && spec_valid_words(w),
        forall|u: LotteryView| spec_encode(u) == spec_encode(v) ==> u == v,
{
    lemma_record_words_valid(v);
    assert(spec_bytes(spec_words(v)) == spec_encode(v) && spec_valid_words(spec_words(v)));
    assert forall|u: LotteryView| spec_encode(u) == spec_encode(v) implies u == v by {
        lemma_encode_injective(u, v);
    }
}

/// Serializes a pool record into its persisted byte form: the tag, the
/// fixed-width fields and the length-prefixed registry, eight bytes per
/// word, least significant byte first.
pub fn encode_pool(l: &Lottery) -> (r: Vec<u8>)
    ensures
        r@ == spec_encode(l@),
{
    let words = pool_to_words(l);
    words_to_bytes(&words)
}

/// Deserializes a pool record from its persisted byte form. Every accepted
/// byte string is the exact persisted form of the returned record — and by
/// word injectivity of the layout, of no other — and every other byte
/// string is refused as a decode error.
pub fn decode_pool(bytes: &Vec<u8>) -> (r: Result<Lottery, LotteryError>)
    ensures
        r is Ok <==> (exists|w: Seq<u64>|
            spec_bytes(w) == bytes@ && spec_valid_words(w)),
        r matches Ok(l) ==> bytes@ == spec_encode(l@),
        r matches Err(e) ==> e == LotteryError::InternalDecodeError,
{
    let words = match words_from_bytes(bytes) {
        Ok(w) => w,
        Err(e) => {
            proof {
                assert(!(exists|w: Seq<u64>| spec_bytes(w) == bytes@ && spec_valid_words(w))) by {
                    if exists|w: Seq<u64>| spec_bytes(w) == bytes@ && spec_valid_words(w) {
                        let w = choose|w: Seq<u64>|
                            spec_bytes(w) == bytes@ && spec_valid_words(w);
                        lemma_bytes_len(w);
                    }
                }
            }
            return Err(e);
        },
    };
    let r = pool_from_words(&words);
    proof {
        if r is Ok {
            assert(spec_bytes(words@) == bytes@ && spec_valid_words(words@));
        } else {
            assert(!(exists|w: Seq<u64>| spec_bytes(w) == bytes@ && spec_valid_words(w))) by {
                if exists|w: Seq<u64>| spec_bytes(w) == bytes@ && spec_valid_words(w) {
                    let w = choose|w: Seq<u64>| spec_bytes(w) == bytes@ && spec_valid_words(w);
                    lemma_bytes_injective(w, words@);
                }
            }
        }
    }
    r
}

} // verus!
