use vstd::prelude::*;

use crate::errors::LotteryError;

verus! {

/// Most participants a single pool admits.
pub const MAX_PLAYERS: usize = 50;

/// Fixed charge, in the ledger's native currency unit, that every
/// participant pays into the pot when joining.
pub const ENTRY_FEE: u64 = 100_000_000;

/// An identity on the ledger: the 32 bytes of an address, held as four
/// 64-bit words so that verified code can store and compare it directly.
#[derive(Clone, Copy, PartialEq, Eq, Structural, Debug)]
pub struct AccountId(pub u64, pub u64, pub u64, pub u64);

/// One lottery round's record: the custodied funds and the participant
/// registry, owned by the manager who created it.
#[derive(Debug)]
pub struct Lottery {
    /// Identity of the creator; the only identity authorized for the
    /// privileged steps (requesting randomness, drawing the winner).
    pub lottery_manager: AccountId,
    /// Creator-chosen round number distinguishing concurrent pools owned
    /// by the same manager.
    pub lottery_id: u64,
    /// Initial stake, set once at creation and immutable afterwards.
    pub prize_amount: u64,
    /// Running custodied balance: the prize plus every collected entry fee.
    pub total_pot: u64,
    /// True from creation until a winner is selected, false afterwards.
    pub is_active: bool,
    /// Insertion-ordered registry of participants, without duplicates.
    pub players: Vec<AccountId>,
    /// Set at most once, when the oracle request is issued.
    pub randomness_requested: bool,
    /// The seed submitted with the oracle request, kept so the fulfillment
    /// address can be recomputed later; meaningful only once requested.
    pub randomness_seed: u64,
    /// The selected winner; unset until the drawing succeeds, then frozen.
    pub winner: Option<AccountId>,
}

/// The mathematical model of a pool record: the same fields, with the
/// registry as a sequence.
#[verifier::ext_equal]
pub struct LotteryView {
    pub lottery_manager: AccountId,
    pub lottery_id: u64,
    pub prize_amount: u64,
    pub total_pot: u64,
    pub is_active: bool,
    pub players: Seq<AccountId>,
    pub randomness_requested: bool,
    pub randomness_seed: u64,
    pub winner: Option<AccountId>,
}

impl View for Lottery {
    type V = LotteryView;

    open spec fn view(&self) -> LotteryView {
        LotteryView {
            lottery_manager: self.lottery_manager,
            lottery_id: self.lottery_id,
            prize_amount: self.prize_amount,
            total_pot: self.total_pot,
            is_active: self.is_active,
            players: self.players@,
            randomness_requested: self.randomness_requested,
            randomness_seed: self.randomness_seed,
            winner: self.winner,
        }
    }
}

impl LotteryView {
    /// Well-formedness of a pool record, established by `start_lottery` and
    /// preserved by every operation:
    /// - the registry never exceeds the cap and holds no duplicates;
    /// - the lifecycle is a one-way latch: the pool is inactive exactly
    ///   when a winner has been selected, and the winner is a registrant;
    /// - the pot equals the prize plus one entry fee per registrant;
    /// - a randomness request is only ever issued over a non-empty registry.
    pub open spec fn wf(self) -> bool {
        &&& self.players.len() <= MAX_PLAYERS
        &&& (forall|i: int, j: int|
            0 <= i < j < self.players.len() ==> self.players[i] != self.players[j])
        &&& (self.winner is Some <==> !self.is_active)
        &&& (self.winner matches Some(w) ==> self.players.contains(w))
        &&& self.total_pot == self.prize_amount + ENTRY_FEE * self.players.len()
        &&& (self.randomness_requested ==> self.players.len() > 0)
    }
}

/// The record that `start_lottery` creates for a non-zero prize.
pub open spec fn spec_start(
    lottery_manager: AccountId,
    lottery_id: u64,
    prize_amount: u64,
) -> LotteryView {
    LotteryView {
        lottery_manager,
        lottery_id,
        prize_amount,
        total_pot: prize_amount,
        is_active: true,
        players: Seq::empty(),
        randomness_requested: false,
        randomness_seed: 0,
        winner: None,
    }
}

/// The guard that `participate_in_lottery` applies, in check order, and the
/// error it reports; `None` means the entry is admitted.
pub open spec fn participate_check(v: LotteryView, player: AccountId) -> Option<LotteryError> {
    if !v.is_active {
        Some(LotteryError::NotActive)
    } else if v.randomness_requested {
        Some(LotteryError::RandomnessAlreadyRequested)
    } else if v.players.contains(player) {
        Some(LotteryError::AlreadyJoined)
    } else if v.players.len() >= MAX_PLAYERS {
        Some(LotteryError::Full)
    } else if v.total_pot + ENTRY_FEE > u64::MAX {
        Some(LotteryError::MathOverflow)
    } else {
        None
    }
}

/// The record after an admitted entry: the player is appended and one
/// entry fee is added to the pot.
pub open spec fn spec_participate(v: LotteryView, player: AccountId) -> LotteryView {
    LotteryView {
        players: v.players.push(player),
        total_pot: (v.total_pot + ENTRY_FEE) as u64,
        ..v
    }
}

/// The guard that `request_randomness` applies, in check order; `None`
/// means the request may be issued.
pub open spec fn request_check(v: LotteryView, caller: AccountId) -> Option<LotteryError> {
    if caller != v.lottery_manager {
        Some(LotteryError::Unauthorized)
    } else if v.winner is Some {
        Some(LotteryError::WinnerAlreadyDrawn)
    } else if !v.is_active {
        Some(LotteryError::NotActive)
    } else if v.randomness_requested {
        Some(LotteryError::RandomnessAlreadyRequested)
    } else if v.players.len() == 0 {
        Some(LotteryError::NoParticipants)
    } else {
        None
    }
}

/// The record after the oracle request is issued: the seed is stored and
/// the one-shot flag is set.
pub open spec fn spec_request(v: LotteryView, seed: u64) -> LotteryView {
    LotteryView { randomness_requested: true, randomness_seed: seed, ..v }
}

/// The guard that `draw_winner` applies, in check order; `None` means a
/// winner may be drawn. Whether a winner was already drawn is checked ahead
/// of everything else, so a completed pool reports that to every caller.
pub open spec fn draw_check(v: LotteryView, caller: AccountId) -> Option<LotteryError> {
    if v.winner is Some {
        Some(LotteryError::WinnerAlreadyDrawn)
    } else if !v.is_active {
        Some(LotteryError::NotActive)
    } else if caller != v.lottery_manager {
        Some(LotteryError::Unauthorized)
    } else if v.players.len() == 0 {
        Some(LotteryError::NoParticipants)
    } else {
        None
    }
}

/// The registry index that a random value selects: the value modulo the
/// number of participants. The oracle's output range is astronomically
/// larger than the registry cap, so the modulo bias is accepted as
/// negligible by design; it is not claimed to be uniform.
pub open spec fn winner_index(v: LotteryView, random_value: u64) -> int {
    random_value as int % v.players.len() as int
}

/// The record after a successful drawing: the winner is set and the
/// lifecycle latch closes.
pub open spec fn spec_draw(v: LotteryView, random_value: u64) -> LotteryView {
    LotteryView {
        winner: Some(v.players[winner_index(v, random_value)]),
        is_active: false,
        ..v
    }
}

/// The guard that `fulfill_and_draw_winner` applies, in check order:
/// the drawing guards, then the two oracle guards — the one-shot request
/// must have been issued, and its fulfillment must have been observed.
pub open spec fn fulfill_check(
    v: LotteryView,
    caller: AccountId,
    fulfillment: Option<u64>,
) -> Option<LotteryError> {
    if draw_check(v, caller) is Some {
        draw_check(v, caller)
    } else if !v.randomness_requested {
        Some(LotteryError::RandomnessNotRequested)
    } else if fulfillment is None {
        Some(LotteryError::RandomnessNotFulfilled)
    } else {
        None
    }
}

/// The guard that `claim_prize` applies, in check order; `None` means the
/// claim settles. A pool whose winner is not yet drawn reports that first,
/// even though such a pool is also still active.
pub open spec fn claim_check(v: LotteryView, claimant: AccountId) -> Option<LotteryError> {
    if v.winner is None {
        Some(LotteryError::WinnerNotDrawn)
    } else if v.is_active {
        Some(LotteryError::StillActive)
    } else if v.winner != Some(claimant) {
        Some(LotteryError::NotTheWinner)
    } else {
        None
    }
}

/// Opens a new pool: checks the stake, then initializes the record with the
/// prize as the whole pot, an active lifecycle, an empty registry, no
/// randomness request and no winner. The stake transfer from the manager to
/// the pool's account is the ledger's, performed atomically with this
/// initialization by the caller that persists the record.
pub fn start_lottery(
    lottery_manager: AccountId,
    lottery_id: u64,
    prize_amount: u64,
) -> (r: Result<Lottery, LotteryError>)
    ensures
        r is Ok <==> prize_amount != 0,
        prize_amount == 0 ==> r == Err::<Lottery, LotteryError>(LotteryError::InvalidAmount),
        r matches Ok(l) ==> l@ == spec_start(lottery_manager, lottery_id, prize_amount),
        r matches Ok(l) ==> l@.wf(),
{
    if prize_amount == 0 {
        return Err(LotteryError::InvalidAmount);
    }
    let lottery = Lottery {
        lottery_manager,
        lottery_id,
        prize_amount,
        total_pot: prize_amount,
        is_active: true,
        players: Vec::new(),
        randomness_requested: false,
        randomness_seed: 0,
        winner: None,
    };
    proof {
        assert(lottery@ =~= spec_start(lottery_manager, lottery_id, prize_amount));
    }
    Ok(lottery)
}

/// Whether `player` already stands in the registry.
fn registry_contains(players: &Vec<AccountId>, player: AccountId) -> (r: bool)
    ensures
        r == players@.contains(player),
{
    let mut i: usize = 0;
    while i < players.len()
        invariant
            i <= players@.len(),
            forall|k: int| 0 <= k < i ==> players@[k] != player,
        decreases players@.len() - i,
    {
        if players[i] == player {
            return true;
        }
        i = i + 1;
    }
    false
}

impl Lottery {
    /// Admits one participant: the registry gains the player and the pot
    /// gains one entry fee, together or not at all. The fee transfer itself
    /// is the ledger's, performed atomically with this update by the caller.
    ///
    /// Guards, in order: the pool must still be active; admissions end once
    /// the oracle request is issued (the strict policy: the pending state is
    /// terminal for admissions); a registered player cannot join twice, so a
    /// repeated identity is reported as already joined even when the pool is
    /// also full; the registry is capped; and the pot must not overflow.
    pub fn participate_in_lottery(&mut self, player: AccountId) -> (r: Result<(), LotteryError>)
        requires
            old(self)@.wf(),
        ensures
            final(self)@.wf(),
            match participate_check(old(self)@, player) {
                Some(e) => r == Err::<(), LotteryError>(e) && final(self)@ == old(self)@,
                None => r == Ok::<(), LotteryError>(())
                    && final(self)@ == spec_participate(old(self)@, player),
            },
    {
        if !self.is_active {
            return Err(LotteryError::NotActive);
        }
        if self.randomness_requested {
            return Err(LotteryError::RandomnessAlreadyRequested);
        }
        if registry_contains(&self.players, player) {
            return Err(LotteryError::AlreadyJoined);
        }
        if self.players.len() >= MAX_PLAYERS {
            return Err(LotteryError::Full);
        }
        if self.total_pot > u64::MAX - ENTRY_FEE {
            return Err(LotteryError::MathOverflow);
        }
        let ghost pre = self@;
        self.players.push(player);
        self.total_pot = self.total_pot + ENTRY_FEE;
        proof {
            assert(self@ =~= spec_participate(pre, player));
            assert forall|i: int, j: int|
                0 <= i < j < self@.players.len() implies self@.players[i] != self@.players[j] by {
                if j == pre.players.len() {
                    assert(!pre.players.contains(player));
                    assert(pre.players[i] != player);
                }
            }
        }
        Ok(())
    }

    /// Records the one-shot oracle request: stores the seed and sets the
    /// request flag. Only the manager may issue it, only while the pool is
    /// active with at least one participant, and only once. The caller that
    /// persists the record submits the funded oracle request in the same
    /// atomic transaction, so the flag and the request stand or fall
    /// together.
    ///
    /// Known limitation, kept deliberately: should the oracle never fulfill
    /// the request, the pool stays pending forever — there is no timeout,
    /// refund or reset path.
    pub fn request_randomness(&mut self, caller: AccountId, seed: u64) -> (r: Result<
        (),
        LotteryError,
    >)
        requires
            old(self)@.wf(),
        ensures
            final(self)@.wf(),
            match request_check(old(self)@, caller) {
                Some(e) => r == Err::<(), LotteryError>(e) && final(self)@ == old(self)@,
                None => r == Ok::<(), LotteryError>(())
                    && final(self)@ == spec_request(old(self)@, seed),
            },
    {
        if caller != self.lottery_manager {
            return Err(LotteryError::Unauthorized);
        }
        if self.winner.is_some() {
            return Err(LotteryError::WinnerAlreadyDrawn);
        }
        if !self.is_active {
            return Err(LotteryError::NotActive);
        }
        if self.randomness_requested {
            return Err(LotteryError::RandomnessAlreadyRequested);
        }
        if self.players.len() == 0 {
            return Err(LotteryError::NoParticipants);
        }
        let ghost pre = self@;
        self.randomness_requested = true;
        self.randomness_seed = seed;
        proof {
            assert(self@ =~= spec_request(pre, seed));
        }
        Ok(())
    }

    /// Draws the winner from a random value and closes the lifecycle latch:
    /// the participant at `random_value mod registry length` is recorded as
    /// the winner and the pool becomes inactive, irreversibly.
    ///
    /// Policy: the random value must be the oracle's fulfilled output, as
    /// `fulfill_and_draw_winner` arranges; no locally observable fallback
    /// source (such as a ledger clock) is offered, since any such value is
    /// publicly predictable and manipulable through transaction timing.
    pub fn draw_winner(&mut self, caller: AccountId, random_value: u64) -> (r: Result<
        AccountId,
        LotteryError,
    >)
        requires
            old(self)@.wf(),
        ensures
            final(self)@.wf(),
            match draw_check(old(self)@, caller) {
                Some(e) => r == Err::<AccountId, LotteryError>(e) && final(self)@ == old(self)@,
                None => r == Ok::<AccountId, LotteryError>(
                    old(self)@.players[winner_index(old(self)@, random_value)],
                ) && final(self)@ == spec_draw(old(self)@, random_value),
            },
    {
        if self.winner.is_some() {
            return Err(LotteryError::WinnerAlreadyDrawn);
        }
        if !self.is_active {
            return Err(LotteryError::NotActive);
        }
        if caller != self.lottery_manager {
            return Err(LotteryError::Unauthorized);
        }
        if self.players.len() == 0 {
            return Err(LotteryError::NoParticipants);
        }
        let ghost pre = self@;
        let index = (random_value % (self.players.len() as u64)) as usize;
        let winner = self.players[index];
        self.winner = Some(winner);
        self.is_active = false;
        proof {
            assert(self@ =~= spec_draw(pre, random_value));
            assert(self@.players.contains(winner)) by {
                assert(self@.players[winner_index(pre, random_value)] == winner);
            }
        }
        Ok(winner)
    }

    /// Reads the oracle's point-in-time fulfillment state, handed in by the
    /// caller (`None` while the oracle has not yet populated the value), and
    /// draws the winner from it. No waiting happens here: while the
    /// fulfillment is pending the call fails and must be retried as a fresh
    /// transaction.
    pub fn fulfill_and_draw_winner(
        &mut self,
        caller: AccountId,
        fulfillment: Option<u64>,
    ) -> (r: Result<AccountId, LotteryError>)
        requires
            old(self)@.wf(),
        ensures
            final(self)@.wf(),
            match fulfill_check(old(self)@, caller, fulfillment) {
                Some(e) => r == Err::<AccountId, LotteryError>(e) && final(self)@ == old(self)@,
                None => r == Ok::<AccountId, LotteryError>(
                    old(self)@.players[winner_index(old(self)@, fulfillment.unwrap())],
                ) && final(self)@ == spec_draw(old(self)@, fulfillment.unwrap()),
            },
    {
        if self.winner.is_some() {
            return Err(LotteryError::WinnerAlreadyDrawn);
        }
        if !self.is_active {
            return Err(LotteryError::NotActive);
        }
        if caller != self.lottery_manager {
            return Err(LotteryError::Unauthorized);
        }
        if self.players.len() == 0 {
            return Err(LotteryError::NoParticipants);
        }
        if !self.randomness_requested {
            return Err(LotteryError::RandomnessNotRequested);
        }
        let random_value = match fulfillment {
            Some(value) => value,
            None => {
                return Err(LotteryError::RandomnessNotFulfilled);
            },
        };
        self.draw_winner(caller, random_value)
    }

    /// Settles the pool: checked against the recorded winner, the claim
    /// consumes the record — the only way a pool record ceases to exist —
    /// and reports the custodied amount that moves to the winner, the whole
    /// pot. On a refused claim the record is handed back unchanged beside
    /// the error.
    pub fn claim_prize(self, claimant: AccountId) -> (r: Result<u64, (Lottery, LotteryError)>)
        ensures
            r is Ok <==> (!self@.is_active && self@.winner == Some(claimant)),
            match claim_check(self@, claimant) {
                Some(e) => r matches Err(back) && back.0@ == self@ && back.1 == e,
                None => r == Ok::<u64, (Lottery, LotteryError)>(self.total_pot),
            },
    {
        if self.winner.is_none() {
            return Err((self, LotteryError::WinnerNotDrawn));
        }
        if self.is_active {
            return Err((self, LotteryError::StillActive));
        }
        let is_winner = match self.winner {
            Some(w) => w == claimant,
            None => false,
        };
        if !is_winner {
            return Err((self, LotteryError::NotTheWinner));
        }
        Ok(self.total_pot)
    }
}

} // verus!
