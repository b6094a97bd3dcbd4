use vstd::prelude::*;

use crate::errors::LotteryError;
use crate::pool::{
    claim_check, draw_check, fulfill_check, participate_check, spec_draw, spec_participate,
    winner_index, AccountId, LotteryView, ENTRY_FEE, MAX_PLAYERS,
};

verus! {

/// The pot accounts exactly for the funds collected: in every well-formed
/// pool — so after `start_lottery` and after each admitted entry, which
/// both establish well-formedness — the pot equals the stake plus one
/// entry fee per registered participant.
pub proof fn lemma_pot_accounts_for_entries(v: LotteryView)
    requires
        v.wf(),
    ensures
        v.total_pot == v.prize_amount + ENTRY_FEE * v.players.len(),
{
}

/// Admitting one entry keeps the pool well formed — and with it the pot
/// equation — so it holds after every sequence of admitted entries.
pub proof fn lemma_participate_keeps_wf(v: LotteryView, player: AccountId)
    requires
        v.wf(),
        participate_check(v, player) is None,
    ensures
        spec_participate(v, player).wf(),
        spec_participate(v, player).total_pot == v.prize_amount + ENTRY_FEE * (v.players.len()
            + 1),
{
    let after = spec_participate(v, player);
    assert forall|i: int, j: int|
        0 <= i < j < after.players.len() implies after.players[i] != after.players[j] by {
        if j == v.players.len() {
            assert(!v.players.contains(player));
            assert(v.players[i] != player);
        }
    }
}

/// A pool at capacity refuses the next distinct participant as `Full`.
pub proof fn lemma_capacity_refuses_newcomer(v: LotteryView, player: AccountId)
    requires
        v.wf(),
        v.is_active,
        !v.randomness_requested,
        !v.players.contains(player),
        v.players.len() == MAX_PLAYERS,
    ensures
        participate_check(v, player) == Some(LotteryError::Full),
{
}

/// An identity that was admitted is refused on its second attempt as
/// `AlreadyJoined`, whoever else joined in between is immaterial: right
/// after its own admission the refusal already holds.
pub proof fn lemma_second_attempt_already_joined(v: LotteryView, player: AccountId)
    requires
        v.wf(),
        participate_check(v, player) is None,
    ensures
        participate_check(spec_participate(v, player), player) == Some(
            LotteryError::AlreadyJoined,
        ),
{
    let after = spec_participate(v, player);
    assert(after.players.contains(player)) by {
        assert(after.players[v.players.len() as int] == player);
    }
}

/// A registered identity is refused as `AlreadyJoined` whenever admissions
/// are otherwise open, however full the pool is.
pub proof fn lemma_registered_identity_refused(v: LotteryView, player: AccountId)
    requires
        v.is_active,
        !v.randomness_requested,
        v.players.contains(player),
    ensures
        participate_check(v, player) == Some(LotteryError::AlreadyJoined),
{
}

/// When one more entry fee would push the pot past the largest
/// representable amount — the stake plus a fee per participant, newcomer
/// included, exceeding `u64::MAX` — the entry is refused as overflow, and
/// with it the whole admission: no fee is collected and nothing changes.
pub proof fn lemma_overflowing_entry_refused(v: LotteryView, player: AccountId)
    requires
        v.wf(),
        v.is_active,
        !v.randomness_requested,
        !v.players.contains(player),
        v.players.len() < MAX_PLAYERS,
        v.prize_amount + ENTRY_FEE * (v.players.len() + 1) > u64::MAX,
    ensures
        participate_check(v, player) == Some(LotteryError::MathOverflow),
{
}

/// Drawing is one-shot: after a successful drawing, every further drawing
/// attempt — by any caller, with any random value, through either the
/// direct or the fulfillment path — is refused as `WinnerAlreadyDrawn`,
/// and the recorded winner stays what the first drawing selected.
pub proof fn lemma_drawing_is_one_shot(
    v: LotteryView,
    caller: AccountId,
    random_value: u64,
    later_caller: AccountId,
    later_fulfillment: Option<u64>,
)
    requires
        v.wf(),
        draw_check(v, caller) is None,
    ensures
        spec_draw(v, random_value).winner == Some(v.players[winner_index(v, random_value)]),
        draw_check(spec_draw(v, random_value), later_caller) == Some(
            LotteryError::WinnerAlreadyDrawn,
        ),
        fulfill_check(spec_draw(v, random_value), later_caller, later_fulfillment) == Some(
            LotteryError::WinnerAlreadyDrawn,
        ),
{
}

/// The prize settles exactly for the recorded winner of a completed pool:
/// a claim passes if and only if the pool is inactive and names the
/// claimant as winner; before a winner is drawn every claim is refused as
/// `WinnerNotDrawn`, and every other claimant afterwards as `NotTheWinner`.
pub proof fn lemma_claim_exactly_for_winner(v: LotteryView, claimant: AccountId)
    requires
        v.wf(),
    ensures
        claim_check(v, claimant) is None <==> (!v.is_active && v.winner == Some(
            claimant,
        )),
        v.winner is None ==> claim_check(v, claimant) == Some(
            LotteryError::WinnerNotDrawn,
        ),
        (v.winner matches Some(w) && w != claimant) ==> claim_check(v, claimant)
            == Some(LotteryError::NotTheWinner),
{
}

} // verus!
