//! The round orchestrator's capacity precheck: a round may only start when
//! the card supply comfortably exceeds what the table could consume, so
//! that `DeckExhausted` is never hit in the middle of play.

use vstd::prelude::*;

verus! {

/// The per-hand card budget the orchestrator reserves when it checks
/// whether a round can start.
pub const MIN_CARDS_PER_HAND: usize = 5;

/// Whether a round may start: with `player_count` players plus the dealer,
/// each reserved `MIN_CARDS_PER_HAND` cards, the demand must stay strictly
/// below the supply of `deck_count` sub-decks of 52 cards; otherwise the
/// orchestrator must refuse to start rather than risk exhausting the deck
/// mid-hand.
pub fn can_start_round(player_count: usize, deck_count: usize) -> (r: bool)
    requires
        player_count + 1 <= usize::MAX / 5,
        deck_count <= usize::MAX / 52,
    ensures
        r == ((player_count + 1) * MIN_CARDS_PER_HAND < deck_count * 52),
{
    proof {
        assert((player_count + 1) * 5 <= usize::MAX) by (nonlinear_arith)
            requires
                player_count + 1 <= usize::MAX / 5,
        ;
        assert(52 * deck_count <= usize::MAX) by (nonlinear_arith)
            requires
                deck_count <= usize::MAX / 52,
        ;
    }
    (player_count + 1) * MIN_CARDS_PER_HAND < deck_count * 52
}

} // verus!
