//! A player: a balance, a running standing, and an ordered sequence of
//! hands, with play actions delegated to the first not-yet-set hand and
//! round settlement against the dealer's final value.

use vstd::prelude::*;
use crate::deck::Deck;
use crate::hand::{Hand, HandView, hand_total, soft_count, lemma_value_ge_len};

verus! {

/// The mathematical state of a player.
pub ghost struct PlayerView {
    pub name: Seq<char>,
    pub is_dealer: bool,
    pub hands: Seq<HandView>,
    pub balance: int,
    pub standing: int,
}

/// The index of the first hand that is still open for play, or the length
/// of the sequence when every hand is set.
pub open spec fn first_active(hands: Seq<HandView>) -> int
    decreases hands.len(),
{
    if hands.len() == 0 {
        0
    } else if !hands[0].is_set {
        0
    } else {
        1 + first_active(hands.drop_first())
    }
}

/// The sum of the wagers riding on a sequence of hands.
pub open spec fn wager_sum(hands: Seq<HandView>) -> int
    decreases hands.len(),
{
    if hands.len() == 0 {
        0
    } else {
        wager_sum(hands.drop_last()) + hands.last().wager
    }
}

/// The settlement delta of one hand against the dealer's final value: a
/// surrendered hand was already charged and contributes nothing further; a
/// hand beating the dealer without being lost wins its wager; a hand under
/// the dealer's value or lost (busted) forfeits its wager; a push leaves
/// the balance unchanged.
pub open spec fn hand_delta(h: HandView, dealer_value: int) -> int {
    if h.surrendered {
        0
    } else if h.value() > dealer_value && !h.lost() {
        h.wager
    } else if h.value() < dealer_value || h.lost() {
        -h.wager
    } else {
        0
    }
}

/// The total settlement delta of a sequence of hands.
pub open spec fn settle_delta(hands: Seq<HandView>, dealer_value: int) -> int
    decreases hands.len(),
{
    if hands.len() == 0 {
        0
    } else {
        settle_delta(hands.drop_last(), dealer_value) + hand_delta(hands.last(), dealer_value)
    }
}

impl PlayerView {
    /// Every hand of the player is well formed.
    pub open spec fn wf(self) -> bool {
        forall|i: int| 0 <= i < self.hands.len() ==> (#[trigger] self.hands[i]).wf()
    }

    /// At least one hand is still open for play.
    pub open spec fn is_playing(self) -> bool {
        exists|i: int| 0 <= i < self.hands.len() && !(#[trigger] self.hands[i]).is_set
    }

    /// Every hand is lost (surrendered or busted).
    pub open spec fn has_lost(self) -> bool {
        forall|i: int| 0 <= i < self.hands.len() ==> (#[trigger] self.hands[i]).lost()
    }

    /// Some hand is busted.
    pub open spec fn has_busted(self) -> bool {
        exists|i: int| 0 <= i < self.hands.len() && (#[trigger] self.hands[i]).busted()
    }

    /// The index of the currently active hand.
    pub open spec fn active(self) -> int {
        first_active(self.hands)
    }
}

/// When some hand is still open, `first_active` names the earliest such
/// hand: it is in range, not set, and everything before it is set.
pub proof fn lemma_first_active(hands: Seq<HandView>)
    requires
        exists|i: int| 0 <= i < hands.len() && !(#[trigger] hands[i]).is_set,
    ensures
        0 <= first_active(hands) < hands.len(),
        !hands[first_active(hands)].is_set,
        forall|k: int| 0 <= k < first_active(hands) ==> (#[trigger] hands[k]).is_set,
    decreases hands.len(),
{
    if hands.len() > 0 && hands[0].is_set {
        let sub = hands.drop_first();
        let i = choose|i: int| 0 <= i < hands.len() && !(#[trigger] hands[i]).is_set;
        assert(i >= 1);
        assert(!sub[i - 1].is_set);
        lemma_first_active(sub);
        assert forall|k: int| 0 <= k < first_active(hands) implies (#[trigger] hands[k]).is_set by {
            if k >= 1 {
                assert(sub[k - 1].is_set);
            }
        }
    }
}

/// Prefix sums of wagers never exceed the full wager sum when every wager
/// is non-negative.
pub proof fn lemma_wager_sum_prefix(hands: Seq<HandView>, i: int)
    requires
        0 <= i <= hands.len(),
        forall|k: int| 0 <= k < hands.len() ==> (#[trigger] hands[k]).wager >= 0,
    ensures
        0 <= wager_sum(hands.take(i)) <= wager_sum(hands),
    decreases hands.len() - i,
{
    if i < hands.len() {
        assert(hands.take(i + 1).drop_last() =~= hands.take(i));
        assert(hands.take(i + 1).last() == hands[i]);
        assert(hands[i].wager >= 0);
        lemma_wager_sum_prefix(hands, i + 1);
        assert forall|k: int| 0 <= k < hands.take(i).len() implies (#[trigger] hands.take(
            i,
        )[k]).wager >= 0 by {
            assert(hands[k].wager >= 0);
        }
        lemma_wager_sum_nonneg(hands.take(i));
    } else {
        assert(hands.take(i) =~= hands);
        lemma_wager_sum_nonneg(hands);
    }
}

/// A sum of non-negative wagers is non-negative.
pub proof fn lemma_wager_sum_nonneg(hands: Seq<HandView>)
    requires
        forall|k: int| 0 <= k < hands.len() ==> (#[trigger] hands[k]).wager >= 0,
    ensures
        wager_sum(hands) >= 0,
    decreases hands.len(),
{
    if hands.len() > 0 {
        lemma_wager_sum_nonneg(hands.drop_last());
    }
}

/// The settlement delta of a sequence of hands is bounded by the total
/// wager riding on it.
pub proof fn lemma_settle_delta_bound(hands: Seq<HandView>, dealer_value: int)
    requires
        forall|k: int| 0 <= k < hands.len() ==> (#[trigger] hands[k]).wager >= 0,
    ensures
        -wager_sum(hands) <= settle_delta(hands, dealer_value) <= wager_sum(hands),
    decreases hands.len(),
{
    if hands.len() > 0 {
        lemma_settle_delta_bound(hands.drop_last(), dealer_value);
    }
}

/// Law: a player whose hands were cleared (as settlement leaves every
/// player) is no longer playing, holds no busted hand, and owes nothing
/// further: the settlement delta of an empty hand list is zero.
pub proof fn lemma_cleared_player_is_idle(p: PlayerView, dealer_value: int)
    requires
        p.hands.len() == 0,
    ensures
        !p.is_playing(),
        !p.has_busted(),
        settle_delta(p.hands, dealer_value) == 0,
{
}

/// A blackjack player (or the dealer), owning a balance and the hands of
/// the current round.
pub struct Player {
    name: String,
    is_dealer: bool,
    hands: Vec<Hand>,
    balance: i32,
    standing: i32,
}

impl View for Player {
    type V = PlayerView;

    closed spec fn view(&self) -> PlayerView {
        PlayerView {
            name: self.name@,
            is_dealer: self.is_dealer,
            hands: self.hands@.map_values(|h: Hand| h@),
            balance: self.balance as int,
            standing: self.standing as int,
        }
    }
}

impl Player {
    pub fn new(name: String, is_dealer: bool, balance: i32) -> (r: Player)
        ensures
            r@ == (PlayerView {
                name: name@,
                is_dealer,
                hands: Seq::<HandView>::empty(),
                balance: balance as int,
                standing: 0,
            }),
            r@.wf(),
    {
        let r = Player { name, is_dealer, hands: Vec::with_capacity(2), balance, standing: 0 };
        proof {
            assert(r@.hands =~= Seq::<HandView>::empty());
        }
        r
    }

    /// Credit (or, for a negative amount, charge) the balance and the
    /// running standing.
    fn win(&mut self, amt: i32)
        requires
            i32::MIN <= old(self)@.balance + amt <= i32::MAX,
            i32::MIN <= old(self)@.standing + amt <= i32::MAX,
        ensures
            final(self)@ == (PlayerView {
                balance: old(self)@.balance + amt,
                standing: old(self)@.standing + amt,
                ..old(self)@
            }),
    {
        self.balance = self.balance + amt;
        self.standing = self.standing + amt;
    }

    /// Charge the balance and the running standing.
    fn lose(&mut self, amt: i32)
        requires
            amt != i32::MIN,
            i32::MIN <= old(self)@.balance - amt <= i32::MAX,
            i32::MIN <= old(self)@.standing - amt <= i32::MAX,
        ensures
            final(self)@ == (PlayerView {
                balance: old(self)@.balance - amt,
                standing: old(self)@.standing - amt,
                ..old(self)@
            }),
    {
        self.win(-amt);
    }

    /// The player's hands, in order of creation.
    pub fn hand_iter(&self) -> (r: Vec<Hand>)
        ensures
            r@.map_values(|h: Hand| h@) == self@.hands,
    {
        let mut hands: Vec<Hand> = Vec::with_capacity(self.hands.len());
        for idx in 0..self.hands.len()
            invariant
                hands@.len() == idx,
                forall|j: int| 0 <= j < idx ==> (#[trigger] hands@[j])@ == self.hands@[j]@,
        {
            hands.push(self.hands[idx].clone());
        }
        proof {
            assert forall|j: int| 0 <= j < hands@.len() implies (#[trigger] hands@[j])@
                == self@.hands[j] by {
                assert(hands@[j]@ == self.hands@[j]@);
            }
            assert(hands@.map_values(|h: Hand| h@) =~= self@.hands);
        }
        hands
    }

    pub fn get_hand_count(&self) -> (r: usize)
        ensures
            r == self@.hands.len(),
    {
        self.hands.len()
    }

    pub fn get_hand_at(&self, idx: usize) -> (r: Hand)
        requires
            idx < self@.hands.len(),
        ensures
            r@ == self@.hands[idx as int],
    {
        self.hands[idx].clone()
    }

    pub fn get_name(&self) -> (r: &str)
        ensures
            r@ == self@.name,
    {
        self.name.as_str()
    }

    pub fn get_balance(&self) -> (r: i32)
        ensures
            r == self@.balance,
    {
        self.balance
    }

    pub fn get_standing(&self) -> (r: i32)
        ensures
            r == self@.standing,
    {
        self.standing
    }

    /// The index of the first hand still open for play.
    fn playing_hand_index(&self) -> (r: usize)
        requires
            self@.is_playing(),
        ensures
            r == self@.active(),
            0 <= r < self@.hands.len(),
            !self@.hands[r as int].is_set,
            forall|k: int| 0 <= k < r ==> (#[trigger] self@.hands[k]).is_set,
    {
        proof {
            lemma_first_active(self@.hands);
        }
        let n = self.hands.len();
        for i in 0..n
            invariant
                n == self@.hands.len(),
                self@.is_playing(),
                forall|k: int| 0 <= k < i ==> (#[trigger] self@.hands[k]).is_set,
        {
            proof {
                assert(self@.hands[i as int] == self.hands@[i as int]@);
            }
            if !self.hands[i].get_is_set() {
                proof {
                    lemma_first_active(self@.hands);
                    let fa = self@.active();
                    assert(!self@.hands[i as int].is_set);
                    if (i as int) < fa {
                        assert(self@.hands[i as int].is_set);
                    }
                    if (i as int) > fa {
                        assert(self@.hands[fa].is_set);
                    }
                }
                return i;
            }
        }
        proof {
            lemma_first_active(self@.hands);
            assert(false);
        }
        0
    }

    /// The player's final score for settlement: 0 when any hand busted,
    /// otherwise the value of the first hand.
    pub fn first_hand_value(&self) -> (r: u32)
        requires
            self@.wf(),
            self@.hands.len() >= 1,
        ensures
            self@.has_busted() ==> r == 0,
            !self@.has_busted() ==> r == hand_total(self@.hands[0].cards),
    {
        if self.has_busted() {
            return 0;
        }
        proof {
            assert(self@.hands[0].wf());
            assert(self@.hands[0] == self.hands@[0]@);
        }
        self.hands[0].value(false)
    }

    /// Whether the active hand may still surrender.
    pub fn can_surrender_hand(&self) -> (r: bool)
        requires
            self@.is_playing(),
        ensures
            r == self@.hands[self@.active()].can_surrender,
    {
        let idx = self.playing_hand_index();
        self.hands[idx].can_surrender_hand()
    }

    /// Whether the active hand may split.
    pub fn can_split_hand(&self) -> (r: bool)
        requires
            self@.is_playing(),
        ensures
            r == self@.hands[self@.active()].can_split(),
    {
        let idx = self.playing_hand_index();
        self.hands[idx].can_split_hand()
    }

    /// Surrender the active hand: when surrender is still offered the hand
    /// locks, and half its wager is charged immediately; otherwise nothing
    /// changes and `false` is returned.
    pub fn surrender(&mut self) -> (r: bool)
        requires
            old(self)@.wf(),
            old(self)@.is_playing(),
            old(self)@.hands[old(self)@.active()].can_surrender ==> {
                &&& i32::MIN <= old(self)@.balance - old(self)@.hands[old(self)@.active()].wager
                    / 2
                &&& i32::MIN <= old(self)@.standing - old(self)@.hands[old(self)@.active()].wager
                    / 2
            },
        ensures
            final(self)@.wf(),
            r == old(self)@.hands[old(self)@.active()].can_surrender,
            r ==> final(self)@ == (PlayerView {
                hands: old(self)@.hands.update(
                    old(self)@.active(),
                    (HandView {
                        surrendered: true,
                        is_set: true,
                        can_surrender: false,
                        ..old(self)@.hands[old(self)@.active()]
                    }),
                ),
                balance: old(self)@.balance - old(self)@.hands[old(self)@.active()].wager / 2,
                standing: old(self)@.standing - old(self)@.hands[old(self)@.active()].wager / 2,
                ..old(self)@
            }),
            !r ==> final(self)@ == old(self)@,
    {
        let idx = self.playing_hand_index();
        let loss = self.hands[idx].get_wager() / 2;
        let surrendered = self.hands[idx].surrender();
        proof {
            assert(self.hands@.map_values(|h: Hand| h@) =~= old(self)@.hands.update(
                idx as int,
                self.hands@.map_values(|h: Hand| h@)[idx as int],
            ));
        }
        if surrendered {
            self.lose(loss);
            true
        } else {
            proof {
                assert(self@.hands =~= old(self)@.hands);
            }
            false
        }
    }

    /// Whether every hand is lost (surrendered or busted): the dealer need
    /// not play a round in which this holds for all players.
    pub fn has_lost(&self) -> (r: bool)
        requires
            self@.wf(),
        ensures
            r == self@.has_lost(),
    {
        let n = self.hands.len();
        for i in 0..n
            invariant
                n == self@.hands.len(),
                self@.wf(),
                forall|k: int| 0 <= k < i ==> (#[trigger] self@.hands[k]).lost(),
        {
            proof {
                assert(self@.hands[i as int].wf());
                assert(self@.hands[i as int] == self.hands@[i as int]@);
            }
            if !self.hands[i].lost() {
                proof {
                    assert(!self@.hands[i as int].lost());
                }
                return false;
            }
        }
        true
    }

    /// Stand the active hand: it locks with its cards unchanged.
    pub fn stand(&mut self)
        requires
            old(self)@.wf(),
            old(self)@.is_playing(),
        ensures
            final(self)@.wf(),
            final(self)@ == (PlayerView {
                hands: old(self)@.hands.update(
                    old(self)@.active(),
                    (HandView {
                        is_set: true,
                        can_surrender: false,
                        ..old(self)@.hands[old(self)@.active()]
                    }),
                ),
                ..old(self)@
            }),
    {
        let idx = self.playing_hand_index();
        self.hands[idx].set();
        proof {
            assert(self.hands@.map_values(|h: Hand| h@) =~= old(self)@.hands.update(
                idx as int,
                self.hands@.map_values(|h: Hand| h@)[idx as int],
            ));
        }
    }

    /// Place a bet: appends a fresh hand funded by `wager`, drawing its two
    /// starting cards from the deck. The player accepts any non-negative
    /// wager; the orchestrator is the authority on the stake's legality.
    pub fn bet(&mut self, wager: i32, deck: &mut Deck)
        requires
            old(self)@.wf(),
            wager >= 0,
            old(self)@.is_dealer ==> wager == 0 && old(self)@.hands.len() == 0,
            old(deck)@.wf(),
            old(deck)@.remaining() >= 2,
        ensures
            final(self)@.wf(),
            final(deck)@.wf(),
            final(deck)@.cards == old(deck)@.cards,
            final(deck)@.deck_count == old(deck)@.deck_count,
            final(deck)@.card_index == old(deck)@.card_index + 2,
            final(self)@ == (PlayerView {
                hands: old(self)@.hands.push(
                    (HandView {
                        cards: seq![
                            old(deck)@.cards[old(deck)@.card_index],
                            old(deck)@.cards[old(deck)@.card_index + 1],
                        ],
                        wager: wager as int,
                        is_set: false,
                        can_surrender: true,
                        surrendered: false,
                    }),
                ),
                ..old(self)@
            }),
    {
        let hand = Hand::new(wager, deck);
        self.hands.push(hand);
        proof {
            assert(self.hands@.map_values(|h: Hand| h@) =~= old(self)@.hands.push(
                self.hands@.map_values(|h: Hand| h@).last(),
            ));
        }
    }

    /// Split the active hand when it holds a pair: the new hand is appended
    /// after the existing hands, preserving order of play. Returns whether
    /// a split happened.
    pub fn split(&mut self, deck: &mut Deck) -> (r: bool)
        requires
            old(self)@.wf(),
            old(self)@.is_playing(),
            old(deck)@.wf(),
            old(deck)@.remaining() >= 2,
        ensures
            final(self)@.wf(),
            final(deck)@.wf(),
            final(deck)@.cards == old(deck)@.cards,
            final(deck)@.deck_count == old(deck)@.deck_count,
            r == old(self)@.hands[old(self)@.active()].can_split(),
            r ==> {
                &&& final(deck)@.card_index == old(deck)@.card_index + 2
                &&& final(self)@ == (PlayerView {
                    hands: old(self)@.hands.update(
                        old(self)@.active(),
                        (HandView {
                            cards: seq![
                                old(self)@.hands[old(self)@.active()].cards[0],
                                old(deck)@.cards[old(deck)@.card_index],
                            ],
                            can_surrender: false,
                            ..old(self)@.hands[old(self)@.active()]
                        }),
                    ).push(
                        (HandView {
                            cards: seq![
                                old(self)@.hands[old(self)@.active()].cards[1],
                                old(deck)@.cards[old(deck)@.card_index + 1],
                            ],
                            wager: old(self)@.hands[old(self)@.active()].wager,
                            is_set: false,
                            can_surrender: true,
                            surrendered: false,
                        }),
                    ),
                    ..old(self)@
                })
            },
            !r ==> final(self)@ == old(self)@ && final(deck)@ == old(deck)@,
    {
        let idx = self.playing_hand_index();
        let result = self.hands[idx].split(deck);
        proof {
            assert(self.hands@.map_values(|h: Hand| h@) =~= old(self)@.hands.update(
                idx as int,
                self.hands@.map_values(|h: Hand| h@)[idx as int],
            ));
        }
        match result {
            Some(new_hand) => {
                self.hands.push(new_hand);
                proof {
                    assert(self.hands@.map_values(|h: Hand| h@) =~= old(self)@.hands.update(
                        idx as int,
                        self.hands@.map_values(|h: Hand| h@)[idx as int],
                    ).push(self.hands@.map_values(|h: Hand| h@).last()));
                }
                true
            },
            None => {
                proof {
                    assert(self@.hands =~= old(self)@.hands);
                }
                false
            },
        }
    }

    /// Double down on the active hand: its wager doubles and it receives
    /// exactly one more card, then locks. Returns whether that card busted
    /// the hand.
    pub fn double(&mut self, deck: &mut Deck) -> (r: bool)
        requires
            old(self)@.wf(),
            old(self)@.is_playing(),
            2 * old(self)@.hands[old(self)@.active()].wager <= i32::MAX,
            old(deck)@.wf(),
            old(deck)@.remaining() >= 1,
        ensures
            final(self)@.wf(),
            final(deck)@.wf(),
            final(deck)@.cards == old(deck)@.cards,
            final(deck)@.deck_count == old(deck)@.deck_count,
            final(deck)@.card_index == old(deck)@.card_index + 1,
            final(self)@ == (PlayerView {
                hands: old(self)@.hands.update(
                    old(self)@.active(),
                    (HandView {
                        cards: old(self)@.hands[old(self)@.active()].cards.push(
                            old(deck)@.cards[old(deck)@.card_index],
                        ),
                        wager: 2 * old(self)@.hands[old(self)@.active()].wager,
                        is_set: true,
                        can_surrender: false,
                        ..old(self)@.hands[old(self)@.active()]
                    }),
                ),
                ..old(self)@
            }),
            r == final(self)@.hands[old(self)@.active()].busted(),
    {
        let idx = self.playing_hand_index();
        let r = self.hands[idx].double_wager(deck);
        proof {
            assert(self.hands@.map_values(|h: Hand| h@) =~= old(self)@.hands.update(
                idx as int,
                self.hands@.map_values(|h: Hand| h@)[idx as int],
            ));
        }
        r
    }

    /// Hit the active hand with one card. Returns whether the hand busted
    /// (and thereby locked).
    pub fn hit(&mut self, deck: &mut Deck) -> (r: bool)
        requires
            old(self)@.wf(),
            old(self)@.is_playing(),
            old(deck)@.wf(),
            old(deck)@.remaining() >= 1,
        ensures
            final(self)@.wf(),
            final(deck)@.wf(),
            final(deck)@.cards == old(deck)@.cards,
            final(deck)@.deck_count == old(deck)@.deck_count,
            final(deck)@.card_index == old(deck)@.card_index + 1,
            final(self)@ == (PlayerView {
                hands: old(self)@.hands.update(
                    old(self)@.active(),
                    (HandView {
                        cards: old(self)@.hands[old(self)@.active()].cards.push(
                            old(deck)@.cards[old(deck)@.card_index],
                        ),
                        is_set: final(self)@.hands[old(self)@.active()].busted(),
                        can_surrender: false,
                        ..old(self)@.hands[old(self)@.active()]
                    }),
                ),
                ..old(self)@
            }),
            r == final(self)@.hands[old(self)@.active()].busted(),
    {
        let idx = self.playing_hand_index();
        let r = self.hands[idx].hit(deck);
        proof {
            assert(self.hands@.map_values(|h: Hand| h@) =~= old(self)@.hands.update(
                idx as int,
                self.hands@.map_values(|h: Hand| h@)[idx as int],
            ));
        }
        r
    }

    /// Whether some hand has busted.
    pub fn has_busted(&self) -> (r: bool)
        requires
            self@.wf(),
        ensures
            r == self@.has_busted(),
    {
        let n = self.hands.len();
        for i in 0..n
            invariant
                n == self@.hands.len(),
                self@.wf(),
                forall|k: int| 0 <= k < i ==> !(#[trigger] self@.hands[k]).busted(),
        {
            proof {
                assert(self@.hands[i as int].wf());
                assert(self@.hands[i as int] == self.hands@[i as int]@);
            }
            if self.hands[i].busted() {
                proof {
                    assert(self@.hands[i as int].busted());
                }
                return true;
            }
        }
        false
    }

    /// Whether the active hand is soft (still counts an ace as 11).
    pub fn hand_is_soft(&self) -> (r: bool)
        requires
            self@.wf(),
            self@.is_playing(),
        ensures
            r == (soft_count(self@.hands[self@.active()].cards) > 0),
    {
        let idx = self.playing_hand_index();
        self.hands[idx].is_soft()
    }

    /// Whether at least one hand is still open for play.
    pub fn is_playing(&self) -> (r: bool)
        ensures
            r == self@.is_playing(),
    {
        let n = self.hands.len();
        for i in 0..n
            invariant
                n == self@.hands.len(),
                forall|k: int| 0 <= k < i ==> (#[trigger] self@.hands[k]).is_set,
        {
            proof {
                assert(self@.hands[i as int] == self.hands@[i as int]@);
            }
            if !self.hands[i].get_is_set() {
                proof {
                    assert(!self@.hands[i as int].is_set);
                }
                return true;
            }
        }
        false
    }

    /// Fixed dealer play on the first hand: hit while its value is below
    /// 17, then stand. Returns the dealer's final score: 0 when busted,
    /// the hand's value otherwise.
    pub fn play_as_dealer(&mut self, deck: &mut Deck) -> (r: u32)
        requires
            old(self)@.wf(),
            old(self)@.hands.len() >= 1,
            old(deck)@.wf(),
            old(deck)@.remaining() >= 15,
        ensures
            final(self)@.wf(),
            final(deck)@.wf(),
            final(deck)@.cards == old(deck)@.cards,
            final(deck)@.deck_count == old(deck)@.deck_count,
            final(deck)@.card_index >= old(deck)@.card_index,
            final(self)@.hands.len() == old(self)@.hands.len(),
            forall|k: int|
                1 <= k < old(self)@.hands.len() ==> final(self)@.hands[k] == old(self)@.hands[k],
            final(self)@.name == old(self)@.name,
            final(self)@.is_dealer == old(self)@.is_dealer,
            final(self)@.balance == old(self)@.balance,
            final(self)@.standing == old(self)@.standing,
            final(self)@.hands[0].is_set,
            final(self)@.hands[0].wager == old(self)@.hands[0].wager,
            final(self)@.hands[0].surrendered == old(self)@.hands[0].surrendered,
            final(self)@.hands[0].cards == old(self)@.hands[0].cards + old(deck)@.cards.subrange(
                old(deck)@.card_index,
                final(deck)@.card_index,
            ),
            hand_total(final(self)@.hands[0].cards) >= 17,
            final(self)@.has_busted() ==> r == 0,
            !final(self)@.has_busted() ==> r == hand_total(final(self)@.hands[0].cards),
    {
        proof {
            assert(self@.hands[0].wf());
            assert(self@.hands[0] == self.hands@[0]@);
            assert(old(deck)@.cards.subrange(old(deck)@.card_index, old(deck)@.card_index)
                =~= Seq::<crate::card::Card>::empty());
            assert(self@.hands[0].cards =~= self@.hands[0].cards + old(deck)@.cards.subrange(
                old(deck)@.card_index,
                old(deck)@.card_index,
            ));
        }
        while self.hands[0].value(false) < 17
            invariant
                self@.wf(),
                self@.hands[0].wf(),
                self@.hands[0] == self.hands@[0]@,
                self@.hands.len() == old(self)@.hands.len() >= 1,
                forall|k: int|
                    1 <= k < old(self)@.hands.len() ==> self@.hands[k] == old(self)@.hands[k],
                self@.name == old(self)@.name,
                self@.is_dealer == old(self)@.is_dealer,
                self@.balance == old(self)@.balance,
                self@.standing == old(self)@.standing,
                self@.hands[0].wager == old(self)@.hands[0].wager,
                self@.hands[0].surrendered == old(self)@.hands[0].surrendered,
                self@.hands[0].cards == old(self)@.hands[0].cards + old(deck)@.cards.subrange(
                    old(deck)@.card_index,
                    deck@.card_index,
                ),
                deck@.wf(),
                deck@.cards == old(deck)@.cards,
                deck@.deck_count == old(deck)@.deck_count,
                0 <= old(deck)@.card_index <= deck@.card_index,
                deck@.remaining() + self@.hands[0].cards.len() >= 17,
            decreases deck@.remaining(),
        {
            proof {
                lemma_value_ge_len(self@.hands[0].cards);
            }
            let ghost prevh = self.hands@;
            let ghost previdx = deck@.card_index;
            self.hands[0].hit(deck);
            proof {
                assert(self.hands@ == prevh.update(0, self.hands@[0]));
                assert(old(deck)@.cards.subrange(old(deck)@.card_index, deck@.card_index)
                    =~= old(deck)@.cards.subrange(old(deck)@.card_index, previdx).push(
                    old(deck)@.cards[previdx],
                ));
                assert forall|k: int| 0 <= k < self@.hands.len() implies (#[trigger] self@.hands[k]).wf() by {
                    if k == 0 {
                        assert(self@.hands[0] == self.hands@[0]@);
                    } else {
                        assert(self.hands@[k] == prevh[k]);
                        assert(self@.hands[k] == prevh[k]@);
                        assert(prevh.map_values(|h: Hand| h@)[k].wf());
                    }
                }
                assert forall|k: int|
                    1 <= k < old(self)@.hands.len() implies self@.hands[k] == old(self)@.hands[k] by {
                    assert(self.hands@[k] == prevh[k]);
                    assert(prevh.map_values(|h: Hand| h@)[k] == old(self)@.hands[k]);
                }
            }
        }
        let ghost preh = self.hands@;
        self.hands[0].set();
        proof {
            assert(self.hands@ == preh.update(0, self.hands@[0]));
            assert(self@.hands[0] == self.hands@[0]@);
            assert forall|k: int| 0 <= k < self@.hands.len() implies (#[trigger] self@.hands[k]).wf() by {
                if k != 0 {
                    assert(self.hands@[k] == preh[k]);
                    assert(self@.hands[k] == preh[k]@);
                    assert(preh.map_values(|h: Hand| h@)[k].wf());
                }
            }
            assert forall|k: int|
                1 <= k < old(self)@.hands.len() implies self@.hands[k] == old(self)@.hands[k] by {
                assert(self.hands@[k] == preh[k]);
                assert(preh.map_values(|h: Hand| h@)[k] == old(self)@.hands[k]);
            }
        }
        match self.has_busted() {
            true => 0,
            false => self.first_hand_value(),
        }
    }

    /// Settle the round against the dealer's final value and clear the
    /// hands. For the dealer itself this only clears the hand; for a
    /// player, the total delta over all hands is applied once to the
    /// balance and the standing.
    pub fn game_over(&mut self, dealer_value: u32)
        requires
            old(self)@.wf(),
            !old(self)@.is_dealer ==> {
                &&& wager_sum(old(self)@.hands) <= i32::MAX
                &&& i32::MIN <= old(self)@.balance - wager_sum(old(self)@.hands)
                &&& old(self)@.balance + wager_sum(old(self)@.hands) <= i32::MAX
                &&& i32::MIN <= old(self)@.standing - wager_sum(old(self)@.hands)
                &&& old(self)@.standing + wager_sum(old(self)@.hands) <= i32::MAX
            },
        ensures
            final(self)@.wf(),
            final(self)@.hands == Seq::<HandView>::empty(),
            final(self)@.name == old(self)@.name,
            final(self)@.is_dealer == old(self)@.is_dealer,
            old(self)@.is_dealer ==> final(self)@.balance == old(self)@.balance
                && final(self)@.standing == old(self)@.standing,
            !old(self)@.is_dealer ==> {
                &&& final(self)@.balance == old(self)@.balance + settle_delta(
                    old(self)@.hands,
                    dealer_value as int,
                )
                &&& final(self)@.standing == old(self)@.standing + settle_delta(
                    old(self)@.hands,
                    dealer_value as int,
                )
            },
    {
        if self.is_dealer {
            self.hands.clear();
            proof {
                assert(self@.hands =~= Seq::<HandView>::empty());
            }
            return;
        }
        let ghost hands0 = self@.hands;
        let ghost dv = dealer_value as int;
        let mut total_delta: i32 = 0;
        let n = self.hands.len();
        proof {
            assert(hands0.take(0) =~= Seq::<HandView>::empty());
            lemma_wager_sum_prefix(hands0, 0);
        }
        for i in 0..n
            invariant
                n == self@.hands.len(),
                self@.wf(),
                self@ == old(self)@,
                hands0 == self@.hands,
                wager_sum(hands0) <= i32::MAX,
                total_delta == settle_delta(hands0.take(i as int), dv),
                dv == dealer_value as int,
        {
            proof {
                assert(hands0.take(i + 1).drop_last() =~= hands0.take(i as int));
                assert(hands0.take(i + 1).last() == hands0[i as int]);
                lemma_settle_delta_bound(hands0.take(i as int), dv);
                lemma_settle_delta_bound(hands0.take(i + 1), dv);
                lemma_wager_sum_prefix(hands0, i as int);
                lemma_wager_sum_prefix(hands0, i + 1);
            }
            proof {
                assert(self@.hands[i as int].wf());
                assert(self@.hands[i as int] == self.hands@[i as int]@);
            }
            if !self.hands[i].did_surrender() {
                let value = self.hands[i].value(false);
                let wager = self.hands[i].get_wager();
                if value > dealer_value && !self.hands[i].lost() {
                    total_delta = total_delta + wager;
                } else if value < dealer_value || self.hands[i].lost() {
                    total_delta = total_delta - wager;
                }
            }
        }
        proof {
            assert(hands0.take(n as int) =~= hands0);
            lemma_settle_delta_bound(hands0, dv);
            lemma_wager_sum_nonneg(hands0);
        }
        self.win(total_delta);
        self.hands.clear();
        proof {
            assert(self@.hands =~= Seq::<HandView>::empty());
        }
    }
}

} // verus!
