//! One bet-bearing bundle of cards: blackjack value with soft-ace
//! reduction, and the hit / stand / split / double / surrender moves.

use vstd::prelude::*;
use vstd::pervasive::unreached;
use crate::card::{Card, valid_card};
use crate::deck::Deck;

verus! {

/// The mathematical state of a hand.
pub ghost struct HandView {
    pub cards: Seq<Card>,
    pub wager: int,
    pub is_set: bool,
    pub can_surrender: bool,
    pub surrendered: bool,
}

/// The sum of the cards' scores, every ace counted as 11.
pub open spec fn raw_total(cards: Seq<Card>) -> int
    decreases cards.len(),
{
    if cards.len() == 0 {
        0
    } else {
        raw_total(cards.drop_last()) + cards.last().score_spec()
    }
}

/// How many cards score 11, that is, how many aces the hand holds.
pub open spec fn ace_count(cards: Seq<Card>) -> int
    decreases cards.len(),
{
    if cards.len() == 0 {
        0
    } else {
        ace_count(cards.drop_last()) + if cards.last().score_spec() == 11 {
            1int
        } else {
            0int
        }
    }
}

/// Standard soft-ace reduction: while the total exceeds 21 and an ace is
/// still counted as 11, count that ace as 1 instead. Yields the reduced
/// total and the number of aces still counted as 11.
pub open spec fn adjust(total: int, aces: int) -> (int, int)
    decreases aces,
{
    if total > 21 && aces > 0 {
        adjust(total - 10, aces - 1)
    } else {
        (total, aces)
    }
}

/// The blackjack value of a card sequence, after soft-ace reduction.
pub open spec fn hand_total(cards: Seq<Card>) -> int {
    adjust(raw_total(cards), ace_count(cards)).0
}

/// How many aces still count as 11 after soft-ace reduction; the hand is
/// "soft" when this is positive.
pub open spec fn soft_count(cards: Seq<Card>) -> int {
    adjust(raw_total(cards), ace_count(cards)).1
}

/// The cards admit an in-bounds `u32` value computation: every card is
/// valid and the unreduced sum cannot overflow.
pub open spec fn scorable(cards: Seq<Card>) -> bool {
    &&& forall|i: int| 0 <= i < cards.len() ==> valid_card(#[trigger] cards[i])
    &&& 11 * cards.len() <= u32::MAX
}

impl HandView {
    /// The hand's blackjack value.
    pub open spec fn value(self) -> int {
        hand_total(self.cards)
    }

    /// A hand busts exactly when its reduced value exceeds 21.
    pub open spec fn busted(self) -> bool {
        self.value() > 21
    }

    /// A hand is lost once it surrendered or busted.
    pub open spec fn lost(self) -> bool {
        self.surrendered || self.busted()
    }

    /// A hand may split exactly when it holds two cards of equal score.
    pub open spec fn can_split(self) -> bool {
        self.cards.len() == 2 && self.cards[0].score_spec() == self.cards[1].score_spec()
    }

    /// Hand well-formedness: between the 2 starting cards and the most a
    /// playable hand can reach, all cards valid, a non-negative stake, a
    /// not-yet-set hand not busted, surrender only available on an untouched
    /// 2-card hand, and a surrendered hand locked.
    pub open spec fn wf(self) -> bool {
        &&& 2 <= self.cards.len() <= 22
        &&& forall|i: int| 0 <= i < self.cards.len() ==> valid_card(#[trigger] self.cards[i])
        &&& self.wager >= 0
        &&& !self.is_set ==> hand_total(self.cards) <= 21
        &&& self.can_surrender ==> !self.is_set && self.cards.len() == 2
        &&& self.surrendered ==> self.is_set
    }
}

/// Joint bounds on the unreduced total and the ace tally of a valid card
/// sequence.
pub proof fn lemma_total_bounds(cards: Seq<Card>)
    requires
        forall|i: int| 0 <= i < cards.len() ==> valid_card(#[trigger] cards[i]),
    ensures
        0 <= ace_count(cards) <= cards.len(),
        raw_total(cards) >= 2 * (cards.len() - ace_count(cards)) + 11 * ace_count(cards),
        raw_total(cards) <= 11 * cards.len(),
    decreases cards.len(),
{
    if cards.len() > 0 {
        lemma_total_bounds(cards.drop_last());
    }
}

/// Bounds on the soft-ace reduction: it never subtracts more than 10 per
/// ace, never increases the total, and leaves everything unchanged when
/// the total is already at most 21.
pub proof fn lemma_adjust_bounds(total: int, aces: int)
    requires
        aces >= 0,
    ensures
        adjust(total, aces).0 >= total - 10 * aces,
        adjust(total, aces).0 <= total,
        0 <= adjust(total, aces).1 <= aces,
        total <= 21 ==> adjust(total, aces) == (total, aces),
        adjust(total, aces).0 > 21 ==> adjust(total, aces).1 == 0,
    decreases aces,
{
    if total > 21 && aces > 0 {
        lemma_adjust_bounds(total - 10, aces - 1);
    }
}

/// A hand's value is at least its number of cards, so a hand worth at most
/// 21 holds at most 21 cards.
pub proof fn lemma_value_ge_len(cards: Seq<Card>)
    requires
        forall|i: int| 0 <= i < cards.len() ==> valid_card(#[trigger] cards[i]),
    ensures
        hand_total(cards) >= cards.len(),
{
    lemma_total_bounds(cards);
    lemma_adjust_bounds(raw_total(cards), ace_count(cards));
}

/// Any two valid cards value at most 21 after soft-ace reduction: the only
/// unreduced sum above 21 is a pair of aces, which reduces to 12.
pub proof fn lemma_two_cards_le_21(cards: Seq<Card>)
    requires
        cards.len() == 2,
        forall|i: int| 0 <= i < cards.len() ==> valid_card(#[trigger] cards[i]),
    ensures
        hand_total(cards) <= 21,
{
    let c0 = cards[0];
    let c1 = cards[1];
    let s1 = cards.drop_last();
    assert(cards.last() == c1);
    assert(s1.last() == c0);
    assert(s1.drop_last() =~= Seq::<Card>::empty());
    assert(raw_total(s1.drop_last()) == 0);
    assert(ace_count(s1.drop_last()) == 0);
    assert(raw_total(s1) == c0.score_spec());
    assert(ace_count(s1) == if c0.score_spec() == 11 { 1int } else { 0int });
    assert(raw_total(cards) == c0.score_spec() + c1.score_spec());
    assert(ace_count(cards) == ace_count(s1) + if c1.score_spec() == 11 { 1int } else { 0int });
    if raw_total(cards) > 21 {
        assert(c0.score_spec() == 11 && c1.score_spec() == 11);
        assert(adjust(22, 2) == adjust(12, 1));
    }
}

/// The blackjack value of an arbitrary card sequence, exactly as
/// `Hand::value` computes it: the reduced total when `count_soft_aces` is
/// false, the remaining soft-ace tally when it is true.
pub fn hand_value(cards: &Vec<Card>, count_soft_aces: bool) -> (r: u32)
    requires
        scorable(cards@),
    ensures
        count_soft_aces ==> r == soft_count(cards@),
        !count_soft_aces ==> r == hand_total(cards@),
{
    let n = cards.len();
    let mut total: u32 = 0;
    let mut aces: u32 = 0;
    proof {
        assert(cards@.take(0) =~= Seq::<Card>::empty());
    }
    for idx in 0..n
        invariant
            n == cards@.len(),
            scorable(cards@),
            total == raw_total(cards@.take(idx as int)),
            aces == ace_count(cards@.take(idx as int)),
            total <= 11 * idx,
            aces <= idx,
    {
        proof {
            assert(cards@.take(idx + 1).drop_last() =~= cards@.take(idx as int));
            assert(cards@.take(idx + 1).last() == cards@[idx as int]);
        }
        let value = cards[idx].score();
        if value == 11 {
            aces = aces + 1;
        }
        total = total + value;
    }
    proof {
        assert(cards@.take(n as int) =~= cards@);
    }
    let ghost total0 = total as int;
    let ghost aces0 = aces as int;
    while total > 21 && aces > 0
        invariant
            adjust(total0, aces0) == adjust(total as int, aces as int),
        decreases aces,
    {
        total = total - 10;
        aces = aces - 1;
    }
    if count_soft_aces {
        aces
    } else {
        total
    }
}

/// One wagering unit's cards for a player in the current round, together
/// with its stake and lifecycle flags.
pub struct Hand {
    cards: Vec<Card>,
    can_surrender: bool,
    surrendered: bool,
    is_set: bool,
    wager: i32,
}

impl View for Hand {
    type V = HandView;

    closed spec fn view(&self) -> HandView {
        HandView {
            cards: self.cards@,
            wager: self.wager as int,
            is_set: self.is_set,
            can_surrender: self.can_surrender,
            surrendered: self.surrendered,
        }
    }
}

impl Clone for Hand {
    fn clone(&self) -> (r: Self)
        ensures
            r@ == self@,
    {
        let mut cards: Vec<Card> = Vec::with_capacity(self.cards.len());
        for idx in 0..self.cards.len()
            invariant
                cards@ =~= self.cards@.take(idx as int),
        {
            cards.push(self.cards[idx]);
            proof {
                assert(cards@ =~= self.cards@.take(idx + 1));
            }
        }
        proof {
            assert(self.cards@.take(self.cards@.len() as int) =~= self.cards@);
        }
        Hand {
            cards,
            can_surrender: self.can_surrender,
            surrendered: self.surrendered,
            is_set: self.is_set,
            wager: self.wager,
        }
    }
}

impl Hand {
    /// A fresh hand funded by `wager`: draws exactly the next two cards of
    /// the deck, open for play and still entitled to surrender.
    pub fn new(wager: i32, deck: &mut Deck) -> (r: Hand)
        requires
            wager >= 0,
            old(deck)@.wf(),
            old(deck)@.remaining() >= 2,
        ensures
            final(deck)@.wf(),
            final(deck)@.cards == old(deck)@.cards,
            final(deck)@.deck_count == old(deck)@.deck_count,
            final(deck)@.card_index == old(deck)@.card_index + 2,
            r@.cards == seq![
                old(deck)@.cards[old(deck)@.card_index],
                old(deck)@.cards[old(deck)@.card_index + 1],
            ],
            r@.wager == wager,
            r@.is_set == false,
            r@.can_surrender == true,
            r@.surrendered == false,
            r@.wf(),
    {
        let c0 = match deck.next_card() {
            Ok(c) => c,
            Err(_) => unreached(),
        };
        let c1 = match deck.next_card() {
            Ok(c) => c,
            Err(_) => unreached(),
        };
        let mut cards: Vec<Card> = Vec::with_capacity(11);
        cards.push(c0);
        cards.push(c1);
        let hand = Hand { cards, can_surrender: true, surrendered: false, is_set: false, wager };
        proof {
            assert(hand@.cards =~= seq![c0, c1]);
            lemma_two_cards_le_21(hand@.cards);
        }
        hand
    }

    /// The hand's cards, in the order they were drawn.
    pub fn card_iter(&self) -> (r: Vec<Card>)
        ensures
            r@ == self@.cards,
    {
        let mut cards: Vec<Card> = Vec::with_capacity(self.cards.len());
        for idx in 0..self.cards.len()
            invariant
                cards@ =~= self.cards@.take(idx as int),
        {
            cards.push(self.cards[idx]);
            proof {
                assert(cards@ =~= self.cards@.take(idx + 1));
            }
        }
        proof {
            assert(self.cards@.take(self.cards@.len() as int) =~= self.cards@);
        }
        cards
    }

    pub fn get_card_count(&self) -> (r: usize)
        ensures
            r == self@.cards.len(),
    {
        self.cards.len()
    }

    pub fn get_card_at(&self, idx: usize) -> (r: Card)
        requires
            idx < self@.cards.len(),
        ensures
            r == self@.cards[idx as int],
    {
        self.cards[idx]
    }

    /// Lock the hand: no further cards, and surrender is no longer offered.
    pub fn set(&mut self)
        ensures
            final(self)@ == (HandView { is_set: true, can_surrender: false, ..old(self)@ }),
    {
        self.is_set = true;
        self.can_surrender = false;
    }

    pub fn get_is_set(&self) -> (r: bool)
        ensures
            r == self@.is_set,
    {
        self.is_set
    }

    /// Give up the hand for half the wager: succeeds exactly when surrender
    /// is still offered, locking the hand; otherwise nothing changes.
    pub fn surrender(&mut self) -> (r: bool)
        ensures
            r == old(self)@.can_surrender,
            old(self)@.can_surrender ==> final(self)@ == (HandView {
                surrendered: true,
                is_set: true,
                can_surrender: false,
                ..old(self)@
            }),
            !old(self)@.can_surrender ==> final(self)@ == old(self)@,
    {
        if self.can_surrender {
            self.surrendered = true;
            self.set();
            true
        } else {
            false
        }
    }

    pub fn did_surrender(&self) -> (r: bool)
        ensures
            r == self@.surrendered,
    {
        self.surrendered
    }

    pub fn can_surrender_hand(&self) -> (r: bool)
        ensures
            r == self@.can_surrender,
    {
        self.can_surrender
    }

    /// A hand is lost once it surrendered or busted.
    pub fn lost(&self) -> (r: bool)
        requires
            scorable(self@.cards),
        ensures
            r == self@.lost(),
    {
        self.surrendered || self.busted()
    }

    /// Split a two-card pair: the second card moves to a new hand carrying
    /// the same wager and each of the two hands draws one replacement card;
    /// on a hand that cannot split, nothing changes.
    pub fn split(&mut self, deck: &mut Deck) -> (r: Option<Hand>)
        requires
            old(self)@.wf(),
            old(deck)@.wf(),
            old(deck)@.remaining() >= 2,
        ensures
            final(self)@.wf(),
            final(deck)@.wf(),
            final(deck)@.cards == old(deck)@.cards,
            final(deck)@.deck_count == old(deck)@.deck_count,
            old(self)@.can_split() ==> {
                &&& final(deck)@.card_index == old(deck)@.card_index + 2
                &&& final(self)@ == (HandView {
                    cards: seq![old(self)@.cards[0], old(deck)@.cards[old(deck)@.card_index]],
                    can_surrender: false,
                    ..old(self)@
                })
                &&& (r matches Some(h) && h@ == (HandView {
                    cards: seq![
                        old(self)@.cards[1],
                        old(deck)@.cards[old(deck)@.card_index + 1],
                    ],
                    wager: old(self)@.wager,
                    is_set: false,
                    can_surrender: true,
                    surrendered: false,
                }) && h@.wf())
            },
            !old(self)@.can_split() ==> {
                &&& final(self)@ == old(self)@
                &&& final(deck)@ == old(deck)@
                &&& r is None
            },
    {
        if self.can_split_hand() {
            let moved = self.cards[1];
            let d0 = match deck.next_card() {
                Ok(c) => c,
                Err(_) => unreached(),
            };
            self.cards.set(1, d0);
            self.can_surrender = false;
            let d1 = match deck.next_card() {
                Ok(c) => c,
                Err(_) => unreached(),
            };
            let mut new_cards: Vec<Card> = Vec::with_capacity(11);
            new_cards.push(moved);
            new_cards.push(d1);
            let new_hand = Hand {
                cards: new_cards,
                can_surrender: true,
                surrendered: false,
                is_set: false,
                wager: self.wager,
            };
            proof {
                assert(self@.cards =~= seq![old(self)@.cards[0], d0]);
                assert(new_hand@.cards =~= seq![old(self)@.cards[1], d1]);
                lemma_two_cards_le_21(self@.cards);
                lemma_two_cards_le_21(new_hand@.cards);
            }
            Some(new_hand)
        } else {
            None
        }
    }

    /// A hand may split exactly when it holds two cards of equal score:
    /// a ten and a king pair up even though their ranks differ.
    pub fn can_split_hand(&self) -> (r: bool)
        ensures
            r == self@.can_split(),
    {
        self.cards.len() == 2 && self.cards[0].score() == self.cards[1].score()
    }

    /// Double the wager, lock the hand to exactly one more card, and draw
    /// it; reports whether that card busted the hand.
    pub fn double_wager(&mut self, deck: &mut Deck) -> (r: bool)
        requires
            old(self)@.wf(),
            !old(self)@.is_set,
            2 * old(self)@.wager <= i32::MAX,
            old(deck)@.wf(),
            old(deck)@.remaining() >= 1,
        ensures
            final(self)@.wf(),
            final(deck)@.wf(),
            final(deck)@.cards == old(deck)@.cards,
            final(deck)@.deck_count == old(deck)@.deck_count,
            final(deck)@.card_index == old(deck)@.card_index + 1,
            final(self)@.cards == old(self)@.cards.push(old(deck)@.cards[old(deck)@.card_index]),
            final(self)@.wager == 2 * old(self)@.wager,
            final(self)@.is_set == true,
            final(self)@.can_surrender == false,
            final(self)@.surrendered == old(self)@.surrendered,
            r == final(self)@.busted(),
    {
        self.wager = self.wager * 2;
        self.set();
        self.hit(deck)
    }

    /// Draw one card; a hand that busts is locked automatically, and any
    /// hit forfeits the right to surrender. Reports whether the hand is
    /// now busted.
    pub fn hit(&mut self, deck: &mut Deck) -> (r: bool)
        requires
            old(self)@.wf(),
            hand_total(old(self)@.cards) <= 21,
            old(deck)@.wf(),
            old(deck)@.remaining() >= 1,
        ensures
            final(self)@.wf(),
            final(deck)@.wf(),
            final(deck)@.cards == old(deck)@.cards,
            final(deck)@.deck_count == old(deck)@.deck_count,
            final(deck)@.card_index == old(deck)@.card_index + 1,
            final(self)@.cards == old(self)@.cards.push(old(deck)@.cards[old(deck)@.card_index]),
            final(self)@.wager == old(self)@.wager,
            final(self)@.surrendered == old(self)@.surrendered,
            final(self)@.can_surrender == false,
            r == final(self)@.busted(),
            final(self)@.is_set == (old(self)@.is_set || r),
    {
        proof {
            lemma_value_ge_len(self@.cards);
        }
        let card = match deck.next_card() {
            Ok(c) => c,
            Err(_) => unreached(),
        };
        self.cards.push(card);
        let ret = self.busted();
        if ret {
            self.set();
        }
        self.can_surrender = false;
        ret
    }

    /// A hand busts exactly when its value exceeds 21.
    pub fn busted(&self) -> (r: bool)
        requires
            scorable(self@.cards),
        ensures
            r == self@.busted(),
    {
        self.value(false) > 21
    }

    pub fn get_wager(&self) -> (r: i32)
        ensures
            r == self@.wager,
    {
        self.wager
    }

    /// The hand's blackjack value (`get_aces == false`), or its remaining
    /// soft-ace tally (`get_aces == true`).
    pub fn value(&self, get_aces: bool) -> (r: u32)
        requires
            scorable(self@.cards),
        ensures
            get_aces ==> r == soft_count(self@.cards),
            !get_aces ==> r == hand_total(self@.cards),
    {
        hand_value(&self.cards, get_aces)
    }

    /// A hand is soft while an ace still counts as 11.
    pub fn is_soft(&self) -> (r: bool)
        requires
            scorable(self@.cards),
        ensures
            r == (soft_count(self@.cards) > 0),
    {
        self.value(true) > 0
    }
}

} // verus!
