//! The multi-deck card supply: canonical construction, shuffling, and the
//! draw cursor.

use vstd::prelude::*;
use rand::Rng;
use crate::card::{Card, Symbol, valid_card};

verus! {

/// Drawing was attempted with no cards left below the cursor.
#[derive(Copy, Clone, Debug, PartialEq, Eq, Structural)]
pub struct DeckExhausted;

/// The mathematical state of a deck: its cards in order, the draw cursor,
/// and the number of 52-card sub-decks it was built from.
pub ghost struct DeckView {
    pub cards: Seq<Card>,
    pub card_index: int,
    pub deck_count: int,
}

impl DeckView {
    /// A deck is well formed when the cursor is inside the card sequence,
    /// the supply is exactly `52 * deck_count` valid cards.
    pub open spec fn wf(self) -> bool {
        &&& 0 <= self.card_index <= self.cards.len()
        &&& self.cards.len() == 52 * self.deck_count
        &&& forall|i: int| 0 <= i < self.cards.len() ==> valid_card(#[trigger] self.cards[i])
    }

    /// How many cards are still available to draw.
    pub open spec fn remaining(self) -> int {
        self.cards.len() - self.card_index
    }
}

/// The suit dealt at offset `i` of the canonical suit cycle.
pub open spec fn sym_of_index(i: int) -> Symbol {
    if i == 0 {
        Symbol::DIAMONDS
    } else if i == 1 {
        Symbol::HEARTS
    } else if i == 2 {
        Symbol::CLUBS
    } else {
        Symbol::SPADES
    }
}

/// The card at position `i` of one canonical (unshuffled) 52-card sub-deck:
/// ranks cycle 1..=13 while suits cycle through the four symbols.
pub open spec fn canonical_card(i: int) -> Card {
    Card { value: (i % 13 + 1) as u32, symbol: sym_of_index(i % 4) }
}

/// The offset of a suit within the canonical suit cycle.
pub open spec fn sym_index(s: Symbol) -> int {
    match s {
        Symbol::DIAMONDS => 0,
        Symbol::HEARTS => 1,
        Symbol::CLUBS => 2,
        Symbol::SPADES => 3,
    }
}

/// The one position of a canonical sub-deck at which card `c` is dealt.
pub open spec fn canonical_index(c: Card) -> int {
    (40 * (c.value - 1) + 13 * sym_index(c.symbol)) % 52
}

/// Each valid card appears at exactly one position of a canonical sub-deck,
/// namely `canonical_index(c)`.
proof fn lemma_canonical_card_bijective(c: Card)
    requires
        valid_card(c),
    ensures
        0 <= canonical_index(c) < 52,
        canonical_card(canonical_index(c)) == c,
        forall|i: int| 0 <= i < 52 && canonical_card(i) == c ==> i == canonical_index(c),
{
    let a = c.value - 1;
    let b = sym_index(c.symbol);
    let x = 40 * a + 13 * b;
    let ci = canonical_index(c);
    vstd::arithmetic::div_mod::lemma_mod_bound(x, 52);
    vstd::arithmetic::div_mod::lemma_fundamental_div_mod(x, 52);
    let q = x / 52;
    assert(ci == 13 * (3 * a + b - 4 * q) + a);
    vstd::arithmetic::div_mod::lemma_mod_multiples_vanish(3 * a + b - 4 * q, a, 13);
    vstd::arithmetic::div_mod::lemma_small_mod(a as nat, 13);
    assert(ci % 13 == a);
    assert(ci == 4 * (10 * a + 3 * b - 13 * q) + b);
    vstd::arithmetic::div_mod::lemma_mod_multiples_vanish(10 * a + 3 * b - 13 * q, b, 4);
    vstd::arithmetic::div_mod::lemma_small_mod(b as nat, 4);
    assert(ci % 4 == b);
    assert(canonical_card(ci) == c);
    assert forall|i: int| 0 <= i < 52 && canonical_card(i) == c implies i == ci by {
        vstd::arithmetic::div_mod::lemma_mod_bound(i, 13);
        vstd::arithmetic::div_mod::lemma_mod_bound(i, 4);
        assert(i % 13 == a);
        assert(i % 4 == b);
        vstd::arithmetic::div_mod::lemma_fundamental_div_mod(i, 13);
        vstd::arithmetic::div_mod::lemma_fundamental_div_mod(ci, 13);
        vstd::arithmetic::div_mod::lemma_fundamental_div_mod(i, 4);
        vstd::arithmetic::div_mod::lemma_fundamental_div_mod(ci, 4);
        let k = i / 13 - ci / 13;
        let m = i / 4 - ci / 4;
        let d = i - ci;
        assert(d == 13 * k);
        assert(d == 4 * m);
        assert(52 * m == 13 * (4 * m));
        assert(d == 52 * (m - 3 * k));
        let t = m - 3 * k;
        assert(-52 < 52 * t < 52);
        assert(t == 0);
    }
}

/// One canonical sub-deck holds each valid card exactly once.
proof fn lemma_subdeck_count(s: Seq<Card>, c: Card)
    requires
        s.len() == 52,
        forall|i: int| 0 <= i < 52 ==> s[i] == canonical_card(i),
        valid_card(c),
    ensures
        s.to_multiset().count(c) == 1,
{
    assert forall|i: int, j: int| 0 <= i < s.len() && 0 <= j < s.len() && i != j implies s[i]
        != s[j] by {
        if s[i] == s[j] {
            assert(s[i] == canonical_card(i));
            assert(s[j] == canonical_card(j));
            let w = canonical_card(i);
            vstd::arithmetic::div_mod::lemma_mod_bound(i, 13);
            assert(1 <= i % 13 + 1 <= 13);
            assert(w.value == i % 13 + 1);
            assert(valid_card(w));
            lemma_canonical_card_bijective(w);
            assert(i == canonical_index(w));
            assert(j == canonical_index(w));
            assert(false);
        }
    }
    assert(s.no_duplicates());
    s.lemma_multiset_has_no_duplicates();
    lemma_canonical_card_bijective(c);
    assert(s[canonical_index(c)] == c);
    assert(s.contains(c));
    s.to_multiset_ensures();
    assert(s.to_multiset().count(c) > 0);
}

/// Law: a card sequence laid out as `n` canonical sub-decks (as `Deck::new`
/// builds it) holds every one of the 4 suits x 13 ranks exactly `n` times.
pub proof fn lemma_deck_card_count(cards: Seq<Card>, n: int, c: Card)
    requires
        n >= 0,
        cards.len() == 52 * n,
        forall|i: int| 0 <= i < cards.len() ==> cards[i] == canonical_card(i % 52),
        valid_card(c),
    ensures
        cards.to_multiset().count(c) == n,
    decreases n,
{
    broadcast use vstd::multiset::group_multiset_axioms;

    if n == 0 {
        cards.to_multiset_ensures();
        assert(!cards.contains(c));
        assert(cards.to_multiset().count(c) == 0);
    } else {
        let head = cards.subrange(0, 52);
        let tail = cards.subrange(52, cards.len() as int);
        assert(cards =~= head + tail);
        vstd::seq_lib::lemma_multiset_commutative(head, tail);
        assert forall|i: int| 0 <= i < 52 implies head[i] == canonical_card(i) by {
            assert(head[i] == cards[i]);
            vstd::arithmetic::div_mod::lemma_small_mod(i as nat, 52);
        }
        lemma_subdeck_count(head, c);
        assert forall|i: int| 0 <= i < tail.len() implies tail[i] == canonical_card(i % 52) by {
            assert(tail[i] == cards[52 + i]);
            vstd::arithmetic::div_mod::lemma_mod_multiples_vanish(1, i, 52);
        }
        lemma_deck_card_count(tail, n - 1, c);
    }
}

/// The card supply for a game: one or more 52-card sub-decks and a cursor
/// marking how many cards were already dealt.
pub struct Deck {
    cards: Vec<Card>,
    deck_count: usize,
    card_index: usize,
}

impl View for Deck {
    type V = DeckView;

    closed spec fn view(&self) -> DeckView {
        DeckView {
            cards: self.cards@,
            card_index: self.card_index as int,
            deck_count: self.deck_count as int,
        }
    }
}

/// Relies on rand::Rng::gen_range (through rand::thread_rng): a sample from
/// the nonempty range `0..bound` lies in that range.
#[verifier::external_body]
fn random_below(bound: usize) -> (r: usize)
    requires
        bound >= 1,
    ensures
        r < bound,
{
    rand::thread_rng().gen_range(0..bound)
}

impl Deck {
    /// One canonical unshuffled sub-deck: the 52 cards in rank-major,
    /// suit-cycling order, each of the 4 suits x 13 ranks exactly once.
    pub fn create_valid_deck() -> (r: Vec<Card>)
        ensures
            r@.len() == 52,
            forall|i: int| 0 <= i < 52 ==> r@[i] == canonical_card(i),
    {
        let mut cards: Vec<Card> = Vec::with_capacity(52);
        for j in 0..52usize
            invariant
                cards@.len() == j,
                forall|i: int| 0 <= i < j ==> cards@[i] == canonical_card(i),
        {
            let value = (j % 13 + 1) as u32;
            let symbol = match j % 4 {
                0 => Symbol::DIAMONDS,
                1 => Symbol::HEARTS,
                2 => Symbol::CLUBS,
                _ => Symbol::SPADES,
            };
            cards.push(Card::new(value, symbol));
        }
        cards
    }

    /// A fresh supply of `deck_count` canonical sub-decks, cursor at 0.
    pub fn new(deck_count: usize) -> (r: Deck)
        requires
            deck_count <= usize::MAX / 52,
        ensures
            r@.wf(),
            r@.deck_count == deck_count,
            r@.card_index == 0,
            r@.cards.len() == 52 * deck_count,
            forall|i: int| 0 <= i < r@.cards.len() ==> r@.cards[i] == canonical_card(i % 52),
    {
        proof {
            assert(52 * deck_count <= usize::MAX) by (nonlinear_arith)
                requires
                    deck_count <= usize::MAX / 52,
            ;
        }
        let mut cards: Vec<Card> = Vec::with_capacity(52 * deck_count);
        for k in 0..deck_count
            invariant
                cards@.len() == 52 * k,
                k <= deck_count <= usize::MAX / 52,
                forall|i: int| 0 <= i < cards@.len() ==> cards@[i] == canonical_card(i % 52),
        {
            let mut sub = Deck::create_valid_deck();
            cards.append(&mut sub);
            proof {
                assert forall|i: int| 0 <= i < cards@.len() implies cards@[i] == canonical_card(
                    i % 52,
                ) by {
                    if i >= 52 * k {
                        let r = i - 52 * k;
                        vstd::arithmetic::div_mod::lemma_mod_multiples_vanish(k as int, r, 52);
                        vstd::arithmetic::div_mod::lemma_small_mod(r as nat, 52);
                    }
                }
            }
        }
        proof {
            assert forall|i: int| 0 <= i < cards@.len() implies valid_card(
                #[trigger] cards@[i],
            ) by {
                assert(cards@[i] == canonical_card(i % 52));
                vstd::arithmetic::div_mod::lemma_mod_bound(i, 13);
            }
        }
        Deck { cards, deck_count, card_index: 0 }
    }

    /// How many cards are still available to draw.
    pub fn remaining(&self) -> (r: usize)
        requires
            self@.wf(),
        ensures
            r == self@.remaining(),
    {
        self.cards.len() - self.card_index
    }

    /// Reorder the supply by an unbiased Fisher-Yates pass and reset the
    /// cursor; the multiset of cards is unchanged (a permutation only).
    pub fn shuffle(&mut self)
        requires
            old(self)@.wf(),
        ensures
            final(self)@.wf(),
            final(self)@.cards.to_multiset() == old(self)@.cards.to_multiset(),
            final(self)@.cards.len() == old(self)@.cards.len(),
            final(self)@.card_index == 0,
            final(self)@.deck_count == old(self)@.deck_count,
    {
        let mut i: usize = self.cards.len();
        while i > 1
            invariant
                i <= self.cards@.len(),
                self.deck_count == old(self).deck_count,
                self.cards@.to_multiset() == old(self)@.cards.to_multiset(),
                self.cards@.len() == old(self)@.cards.len(),
                forall|k: int|
                    0 <= k < self.cards@.len() ==> valid_card(#[trigger] self.cards@[k]),
            decreases i,
        {
            i = i - 1;
            let j = random_below(i + 1);
            let ghost s0 = self.cards@;
            let tmp = self.cards[i];
            let cj = self.cards[j];
            self.cards.set(i, cj);
            self.cards.set(j, tmp);
            proof {
                let s1 = s0.update(i as int, cj);
                let s2 = s1.update(j as int, tmp);
                vstd::seq_lib::to_multiset_update(s0, i as int, cj);
                vstd::seq_lib::to_multiset_update(s1, j as int, tmp);
                s0.to_multiset_ensures();
                s1.to_multiset_ensures();
                assert(s0.contains(s0[i as int]));
                assert(s0.contains(s0[j as int]));
                assert(s2.to_multiset() =~= s0.to_multiset());
            }
        }
        self.card_index = 0;
    }

    /// The card under the cursor, advancing the cursor by one; fails with
    /// `DeckExhausted` once every card has been drawn, leaving the deck
    /// unchanged.
    pub fn next_card(&mut self) -> (r: Result<Card, DeckExhausted>)
        requires
            old(self)@.wf(),
        ensures
            final(self)@.wf(),
            final(self)@.cards == old(self)@.cards,
            final(self)@.deck_count == old(self)@.deck_count,
            old(self)@.remaining() > 0 ==> {
                &&& r == Ok::<Card, DeckExhausted>(old(self)@.cards[old(self)@.card_index])
                &&& final(self)@.card_index == old(self)@.card_index + 1
            },
            old(self)@.remaining() == 0 ==> {
                &&& r == Err::<Card, DeckExhausted>(DeckExhausted)
                &&& final(self)@ == old(self)@
            },
    {
        if self.card_index >= self.cards.len() {
            return Err(DeckExhausted);
        }
        let card = self.cards[self.card_index];
        self.card_index = self.card_index + 1;
        Ok(card)
    }

    /// Reshuffle in place and zero the draw cursor: the single way the card
    /// order ever changes between rounds.
    pub fn reset(&mut self)
        requires
            old(self)@.wf(),
        ensures
            final(self)@.wf(),
            final(self)@.cards.to_multiset() == old(self)@.cards.to_multiset(),
            final(self)@.cards.len() == old(self)@.cards.len(),
            final(self)@.card_index == 0,
            final(self)@.deck_count == old(self)@.deck_count,
    {
        self.card_index = 0;
        self.shuffle();
    }
}

} // verus!
