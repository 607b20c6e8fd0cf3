use blackjack::card::{Card, Symbol, CLUBS, DIAMONDS, HEARTS, SPADES};
use blackjack::deck::{Deck, DeckExhausted};
use blackjack::hand::hand_value;
use blackjack::player::Player;
use blackjack::round::can_start_round;

fn suit_of(i: u32) -> Symbol {
    match i {
        0 => Symbol::DIAMONDS,
        1 => Symbol::HEARTS,
        2 => Symbol::CLUBS,
        _ => Symbol::SPADES,
    }
}

#[test]
fn score_is_in_range_and_ace_is_eleven() {
    for rank in 1..=13u32 {
        for s in 0..4u32 {
            let card = Card::new(rank, suit_of(s));
            let score = card.score();
            assert!((2..=11).contains(&score));
            if rank == 1 {
                assert_eq!(11, score);
            }
            if (11..=13).contains(&rank) {
                assert_eq!(10, score);
            }
        }
    }
}

#[test]
fn suit_masks_and_names() {
    assert_eq!(DIAMONDS, Symbol::DIAMONDS.val());
    assert_eq!(HEARTS, Symbol::HEARTS.val());
    assert_eq!(CLUBS, Symbol::CLUBS.val());
    assert_eq!(SPADES, Symbol::SPADES.val());
    assert_eq!("Hearts", Symbol::HEARTS.name());
    assert_eq!("Ace of Spades", Card::new(1, Symbol::SPADES).to_string());
    assert_eq!("King of Clubs", Card::new(13, Symbol::CLUBS).to_string());
}

#[test]
fn new_deck_has_each_card_n_times() {
    let n = 2usize;
    let mut deck = Deck::new(n);
    let mut tally = [[0usize; 4]; 14];
    for _ in 0..(52 * n) {
        let card = deck.next_card().unwrap();
        let mask = card.symbol.val();
        let suit_idx = if mask == DIAMONDS {
            0
        } else if mask == HEARTS {
            1
        } else if mask == CLUBS {
            2
        } else {
            3
        };
        tally[card.value as usize][suit_idx] += 1;
    }
    for rank in 1..=13usize {
        for s in 0..4usize {
            assert_eq!(n, tally[rank][s]);
        }
    }
}

#[test]
fn deck_exhaustion_is_an_error() {
    let mut deck = Deck::new(1);
    for _ in 0..52 {
        assert!(deck.next_card().is_ok());
    }
    assert_eq!(Err(DeckExhausted), deck.next_card());
    assert_eq!(0, deck.remaining());
}

#[test]
fn shuffle_is_a_permutation() {
    let mut deck = Deck::new(1);
    let mut before: Vec<u32> = Vec::new();
    for _ in 0..52 {
        before.push(deck.next_card().unwrap().to_u32());
    }
    deck.reset();
    assert_eq!(52, deck.remaining());
    let mut after: Vec<u32> = Vec::new();
    for _ in 0..52 {
        after.push(deck.next_card().unwrap().to_u32());
    }
    before.sort();
    after.sort();
    assert_eq!(before, after);
}

#[test]
fn ace_reduction_values_two_aces_and_nine_as_21() {
    let cards = vec![
        Card::new(1, Symbol::SPADES),
        Card::new(1, Symbol::HEARTS),
        Card::new(9, Symbol::CLUBS),
    ];
    assert_eq!(21, hand_value(&cards, false));
    assert_eq!(1, hand_value(&cards, true));
    let soft = vec![Card::new(1, Symbol::SPADES), Card::new(9, Symbol::CLUBS)];
    assert_eq!(20, hand_value(&soft, false));
    assert_eq!(1, hand_value(&soft, true));
}

#[test]
fn king_queen_five_is_busted() {
    let cards = vec![
        Card::new(13, Symbol::SPADES),
        Card::new(12, Symbol::HEARTS),
        Card::new(5, Symbol::CLUBS),
    ];
    assert_eq!(25, hand_value(&cards, false));

    // Through a real hand: burn eight cards, deal {9, 10} = 19, hit a jack.
    let mut deck = Deck::new(1);
    for _ in 0..8 {
        deck.next_card().unwrap();
    }
    let mut player = Player::new("Buster".to_string(), false, 1000);
    player.bet(50, &mut deck);
    assert_eq!(19, player.first_hand_value());
    let busted = player.hit(&mut deck);
    assert!(busted);
    assert!(player.has_busted());
    assert!(player.has_lost());
    assert!(!player.is_playing());
    assert_eq!(0, player.first_hand_value());
}

#[test]
fn equal_scores_split_unequal_do_not() {
    // Burn nine cards: the next two are a ten and a jack, equal in score.
    let mut deck = Deck::new(1);
    for _ in 0..9 {
        deck.next_card().unwrap();
    }
    let mut player = Player::new("Pair".to_string(), false, 1000);
    player.bet(100, &mut deck);
    assert!(player.can_split_hand());

    // Burn eight cards: the next two are a nine and a ten, not a pair.
    let mut deck2 = Deck::new(1);
    for _ in 0..8 {
        deck2.next_card().unwrap();
    }
    let mut other = Player::new("NoPair".to_string(), false, 1000);
    other.bet(100, &mut deck2);
    assert!(!other.can_split_hand());
    assert!(!other.split(&mut deck2));
    assert_eq!(1, other.get_hand_count());
}

#[test]
fn surrender_halves_wager_and_locks() {
    let mut deck = Deck::new(1);
    let mut player = Player::new("Cautious".to_string(), false, 1000);
    player.bet(100, &mut deck);
    assert!(player.can_surrender_hand());
    assert!(player.surrender());
    assert_eq!(950, player.get_balance());
    assert_eq!(-50, player.get_standing());
    assert!(!player.is_playing());
    let hand = player.get_hand_at(0);
    assert!(hand.did_surrender());
    assert!(hand.get_is_set());
}

#[test]
fn surrender_after_hit_fails_without_change() {
    let mut deck = Deck::new(1);
    let mut player = Player::new("Late".to_string(), false, 1000);
    player.bet(100, &mut deck);
    let busted = player.hit(&mut deck);
    assert!(!busted);
    assert!(player.is_playing());
    assert!(!player.can_surrender_hand());
    assert!(!player.surrender());
    assert_eq!(1000, player.get_balance());
    assert_eq!(0, player.get_standing());
    assert!(player.is_playing());
}

#[test]
fn round_settles_a_loss_against_the_dealer() {
    // Unshuffled deck deals ranks 1, 2, 3, 4, 5, 6, ... in order.
    let mut deck = Deck::new(1);
    let mut player = Player::new("Punter".to_string(), false, 1000);
    let mut dealer = Player::new("Dealer".to_string(), true, 0);

    player.bet(100, &mut deck);  // ace + two = 13 (soft)
    dealer.bet(0, &mut deck);  // three + four = 7

    assert!(player.hand_is_soft());
    player.stand();
    assert!(!player.is_playing());
    assert!(!player.has_lost());

    // Dealer hits 7 -> 12 -> 18 and stands.
    let dealer_value = dealer.play_as_dealer(&mut deck);
    assert_eq!(18, dealer_value);

    // Player's 13 loses to the dealer's 18: the full wager is charged.
    player.game_over(dealer_value);
    assert_eq!(900, player.get_balance());
    assert_eq!(-100, player.get_standing());
    assert_eq!(0, player.get_hand_count());

    dealer.game_over(0);
    assert_eq!(0, dealer.get_hand_count());
    assert_eq!(0, dealer.get_balance());
}

#[test]
fn game_over_clears_hands_and_is_idempotent() {
    let mut deck = Deck::new(1);
    let mut player = Player::new("Winner".to_string(), false, 1000);
    player.bet(100, &mut deck);  // ace + two = 13
    player.stand();
    player.game_over(7);  // 13 beats 7: wins the wager
    assert_eq!(1100, player.get_balance());
    assert_eq!(100, player.get_standing());
    assert_eq!(0, player.get_hand_count());
    assert!(!player.is_playing());
    player.game_over(19);  // nothing left to settle
    assert_eq!(1100, player.get_balance());
    assert_eq!(100, player.get_standing());
    assert_eq!(0, player.get_hand_count());
}

#[test]
fn splitting_twice_yields_three_hands_in_order() {
    // Burn nine cards so the bet deals {ten, jack}; the replacement draws
    // are queen, king, ace, two in that order.
    let mut deck = Deck::new(1);
    for _ in 0..9 {
        deck.next_card().unwrap();
    }
    let mut player = Player::new("Splitter".to_string(), false, 1000);
    player.bet(100, &mut deck);

    assert!(player.split(&mut deck));
    assert_eq!(2, player.get_hand_count());
    // First hand {ten, queen} is a pair of tens again.
    assert!(player.can_split_hand());
    assert!(player.split(&mut deck));
    assert_eq!(3, player.get_hand_count());

    let h0 = player.get_hand_at(0);
    let h1 = player.get_hand_at(1);
    let h2 = player.get_hand_at(2);
    assert_eq!(2, h0.get_card_count());
    assert_eq!(2, h1.get_card_count());
    assert_eq!(2, h2.get_card_count());
    assert_eq!(10, h0.get_card_at(0).value);
    assert_eq!(1, h0.get_card_at(1).value);
    assert_eq!(11, h1.get_card_at(0).value);
    assert_eq!(13, h1.get_card_at(1).value);
    assert_eq!(12, h2.get_card_at(0).value);
    assert_eq!(2, h2.get_card_at(1).value);
    assert_eq!(100, h0.get_wager());
    assert_eq!(100, h1.get_wager());
    assert_eq!(100, h2.get_wager());

    // The three hands are played independently, in creation order.
    player.stand();
    assert!(player.is_playing());
    player.stand();
    assert!(player.is_playing());
    player.stand();
    assert!(!player.is_playing());
}

#[test]
fn double_doubles_the_wager_and_locks() {
    // Deal {ace, two}, then double: draws a three for a soft 16.
    let mut deck = Deck::new(1);
    let mut player = Player::new("Doubler".to_string(), false, 1000);
    player.bet(100, &mut deck);
    let busted = player.double(&mut deck);
    assert!(!busted);
    assert!(!player.is_playing());
    let hand = player.get_hand_at(0);
    assert_eq!(200, hand.get_wager());
    assert_eq!(3, hand.get_card_count());
    assert_eq!(16, hand.value(false));
}

#[test]
fn capacity_precheck_matches_the_rule() {
    assert!(can_start_round(1, 1));  // 10 < 52
    assert!(can_start_round(9, 1));  // 50 < 52
    assert!(!can_start_round(10, 1));  // 55 >= 52
    assert!(can_start_round(10, 2));  // 55 < 104
    assert!(!can_start_round(0, 0));
}

#[test]
fn accessors_report_the_round_state() {
    let mut deck = Deck::new(1);
    assert_eq!(52, deck.remaining());
    let mut player = Player::new("Alice".to_string(), false, 500);
    assert_eq!("Alice", player.get_name());
    assert_eq!(500, player.get_balance());
    assert_eq!(0, player.get_standing());
    assert_eq!(0, player.get_hand_count());
    player.bet(25, &mut deck);
    assert_eq!(50, deck.remaining());
    assert_eq!(1, player.hand_iter().len());
    let hand = player.get_hand_at(0);
    assert_eq!(2, hand.card_iter().len());
    assert_eq!(1, hand.card_iter()[0].value);
    assert_eq!(2, hand.card_iter()[1].value);
    assert!(!hand.get_is_set());
    assert!(hand.can_surrender_hand());
    assert!(!hand.did_surrender());
    assert_eq!(13, hand.value(false));
    assert!(hand.is_soft());
    assert!(!hand.busted());
    assert!(!hand.lost());
}
