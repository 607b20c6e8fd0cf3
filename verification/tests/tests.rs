use blackjack::card::{Card, Symbol};
use blackjack::deck::Deck;

#[test]
fn card_to_int_works() {
    let card = Card::new(2, Symbol::DIAMONDS);
    assert_eq!(0b0001_0010, card.to_u32());
    let card1 = Card::new(10, Symbol::SPADES);
    assert_eq!(0b1000_1010, card1.to_u32());
    let card2 = Card::new(5, Symbol::HEARTS);
    assert_eq!(0b0010_0101, card2.to_u32());
    let card3 = Card::new(7, Symbol::CLUBS);
    assert_eq!(0b0100_0111, card3.to_u32());
}

#[test]
fn create_deck() {
    let mut x = Deck::create_valid_deck();
    x.sort_by(|a, b| a.to_u32().cmp(&b.to_u32()));
    println!("{:?}", x);
    assert_eq!(52, x.len())
}

#[test]
fn create_new_deck() {
    let mut deck = Deck::new(4);
    let mut counter = 0;
    while counter < (4 * 52) {
        println!("{:08b}", deck.next_card().unwrap().to_u32());
        counter += 1;
    }
    assert_eq!(4 * 52, counter);
}
