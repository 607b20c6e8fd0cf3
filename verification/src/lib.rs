pub mod card;
pub mod deck;
pub mod hand;
pub mod player;
pub mod round;
