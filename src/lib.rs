//! A single-hand blackjack engine: card drawing from a fixed random buffer,
//! ace-flexible hand evaluation, the dealer's policy, the payout formula and
//! the turn state machine that ties them together.
pub mod errors;
pub mod states;
pub mod logic;
pub mod instructions;
