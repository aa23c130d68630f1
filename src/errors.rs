use vstd::prelude::*;

verus! {

/// Every way in which an action of the engine can fail.
#[derive(Clone, Copy, Debug, PartialEq, Eq, Structural)]
pub enum BlackjackError {
    /// The stake is not positive.
    InvalidBet,
    /// The action is not allowed in the record's current status.
    BadState,
    /// The escrow cannot cover the worst-case payout of the stake.
    VaultInsufficient,
    /// The randomness was delivered by a party that may not deliver it.
    UnauthorizedVrf,
    /// Every attempt of a bounded draw landed on a card already dealt.
    DeckExhausted,
    /// The random buffer has no bytes left to read.
    RngExhausted,
    /// No card is left to deal.
    DeckEmpty,
    /// The caller is not the player of the record.
    NotPlayer,
    /// A hand already holds as many cards as a record can store.
    HandFull,
}

} // verus!
