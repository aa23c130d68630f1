use vstd::prelude::*;

verus! {

/// Number of bytes in a record's random buffer.
pub const RNG_BYTES: usize = 32;

/// Most cards that a record stores in one hand.
pub const MAX_CARDS: usize = 12;

/// Number of distinct card indices, `0..DECK_SIZE`.
pub const DECK_SIZE: u8 = 52;

/// The stages of one hand of play.
#[derive(Clone, Copy, Debug, PartialEq, Eq, Structural)]
pub enum Status {
    AwaitingRandomness,
    PlayerTurn,
    DealerTurn,
    Settled,
    Closed,
    PlayerWin,
    DealerWin,
    Push,
}

/// The table that games are played at: who runs it and where its escrow is.
#[derive(Clone, Copy, Debug)]
pub struct Table {
    pub authority: [u8; 32],
    pub vault: [u8; 32],
    pub table_bump: u8,
    pub vault_bump: u8,
}

/// The persisted record of one hand in progress.
#[derive(Debug)]
pub struct Game {
    pub table: [u8; 32],
    pub player: [u8; 32],
    pub bet_amount: u64,
    pub status: Status,
    pub used_mask: u64,
    pub rng: [u8; RNG_BYTES],
    pub rng_cursor: u8,
    pub player_cards: Vec<u8>,
    pub dealer_cards: Vec<u8>,
    pub player_stood: bool,
    pub dealer_stood: bool,
}

/// The mathematical value of a [`Game`]: the same fields, with the buffer and
/// the hands as sequences.
pub struct GameView {
    pub table: [u8; 32],
    pub player: [u8; 32],
    pub bet_amount: u64,
    pub status: Status,
    pub used_mask: u64,
    pub rng: Seq<u8>,
    pub rng_cursor: u8,
    pub player_cards: Seq<u8>,
    pub dealer_cards: Seq<u8>,
    pub player_stood: bool,
    pub dealer_stood: bool,
}

impl View for Game {
    type V = GameView;

    open spec fn view(&self) -> GameView {
        GameView {
            table: self.table,
            player: self.player,
            bet_amount: self.bet_amount,
            status: self.status,
            used_mask: self.used_mask,
            rng: self.rng@,
            rng_cursor: self.rng_cursor,
            player_cards: self.player_cards@,
            dealer_cards: self.dealer_cards@,
            player_stood: self.player_stood,
            dealer_stood: self.dealer_stood,
        }
    }
}

/// Whether card `c` is marked as dealt in `mask`.
pub open spec fn card_used(mask: u64, c: u8) -> bool {
    mask & (1u64 << c) != 0
}

/// Every card of `hand` is a valid index and is marked in `mask`.
pub open spec fn hand_marked(hand: Seq<u8>, mask: u64) -> bool {
    forall|i: int| 0 <= i < hand.len() ==> {
        &&& #[trigger] hand[i] < DECK_SIZE
        &&& card_used(mask, hand[i])
    }
}

/// No card occurs twice in `hand`.
pub open spec fn distinct(hand: Seq<u8>) -> bool {
    forall|i: int, j: int| 0 <= i < j < hand.len() ==> #[trigger] hand[i] != #[trigger] hand[j]
}

/// No card occurs in both hands.
pub open spec fn disjoint(a: Seq<u8>, b: Seq<u8>) -> bool {
    forall|i: int, j: int| 0 <= i < a.len() && 0 <= j < b.len() ==> #[trigger] a[i] != #[trigger] b[j]
}

/// The dealt cards are valid indices, marked in the mask, never dealt twice
/// across both hands, and each hand fits in a record.
pub open spec fn cards_wf(v: GameView) -> bool {
    &&& v.rng.len() == RNG_BYTES
    &&& v.player_cards.len() <= MAX_CARDS
    &&& v.dealer_cards.len() <= MAX_CARDS
    &&& hand_marked(v.player_cards, v.used_mask)
    &&& hand_marked(v.dealer_cards, v.used_mask)
    &&& distinct(v.player_cards)
    &&& distinct(v.dealer_cards)
    &&& disjoint(v.player_cards, v.dealer_cards)
}

/// The largest amount that a bet of `bet` can pay out: stake plus one and a half stakes.
pub open spec fn max_payout(bet: int) -> int {
    bet * 5 / 2
}

impl GameView {
    /// The record's invariant: a positive stake whose largest payout fits in
    /// 64 bits, well-formed hands, and no card dealt before randomness arrives.
    pub open spec fn wf(self) -> bool {
        &&& self.bet_amount > 0
        &&& max_payout(self.bet_amount as int) <= u64::MAX
        &&& cards_wf(self)
        &&& self.status == Status::AwaitingRandomness ==> {
            &&& self.player_cards.len() == 0
            &&& self.dealer_cards.len() == 0
        }
    }
}

impl Game {
    /// The record's invariant, on its view.
    pub open spec fn wf(&self) -> bool {
        self@.wf()
    }
}

fn hand_is_marked(hand: &Vec<u8>, mask: u64) -> (r: bool)
    ensures
        r == hand_marked(hand@, mask),
{
    let mut i: usize = 0;
    while i < hand.len()
        invariant
            i <= hand@.len(),
            forall|k: int| 0 <= k < i ==> {
                &&& #[trigger] hand@[k] < DECK_SIZE
                &&& card_used(mask, hand@[k])
            },
        decreases hand@.len() - i,
    {
        let c = hand[i];
        if c >= DECK_SIZE || mask & (1u64 << c) == 0 {
            return false;
        }
        i += 1;
    }
    true
}

fn all_distinct(hand: &Vec<u8>) -> (r: bool)
    ensures
        r == distinct(hand@),
{
    let mut i: usize = 0;
    while i < hand.len()
        invariant
            i <= hand@.len(),
            forall|x: int, y: int| 0 <= x < i && x < y < hand@.len() ==> #[trigger] hand@[x] != #[trigger] hand@[y],
        decreases hand@.len() - i,
    {
        let mut j: usize = i + 1;
        while j < hand.len()
            invariant
                i < hand@.len(),
                i < j <= hand@.len(),
                forall|x: int, y: int| 0 <= x < i && x < y < hand@.len() ==> #[trigger] hand@[x] != #[trigger] hand@[y],
                forall|y: int| i < y < j ==> hand@[i as int] != #[trigger] hand@[y],
            decreases hand@.len() - j,
        {
            if hand[i] == hand[j] {
                return false;
            }
            j += 1;
        }
        i += 1;
    }
    true
}

fn hands_disjoint(a: &Vec<u8>, b: &Vec<u8>) -> (r: bool)
    ensures
        r == disjoint(a@, b@),
{
    let mut i: usize = 0;
    while i < a.len()
        invariant
            i <= a@.len(),
            forall|x: int, y: int| 0 <= x < i && 0 <= y < b@.len() ==> #[trigger] a@[x] != #[trigger] b@[y],
        decreases a@.len() - i,
    {
        let mut j: usize = 0;
        while j < b.len()
            invariant
                i < a@.len(),
                j <= b@.len(),
                forall|x: int, y: int| 0 <= x < i && 0 <= y < b@.len() ==> #[trigger] a@[x] != #[trigger] b@[y],
                forall|y: int| 0 <= y < j ==> a@[i as int] != #[trigger] b@[y],
            decreases b@.len() - j,
        {
            if a[i] == b[j] {
                return false;
            }
            j += 1;
        }
        i += 1;
    }
    true
}

impl Game {
    /// Whether the record holds the invariant `wf`: for records read back
    /// from storage before an action is applied to them.
    pub fn is_well_formed(&self) -> (r: bool)
        ensures
            r == self.wf(),
    {
        if self.bet_amount == 0 || (self.bet_amount as u128) * 5 / 2 > u64::MAX as u128 {
            return false;
        }
        if self.player_cards.len() > MAX_CARDS || self.dealer_cards.len() > MAX_CARDS {
            return false;
        }
        if self.status == Status::AwaitingRandomness
            && (self.player_cards.len() != 0 || self.dealer_cards.len() != 0) {
            return false;
        }
        hand_is_marked(&self.player_cards, self.used_mask)
            && hand_is_marked(&self.dealer_cards, self.used_mask)
            && all_distinct(&self.player_cards)
            && all_distinct(&self.dealer_cards)
            && hands_disjoint(&self.player_cards, &self.dealer_cards)
    }
}

} // verus!
