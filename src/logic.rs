use crate::errors::BlackjackError;
use crate::states::{
    card_used, max_payout, Game, GameView, DECK_SIZE, RNG_BYTES,
};
use vstd::prelude::*;

verus! {

/// Whether card index `c` is an Ace.
pub open spec fn is_ace(c: u8) -> bool {
    c % 13 == 0
}

/// The value of one card with an Ace counted as 11 and a face card as 10.
pub open spec fn card_value_spec(c: u8) -> int {
    let rank = (c % 13) + 1;
    if rank == 1 {
        11
    } else if rank >= 11 {
        10
    } else {
        rank as int
    }
}

/// Sum of the card values of a hand, every Ace counted as 11.
pub open spec fn raw_total(hand: Seq<u8>) -> int
    decreases hand.len(),
{
    if hand.len() == 0 {
        0
    } else {
        raw_total(hand.drop_last()) + card_value_spec(hand.last())
    }
}

/// Number of Aces in a hand.
pub open spec fn ace_count(hand: Seq<u8>) -> int
    decreases hand.len(),
{
    if hand.len() == 0 {
        0
    } else {
        ace_count(hand.drop_last()) + if is_ace(hand.last()) { 1int } else { 0int }
    }
}

/// While `total` exceeds 21 and an Ace counted as 11 remains, count one Ace as 1.
pub open spec fn demote_aces(total: int, aces: int) -> int
    decreases aces,
{
    if total > 21 && aces > 0 {
        demote_aces(total - 10, aces - 1)
    } else {
        total
    }
}

/// The best total of a hand.
pub open spec fn hand_total_spec(hand: Seq<u8>) -> int {
    demote_aces(raw_total(hand), ace_count(hand))
}

/// Two cards worth 21.
pub open spec fn is_blackjack_spec(hand: Seq<u8>) -> bool {
    hand.len() == 2 && hand_total_spec(hand) == 21
}

/// Some card of the hand is an Ace, however it was counted.
pub open spec fn has_ace(hand: Seq<u8>) -> bool {
    exists|i: int| 0 <= i < hand.len() && is_ace(#[trigger] hand[i])
}

/// The dealer draws below 17, and on a 17 that holds an Ace.
pub open spec fn dealer_should_hit_spec(hand: Seq<u8>) -> bool {
    hand_total_spec(hand) < 17 || (hand_total_spec(hand) == 17 && has_ace(hand))
}

/// What a bet of `bet` pays out for the final hands, the stake included.
pub open spec fn payout_spec(player: Seq<u8>, dealer: Seq<u8>, bet: int) -> int {
    let pt = hand_total_spec(player);
    let dt = hand_total_spec(dealer);
    if pt > 21 {
        0
    } else if dt > 21 {
        bet * 2
    } else if is_blackjack_spec(player) && !is_blackjack_spec(dealer) {
        bet + bet * 3 / 2
    } else if is_blackjack_spec(dealer) && !is_blackjack_spec(player) {
        0
    } else if pt > dt {
        bet * 2
    } else if pt < dt {
        0
    } else {
        bet
    }
}

proof fn lemma_raw_total_bounds(hand: Seq<u8>)
    ensures
        0 <= ace_count(hand) <= hand.len(),
        2 * hand.len() + 9 * ace_count(hand) <= raw_total(hand) <= 11 * hand.len(),
    decreases hand.len(),
{
    if hand.len() > 0 {
        lemma_raw_total_bounds(hand.drop_last());
    }
}

proof fn lemma_demote_bounds(total: int, aces: int)
    requires
        0 <= total,
    ensures
        0 <= demote_aces(total, aces) <= total,
    decreases aces,
{
    if total > 21 && aces > 0 {
        lemma_demote_bounds(total - 10, aces - 1);
    }
}

/// The best total of a hand lies between 0 and 11 points a card.
pub proof fn lemma_hand_total_bounds(hand: Seq<u8>)
    ensures
        0 <= hand_total_spec(hand) <= 11 * hand.len(),
{
    lemma_raw_total_bounds(hand);
    lemma_demote_bounds(raw_total(hand), ace_count(hand));
}

fn card_value(idx: u8) -> (r: u8)
    ensures
        r == card_value_spec(idx),
{
    let r = (idx % 13) + 1;
    if r == 1 {
        11
    } else if r >= 11 {
        10
    } else {
        r
    }
}

/// The best total of `hand`: Aces count 11, demoted to 1 one at a time while
/// the total exceeds 21. The result may still exceed 21 (a bust).
pub fn hand_total(hand: &Vec<u8>) -> (r: u8)
    requires
        hand@.len() <= 23,
    ensures
        r == hand_total_spec(hand@),
{
    let mut total: u32 = 0;
    let mut aces: u32 = 0;
    let mut i: usize = 0;
    while i < hand.len()
        invariant
            i <= hand@.len() <= 23,
            total == raw_total(hand@.subrange(0, i as int)),
            aces == ace_count(hand@.subrange(0, i as int)),
        decreases hand@.len() - i,
    {
        let c = hand[i];
        proof {
            let s = hand@.subrange(0, i as int + 1);
            assert(s.drop_last() =~= hand@.subrange(0, i as int));
            lemma_raw_total_bounds(hand@.subrange(0, i as int));
        }
        if (c % 13) + 1 == 1 {
            aces += 1;
        }
        total += card_value(c) as u32;
        i += 1;
    }
    assert(hand@.subrange(0, hand@.len() as int) =~= hand@);
    proof {
        lemma_raw_total_bounds(hand@);
        lemma_hand_total_bounds(hand@);
    }
    while total > 21 && aces > 0
        invariant
            demote_aces(total as int, aces as int) == hand_total_spec(hand@),
        decreases aces,
    {
        total -= 10;
        aces -= 1;
    }
    total as u8
}

/// Whether the hand is a blackjack: exactly two cards worth 21.
pub fn is_blackjack(hand: &Vec<u8>) -> (r: bool)
    ensures
        r == is_blackjack_spec(hand@),
{
    hand.len() == 2 && hand_total(hand) == 21
}

/// The dealer's policy: hit below 17, and on a 17 when any card is an Ace.
pub fn dealer_should_hit(dealer: &Vec<u8>) -> (r: bool)
    requires
        dealer@.len() <= 23,
    ensures
        r == dealer_should_hit_spec(dealer@),
{
    let total = hand_total(dealer);
    let mut ace_seen = false;
    let mut i: usize = 0;
    while i < dealer.len()
        invariant
            i <= dealer@.len(),
            ace_seen <==> exists|j: int| 0 <= j < i && is_ace(#[trigger] dealer@[j]),
        decreases dealer@.len() - i,
    {
        if (dealer[i] % 13) + 1 == 1 {
            ace_seen = true;
        }
        i += 1;
    }
    let soft17 = ace_seen && total == 17;
    total < 17 || soft17
}

/// What the bet pays out for the final hands, the stake included, or `None`
/// where that amount does not fit in 64 bits.
pub fn compute_payout(player: &Vec<u8>, dealer: &Vec<u8>, bet: u64) -> (r: Option<u64>)
    requires
        player@.len() <= 23,
        dealer@.len() <= 23,
    ensures
        r == (if payout_spec(player@, dealer@, bet as int) <= u64::MAX {
            Some(payout_spec(player@, dealer@, bet as int) as u64)
        } else {
            None
        }),
{
    let pt = hand_total(player);
    let dt = hand_total(dealer);
    let wide = bet as u128;
    let payout: u128 = if pt > 21 {
        0
    } else if dt > 21 {
        wide * 2
    } else {
        let p_bj = is_blackjack(player);
        let d_bj = is_blackjack(dealer);
        if p_bj && !d_bj {
            wide + wide * 3 / 2
        } else if d_bj && !p_bj {
            0
        } else if pt > dt {
            wide * 2
        } else if pt < dt {
            0
        } else {
            wide
        }
    };
    if payout <= u64::MAX as u128 {
        Some(payout as u64)
    } else {
        None
    }
}

/// A payout never exceeds stake plus one and a half stakes.
pub proof fn lemma_payout_at_most_max(player: Seq<u8>, dealer: Seq<u8>, bet: int)
    requires
        bet >= 0,
    ensures
        0 <= payout_spec(player, dealer, bet) <= max_payout(bet),
{
}

/// Most bytes that one draw reads before it gives up.
pub const DRAW_ATTEMPTS: u32 = 200;

/// The card that the byte under cursor position `cursor` stands for.
pub open spec fn candidate(rng: Seq<u8>, cursor: u8) -> u8 {
    (rng[(cursor as usize % RNG_BYTES) as int] % DECK_SIZE) as u8
}

/// The cursor position one byte further on, wrapping.
pub open spec fn next_cursor(cursor: u8) -> u8 {
    ((cursor as int + 1) % 256) as u8
}

/// The cursor position, from `cursor` on and within `tries` bytes, of the
/// first byte whose card is not yet in `mask`.
pub open spec fn scan(rng: Seq<u8>, cursor: u8, mask: u64, tries: nat) -> Option<u8>
    decreases tries,
{
    if tries == 0 {
        None
    } else if !card_used(mask, candidate(rng, cursor)) {
        Some(cursor)
    } else {
        scan(rng, next_cursor(cursor), mask, (tries - 1) as nat)
    }
}

/// The card that one draw deals, with the record after it; `None` where every
/// attempt collides.
pub open spec fn draw_step(v: GameView) -> Option<(u8, GameView)> {
    match scan(v.rng, v.rng_cursor, v.used_mask, DRAW_ATTEMPTS as nat) {
        Some(p) => {
            let c = candidate(v.rng, p);
            Some((c, GameView { rng_cursor: next_cursor(p), used_mask: v.used_mask | (1u64 << c), ..v }))
        },
        None => None,
    }
}

/// Marking card `c` in a mask marks it, and leaves every other card as it was.
pub proof fn lemma_mark_card(mask: u64, c: u8, d: u8)
    requires
        c < 64,
        d < 64,
    ensures
        card_used(mask | (1u64 << c), c),
        c != d ==> (card_used(mask | (1u64 << c), d) == card_used(mask, d)),
{
    let m2 = mask | (1u64 << c);
    assert(m2 & (1u64 << c) != 0) by (bit_vector)
        requires
            m2 == mask | (1u64 << c),
            c < 64,
    ;
    assert(c != d ==> ((m2 & (1u64 << d) != 0) == (mask & (1u64 << d) != 0))) by (bit_vector)
        requires
            m2 == mask | (1u64 << c),
            c < 64,
            d < 64,
    ;
}

/// A draw deals a card that was not dealt before, and marks it as dealt:
/// within one game no card index is dealt twice.
pub proof fn lemma_draw_fresh(v: GameView, d: u8)
    requires
        v.rng.len() == RNG_BYTES,
        draw_step(v) is Some,
        d < 64,
    ensures
        ({
            let (c, w) = draw_step(v)->Some_0;
            &&& c < DECK_SIZE
            &&& !card_used(v.used_mask, c)
            &&& card_used(w.used_mask, c)
            &&& c != d ==> card_used(w.used_mask, d) == card_used(v.used_mask, d)
        }),
{
    lemma_scan_free(v.rng, v.rng_cursor, v.used_mask, DRAW_ATTEMPTS as nat);
    let p = scan(v.rng, v.rng_cursor, v.used_mask, DRAW_ATTEMPTS as nat)->Some_0;
    lemma_mark_card(v.used_mask, candidate(v.rng, p), d);
}

/// The cards of `n` draws in a row, with the record after them; `None` where
/// one of them fails.
pub open spec fn draw_n(v: GameView, n: nat) -> Option<(Seq<u8>, GameView)>
    decreases n,
{
    if n == 0 {
        Some((Seq::empty(), v))
    } else {
        match draw_n(v, (n - 1) as nat) {
            None => None,
            Some((cards, w)) => match draw_step(w) {
                None => None,
                Some((c, x)) => Some((cards.push(c), x)),
            },
        }
    }
}

/// However many draws are made in a row, no card index comes out twice, none
/// was dealt before, and each is marked as dealt afterwards.
pub proof fn lemma_draws_never_repeat(v: GameView, n: nat)
    requires
        v.rng.len() == RNG_BYTES,
        draw_n(v, n) is Some,
    ensures
        ({
            let (cards, w) = draw_n(v, n)->Some_0;
            &&& w.rng == v.rng
            &&& cards.len() == n
            &&& forall|i: int, j: int| 0 <= i < j < cards.len() ==> #[trigger] cards[i] != #[trigger] cards[j]
            &&& forall|i: int| 0 <= i < cards.len() ==> {
                &&& #[trigger] cards[i] < DECK_SIZE
                &&& !card_used(v.used_mask, cards[i])
                &&& card_used(w.used_mask, cards[i])
            }
            &&& forall|d: u8| d < 64 && #[trigger] card_used(v.used_mask, d) ==> card_used(w.used_mask, d)
        }),
    decreases n,
{
    if n > 0 {
        lemma_draws_never_repeat(v, (n - 1) as nat);
        let (cards, w) = draw_n(v, (n - 1) as nat)->Some_0;
        let (c, x) = draw_step(w)->Some_0;
        lemma_draw_fresh(w, 0);
        assert forall|d: u8| d < 64 && #[trigger] card_used(w.used_mask, d) implies card_used(x.used_mask, d) by {
            lemma_draw_fresh(w, d);
        }
        assert forall|i: int| 0 <= i < cards.len() implies #[trigger] cards[i] != c && card_used(x.used_mask, cards[i]) by {
            lemma_draw_fresh(w, cards[i]);
        }
        assert forall|d: u8| d < 64 && #[trigger] card_used(v.used_mask, d) implies card_used(x.used_mask, d) by {
            lemma_draw_fresh(w, d);
        }
        assert(!card_used(v.used_mask, c));
        let all = cards.push(c);
        assert(all[cards.len() as int] == c);
    }
}

proof fn lemma_scan_free(rng: Seq<u8>, cursor: u8, mask: u64, tries: nat)
    requires
        rng.len() == RNG_BYTES,
    ensures
        scan(rng, cursor, mask, tries) matches Some(p) ==> {
            &&& !card_used(mask, candidate(rng, p))
            &&& candidate(rng, p) < DECK_SIZE
        },
    decreases tries,
{
    if tries > 0 && card_used(mask, candidate(rng, cursor)) {
        lemma_scan_free(rng, next_cursor(cursor), mask, (tries - 1) as nat);
    }
}

fn next_byte(game: &mut Game) -> (r: u8)
    ensures
        r == old(game)@.rng[(old(game).rng_cursor as usize % RNG_BYTES) as int],
        final(game)@ == (GameView { rng_cursor: next_cursor(old(game).rng_cursor), ..old(game)@ }),
{
    let i = game.rng_cursor as usize % RNG_BYTES;
    let b = game.rng[i];
    game.rng_cursor = game.rng_cursor.wrapping_add(1);
    b
}

/// Deals one card not dealt before in this game: reads bytes from the cursor
/// on, each reduced modulo 52, up to `DRAW_ATTEMPTS` of them, and takes the
/// first card whose bit in the mask is clear. Fails with `DeckExhausted`,
/// leaving the record as it was, where every attempt collides.
pub fn draw_unique_card(game: &mut Game) -> (r: Result<u8, BlackjackError>)
    ensures
        match draw_step(old(game)@) {
            Some((c, w)) => r == Ok::<u8, BlackjackError>(c) && final(game)@ == w,
            None => r == Err::<u8, BlackjackError>(BlackjackError::DeckExhausted)
                && final(game)@ == old(game)@,
        },
{
    let start = game.rng_cursor;
    let mut k: u32 = 0;
    while k < DRAW_ATTEMPTS
        invariant
            k <= DRAW_ATTEMPTS,
            game@ == (GameView { rng_cursor: game.rng_cursor, ..old(game)@ }),
            scan(old(game)@.rng, start, old(game).used_mask, DRAW_ATTEMPTS as nat)
                == scan(old(game)@.rng, game.rng_cursor, old(game).used_mask, (DRAW_ATTEMPTS - k) as nat),
            start == old(game).rng_cursor,
        decreases DRAW_ATTEMPTS - k,
    {
        let before = game.rng_cursor;
        let card = next_byte(game) % DECK_SIZE;
        assert(card == candidate(old(game)@.rng, before));
        let bit = 1u64 << (card as u64);
        if game.used_mask & bit == 0 {
            game.used_mask = game.used_mask | bit;
            return Ok(card);
        }
        k += 1;
    }
    game.rng_cursor = start;
    Err(BlackjackError::DeckExhausted)
}

} // verus!
