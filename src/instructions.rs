use crate::errors::BlackjackError;
use crate::logic::{
    compute_payout, lemma_payout_at_most_max, payout_spec,
    dealer_should_hit, dealer_should_hit_spec, draw_step, draw_unique_card, hand_total,
    hand_total_spec, lemma_draw_fresh,
};
use crate::states::{
    card_used, cards_wf, max_payout, Game, GameView, Status, Table, MAX_CARDS, RNG_BYTES,
};
use vstd::prelude::*;

verus! {

/// One card dealt into the player's hand (`to_player`) or the dealer's.
/// Fails with `HandFull` where that hand is full, and with `DeckExhausted`
/// where the draw fails.
pub open spec fn deal_spec(v: GameView, to_player: bool) -> Result<GameView, BlackjackError> {
    let hand = if to_player { v.player_cards } else { v.dealer_cards };
    if hand.len() >= MAX_CARDS {
        Err(BlackjackError::HandFull)
    } else {
        match draw_step(v) {
            None => Err(BlackjackError::DeckExhausted),
            Some((c, w)) => Ok(
                if to_player {
                    GameView { player_cards: w.player_cards.push(c), ..w }
                } else {
                    GameView { dealer_cards: w.dealer_cards.push(c), ..w }
                },
            ),
        }
    }
}

/// Dealing a card keeps the cards well formed and touches nothing but the
/// cursor, the mask and the hand dealt to.
pub proof fn lemma_deal_keeps_cards_wf(v: GameView, to_player: bool)
    requires
        cards_wf(v),
        deal_spec(v, to_player) is Ok,
    ensures
        cards_wf(deal_spec(v, to_player)->Ok_0),
{
    let (c, w) = draw_step(v)->Some_0;
    let m2 = w.used_mask;
    lemma_draw_fresh(v, 0);
    assert forall|i: int| 0 <= i < v.player_cards.len() implies card_used(m2, #[trigger] v.player_cards[i])
        && v.player_cards[i] != c by {
        lemma_draw_fresh(v, v.player_cards[i]);
    }
    assert forall|i: int| 0 <= i < v.dealer_cards.len() implies card_used(m2, #[trigger] v.dealer_cards[i])
        && v.dealer_cards[i] != c by {
        lemma_draw_fresh(v, v.dealer_cards[i]);
    }
    let r = deal_spec(v, to_player)->Ok_0;
    if to_player {
        assert(r.player_cards[v.player_cards.len() as int] == c);
    } else {
        assert(r.dealer_cards[v.dealer_cards.len() as int] == c);
    }
}

/// Deals one card into the player's hand (`to_player`) or the dealer's; the
/// record is unchanged where it fails.
fn deal_card(game: &mut Game, to_player: bool) -> (r: Result<(), BlackjackError>)
    ensures
        match deal_spec(old(game)@, to_player) {
            Ok(w) => r == Ok::<(), BlackjackError>(()) && final(game)@ == w,
            Err(e) => r == Err::<(), BlackjackError>(e) && final(game)@ == old(game)@,
        },
{
    let len = if to_player { game.player_cards.len() } else { game.dealer_cards.len() };
    if len >= MAX_CARDS {
        return Err(BlackjackError::HandFull);
    }
    let c = match draw_unique_card(game) {
        Ok(c) => c,
        Err(e) => return Err(e),
    };
    if to_player {
        game.player_cards.push(c);
    } else {
        game.dealer_cards.push(c);
    }
    Ok(())
}

/// The player draws a card: a bust settles the hand, 21 hands the turn to
/// the dealer, anything else keeps the player's turn.
pub open spec fn player_hit_spec(v: GameView) -> Result<GameView, BlackjackError> {
    if v.status != Status::PlayerTurn {
        Err(BlackjackError::BadState)
    } else {
        match deal_spec(v, true) {
            Err(e) => Err(e),
            Ok(w) => {
                let t = hand_total_spec(w.player_cards);
                Ok(GameView {
                    status: if t > 21 {
                        Status::Settled
                    } else if t == 21 {
                        Status::DealerTurn
                    } else {
                        Status::PlayerTurn
                    },
                    ..w
                })
            },
        }
    }
}

/// The player stands: the hand settles where the dealer stood already, else
/// the dealer's turn begins.
pub open spec fn player_stand_spec(v: GameView) -> Result<GameView, BlackjackError> {
    if v.status != Status::PlayerTurn {
        Err(BlackjackError::BadState)
    } else {
        Ok(GameView {
            player_stood: true,
            status: if v.dealer_stood { Status::Settled } else { Status::DealerTurn },
            ..v
        })
    }
}

/// The dealer draws a card: the hand settles where the dealer's policy now
/// stands or the dealer busts, else the dealer's turn goes on.
pub open spec fn dealer_hit_spec(v: GameView) -> Result<GameView, BlackjackError> {
    if v.status != Status::DealerTurn {
        Err(BlackjackError::BadState)
    } else {
        match deal_spec(v, false) {
            Err(e) => Err(e),
            Ok(w) => Ok(GameView {
                status: if !dealer_should_hit_spec(w.dealer_cards) || hand_total_spec(w.dealer_cards) > 21 {
                    Status::Settled
                } else {
                    Status::DealerTurn
                },
                ..w
            }),
        }
    }
}

/// The dealer stands: the hand settles where the player stood already, else
/// the player's turn comes back.
pub open spec fn dealer_stand_spec(v: GameView) -> Result<GameView, BlackjackError> {
    if v.status != Status::DealerTurn {
        Err(BlackjackError::BadState)
    } else {
        Ok(GameView {
            dealer_stood: true,
            status: if v.player_stood { Status::Settled } else { Status::PlayerTurn },
            ..v
        })
    }
}

/// Draws one card into the player's hand (see `player_hit_spec`). On an error
/// the record is left as it was.
pub fn player_hit(game: &mut Game) -> (r: Result<(), BlackjackError>)
    requires
        old(game).wf(),
    ensures
        final(game).wf(),
        match player_hit_spec(old(game)@) {
            Ok(w) => r == Ok::<(), BlackjackError>(()) && final(game)@ == w,
            Err(e) => r == Err::<(), BlackjackError>(e) && final(game)@ == old(game)@,
        },
{
    if game.status != Status::PlayerTurn {
        return Err(BlackjackError::BadState);
    }
    proof {
        if deal_spec(game@, true) is Ok {
            lemma_deal_keeps_cards_wf(game@, true);
        }
    }
    match deal_card(game, true) {
        Ok(()) => {},
        Err(e) => return Err(e),
    }
    let pt = hand_total(&game.player_cards);
    if pt > 21 {
        game.status = Status::Settled;
    } else if pt == 21 {
        game.status = Status::DealerTurn;
    } else {
        game.status = Status::PlayerTurn;
    }
    Ok(())
}

/// The player stands (see `player_stand_spec`).
pub fn player_stand(game: &mut Game) -> (r: Result<(), BlackjackError>)
    requires
        old(game).wf(),
    ensures
        final(game).wf(),
        match player_stand_spec(old(game)@) {
            Ok(w) => r == Ok::<(), BlackjackError>(()) && final(game)@ == w,
            Err(e) => r == Err::<(), BlackjackError>(e) && final(game)@ == old(game)@,
        },
{
    if game.status != Status::PlayerTurn {
        return Err(BlackjackError::BadState);
    }
    game.player_stood = true;
    if game.dealer_stood {
        game.status = Status::Settled;
    } else {
        game.status = Status::DealerTurn;
    }
    Ok(())
}

/// Draws one card into the dealer's hand (see `dealer_hit_spec`). On an error
/// the record is left as it was.
pub fn dealer_hit(game: &mut Game) -> (r: Result<(), BlackjackError>)
    requires
        old(game).wf(),
    ensures
        final(game).wf(),
        match dealer_hit_spec(old(game)@) {
            Ok(w) => r == Ok::<(), BlackjackError>(()) && final(game)@ == w,
            Err(e) => r == Err::<(), BlackjackError>(e) && final(game)@ == old(game)@,
        },
{
    if game.status != Status::DealerTurn {
        return Err(BlackjackError::BadState);
    }
    proof {
        if deal_spec(game@, false) is Ok {
            lemma_deal_keeps_cards_wf(game@, false);
        }
    }
    match deal_card(game, false) {
        Ok(()) => {},
        Err(e) => return Err(e),
    }
    if !dealer_should_hit(&game.dealer_cards) || hand_total(&game.dealer_cards) > 21 {
        game.status = Status::Settled;
    } else {
        game.status = Status::DealerTurn;
    }
    Ok(())
}

/// The dealer stands (see `dealer_stand_spec`).
pub fn dealer_stand(game: &mut Game) -> (r: Result<(), BlackjackError>)
    requires
        old(game).wf(),
    ensures
        final(game).wf(),
        match dealer_stand_spec(old(game)@) {
            Ok(w) => r == Ok::<(), BlackjackError>(()) && final(game)@ == w,
            Err(e) => r == Err::<(), BlackjackError>(e) && final(game)@ == old(game)@,
        },
{
    if game.status != Status::DealerTurn {
        return Err(BlackjackError::BadState);
    }
    game.dealer_stood = true;
    if game.player_stood {
        game.status = Status::Settled;
    } else {
        game.status = Status::PlayerTurn;
    }
    Ok(())
}

/// What a table is created from: the authority that runs it, the escrow
/// account and that account's bump seed.
#[derive(Clone, Copy, Debug)]
pub struct CreateTable {
    pub authority: [u8; 32],
    pub vault: [u8; 32],
    pub vault_bump: u8,
}

/// Creates the table record; the table's own bump is left at zero.
pub fn create_table(ctx: &CreateTable) -> (r: Table)
    ensures
        r.authority == ctx.authority,
        r.vault == ctx.vault,
        r.vault_bump == ctx.vault_bump,
        r.table_bump == 0,
{
    Table { authority: ctx.authority, vault: ctx.vault, table_bump: 0, vault_bump: ctx.vault_bump }
}

/// What a new bet is placed with: the player, the table, and the escrow's
/// balance before the stake is paid in.
#[derive(Clone, Copy, Debug)]
pub struct NewGame {
    pub player: [u8; 32],
    pub table: [u8; 32],
    pub vault_lamports: u64,
}

/// Whether an escrow holding `vault` can cover the largest payout of a bet of
/// `bet` once the stake is paid in (the sum saturating at the largest `u64`).
pub open spec fn vault_covers(vault: u64, bet: u64) -> bool {
    let avail = if vault + bet > u64::MAX { u64::MAX as int } else { vault + bet };
    avail >= max_payout(bet as int)
}

/// The fresh record of a bet: waiting for randomness, nothing dealt.
pub open spec fn fresh_game(ctx: NewGame, bet: u64) -> GameView {
    GameView {
        table: ctx.table,
        player: ctx.player,
        bet_amount: bet,
        status: Status::AwaitingRandomness,
        used_mask: 0,
        rng: Seq::new(RNG_BYTES as nat, |i: int| 0u8),
        rng_cursor: 0,
        player_cards: Seq::empty(),
        dealer_cards: Seq::empty(),
        player_stood: false,
        dealer_stood: false,
    }
}

/// Opens a game for a bet of `bet_amount`. Fails with `InvalidBet` on a zero
/// stake, and with `VaultInsufficient` where the escrow cannot cover the
/// largest payout. Paying the stake into the escrow is the caller's part.
pub fn new_game(ctx: &NewGame, bet_amount: u64) -> (r: Result<Game, BlackjackError>)
    ensures
        bet_amount == 0 ==> r == Err::<Game, BlackjackError>(BlackjackError::InvalidBet),
        bet_amount > 0 && !vault_covers(ctx.vault_lamports, bet_amount) ==> r == Err::<
            Game,
            BlackjackError,
        >(BlackjackError::VaultInsufficient),
        bet_amount > 0 && vault_covers(ctx.vault_lamports, bet_amount) ==> r is Ok,
        r matches Ok(g) ==> g@ == fresh_game(*ctx, bet_amount) && g.wf(),
{
    if bet_amount == 0 {
        return Err(BlackjackError::InvalidBet);
    }
    let max_payout = (bet_amount as u128) * 5 / 2;
    let avail = ctx.vault_lamports.saturating_add(bet_amount);
    if (avail as u128) < max_payout {
        return Err(BlackjackError::VaultInsufficient);
    }
    let g = Game {
        table: ctx.table,
        player: ctx.player,
        bet_amount,
        status: Status::AwaitingRandomness,
        used_mask: 0,
        rng: [0u8; RNG_BYTES],
        rng_cursor: 0,
        player_cards: Vec::new(),
        dealer_cards: Vec::new(),
        player_stood: false,
        dealer_stood: false,
    };
    assert(g.rng@ =~= Seq::new(RNG_BYTES as nat, |i: int| 0u8));
    assert(g.player_cards@ =~= Seq::<u8>::empty());
    assert(g.dealer_cards@ =~= Seq::<u8>::empty());
    Ok(g)
}

/// Randomness arrives: the buffer is set, the cursor and the mask start over,
/// and four cards are dealt in the order player, player, dealer, dealer; then
/// the player's turn begins.
pub open spec fn fulfill_spec(v: GameView, randomness: Seq<u8>) -> Result<GameView, BlackjackError> {
    if v.status != Status::AwaitingRandomness {
        Err(BlackjackError::BadState)
    } else {
        let v0 = GameView { rng: randomness, rng_cursor: 0, used_mask: 0, ..v };
        match deal_spec(v0, true) {
            Err(e) => Err(e),
            Ok(v1) => match deal_spec(v1, true) {
                Err(e) => Err(e),
                Ok(v2) => match deal_spec(v2, false) {
                    Err(e) => Err(e),
                    Ok(v3) => match deal_spec(v3, false) {
                        Err(e) => Err(e),
                        Ok(v4) => Ok(GameView { status: Status::PlayerTurn, ..v4 }),
                    },
                },
            },
        }
    }
}

/// Hands the record its random buffer and deals the opening cards (see
/// `fulfill_spec`). All four draws take effect or none: on an error the
/// record is left as it was.
pub fn dev_fulfill(game: &mut Game, randomness: [u8; RNG_BYTES]) -> (r: Result<(), BlackjackError>)
    requires
        old(game).wf(),
    ensures
        final(game).wf(),
        match fulfill_spec(old(game)@, randomness@) {
            Ok(w) => r == Ok::<(), BlackjackError>(()) && final(game)@ == w,
            Err(e) => r == Err::<(), BlackjackError>(e) && final(game)@ == old(game)@,
        },
{
    if game.status != Status::AwaitingRandomness {
        return Err(BlackjackError::BadState);
    }
    let mut staged = Game {
        table: game.table,
        player: game.player,
        bet_amount: game.bet_amount,
        status: game.status,
        used_mask: 0,
        rng: randomness,
        rng_cursor: 0,
        player_cards: Vec::new(),
        dealer_cards: Vec::new(),
        player_stood: game.player_stood,
        dealer_stood: game.dealer_stood,
    };
    assert(staged@.player_cards =~= game@.player_cards);
    assert(staged@.dealer_cards =~= game@.dealer_cards);
    assert(staged@ == (GameView { rng: randomness@, rng_cursor: 0, used_mask: 0, ..game@ }));
    proof {
        if deal_spec(staged@, true) is Ok {
            lemma_deal_keeps_cards_wf(staged@, true);
        }
    }
    match deal_card(&mut staged, true) {
        Ok(()) => {},
        Err(e) => return Err(e),
    }
    proof {
        if deal_spec(staged@, true) is Ok {
            lemma_deal_keeps_cards_wf(staged@, true);
        }
    }
    match deal_card(&mut staged, true) {
        Ok(()) => {},
        Err(e) => return Err(e),
    }
    proof {
        if deal_spec(staged@, false) is Ok {
            lemma_deal_keeps_cards_wf(staged@, false);
        }
    }
    match deal_card(&mut staged, false) {
        Ok(()) => {},
        Err(e) => return Err(e),
    }
    proof {
        if deal_spec(staged@, false) is Ok {
            lemma_deal_keeps_cards_wf(staged@, false);
        }
    }
    match deal_card(&mut staged, false) {
        Ok(()) => {},
        Err(e) => return Err(e),
    }
    staged.status = Status::PlayerTurn;
    *game = staged;
    Ok(())
}

/// The dealer's play at settlement: draw while the dealer's policy says hit.
pub open spec fn auto_play(v: GameView) -> Result<GameView, BlackjackError>
    decreases MAX_CARDS - v.dealer_cards.len(),
{
    if !dealer_should_hit_spec(v.dealer_cards) {
        Ok(v)
    } else if v.dealer_cards.len() >= MAX_CARDS {
        Err(BlackjackError::HandFull)
    } else {
        match draw_step(v) {
            None => Err(BlackjackError::DeckExhausted),
            Some((c, w)) => auto_play(GameView { dealer_cards: v.dealer_cards.push(c), ..w }),
        }
    }
}

/// Settlement: from the dealer's turn the dealer first plays out its hand;
/// then the payout is worked out and the record closes. The result is the
/// closed record and the payout.
pub open spec fn settle_spec(v: GameView) -> Result<(GameView, int), BlackjackError> {
    if v.status != Status::Settled && v.status != Status::DealerTurn {
        Err(BlackjackError::BadState)
    } else {
        let played = if v.status == Status::DealerTurn { auto_play(v) } else { Ok(v) };
        match played {
            Err(e) => Err(e),
            Ok(w) => Ok(
                (
                    GameView { status: Status::Closed, ..w },
                    payout_spec(w.player_cards, w.dealer_cards, w.bet_amount as int),
                ),
            ),
        }
    }
}

/// Draws into the dealer's hand while the dealer's policy says hit (see
/// `auto_play`). On an error the record may hold some of the draws.
fn play_dealer(game: &mut Game) -> (r: Result<(), BlackjackError>)
    requires
        old(game).wf(),
        old(game).status == Status::DealerTurn,
    ensures
        final(game).wf(),
        match auto_play(old(game)@) {
            Ok(w) => r == Ok::<(), BlackjackError>(()) && final(game)@ == w,
            Err(e) => r == Err::<(), BlackjackError>(e),
        },
{
    while dealer_should_hit(&game.dealer_cards)
        invariant
            game.wf(),
            game.status == Status::DealerTurn,
            auto_play(game@) == auto_play(old(game)@),
        decreases MAX_CARDS - game.dealer_cards@.len(),
    {
        proof {
            if deal_spec(game@, false) is Ok {
                lemma_deal_keeps_cards_wf(game@, false);
            }
        }
        match deal_card(game, false) {
            Ok(()) => {},
            Err(e) => return Err(e),
        }
    }
    Ok(())
}

/// Settles the hand (see `settle_spec`) and returns the payout, which the
/// caller disburses from the escrow. The dealer's draws take effect together
/// or not at all: on an error the record is left as it was.
pub fn settle(game: &mut Game) -> (r: Result<u64, BlackjackError>)
    requires
        old(game).wf(),
    ensures
        final(game).wf(),
        match settle_spec(old(game)@) {
            Ok((w, p)) => r == Ok::<u64, BlackjackError>(p as u64) && final(game)@ == w,
            Err(e) => r == Err::<u64, BlackjackError>(e) && final(game)@ == old(game)@,
        },
{
    if game.status != Status::Settled && game.status != Status::DealerTurn {
        return Err(BlackjackError::BadState);
    }
    let mut staged = Game {
        table: game.table,
        player: game.player,
        bet_amount: game.bet_amount,
        status: game.status,
        used_mask: game.used_mask,
        rng: game.rng,
        rng_cursor: game.rng_cursor,
        player_cards: game.player_cards.clone(),
        dealer_cards: game.dealer_cards.clone(),
        player_stood: game.player_stood,
        dealer_stood: game.dealer_stood,
    };
    assert(staged@.player_cards =~= game@.player_cards);
    assert(staged@.dealer_cards =~= game@.dealer_cards);
    assert(staged@ == game@);
    if staged.status == Status::DealerTurn {
        match play_dealer(&mut staged) {
            Ok(()) => {},
            Err(e) => return Err(e),
        }
    }
    proof {
        lemma_payout_at_most_max(staged@.player_cards, staged@.dealer_cards, staged.bet_amount as int);
    }
    let payout = compute_payout(&staged.player_cards, &staged.dealer_cards, staged.bet_amount).unwrap();
    staged.status = Status::Closed;
    *game = staged;
    Ok(payout)
}

/// A record that settlement has closed refuses every action with `BadState`.
pub proof fn lemma_closed_refuses_all(v: GameView, randomness: Seq<u8>)
    requires
        settle_spec(v) is Ok,
    ensures
        ({
            let w = settle_spec(v)->Ok_0.0;
            &&& w.status == Status::Closed
            &&& fulfill_spec(w, randomness) == Err::<GameView, BlackjackError>(BlackjackError::BadState)
            &&& player_hit_spec(w) == Err::<GameView, BlackjackError>(BlackjackError::BadState)
            &&& player_stand_spec(w) == Err::<GameView, BlackjackError>(BlackjackError::BadState)
            &&& dealer_hit_spec(w) == Err::<GameView, BlackjackError>(BlackjackError::BadState)
            &&& dealer_stand_spec(w) == Err::<GameView, BlackjackError>(BlackjackError::BadState)
            &&& settle_spec(w) is Err && settle_spec(w)->Err_0 == BlackjackError::BadState
        }),
{
}

} // verus!
