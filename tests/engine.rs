use blackjack::errors::BlackjackError;
use blackjack::instructions::{
    create_table, dealer_hit, dealer_stand, dev_fulfill, new_game, player_hit, player_stand,
    settle, CreateTable, NewGame,
};
use blackjack::logic::{compute_payout, dealer_should_hit, draw_unique_card, hand_total, is_blackjack};
use blackjack::states::{Game, Status, MAX_CARDS, RNG_BYTES};

// Card indices: rank is index % 13 + 1, so 0 is an Ace, 12 a King.
const ACE: u8 = 0;
const TWO: u8 = 1;
const SIX: u8 = 5;
const SEVEN: u8 = 6;
const NINE: u8 = 8;
const TEN: u8 = 9;
const JACK: u8 = 10;
const QUEEN: u8 = 11;
const KING: u8 = 12;

fn ctx(vault_lamports: u64) -> NewGame {
    NewGame { player: [7u8; 32], table: [9u8; 32], vault_lamports }
}

fn buffer(prefix: &[u8]) -> [u8; RNG_BYTES] {
    let mut rng = [0u8; RNG_BYTES];
    rng[..prefix.len()].copy_from_slice(prefix);
    rng
}

fn game_with_bet(bet: u64) -> Game {
    new_game(&ctx(1_000_000), bet).unwrap()
}

/// A game dealt player {Ace, King} and dealer {9, 7}; the next byte deals a 2.
fn dealt_blackjack_game() -> Game {
    let mut g = game_with_bet(100);
    // bytes above 52 are reduced modulo 52
    let rng = buffer(&[ACE, KING + 52, NINE, SEVEN + 104, TWO, 3, 4, 5]);
    dev_fulfill(&mut g, rng).unwrap();
    g
}

#[test]
fn hand_total_ace_king_is_blackjack() {
    let hand = vec![ACE, KING];
    assert_eq!(hand_total(&hand), 21);
    assert!(is_blackjack(&hand));
}

#[test]
fn hand_total_two_aces_and_nine() {
    assert_eq!(hand_total(&vec![ACE, ACE + 13, NINE]), 21);
}

#[test]
fn hand_total_edges() {
    assert_eq!(hand_total(&vec![]), 0);
    assert_eq!(hand_total(&vec![ACE]), 11);
    assert_eq!(hand_total(&vec![ACE, ACE + 13]), 12);
    assert_eq!(hand_total(&vec![KING, QUEEN, JACK]), 30);
    assert_eq!(hand_total(&vec![ACE, ACE + 13, ACE + 26, ACE + 39, KING, QUEEN]), 24);
    assert_eq!(hand_total(&vec![SEVEN, NINE]), 16);
}

#[test]
fn is_blackjack_needs_two_cards() {
    assert!(!is_blackjack(&vec![SEVEN, SEVEN + 13, SEVEN + 26]));
    assert!(!is_blackjack(&vec![KING, QUEEN]));
    assert!(is_blackjack(&vec![TEN, ACE]));
}

#[test]
fn dealer_policy_soft_seventeen() {
    assert!(dealer_should_hit(&vec![ACE, SIX]));
    assert!(!dealer_should_hit(&vec![TEN, SEVEN]));
}

#[test]
fn dealer_policy_demoted_ace_seventeen_still_hits() {
    // Ace, 6, King: 17 with the Ace counted as 1, and still a hit
    assert!(dealer_should_hit(&vec![ACE, SIX, KING]));
    assert!(dealer_should_hit(&vec![TEN, SIX]));
    assert!(!dealer_should_hit(&vec![TEN, SEVEN, ACE]));
    assert!(!dealer_should_hit(&vec![KING, QUEEN, TWO]));
}

#[test]
fn payout_blackjack_against_twenty() {
    assert_eq!(compute_payout(&vec![ACE, KING], &vec![KING, QUEEN], 100), Some(250));
}

#[test]
fn payout_player_bust() {
    assert_eq!(compute_payout(&vec![KING, QUEEN, JACK], &vec![ACE, KING], 100), Some(0));
    assert_eq!(compute_payout(&vec![KING, QUEEN, JACK], &vec![KING, QUEEN, TWO], 100), Some(0));
}

#[test]
fn payout_push() {
    assert_eq!(compute_payout(&vec![KING, QUEEN], &vec![TEN, JACK], 100), Some(100));
}

#[test]
fn payout_other_outcomes() {
    // dealer busts
    assert_eq!(compute_payout(&vec![TEN, SIX], &vec![KING, QUEEN, TWO], 100), Some(200));
    // dealer blackjack
    assert_eq!(compute_payout(&vec![KING, QUEEN], &vec![ACE, JACK], 100), Some(0));
    // both blackjack: a push
    assert_eq!(compute_payout(&vec![ACE, QUEEN], &vec![ACE + 13, JACK], 100), Some(100));
    // higher total wins, lower loses
    assert_eq!(compute_payout(&vec![KING, NINE], &vec![KING, SEVEN], 100), Some(200));
    assert_eq!(compute_payout(&vec![KING, SEVEN], &vec![KING, NINE], 100), Some(0));
    // floor of one and a half stakes
    assert_eq!(compute_payout(&vec![ACE, KING], &vec![KING, QUEEN], 3), Some(7));
}

#[test]
fn payout_that_does_not_fit_is_none() {
    assert_eq!(compute_payout(&vec![TEN, SIX], &vec![KING, QUEEN, TWO], u64::MAX), None);
    assert_eq!(compute_payout(&vec![KING, QUEEN], &vec![TEN, JACK], u64::MAX), Some(u64::MAX));
}

#[test]
fn new_game_zero_bet_is_invalid() {
    assert_eq!(new_game(&ctx(1_000_000), 0).unwrap_err(), BlackjackError::InvalidBet);
}

#[test]
fn new_game_needs_vault_cover() {
    // 150 + 100 covers 100 * 5 / 2 = 250, 149 + 100 does not
    assert!(new_game(&ctx(150), 100).is_ok());
    assert_eq!(new_game(&ctx(149), 100).unwrap_err(), BlackjackError::VaultInsufficient);
    assert_eq!(new_game(&ctx(u64::MAX), u64::MAX).unwrap_err(), BlackjackError::VaultInsufficient);
}

#[test]
fn new_game_record_is_fresh() {
    let g = new_game(&ctx(500), 100).unwrap();
    assert_eq!(g.bet_amount, 100);
    assert_eq!(g.status, Status::AwaitingRandomness);
    assert_eq!(g.player, [7u8; 32]);
    assert_eq!(g.table, [9u8; 32]);
    assert_eq!(g.used_mask, 0);
    assert_eq!(g.rng_cursor, 0);
    assert_eq!(g.rng, [0u8; RNG_BYTES]);
    assert!(g.player_cards.is_empty() && g.dealer_cards.is_empty());
    assert!(!g.player_stood && !g.dealer_stood);
}

#[test]
fn create_table_records_accounts() {
    let t = create_table(&CreateTable { authority: [1u8; 32], vault: [2u8; 32], vault_bump: 254 });
    assert_eq!(t.authority, [1u8; 32]);
    assert_eq!(t.vault, [2u8; 32]);
    assert_eq!(t.vault_bump, 254);
    assert_eq!(t.table_bump, 0);
}

#[test]
fn draw_skips_used_cards_and_marks_them() {
    let mut g = game_with_bet(10);
    g.rng = buffer(&[5, 57, 109, 6]);
    g.used_mask = 0;
    assert_eq!(draw_unique_card(&mut g), Ok(5));
    assert_eq!(g.rng_cursor, 1);
    // bytes 57 and 109 both reduce to 5, which is taken
    assert_eq!(draw_unique_card(&mut g), Ok(6));
    assert_eq!(g.rng_cursor, 4);
    assert_eq!(g.used_mask, (1u64 << 5) | (1u64 << 6));
}

#[test]
fn draw_wraps_the_cursor() {
    let mut g = game_with_bet(10);
    g.rng = buffer(&[40]);
    g.rng[31] = 30;
    g.rng_cursor = 255;
    // position 255 reads byte 31, and the cursor wraps to 0
    assert_eq!(draw_unique_card(&mut g), Ok(30));
    assert_eq!(g.rng_cursor, 0);
    assert_eq!(draw_unique_card(&mut g), Ok(40));
}

#[test]
fn draw_exhausted_leaves_record_unchanged() {
    let mut g = game_with_bet(10);
    g.used_mask = 1;
    g.rng_cursor = 17;
    assert_eq!(draw_unique_card(&mut g), Err(BlackjackError::DeckExhausted));
    assert_eq!(g.rng_cursor, 17);
    assert_eq!(g.used_mask, 1);
}

#[test]
fn fulfill_deals_four_distinct_cards() {
    let g = dealt_blackjack_game();
    assert_eq!(g.status, Status::PlayerTurn);
    assert_eq!(g.player_cards, vec![ACE, KING]);
    assert_eq!(g.dealer_cards, vec![NINE, SEVEN]);
    assert_eq!(g.rng_cursor, 4);
    assert_eq!(g.used_mask, (1u64 << ACE) | (1u64 << KING) | (1u64 << NINE) | (1u64 << SEVEN));
}

#[test]
fn fulfill_failure_is_all_or_nothing() {
    let mut g = game_with_bet(100);
    // every byte reduces to the same card: the second draw fails
    let rng = [52u8; RNG_BYTES];
    assert_eq!(dev_fulfill(&mut g, rng), Err(BlackjackError::DeckExhausted));
    assert_eq!(g.status, Status::AwaitingRandomness);
    assert!(g.player_cards.is_empty() && g.dealer_cards.is_empty());
    assert_eq!(g.used_mask, 0);
    assert_eq!(g.rng, [0u8; RNG_BYTES]);
}

#[test]
fn fulfill_twice_is_bad_state() {
    let mut g = dealt_blackjack_game();
    assert_eq!(dev_fulfill(&mut g, buffer(&[1, 2, 3, 4])), Err(BlackjackError::BadState));
    assert_eq!(g.player_cards, vec![ACE, KING]);
}

#[test]
fn actions_before_randomness_are_bad_state() {
    let mut g = game_with_bet(100);
    assert_eq!(player_hit(&mut g), Err(BlackjackError::BadState));
    assert_eq!(player_stand(&mut g), Err(BlackjackError::BadState));
    assert_eq!(dealer_hit(&mut g), Err(BlackjackError::BadState));
    assert_eq!(dealer_stand(&mut g), Err(BlackjackError::BadState));
    assert_eq!(settle(&mut g), Err(BlackjackError::BadState));
    assert_eq!(g.status, Status::AwaitingRandomness);
}

#[test]
fn player_hit_transitions() {
    // player {2, 3}, dealer {King, Queen}; then 9 (14), 7 (21)
    let mut g = game_with_bet(100);
    dev_fulfill(&mut g, buffer(&[TWO, 2, KING, QUEEN, NINE, SEVEN, KING + 13])).unwrap();
    assert_eq!(player_hit(&mut g), Ok(()));
    assert_eq!(g.status, Status::PlayerTurn);
    assert_eq!(player_hit(&mut g), Ok(()));
    assert_eq!(hand_total(&g.player_cards), 21);
    assert_eq!(g.status, Status::DealerTurn);
}

#[test]
fn player_hit_bust_settles() {
    // player {King, Queen}, dealer {2, 3}; then Jack: 30
    let mut g = game_with_bet(100);
    dev_fulfill(&mut g, buffer(&[KING, QUEEN, TWO, 2, JACK])).unwrap();
    assert_eq!(player_hit(&mut g), Ok(()));
    assert_eq!(g.player_cards, vec![KING, QUEEN, JACK]);
    assert_eq!(g.status, Status::Settled);
    assert_eq!(settle(&mut g), Ok(0));
    assert_eq!(g.status, Status::Closed);
}

#[test]
fn player_hit_on_full_hand_fails() {
    let mut g = dealt_blackjack_game();
    g.player_cards = (13..13 + MAX_CARDS as u8).collect();
    let before = g.rng_cursor;
    assert_eq!(player_hit(&mut g), Err(BlackjackError::HandFull));
    assert_eq!(g.rng_cursor, before);
    assert_eq!(g.player_cards.len(), MAX_CARDS);
}

#[test]
fn stand_hands_over_or_settles() {
    let mut g = dealt_blackjack_game();
    assert_eq!(player_stand(&mut g), Ok(()));
    assert!(g.player_stood);
    assert_eq!(g.status, Status::DealerTurn);
    assert_eq!(player_stand(&mut g), Err(BlackjackError::BadState));
    assert_eq!(dealer_stand(&mut g), Ok(()));
    assert!(g.dealer_stood);
    assert_eq!(g.status, Status::Settled);
}

#[test]
fn dealer_stand_first_returns_turn_to_player() {
    // player {2, 3}, dealer {King, Queen}; then 9, 7 for the player
    let mut g = game_with_bet(100);
    dev_fulfill(&mut g, buffer(&[TWO, 2, KING, QUEEN, NINE, SEVEN])).unwrap();
    player_hit(&mut g).unwrap();
    player_hit(&mut g).unwrap();
    assert_eq!(g.status, Status::DealerTurn);
    assert_eq!(dealer_stand(&mut g), Ok(()));
    assert_eq!(g.status, Status::PlayerTurn);
    assert_eq!(player_stand(&mut g), Ok(()));
    assert_eq!(g.status, Status::Settled);
    // player 21 against dealer 20
    assert_eq!(settle(&mut g), Ok(200));
}

#[test]
fn dealer_hit_transitions() {
    // player {King, Queen}, dealer {2, 3}; dealer draws 4 (9) then King (19)
    let mut g = game_with_bet(100);
    dev_fulfill(&mut g, buffer(&[KING, QUEEN, TWO, 2, 3, KING + 13])).unwrap();
    player_stand(&mut g).unwrap();
    assert_eq!(dealer_hit(&mut g), Ok(()));
    assert_eq!(g.status, Status::DealerTurn);
    assert_eq!(dealer_hit(&mut g), Ok(()));
    assert_eq!(hand_total(&g.dealer_cards), 19);
    assert_eq!(g.status, Status::Settled);
    assert_eq!(dealer_hit(&mut g), Err(BlackjackError::BadState));
    assert_eq!(settle(&mut g), Ok(200));
}

#[test]
fn settle_plays_out_dealer_turn() {
    // player {King, 9}, dealer {2, 3}; dealer draws 4, 5, 6: 20
    let mut g = game_with_bet(100);
    dev_fulfill(&mut g, buffer(&[KING, NINE, TWO, 2, 3, 4, 5, 6])).unwrap();
    player_stand(&mut g).unwrap();
    assert_eq!(settle(&mut g), Ok(0));
    assert_eq!(g.dealer_cards, vec![TWO, 2, 3, 4, 5]);
    assert_eq!(hand_total(&g.dealer_cards), 20);
    assert_eq!(g.status, Status::Closed);
}

#[test]
fn settle_failure_leaves_record_unchanged() {
    // player {King, 9}, dealer {2, 3}; every later byte reduces to a dealt card
    let mut g = game_with_bet(100);
    let mut rng = [KING; RNG_BYTES];
    rng[1] = NINE;
    rng[2] = TWO;
    rng[3] = 2;
    dev_fulfill(&mut g, rng).unwrap();
    player_stand(&mut g).unwrap();
    let mask = g.used_mask;
    assert_eq!(settle(&mut g), Err(BlackjackError::DeckExhausted));
    assert_eq!(g.status, Status::DealerTurn);
    assert_eq!(g.dealer_cards, vec![TWO, 2]);
    assert_eq!(g.used_mask, mask);
    assert_eq!(g.rng_cursor, 4);
}

#[test]
fn closed_record_refuses_every_action() {
    let mut g = dealt_blackjack_game();
    player_stand(&mut g).unwrap();
    settle(&mut g).unwrap();
    assert_eq!(g.status, Status::Closed);
    assert_eq!(dev_fulfill(&mut g, buffer(&[1, 2, 3, 4])), Err(BlackjackError::BadState));
    assert_eq!(player_hit(&mut g), Err(BlackjackError::BadState));
    assert_eq!(player_stand(&mut g), Err(BlackjackError::BadState));
    assert_eq!(dealer_hit(&mut g), Err(BlackjackError::BadState));
    assert_eq!(dealer_stand(&mut g), Err(BlackjackError::BadState));
    assert_eq!(settle(&mut g), Err(BlackjackError::BadState));
    assert_eq!(g.status, Status::Closed);
}

#[test]
fn end_to_end_blackjack_pays_250() {
    let mut g = new_game(&ctx(1_000), 100).unwrap();
    assert_eq!(g.status, Status::AwaitingRandomness);
    dev_fulfill(&mut g, buffer(&[ACE, KING, NINE, SEVEN, TWO])).unwrap();
    assert_eq!(g.player_cards, vec![ACE, KING]);
    assert_eq!(g.dealer_cards, vec![NINE, SEVEN]);
    assert!(is_blackjack(&g.player_cards));
    player_stand(&mut g).unwrap();
    assert_eq!(g.status, Status::DealerTurn);
    // the dealer's 16 draws a 2 and stands on 18
    assert_eq!(settle(&mut g), Ok(250));
    assert_eq!(g.dealer_cards, vec![NINE, SEVEN, TWO]);
    assert_eq!(g.status, Status::Closed);
}

#[test]
fn dealt_cards_never_repeat() {
    // a buffer full of repeats: every dealt card is still distinct
    let mut g = game_with_bet(100);
    let mut rng = [0u8; RNG_BYTES];
    for (i, b) in rng.iter_mut().enumerate() {
        *b = (i as u8 % 5) + 1;
    }
    dev_fulfill(&mut g, rng).unwrap();
    player_stand(&mut g).unwrap();
    let _ = settle(&mut g);
    let mut all: Vec<u8> = g.player_cards.clone();
    all.extend(g.dealer_cards.iter());
    for i in 0..all.len() {
        assert!(g.used_mask & (1u64 << all[i]) != 0);
        for j in i + 1..all.len() {
            assert_ne!(all[i], all[j]);
        }
    }
}

#[test]
fn well_formed_records() {
    let g = dealt_blackjack_game();
    assert!(g.is_well_formed());
    assert!(game_with_bet(5).is_well_formed());

    let mut dup = dealt_blackjack_game();
    dup.dealer_cards.push(ACE);
    assert!(!dup.is_well_formed());

    let mut unmarked = dealt_blackjack_game();
    unmarked.used_mask = 0;
    assert!(!unmarked.is_well_formed());

    let mut zero = game_with_bet(5);
    zero.bet_amount = 0;
    assert!(!zero.is_well_formed());

    let mut early = game_with_bet(5);
    early.player_cards.push(TWO);
    early.used_mask = 1u64 << TWO;
    assert!(!early.is_well_formed());
}
