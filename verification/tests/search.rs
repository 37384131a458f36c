use triad::ai::{ai, available_moves, minimax};
use triad::board::{Board, Bombs};
use triad::card::{Card, Unit};
use triad::utility::{calc_scores, copy_board, copy_deck};

fn card(name: Unit, top: u8, right: u8, bottom: u8, left: u8, player: u8) -> Card {
    Card { name, top, right, bottom, left, player }
}

#[test]
fn available_moves_lists_every_pairing_once() {
    let mut board = Board::new();
    board.set(0, 0, Some(card(Unit::Warden, 6, 6, 4, 4, 2)));
    let bombs = Bombs::new();
    let deck = vec![card(Unit::Warden, 6, 6, 4, 4, 1), card(Unit::Lancer, 6, 4, 6, 4, 1)];
    let moves = available_moves(&board, &bombs, &deck, 1);
    // 19 empty cells, two cards each
    assert_eq!(moves.len(), 38);
    for m in &moves {
        assert!(m.0 < 2 && m.1 < 4 && m.2 < 5);
        assert!(board.get(m.1, m.2).is_none());
    }
    let mut seen = std::collections::HashSet::new();
    for m in &moves {
        assert!(seen.insert((m.0, m.1, m.2)));
    }
}

#[test]
fn priority_moves_come_first() {
    let mut board = Board::new();
    board.set(0, 0, Some(card(Unit::Warden, 6, 6, 4, 4, 2)));
    let mut bombs = Bombs::new();
    // the cell below the opponent is bombed: never priority
    bombs.set(1, 0, 1);
    let deck = vec![card(Unit::Warden, 6, 6, 4, 4, 1)];
    let moves = available_moves(&board, &bombs, &deck, 1);
    // only (0, 1) borders the enemy card on a clear cell
    assert_eq!((moves[0].1, moves[0].2), (0, 1));
    for m in moves.iter().skip(1) {
        assert!(!((m.1, m.2) == (0, 1)));
    }
}

#[test]
fn minimax_restores_state_exactly() {
    let mut board = Board::new();
    board.set(0, 0, Some(card(Unit::Warden, 6, 6, 4, 4, 2)));
    board.set(3, 4, Some(card(Unit::Ravager, 8, 4, 6, 2, 1)));
    let mut bombs = Bombs::new();
    bombs.set(2, 2, 1);
    let mut deck1 = vec![card(Unit::Lancer, 6, 4, 6, 4, 1), card(Unit::Keeper, 9, 5, 1, 5, 1)];
    let mut deck2 = vec![card(Unit::Titan, 7, 4, 6, 3, 2)];

    let before_board = copy_board(&board);
    let before_bombs = bombs.duplicate();
    let before_deck1 = copy_deck(&deck1);
    let before_deck2 = copy_deck(&deck2);

    let score = minimax(&mut board, &mut deck1, &mut deck2, &mut bombs, 1, -125, 125, 3);
    assert!(-120 <= score && score <= 120);

    for y in 0..4 {
        for x in 0..5 {
            assert_eq!(board.get(y, x), before_board.get(y, x));
            assert_eq!(bombs.get(y, x), before_bombs.get(y, x));
        }
    }
    assert_eq!(deck1, before_deck1);
    assert_eq!(deck2, before_deck2);
}

#[test]
fn minimax_scores_finished_game() {
    let mut board = Board::new();
    board.set(0, 0, Some(card(Unit::Warden, 6, 6, 4, 4, 1)));
    board.set(0, 1, Some(card(Unit::Warden, 6, 6, 4, 4, 1)));
    board.set(0, 2, Some(card(Unit::Warden, 6, 6, 4, 4, 2)));
    let mut bombs = Bombs::new();
    let mut deck1: Vec<Card> = Vec::new();
    let mut deck2: Vec<Card> = Vec::new();
    // player 2 out of cards: 2 against 1 with player 1 ahead
    let score = minimax(&mut board, &mut deck1, &mut deck2, &mut bombs, 1, -125, 125, 5);
    assert_eq!(score, 101);
    let (p1, p2) = calc_scores(&board);
    assert_eq!((p1, p2), (2, 1));
}

#[test]
fn minimax_at_depth_zero_is_static_evaluation() {
    let mut board = Board::new();
    board.set(0, 0, Some(card(Unit::Warden, 6, 6, 4, 4, 2)));
    let mut bombs = Bombs::new();
    let mut deck1: Vec<Card> = Vec::new();
    let mut deck2 = vec![card(Unit::Titan, 7, 4, 6, 3, 2)];
    let score = minimax(&mut board, &mut deck1, &mut deck2, &mut bombs, 1, -125, 125, 0);
    assert_eq!(score, -1);
}

#[test]
fn ai_returns_a_legal_move() {
    let mut board = Board::new();
    board.set(1, 1, Some(card(Unit::Warden, 6, 6, 4, 4, 2)));
    let bombs = Bombs::new();
    let deck1 = vec![card(Unit::Ravager, 8, 4, 6, 2, 1), card(Unit::Lancer, 6, 4, 6, 4, 1)];
    let deck2 = vec![card(Unit::Titan, 7, 4, 6, 3, 2)];
    let mv = ai(&board, &deck1, &deck2, 1, &bombs);
    assert!(mv.0 < deck1.len());
    assert!(mv.1 < 4 && mv.2 < 5);
    assert!(board.get(mv.1, mv.2).is_none());
}

#[test]
fn ai_takes_a_winning_capture() {
    // one card each: player 1 can capture the lone weak enemy card and
    // should pick a move that does
    let mut board = Board::new();
    board.set(1, 1, Some(card(Unit::Warden, 1, 1, 1, 1, 2)));
    let bombs = Bombs::new();
    let deck1 = vec![card(Unit::Ravager, 9, 9, 9, 9, 1)];
    let deck2 = vec![card(Unit::Warden, 1, 1, 1, 1, 2)];
    let mv = ai(&board, &deck1, &deck2, 1, &bombs);

    // replay the chosen move and let the opponent answer as badly as it
    // can: player 1 must keep at least two of the three cards
    let mut b = copy_board(&board);
    let mut bb = bombs.duplicate();
    let mut d1 = copy_deck(&deck1);
    let mut d2 = copy_deck(&deck2);
    let mut nb = mv.3;
    assert!(Card::place_card(&mut b, &mut d1, &mut d2, mv.0, (mv.1, mv.2), 1, &mut bb, &mut nb));
    let (p1, _) = calc_scores(&b);
    assert_eq!(p1, 2);
}
