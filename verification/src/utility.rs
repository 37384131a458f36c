//! Scorekeeping and small helpers around the board: counting each player's
//! cards, copying game state for the search, and parsing a player's move.

use vstd::prelude::*;

use crate::board::{
    cidx, lemma_occ_upto_bound, occ_count, occ_upto, owned_count, owned_upto, Board,
};
use crate::card::{digit_val, Card, Position};

verus! {

/// Counts each player's cards on the board. The two counts always make up
/// exactly the cards standing on the board.
pub fn calc_scores(board: &Board) -> (r: (i8, i8))
    requires
        board.wf(),
    ensures
        r.0 as int == owned_count(board@, 1),
        r.1 as int == owned_count(board@, 2),
        r.0 + r.1 == occ_count(board@),
        0 <= r.0 <= 20,
        0 <= r.1 <= 20,
{
    let mut p1: i8 = 0;
    let mut p2: i8 = 0;

    let mut y: usize = 0;
    while y < 4
        invariant
            board.wf(),
            y <= 4,
            p1 as int == owned_upto(board@, 1, 5 * y as int),
            p2 as int == owned_upto(board@, 2, 5 * y as int),
            p1 + p2 == occ_upto(board@, 5 * y as int),
            0 <= p1 <= 5 * y,
            0 <= p2 <= 5 * y,
        decreases 4 - y,
    {
        let mut x: usize = 0;
        while x < 5
            invariant
                board.wf(),
                y < 4,
                x <= 5,
                p1 as int == owned_upto(board@, 1, cidx(y as int, x as int)),
                p2 as int == owned_upto(board@, 2, cidx(y as int, x as int)),
                p1 + p2 == occ_upto(board@, cidx(y as int, x as int)),
                0 <= p1 <= 5 * y + x,
                0 <= p2 <= 5 * y + x,
            decreases 5 - x,
        {
            match board.get(y, x) {
                Some(c) => {
                    if c.player == 1 {
                        p1 = p1 + 1;
                    } else {
                        p2 = p2 + 1;
                    }
                },
                None => {},
            }
            x = x + 1;
        }
        y = y + 1;
    }

    (p1, p2)
}

/// The static evaluation of a position: player 1's card count minus
/// player 2's.
pub fn evaluation(board: &Board) -> (r: i8)
    requires
        board.wf(),
    ensures
        r as int == owned_count(board@, 1) - owned_count(board@, 2),
        -20 <= r <= 20,
{
    let scores = calc_scores(board);
    scores.0 - scores.1
}

/// A cell-for-cell copy of the board.
pub fn copy_board(src: &Board) -> (dst: Board)
    requires
        src@.len() == 20,
    ensures
        dst@ == src@,
{
    let mut dst = Board::new();
    let mut y: usize = 0;
    while y < 4
        invariant
            src@.len() == 20,
            dst@.len() == 20,
            y <= 4,
            forall|i: int| 0 <= i < 5 * y ==> dst@[i] == src@[i],
            forall|i: int| 5 * y <= i < 20 ==> dst@[i] is None,
        decreases 4 - y,
    {
        let mut x: usize = 0;
        while x < 5
            invariant
                src@.len() == 20,
                dst@.len() == 20,
                y < 4,
                x <= 5,
                forall|i: int| 0 <= i < cidx(y as int, x as int) ==> dst@[i] == src@[i],
                forall|i: int| cidx(y as int, x as int) <= i < 20 ==> dst@[i] is None,
            decreases 5 - x,
        {
            if src.get(y, x).is_some() {
                dst.set(y, x, src.get(y, x));
            }
            x = x + 1;
        }
        y = y + 1;
    }
    proof {
        assert(dst@ =~= src@);
    }
    dst
}

/// An element-for-element copy of a deck.
pub fn copy_deck(deck: &Vec<Card>) -> (r: Vec<Card>)
    ensures
        r@ == deck@,
{
    let mut r: Vec<Card> = Vec::new();
    let mut i: usize = 0;
    while i < deck.len()
        invariant
            i <= deck@.len(),
            r@.len() == i,
            forall|k: int| 0 <= k < i ==> r@[k] == deck@[k],
        decreases deck@.len() - i,
    {
        r.push(Card::copy(&deck[i]));
        i = i + 1;
    }
    proof {
        assert(r@ =~= deck@);
    }
    r
}

/// Parses a move entered as three digits, card index then row then column,
/// each 1-based: "111" means the first card on the top-left cell.
pub fn parse_player_move(player_move: &str) -> (r: (usize, Position))
    requires
        player_move@.len() >= 3,
        forall|k: int| 0 <= k < 3 ==> 1 <= digit_val(#[trigger] player_move@[k]) <= 9,
    ensures
        r.0 as int == digit_val(player_move@[0]) - 1,
        r.1.0 as int == digit_val(player_move@[1]) - 1,
        r.1.1 as int == digit_val(player_move@[2]) - 1,
{
    let c = player_move.get_char(0);
    let y = player_move.get_char(1);
    let x = player_move.get_char(2);

    let card: usize = (c as u32 - 49) as usize;
    let position: Position = (((y as u32 - 49) as usize), ((x as u32 - 49) as usize));

    (card, position)
}

} // verus!
