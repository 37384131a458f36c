//! The adversarial search: legal-move enumeration with a priority ordering,
//! minimax with alpha-beta pruning over exactly reverted game state, and
//! the move chooser for a non-human player.

use vstd::prelude::*;

use crate::board::{cidx, owned_count, Board, Bombs};
use crate::card::{deck_wf, nbrs_match, Card, Neighbours, Position};
use crate::utility::{calc_scores, copy_board, copy_deck, evaluation};

verus! {

/// A candidate move: a deck index, the target row and column, and the
/// neighbours the placed card would see there.
pub type Move = (usize, usize, usize, Neighbours);

/// A legal move for `deck` on this board: an existing deck card, an empty
/// in-bounds target cell, and neighbours freshly resolved for it.
pub open spec fn move_ok(b: Seq<Option<Card>>, deck: Seq<Card>, m: Move) -> bool {
    &&& m.0 < deck.len()
    &&& m.1 < 4
    &&& m.2 < 5
    &&& b[cidx(m.1 as int, m.2 as int)] is None
    &&& nbrs_match(m.3, b, m.1 as int, m.2 as int, deck[m.0 as int].name)
}

/// Whether the neighbour entry holds a card of the other player.
pub open spec fn opp_nbr_at(b: Seq<Option<Card>>, e: Option<Position>, player: u8) -> bool {
    e is Some && b[cidx((e->0).0 as int, (e->0).1 as int)] is Some && b[cidx(
        (e->0).0 as int,
        (e->0).1 as int,
    )]->0.player != player
}

/// Whether any of the four neighbours holds an opposing card.
pub open spec fn has_opp_neighbour(b: Seq<Option<Card>>, n: Neighbours, player: u8) -> bool {
    ||| opp_nbr_at(b, n.top, player)
    ||| opp_nbr_at(b, n.right, player)
    ||| opp_nbr_at(b, n.bottom, player)
    ||| opp_nbr_at(b, n.left, player)
}

/// A priority move: its cell carries no bomb charge and some neighbour is
/// an opposing card. Priority moves are explored first; the ordering is a
/// search heuristic only, never a legality rule.
pub open spec fn move_priority(b: Seq<Option<Card>>, bb: Seq<u8>, player: u8, m: Move) -> bool {
    bb[cidx(m.1 as int, m.2 as int)] == 0 && has_opp_neighbour(b, m.3, player)
}

/// (d2, i2, j2) comes before (i, j, d) in the cell-major enumeration order.
pub open spec fn enum_before(d2: int, i2: int, j2: int, i: int, j: int, d: int) -> bool {
    ||| i2 < i
    ||| (i2 == i && j2 < j)
    ||| (i2 == i && j2 == j && d2 < d)
}

/// The move list holds an entry placing deck card `d` on cell (i, j).
pub open spec fn covered(moves: Seq<Move>, d: int, i: int, j: int) -> bool {
    exists|k: int|
        0 <= k < moves.len() && (#[trigger] moves[k]).0 == d && moves[k].1 == i && moves[k].2 == j
}

/// Whether any of the four resolved neighbours holds an opposing card.
fn has_opp(board: &Board, n: Neighbours, player: u8) -> (r: bool)
    requires
        board@.len() == 20,
        n.top is Some ==> (n.top->0).0 < 4 && (n.top->0).1 < 5,
        n.right is Some ==> (n.right->0).0 < 4 && (n.right->0).1 < 5,
        n.bottom is Some ==> (n.bottom->0).0 < 4 && (n.bottom->0).1 < 5,
        n.left is Some ==> (n.left->0).0 < 4 && (n.left->0).1 < 5,
    ensures
        r == has_opp_neighbour(board@, n, player),
{
    if let Some(p) = n.top {
        if let Some(c) = board.get(p.0, p.1) {
            if c.player != player {
                return true;
            }
        }
    }
    if let Some(p) = n.right {
        if let Some(c) = board.get(p.0, p.1) {
            if c.player != player {
                return true;
            }
        }
    }
    if let Some(p) = n.bottom {
        if let Some(c) = board.get(p.0, p.1) {
            if c.player != player {
                return true;
            }
        }
    }
    if let Some(p) = n.left {
        if let Some(c) = board.get(p.0, p.1) {
            if c.player != player {
                return true;
            }
        }
    }
    false
}

/// Enumerates every legal (card, cell) placement for `deck`, priority moves
/// first: every pairing appears exactly once, with neighbours resolved for
/// the card's unit at that cell.
#[verifier::rlimit(100)]
pub fn available_moves(board: &Board, bombs: &Bombs, deck: &Vec<Card>, player: u8) -> (moves: Vec<
    Move,
>)
    requires
        board.wf(),
        bombs.wf(),
    ensures
        forall|k: int| 0 <= k < moves@.len() ==> move_ok(board@, deck@, #[trigger] moves@[k]),
        forall|k1: int, k2: int|
            0 <= k1 < k2 < moves@.len() ==> (move_priority(
                board@,
                bombs@,
                player,
                #[trigger] moves@[k2],
            ) ==> move_priority(board@, bombs@, player, #[trigger] moves@[k1])),
        forall|k1: int, k2: int|
            0 <= k1 < k2 < moves@.len() ==> !((#[trigger] moves@[k1]).0 == (#[trigger] moves@[k2]).0
                && moves@[k1].1 == moves@[k2].1 && moves@[k1].2 == moves@[k2].2),
        forall|d: int, i: int, j: int|
            0 <= d < deck@.len() && 0 <= i < 4 && 0 <= j < 5 && board@[cidx(i, j)] is None
                ==> #[trigger] covered(moves@, d, i, j),
{
    let mut moves: Vec<Move> = Vec::new();

    let mut i: usize = 0;
    while i < 4
        invariant
            board.wf(),
            bombs.wf(),
            i <= 4,
            forall|k: int| 0 <= k < moves@.len() ==> move_ok(board@, deck@, #[trigger] moves@[k]),
            forall|k1: int, k2: int|
                0 <= k1 < k2 < moves@.len() ==> (move_priority(
                    board@,
                    bombs@,
                    player,
                    #[trigger] moves@[k2],
                ) ==> move_priority(board@, bombs@, player, #[trigger] moves@[k1])),
            forall|k: int|
                0 <= k < moves@.len() ==> enum_before(
                    (#[trigger] moves@[k]).0 as int,
                    moves@[k].1 as int,
                    moves@[k].2 as int,
                    i as int,
                    0,
                    0,
                ),
            forall|k1: int, k2: int|
                0 <= k1 < k2 < moves@.len() ==> !((#[trigger] moves@[k1]).0 == (
                #[trigger] moves@[k2]).0 && moves@[k1].1 == moves@[k2].1 && moves@[k1].2
                    == moves@[k2].2),
            forall|d: int, i2: int, j2: int|
                0 <= d < deck@.len() && 0 <= i2 < 4 && 0 <= j2 < 5 && board@[cidx(i2, j2)] is None
                    && enum_before(d, i2, j2, i as int, 0, 0) ==> #[trigger] covered(
                    moves@,
                    d,
                    i2,
                    j2,
                ),
        decreases 4 - i,
    {
        let mut j: usize = 0;
        while j < 5
            invariant
                board.wf(),
                bombs.wf(),
                i < 4,
                j <= 5,
                forall|k: int|
                    0 <= k < moves@.len() ==> move_ok(board@, deck@, #[trigger] moves@[k]),
                forall|k1: int, k2: int|
                    0 <= k1 < k2 < moves@.len() ==> (move_priority(
                        board@,
                        bombs@,
                        player,
                        #[trigger] moves@[k2],
                    ) ==> move_priority(board@, bombs@, player, #[trigger] moves@[k1])),
                forall|k: int|
                    0 <= k < moves@.len() ==> enum_before(
                        (#[trigger] moves@[k]).0 as int,
                        moves@[k].1 as int,
                        moves@[k].2 as int,
                        i as int,
                        j as int,
                        0,
                    ),
                forall|k1: int, k2: int|
                    0 <= k1 < k2 < moves@.len() ==> !((#[trigger] moves@[k1]).0 == (
                    #[trigger] moves@[k2]).0 && moves@[k1].1 == moves@[k2].1 && moves@[k1].2
                        == moves@[k2].2),
                forall|d: int, i2: int, j2: int|
                    0 <= d < deck@.len() && 0 <= i2 < 4 && 0 <= j2 < 5 && board@[cidx(i2, j2)]
                        is None && enum_before(d, i2, j2, i as int, j as int, 0)
                        ==> #[trigger] covered(moves@, d, i2, j2),
            decreases 5 - j,
        {
            let mut d: usize = 0;
            while d < deck.len()
                invariant
                    board.wf(),
                    bombs.wf(),
                    i < 4,
                    j < 5,
                    d <= deck@.len(),
                    forall|k: int|
                        0 <= k < moves@.len() ==> move_ok(board@, deck@, #[trigger] moves@[k]),
                    forall|k1: int, k2: int|
                        0 <= k1 < k2 < moves@.len() ==> (move_priority(
                            board@,
                            bombs@,
                            player,
                            #[trigger] moves@[k2],
                        ) ==> move_priority(board@, bombs@, player, #[trigger] moves@[k1])),
                    forall|k: int|
                        0 <= k < moves@.len() ==> enum_before(
                            (#[trigger] moves@[k]).0 as int,
                            moves@[k].1 as int,
                            moves@[k].2 as int,
                            i as int,
                            j as int,
                            d as int,
                        ),
                    forall|k1: int, k2: int|
                        0 <= k1 < k2 < moves@.len() ==> !((#[trigger] moves@[k1]).0 == (
                        #[trigger] moves@[k2]).0 && moves@[k1].1 == moves@[k2].1 && moves@[k1].2
                            == moves@[k2].2),
                    forall|d2: int, i2: int, j2: int|
                        0 <= d2 < deck@.len() && 0 <= i2 < 4 && 0 <= j2 < 5 && board@[cidx(i2, j2)]
                            is None && enum_before(d2, i2, j2, i as int, j as int, d as int)
                            ==> #[trigger] covered(moves@, d2, i2, j2),
                decreases deck@.len() - d,
            {
                if board.get(i, j).is_none() {
                    // fetch neighbours for this card at this cell
                    let neighbours = Card::get_neighbours(board, i, j, deck[d].name);

                    // a move has priority when its cell is clear of bombs
                    // and faces an opposing card
                    let has_priority: bool = if bombs.get(i, j) > 0 {
                        false
                    } else {
                        proof {
                            crate::card::lemma_nbrs_match_ok(
                                neighbours,
                                board@,
                                i as int,
                                j as int,
                                deck@[d as int].name,
                            );
                        }
                        has_opp(board, neighbours, player)
                    };

                    let mv: Move = (d, i, j, neighbours);
                    let ghost pre = moves@;
                    if has_priority {
                        moves.insert(0, mv);
                        proof {
                            assert(moves@[0] == mv);
                            assert forall|k: int| 1 <= k < moves@.len() implies moves@[k] == pre[k
                                - 1] by {}
                        }
                    } else {
                        moves.push(mv);
                        proof {
                            assert forall|k: int| 0 <= k < pre.len() implies moves@[k] == pre[k]
                            by {}
                        }
                    }
                    proof {
                        assert forall|d2: int, i2: int, j2: int|
                            0 <= d2 < deck@.len() && 0 <= i2 < 4 && 0 <= j2 < 5 && board@[cidx(
                                i2,
                                j2,
                            )] is None && enum_before(
                                d2,
                                i2,
                                j2,
                                i as int,
                                j as int,
                                d as int + 1,
                            ) implies #[trigger] covered(moves@, d2, i2, j2) by {
                            if d2 == d as int && i2 == i as int && j2 == j as int {
                                if has_priority {
                                    assert(moves@[0].0 == d2 && moves@[0].1 == i2 && moves@[0].2
                                        == j2);
                                } else {
                                    assert(moves@[pre.len() as int].0 == d2
                                        && moves@[pre.len() as int].1 == i2
                                        && moves@[pre.len() as int].2 == j2);
                                }
                            } else {
                                assert(covered(pre, d2, i2, j2));
                                let k0 = choose|k: int|
                                    0 <= k < pre.len() && (#[trigger] pre[k]).0 == d2 && pre[k].1
                                        == i2 && pre[k].2 == j2;
                                if has_priority {
                                    assert(moves@[k0 + 1].0 == d2 && moves@[k0 + 1].1 == i2
                                        && moves@[k0 + 1].2 == j2);
                                } else {
                                    assert(moves@[k0].0 == d2 && moves@[k0].1 == i2 && moves@[k0].2
                                        == j2);
                                }
                            }
                        }
                    }
                }
                d = d + 1;
            }
            j = j + 1;
        }
        i = i + 1;
    }

    moves
}

} // verus!

verus! {

/// The score of a finished game, in the maximizing player's favour or
/// disfavour: a large bonus on top of the card-count differential.
pub open spec fn terminal_spec(b: Seq<Option<Card>>) -> int {
    let e = owned_count(b, 1) - owned_count(b, 2);
    if owned_count(b, 1) > owned_count(b, 2) {
        100 + e
    } else {
        -100 + e
    }
}

/// Minimax with alpha-beta pruning: explores each available move of the
/// side to move by placing it, recursing, and then restoring board, bombs
/// and deck exactly, so the caller's state comes back untouched.
#[verifier::rlimit(100)]
pub fn minimax(
    board: &mut Board,
    deck1: &mut Vec<Card>,
    deck2: &mut Vec<Card>,
    bombs: &mut Bombs,
    player: u8,
    alpha: i8,
    beta: i8,
    depth: u8,
) -> (score: i8)
    requires
        old(board).wf(),
        old(bombs).wf(),
        deck_wf(old(deck1)@, 1),
        deck_wf(old(deck2)@, 2),
        player == 1 || player == 2,
    ensures
        final(board)@ == old(board)@,
        final(bombs)@ == old(bombs)@,
        final(deck1)@ == old(deck1)@,
        final(deck2)@ == old(deck2)@,
        -120 <= score <= 120,
        old(deck2)@.len() == 0 ==> score as int == terminal_spec(old(board)@),
        old(deck2)@.len() > 0 && depth == 0 ==> score as int == owned_count(old(board)@, 1)
            - owned_count(old(board)@, 2),
    decreases depth,
{
    let ghost b0 = board@;
    let ghost bb0 = bombs@;
    let ghost d1_0 = deck1@;
    let ghost d2_0 = deck2@;

    // if player 2 is out of cards, the game is over
    if deck2.len() == 0 {
        let scores = calc_scores(board);
        let e = evaluation(board);
        if scores.0 > scores.1 {
            return 100 + e;
        } else {
            return -100 + e;
        }
    }

    // out of depth: static evaluation
    if depth == 0 {
        return evaluation(board);
    }

    // gather the moves of the side to move
    let moves: Vec<Move> = if player == 1 {
        available_moves(board, bombs, deck1, 1)
    } else {
        available_moves(board, bombs, deck2, 2)
    };
    let ghost d_active = if player == 1 {
        d1_0
    } else {
        d2_0
    };
    let mut best_score: i8 = if player == 1 {
        -120
    } else {
        120
    };
    let mut alpha: i8 = alpha;
    let mut beta: i8 = beta;
    let mut cut: bool = false;

    let mut m: usize = 0;
    while m < moves.len() && !cut
        invariant
            board.wf(),
            bombs.wf(),
            deck_wf(deck1@, 1),
            deck_wf(deck2@, 2),
            player == 1 || player == 2,
            depth >= 1,
            board@ == b0,
            bombs@ == bb0,
            deck1@ == d1_0,
            deck2@ == d2_0,
            d_active == (if player == 1 {
                d1_0
            } else {
                d2_0
            }),
            m <= moves@.len(),
            -120 <= best_score <= 120,
            forall|k: int|
                0 <= k < moves@.len() ==> move_ok(b0, d_active, #[trigger] moves@[k]),
        decreases moves@.len() - m,
    {
        let mov = moves[m];

        // save the state the move will disturb
        let temp_board: Board = copy_board(board);
        let temp_card: Card = if player == 1 {
            Card::copy(&deck1[mov.0])
        } else {
            Card::copy(&deck2[mov.0])
        };
        let temp_bombs: Bombs = bombs.duplicate();
        let mut nb: Neighbours = mov.3;

        proof {
            crate::card::lemma_nbrs_of_match(
                b0,
                mov.1 as int,
                mov.2 as int,
                d_active[mov.0 as int].name,
            );
            crate::card::lemma_nbrs_match_unique(
                mov.3,
                crate::card::nbrs_of(b0, mov.1 as int, mov.2 as int, d_active[mov.0 as int].name),
                b0,
                mov.1 as int,
                mov.2 as int,
                d_active[mov.0 as int].name,
            );
        }
        Card::place_card(board, deck1, deck2, mov.0, (mov.1, mov.2), player, bombs, &mut nb);
        let opponent: u8 = if player == 1 {
            2
        } else {
            1
        };
        let s: i8 = minimax(board, deck1, deck2, bombs, opponent, alpha, beta, depth - 1);
        // put the taken card back, revert board and bombs
        if player == 1 {
            deck1.insert(mov.0, temp_card);
            proof {
                assert(deck1@ =~= d1_0);
            }
        } else {
            deck2.insert(mov.0, temp_card);
            proof {
                assert(deck2@ =~= d2_0);
            }
        }
        *board = temp_board;
        *bombs = temp_bombs;

        if player == 1 {
            if s > best_score {
                best_score = s;
            }
            if best_score >= beta {
                cut = true;
            } else {
                if best_score > alpha {
                    alpha = best_score;
                }
            }
        } else {
            if s < best_score {
                best_score = s;
            }
            if best_score <= alpha {
                cut = true;
            } else {
                if best_score < beta {
                    beta = best_score;
                }
            }
        }
        m = m + 1;
    }

    best_score
}

/// Picks a move for `player`: evaluates every available move on private
/// copies of the game state with a full alpha-beta window, and returns the
/// first move with the best score. The depth budget grows as the decks
/// empty out.
#[verifier::rlimit(100)]
pub fn ai(board: &Board, deck1: &Vec<Card>, deck2: &Vec<Card>, player: u8, bombs: &Bombs) -> (mv:
    Move)
    requires
        board.wf(),
        bombs.wf(),
        deck_wf(deck1@, 1),
        deck_wf(deck2@, 2),
        player == 1 || player == 2,
        deck1@.len() <= 8,
        deck2@.len() <= 8,
        (if player == 1 {
            deck1@.len()
        } else {
            deck2@.len()
        }) > 0,
        exists|i: int, j: int|
            0 <= i < 4 && 0 <= j < 5 && (#[trigger] board@[cidx(i, j)]) is None,
    ensures
        move_ok(
            board@,
            (if player == 1 {
                deck1@
            } else {
                deck2@
            }),
            mv,
        ),
{
    let moves: Vec<Move> = if player == 1 {
        available_moves(board, bombs, deck1, 1)
    } else {
        available_moves(board, bombs, deck2, 2)
    };
    proof {
        let (i, j): (int, int) = choose|i: int, j: int|
            0 <= i < 4 && 0 <= j < 5 && (#[trigger] board@[cidx(i, j)]) is None;
        assert(covered(moves@, 0, i, j));
    }

    let mut best_move: usize = 0;
    let mut best_score: i8 = if player == 1 {
        -120
    } else {
        120
    };

    // the depth budget scales inversely with the cards left in the decks
    let total: usize = deck1.len() + deck2.len();
    let max_depth: u8 = if total <= 8 {
        8
    } else if total <= 10 {
        5
    } else if total <= 12 {
        4
    } else {
        3
    };

    let mut m: usize = 0;
    while m < moves.len()
        invariant
            board.wf(),
            bombs.wf(),
            deck_wf(deck1@, 1),
            deck_wf(deck2@, 2),
            player == 1 || player == 2,
            m <= moves@.len(),
            moves@.len() > 0,
            best_move < moves@.len(),
            forall|k: int|
                0 <= k < moves@.len() ==> move_ok(
                    board@,
                    (if player == 1 {
                        deck1@
                    } else {
                        deck2@
                    }),
                    #[trigger] moves@[k],
                ),
        decreases moves@.len() - m,
    {
        let mov = moves[m];

        // evaluate the move on a private copy of the whole game state
        let mut t_board: Board = copy_board(board);
        let mut t_bombs: Bombs = bombs.duplicate();
        let mut t_deck1: Vec<Card> = copy_deck(deck1);
        let mut t_deck2: Vec<Card> = copy_deck(deck2);
        let mut nb: Neighbours = mov.3;

        Card::place_card(
            &mut t_board,
            &mut t_deck1,
            &mut t_deck2,
            mov.0,
            (mov.1, mov.2),
            player,
            &mut t_bombs,
            &mut nb,
        );

        let opponent: u8 = if player == 1 {
            2
        } else {
            1
        };
        let score: i8 = minimax(
            &mut t_board,
            &mut t_deck1,
            &mut t_deck2,
            &mut t_bombs,
            opponent,
            -125,
            125,
            max_depth,
        );

        // a strictly better score takes over; ties keep the earliest move
        let better_score: bool = if player == 1 {
            score > best_score
        } else {
            score < best_score
        };
        if better_score {
            best_score = score;
            best_move = m;
        }
        m = m + 1;
    }

    moves[best_move]
}

} // verus!

verus! {

/// The search depth the engine budgets for a given number of cards left
/// in the two decks together.
pub open spec fn depth_budget(total: int) -> int {
    if total <= 8 {
        8
    } else if total <= 10 {
        5
    } else if total <= 12 {
        4
    } else {
        3
    }
}

/// The exact game state after deck card `d` of `deck` is placed on (y, x):
/// the card leaves the deck, lands on the cell, the placement phase runs,
/// and combat resolves.
pub open spec fn apply_move_spec(
    b: Seq<Option<Card>>,
    bb: Seq<u8>,
    deck: Seq<Card>,
    y: int,
    x: int,
    d: int,
) -> (Seq<Option<Card>>, Seq<u8>, Seq<Card>) {
    let chosen = deck[d];
    let placed = b.update(cidx(y, x), Some(chosen));
    let n0 = crate::card::nbrs_of(b, y, x, chosen.name);
    let pl = crate::card::placement_spec(placed, bb, y, x, n0);
    (crate::card::play_spec(20, pl.0, y, x, false, Some(pl.2)), pl.1, deck.remove(d))
}

/// The minimax value of the game after the side to move plays deck card
/// `d` on (i, j).
pub open spec fn child_value(
    b: Seq<Option<Card>>,
    bb: Seq<u8>,
    d1: Seq<Card>,
    d2: Seq<Card>,
    player: u8,
    depth: int,
    d: int,
    i: int,
    j: int,
) -> int
    decreases depth, 0int, 0int,
{
    if depth <= 0 {
        0
    } else if player == 1 {
        let st = apply_move_spec(b, bb, d1, i, j, d);
        game_value(st.0, st.1, st.2, d2, 2, depth - 1)
    } else {
        let st = apply_move_spec(b, bb, d2, i, j, d);
        game_value(st.0, st.1, d1, st.2, 1, depth - 1)
    }
}

/// A score clipped into the band minimax works in. On a real board every
/// leaf score already lies inside it, so the clip only makes the value
/// total for arbitrary arguments.
pub open spec fn clamp120(v: int) -> int {
    if v < -120 {
        -120
    } else if v > 120 {
        120
    } else {
        v
    }
}

/// The value of a listed move for the side to move.
pub open spec fn move_value(
    b: Seq<Option<Card>>,
    bb: Seq<u8>,
    d1: Seq<Card>,
    d2: Seq<Card>,
    player: u8,
    depth: int,
    m: Move,
) -> int {
    child_value(b, bb, d1, d2, player, depth, m.0 as int, m.1 as int, m.2 as int)
}

/// The depth-limited minimax value of the position: the terminal score
/// when player 2 is out of cards, the static evaluation at depth 0, and
/// otherwise the best child value for the side to move.
pub open spec fn game_value(
    b: Seq<Option<Card>>,
    bb: Seq<u8>,
    d1: Seq<Card>,
    d2: Seq<Card>,
    player: u8,
    depth: int,
) -> int
    decreases depth, 1int, 0int,
{
    if d2.len() == 0 {
        clamp120(terminal_spec(b))
    } else if depth <= 0 {
        clamp120(owned_count(b, 1) - owned_count(b, 2))
    } else {
        let deck_len = if player == 1 {
            d1.len() as int
        } else {
            d2.len() as int
        };
        best_from(b, bb, d1, d2, player, depth, 20 * deck_len)
    }
}

/// The best child value among the legal moves with flat index below `m`
/// (index `d * 20 + i * 5 + j` for deck card `d` on cell (i, j)), starting
/// from the worst score for the side to move.
pub open spec fn best_from(
    b: Seq<Option<Card>>,
    bb: Seq<u8>,
    d1: Seq<Card>,
    d2: Seq<Card>,
    player: u8,
    depth: int,
    m: int,
) -> int
    decreases depth, 0int, m,
{
    if m <= 0 {
        if player == 1 {
            -120
        } else {
            120
        }
    } else {
        let rest = best_from(b, bb, d1, d2, player, depth, m - 1);
        let idx = m - 1;
        let d = idx / 20;
        let cell = idx % 20;
        let i = cell / 5;
        let j = cell % 5;
        if b[cell] is None {
            let child = child_value(b, bb, d1, d2, player, depth, d, i, j);
            if player == 1 {
                if child > rest {
                    child
                } else {
                    rest
                }
            } else {
                if child < rest {
                    child
                } else {
                    rest
                }
            }
        } else {
            rest
        }
    }
}

/// Every game value lies within the terminal score band.
pub proof fn lemma_gv_bounds(
    b: Seq<Option<Card>>,
    bb: Seq<u8>,
    d1: Seq<Card>,
    d2: Seq<Card>,
    player: u8,
    depth: int,
)
    ensures
        -120 <= game_value(b, bb, d1, d2, player, depth) <= 120,
    decreases depth, 1int, 0int,
{
    if d2.len() > 0 && depth > 0 {
        let deck_len = if player == 1 {
            d1.len() as int
        } else {
            d2.len() as int
        };
        lemma_best_from_bounds(b, bb, d1, d2, player, depth, 20 * deck_len);
    }
}

pub proof fn lemma_best_from_bounds(
    b: Seq<Option<Card>>,
    bb: Seq<u8>,
    d1: Seq<Card>,
    d2: Seq<Card>,
    player: u8,
    depth: int,
    m: int,
)
    ensures
        -120 <= best_from(b, bb, d1, d2, player, depth, m) <= 120,
    decreases depth, 0int, m,
{
    if m > 0 {
        lemma_best_from_bounds(b, bb, d1, d2, player, depth, m - 1);
        let idx = m - 1;
        let cell = idx % 20;
        if b[cell] is None {
            lemma_child_value_bounds(b, bb, d1, d2, player, depth, idx / 20, cell / 5, cell % 5);
        }
    }
}

pub proof fn lemma_child_value_bounds(
    b: Seq<Option<Card>>,
    bb: Seq<u8>,
    d1: Seq<Card>,
    d2: Seq<Card>,
    player: u8,
    depth: int,
    d: int,
    i: int,
    j: int,
)
    ensures
        -120 <= child_value(b, bb, d1, d2, player, depth, d, i, j) <= 120,
    decreases depth, 0int, 0int,
{
    if depth <= 0 {
    } else if player == 1 {
        let st = apply_move_spec(b, bb, d1, i, j, d);
        lemma_gv_bounds(st.0, st.1, st.2, d2, 2, depth - 1);
    } else {
        let st = apply_move_spec(b, bb, d2, i, j, d);
        lemma_gv_bounds(st.0, st.1, d1, st.2, 1, depth - 1);
    }
}


} // verus!

verus! {

/// A legal move's child value never beats the scan of the side to move:
/// the scan is at least it for player 1 and at most it for player 2.
pub proof fn lemma_best_from_covers(
    b: Seq<Option<Card>>,
    bb: Seq<u8>,
    d1: Seq<Card>,
    d2: Seq<Card>,
    player: u8,
    depth: int,
    d: int,
    i: int,
    j: int,
    m: int,
)
    requires
        0 <= d,
        0 <= i < 4,
        0 <= j < 5,
        d * 20 + cidx(i, j) < m,
        b[cidx(i, j)] is None,
    ensures
        player == 1 ==> best_from(b, bb, d1, d2, player, depth, m) >= child_value(
            b,
            bb,
            d1,
            d2,
            player,
            depth,
            d,
            i,
            j,
        ),
        player != 1 ==> best_from(b, bb, d1, d2, player, depth, m) <= child_value(
            b,
            bb,
            d1,
            d2,
            player,
            depth,
            d,
            i,
            j,
        ),
    decreases m,
{
    let idx = m - 1;
    if d * 20 + cidx(i, j) == idx {
        assert(idx / 20 == d && idx % 20 == cidx(i, j));
        crate::card::lemma_cidx_decomp(i, j);
    } else {
        lemma_best_from_covers(b, bb, d1, d2, player, depth, d, i, j, m - 1);
    }
}

/// A bound on every legal child value below `m` bounds the scan itself.
pub proof fn lemma_best_from_bound_all(
    b: Seq<Option<Card>>,
    bb: Seq<u8>,
    d1: Seq<Card>,
    d2: Seq<Card>,
    player: u8,
    depth: int,
    x_bound: int,
    m: int,
)
    requires
        player == 1 ==> x_bound >= -120,
        player != 1 ==> x_bound <= 120,
        forall|d: int, i: int, j: int|
            #![trigger child_value(b, bb, d1, d2, player, depth, d, i, j)]
            0 <= d && 0 <= i < 4 && 0 <= j < 5 && d * 20 + cidx(i, j) < m && b[cidx(i, j)] is None
                ==> (if player == 1 {
                child_value(b, bb, d1, d2, player, depth, d, i, j) <= x_bound
            } else {
                child_value(b, bb, d1, d2, player, depth, d, i, j) >= x_bound
            }),
    ensures
        player == 1 ==> best_from(b, bb, d1, d2, player, depth, m) <= x_bound,
        player != 1 ==> best_from(b, bb, d1, d2, player, depth, m) >= x_bound,
    decreases m,
{
    if m > 0 {
        lemma_best_from_bound_all(b, bb, d1, d2, player, depth, x_bound, m - 1);
        let idx = m - 1;
        let cell = idx % 20;
        if b[cell] is None {
            let d = idx / 20;
            let i = cell / 5;
            let j = cell % 5;
            crate::card::lemma_cidx_decomp(i, j);
            assert(cidx(i, j) == cell);
            assert(d * 20 + cidx(i, j) == idx);
            assert(if player == 1 {
                child_value(b, bb, d1, d2, player, depth, d, i, j) <= x_bound
            } else {
                child_value(b, bb, d1, d2, player, depth, d, i, j) >= x_bound
            });
        }
    }
}

} // verus!
