use triad::board::{Board, Bombs};
use triad::card::{Card, Direction, Neighbours, Position, Unit};
use triad::utility::{calc_scores, copy_board, copy_deck, evaluation, parse_player_move};

fn card(name: Unit, top: u8, right: u8, bottom: u8, left: u8, player: u8) -> Card {
    Card { name, top, right, bottom, left, player }
}

fn put(board: &mut Board, y: usize, x: usize, c: Card) {
    board.set(y, x, Some(c));
}

#[test]
fn upgrade_caps_at_ten() {
    let mut c = card(Unit::Warden, 6, 6, 4, 4, 1);
    c.upgrade(200);
    assert_eq!((c.top, c.right, c.bottom, c.left), (10, 10, 10, 10));
    let mut d = card(Unit::Warden, 3, 4, 5, 6, 1);
    d.upgrade(2);
    assert_eq!((d.top, d.right, d.bottom, d.left), (5, 6, 7, 8));
}

#[test]
fn downgrade_floors_at_one() {
    let mut c = card(Unit::Warden, 6, 6, 4, 4, 1);
    c.downgrade(200);
    assert_eq!((c.top, c.right, c.bottom, c.left), (1, 1, 1, 1));
    let mut d = card(Unit::Warden, 1, 2, 3, 4, 2);
    d.downgrade(2);
    assert_eq!((d.top, d.right, d.bottom, d.left), (1, 1, 1, 2));
}

#[test]
fn copy_returns_equal_card() {
    let c = card(Unit::Slayer, 1, 6, 7, 6, 2);
    let d = Card::copy(&c);
    assert_eq!(c, d);
}

#[test]
fn add_to_deck_rotates_player1() {
    let mut deck: Vec<Card> = Vec::new();
    Card::add_to_deck(&mut deck, Unit::Warden, 1);
    assert_eq!(deck.len(), 4);
    // base quadruple (6, 6, 4, 4), rotated once per copy
    assert_eq!((deck[0].top, deck[0].right, deck[0].bottom, deck[0].left), (6, 6, 4, 4));
    assert_eq!((deck[1].top, deck[1].right, deck[1].bottom, deck[1].left), (4, 6, 6, 4));
    assert_eq!((deck[2].top, deck[2].right, deck[2].bottom, deck[2].left), (4, 4, 6, 6));
    assert_eq!((deck[3].top, deck[3].right, deck[3].bottom, deck[3].left), (6, 4, 4, 6));
    assert!(deck.iter().all(|c| c.player == 1 && c.name == Unit::Warden));
}

#[test]
fn add_to_deck_mirrors_player2() {
    let mut deck: Vec<Card> = Vec::new();
    Card::add_to_deck(&mut deck, Unit::Ravager, 2);
    assert_eq!(deck.len(), 4);
    // base quadruple (8, 4, 6, 2), rotated and then mirrored left-right
    assert_eq!((deck[0].top, deck[0].right, deck[0].bottom, deck[0].left), (8, 2, 6, 4));
    assert_eq!((deck[1].top, deck[1].right, deck[1].bottom, deck[1].left), (4, 8, 2, 6));
    assert!(deck.iter().all(|c| c.player == 2 && c.name == Unit::Ravager));
}

#[test]
fn melee_neighbour_only_adjacent() {
    let mut board = Board::new();
    put(&mut board, 0, 1, card(Unit::Warden, 6, 6, 4, 4, 2));
    // a melee unit at (3, 1) does not see the far card at (0, 1)
    let n = Card::get_neighbours(&board, 3, 1, Unit::Warden);
    assert_eq!(n.top, None);
    // but an adjacent card is seen
    put(&mut board, 2, 1, card(Unit::Warden, 6, 6, 4, 4, 2));
    let n = Card::get_neighbours(&board, 3, 1, Unit::Warden);
    assert_eq!(n.top, Some((2, 1)));
}

#[test]
fn ranged_far_neighbour_skips_empty_cells() {
    let mut board = Board::new();
    put(&mut board, 0, 1, card(Unit::Warden, 6, 6, 4, 4, 2));
    let n = Card::get_neighbours(&board, 3, 1, Unit::Keeper);
    assert_eq!(n.top, Some((0, 1)));
    let f = Card::get_far_neighbour(Direction::Top, &board, 3, 1);
    assert_eq!(f, Some(0));
    // the first occupied cell hides the farther one
    put(&mut board, 2, 1, card(Unit::Warden, 6, 6, 4, 4, 1));
    let n = Card::get_neighbours(&board, 3, 1, Unit::Siren);
    assert_eq!(n.top, Some((2, 1)));
}

#[test]
fn swarm_count_discounts_self() {
    let mut board = Board::new();
    assert_eq!(Card::swarm_count(&board, 2), 0);
    put(&mut board, 0, 0, card(Unit::Swarm, 7, 3, 3, 3, 2));
    put(&mut board, 0, 1, card(Unit::Swarm, 7, 3, 3, 3, 2));
    put(&mut board, 0, 2, card(Unit::Swarm, 7, 3, 3, 3, 1));
    assert_eq!(Card::swarm_count(&board, 2), 1);
    assert_eq!(Card::swarm_count(&board, 1), 0);
}

#[test]
fn placement_no_ability_no_bombs_keeps_all() {
    let mut board = Board::new();
    let mut bombs = Bombs::new();
    let mut deck1 = vec![card(Unit::Warden, 6, 6, 4, 4, 1)];
    let mut deck2: Vec<Card> = Vec::new();
    let mut nb = Card::get_neighbours(&board, 1, 1, Unit::Warden);
    let ok = Card::place_card(
        &mut board,
        &mut deck1,
        &mut deck2,
        0,
        (1, 1),
        1,
        &mut bombs,
        &mut nb,
    );
    assert!(ok);
    assert_eq!(deck1.len(), 0);
    let placed = board.get(1, 1).expect("card placed");
    assert_eq!(placed.name, Unit::Warden);
    assert_eq!(placed.player, 1);
    assert_eq!((placed.top, placed.right, placed.bottom, placed.left), (6, 6, 4, 4));
    // exactly one cell occupied
    let mut count = 0;
    for y in 0..4 {
        for x in 0..5 {
            if board.get(y, x).is_some() {
                count += 1;
            }
        }
    }
    assert_eq!(count, 1);
}

#[test]
fn place_card_on_occupied_cell_fails() {
    let mut board = Board::new();
    let mut bombs = Bombs::new();
    put(&mut board, 1, 1, card(Unit::Warden, 6, 6, 4, 4, 2));
    let mut deck1 = vec![card(Unit::Warden, 6, 6, 4, 4, 1)];
    let mut deck2: Vec<Card> = Vec::new();
    let mut nb = Card::get_neighbours(&board, 1, 1, Unit::Warden);
    let ok = Card::place_card(
        &mut board,
        &mut deck1,
        &mut deck2,
        0,
        (1, 1),
        1,
        &mut bombs,
        &mut nb,
    );
    assert!(!ok);
    assert_eq!(deck1.len(), 1);
    assert_eq!(board.get(1, 1).unwrap().player, 2);
}

#[test]
fn win_capture_changes_owner() {
    let mut board = Board::new();
    let mut bombs = Bombs::new();
    // weak defender below: placed card's bottom 6 beats its top 1
    put(&mut board, 2, 1, card(Unit::Lancer, 1, 4, 6, 4, 2));
    let mut deck1 = vec![card(Unit::Warden, 6, 6, 6, 4, 1)];
    let mut deck2: Vec<Card> = Vec::new();
    let mut nb = Card::get_neighbours(&board, 1, 1, Unit::Warden);
    let ok = Card::place_card(
        &mut board,
        &mut deck1,
        &mut deck2,
        0,
        (1, 1),
        1,
        &mut bombs,
        &mut nb,
    );
    assert!(ok);
    assert_eq!(board.get(2, 1).unwrap().player, 1);
}

#[test]
fn ravager_gains_on_being_captured() {
    let mut board = Board::new();
    // defender Ravager below, top value 1, loses to bottom value 6
    put(&mut board, 2, 1, card(Unit::Ravager, 1, 4, 6, 2, 2));
    put(&mut board, 1, 1, card(Unit::Warden, 6, 6, 6, 4, 1));
    Card::play(&mut board, 1, 1, false, None);
    let d = board.get(2, 1).unwrap();
    assert_eq!(d.player, 1);
    // +1 on every value, capped at 10
    assert_eq!((d.top, d.right, d.bottom, d.left), (2, 5, 7, 3));
}

#[test]
fn ravager_gains_on_capturing() {
    let mut board = Board::new();
    put(&mut board, 2, 1, card(Unit::Warden, 1, 4, 6, 2, 2));
    put(&mut board, 1, 1, card(Unit::Ravager, 8, 4, 6, 2, 1));
    // Ravager's bottom 6 vs Warden's top 1 + 1 enemy bonus: win
    Card::play(&mut board, 1, 1, false, None);
    assert_eq!(board.get(2, 1).unwrap().player, 1);
    let a = board.get(1, 1).unwrap();
    assert_eq!((a.top, a.right, a.bottom, a.left), (9, 5, 7, 3));
}

#[test]
fn warden_enemy_bonus_turns_win_into_lose() {
    // Ravager copy with bottom-facing value 2 attacks a Warden below:
    // 2 against 6 + 1 enemy bonus loses, no capture
    let mut board = Board::new();
    put(&mut board, 2, 1, card(Unit::Warden, 6, 6, 4, 4, 2));
    put(&mut board, 1, 1, card(Unit::Ravager, 4, 6, 2, 8, 1));
    Card::play(&mut board, 1, 1, false, None);
    let d = board.get(2, 1).unwrap();
    assert_eq!(d.player, 2);
    assert_eq!((d.top, d.right, d.bottom, d.left), (6, 6, 4, 4));
}

#[test]
fn warden_bonus_not_against_allies() {
    // the same values against an allied Warden tie instead of losing,
    // and a lone tie captures nothing
    let mut board = Board::new();
    put(&mut board, 2, 1, card(Unit::Warden, 2, 6, 4, 4, 1));
    put(&mut board, 1, 1, card(Unit::Ravager, 4, 6, 2, 8, 1));
    Card::play(&mut board, 1, 1, false, None);
    let d = board.get(2, 1).unwrap();
    assert_eq!(d.player, 1);
    assert_eq!((d.top, d.right, d.bottom, d.left), (2, 6, 4, 4));
}

#[test]
fn slayer_fights_with_swapped_values() {
    // Slayer attacks downward: its bottom 7 would win against top 5, but
    // Slayer swaps attack and defense, so 5 attacks against 7 and loses
    let mut board = Board::new();
    put(&mut board, 2, 1, card(Unit::Lancer, 5, 4, 6, 4, 2));
    put(&mut board, 1, 1, card(Unit::Slayer, 1, 6, 7, 6, 1));
    Card::play(&mut board, 1, 1, false, None);
    assert_eq!(board.get(2, 1).unwrap().player, 2);
}

#[test]
fn swarm_attacker_gains_ally_bonus() {
    let mut board = Board::new();
    // two more player-1 swarms already on the board
    put(&mut board, 0, 0, card(Unit::Swarm, 7, 3, 3, 3, 1));
    put(&mut board, 0, 4, card(Unit::Swarm, 7, 3, 3, 3, 1));
    // defender below with top 4: the swarm's bottom 3 alone would lose,
    // but +2 ally bonus makes it 5 and wins
    put(&mut board, 2, 1, card(Unit::Lancer, 4, 4, 6, 4, 2));
    put(&mut board, 1, 1, card(Unit::Swarm, 7, 3, 3, 3, 1));
    Card::play(&mut board, 1, 1, false, None);
    assert_eq!(board.get(2, 1).unwrap().player, 1);
}

#[test]
fn same_chain_captures_tied_neighbours() {
    let mut board = Board::new();
    // two enemy neighbours tie with the placed card: both captured
    put(&mut board, 0, 1, card(Unit::Lancer, 4, 4, 6, 4, 2));  // bottom 6
    put(&mut board, 1, 2, card(Unit::Lancer, 4, 4, 6, 6, 2));  // left 6
    put(&mut board, 1, 1, card(Unit::Warden, 6, 6, 1, 1, 1));  // top 6, right 6
    Card::play(&mut board, 1, 1, false, None);
    assert_eq!(board.get(0, 1).unwrap().player, 1);
    assert_eq!(board.get(1, 2).unwrap().player, 1);
}

#[test]
fn single_tie_captures_nothing() {
    let mut board = Board::new();
    put(&mut board, 0, 1, card(Unit::Lancer, 4, 4, 6, 4, 2));  // bottom 6
    put(&mut board, 1, 1, card(Unit::Warden, 6, 1, 1, 1, 1));  // top 6, one tie only
    Card::play(&mut board, 1, 1, false, None);
    assert_eq!(board.get(0, 1).unwrap().player, 2);
}

#[test]
fn same_chain_retriggers_combat() {
    let mut board = Board::new();
    // the placed card ties with (0, 1) and (1, 2); the captured (1, 2)
    // re-plays and its strong bottom 9 then beats (2, 2)'s top 1
    put(&mut board, 0, 1, card(Unit::Lancer, 4, 4, 6, 4, 2));
    put(&mut board, 1, 2, card(Unit::Lancer, 4, 4, 9, 6, 2));
    put(&mut board, 2, 2, card(Unit::Lancer, 1, 4, 6, 4, 2));
    put(&mut board, 1, 1, card(Unit::Warden, 6, 6, 1, 1, 1));
    Card::play(&mut board, 1, 1, false, None);
    assert_eq!(board.get(0, 1).unwrap().player, 1);
    assert_eq!(board.get(1, 2).unwrap().player, 1);
    assert_eq!(board.get(2, 2).unwrap().player, 1);
}

#[test]
fn lancer_pierces_beyond_fallen_neighbour() {
    let mut board = Board::new();
    put(&mut board, 1, 2, card(Unit::Warden, 4, 4, 6, 1, 2));  // left 1
    put(&mut board, 1, 3, card(Unit::Warden, 4, 4, 6, 1, 2));  // left 1
    put(&mut board, 1, 1, card(Unit::Lancer, 6, 9, 6, 4, 1));  // right 9
    Card::play(&mut board, 1, 1, false, None);
    // both the neighbour and the card behind it fall
    assert_eq!(board.get(1, 2).unwrap().player, 1);
    assert_eq!(board.get(1, 3).unwrap().player, 1);
    // the lancer is back on its own cell
    assert_eq!(board.get(1, 1).unwrap().name, Unit::Lancer);
}

#[test]
fn saboteur_seeds_bombs_on_empty_neighbours() {
    let mut board = Board::new();
    let mut bombs = Bombs::new();
    let mut deck1 = vec![card(Unit::Saboteur, 6, 5, 4, 5, 1)];
    let mut deck2: Vec<Card> = Vec::new();
    let mut nb = Card::get_neighbours(&board, 1, 1, Unit::Saboteur);
    let ok = Card::place_card(
        &mut board,
        &mut deck1,
        &mut deck2,
        0,
        (1, 1),
        1,
        &mut bombs,
        &mut nb,
    );
    assert!(ok);
    assert_eq!(bombs.get(0, 1), 1);
    assert_eq!(bombs.get(2, 1), 1);
    assert_eq!(bombs.get(1, 0), 1);
    assert_eq!(bombs.get(1, 2), 1);
    assert_eq!(bombs.get(1, 1), 0);

    // a later placement on a seeded cell detonates the charge
    let mut deck1b = vec![card(Unit::Warden, 6, 6, 4, 4, 1)];
    let mut nb2 = Card::get_neighbours(&board, 0, 1, Unit::Warden);
    let ok2 = Card::place_card(
        &mut board,
        &mut deck1b,
        &mut deck2,
        0,
        (0, 1),
        1,
        &mut bombs,
        &mut nb2,
    );
    assert!(ok2);
    let c = board.get(0, 1).unwrap();
    assert_eq!((c.top, c.right, c.bottom, c.left), (5, 5, 3, 3));
    assert_eq!(bombs.get(0, 1), 0);
}

#[test]
fn bomb_check_leaves_charge_on_empty_cell() {
    let mut board = Board::new();
    let mut bombs = Bombs::new();
    bombs.set(0, 0, 3);
    Card::bomb_check(&mut board, (0, 0), &mut bombs);
    assert_eq!(bombs.get(0, 0), 3);
}

#[test]
fn titan_flips_vertical_neighbour() {
    let mut board = Board::new();
    let mut bombs = Bombs::new();
    // enemy above with a strong bottom; the flip turns it into its weak top
    put(&mut board, 0, 1, card(Unit::Warden, 2, 6, 9, 4, 2));
    let mut deck1 = vec![card(Unit::Titan, 7, 4, 6, 3, 1)];
    let mut deck2: Vec<Card> = Vec::new();
    let mut nb = Card::get_neighbours(&board, 1, 1, Unit::Titan);
    let ok = Card::place_card(
        &mut board,
        &mut deck1,
        &mut deck2,
        0,
        (1, 1),
        1,
        &mut bombs,
        &mut nb,
    );
    assert!(ok);
    let n = board.get(0, 1).unwrap();
    // top and bottom swapped, then the titan's top 7 beat the flipped
    // bottom 2 and captured it
    assert_eq!((n.top, n.bottom), (9, 2));
    assert_eq!(n.player, 1);
}

#[test]
fn siren_pulls_far_card_over_bombs() {
    let mut board = Board::new();
    let mut bombs = Bombs::new();
    // far enemy on the same row; two charges lie on the way
    put(&mut board, 1, 4, card(Unit::Warden, 6, 6, 4, 7, 2));
    bombs.set(1, 2, 2);
    let mut deck1 = vec![card(Unit::Siren, 7, 1, 4, 5, 1)];
    let mut deck2: Vec<Card> = Vec::new();
    let mut nb = Card::get_neighbours(&board, 1, 1, Unit::Siren);
    assert_eq!(nb.right, Some((1, 4)));
    let ok = Card::place_card(
        &mut board,
        &mut deck1,
        &mut deck2,
        0,
        (1, 1),
        1,
        &mut bombs,
        &mut nb,
    );
    assert!(ok);
    // the card moved next to the siren, downgraded by the charges it passed
    assert!(board.get(1, 4).is_none());
    let pulled = board.get(1, 2).unwrap();
    assert_eq!((pulled.top, pulled.right, pulled.bottom, pulled.left), (4, 4, 2, 5));
    assert_eq!(pulled.player, 2);
    assert_eq!(bombs.get(1, 2), 0);
}

#[test]
fn calc_scores_counts_each_player() {
    let mut board = Board::new();
    put(&mut board, 0, 0, card(Unit::Warden, 6, 6, 4, 4, 1));
    put(&mut board, 0, 1, card(Unit::Warden, 6, 6, 4, 4, 1));
    put(&mut board, 0, 2, card(Unit::Warden, 6, 6, 4, 4, 1));
    put(&mut board, 1, 0, card(Unit::Keeper, 9, 5, 1, 5, 2));
    put(&mut board, 1, 1, card(Unit::Keeper, 9, 5, 1, 5, 2));
    let (p1, p2) = calc_scores(&board);
    assert_eq!((p1, p2), (3, 2));
    assert_eq!(p1 + p2, 5);
    assert_eq!(evaluation(&board), 1);
}

#[test]
fn copy_board_and_deck_are_identical() {
    let mut board = Board::new();
    put(&mut board, 3, 4, card(Unit::Titan, 7, 4, 6, 3, 2));
    let copy = copy_board(&board);
    for y in 0..4 {
        for x in 0..5 {
            assert_eq!(board.get(y, x), copy.get(y, x));
        }
    }
    let deck = vec![card(Unit::Titan, 7, 4, 6, 3, 1), card(Unit::Swarm, 7, 3, 3, 3, 1)];
    assert_eq!(copy_deck(&deck), deck);
}

#[test]
fn parse_player_move_is_one_based() {
    let (c, pos) = parse_player_move("111");
    assert_eq!((c, pos), (0, (0, 0)));
    let (c, pos) = parse_player_move("345");
    assert_eq!((c, pos), (2, (3, 4)));
}

#[test]
fn neighbours_are_fresh_per_direction() {
    let mut board = Board::new();
    put(&mut board, 1, 0, card(Unit::Warden, 6, 6, 4, 4, 2));
    put(&mut board, 0, 2, card(Unit::Warden, 6, 6, 4, 4, 2));
    let n: Neighbours = Card::get_neighbours(&board, 1, 2, Unit::Warden);
    assert_eq!(n.top, Some((0, 2)));
    assert_eq!(n.right, None);
    assert_eq!(n.bottom, None);
    assert_eq!(n.left, None);
    let p: Option<Position> = Card::get_neighbour(&board, Direction::Left, 1, 2, Unit::Keeper);
    assert_eq!(p, Some((1, 0)));
}

#[test]
fn keeper_fights_its_far_neighbour() {
    let mut board = Board::new();
    // weak enemy across an empty gap on the same row
    put(&mut board, 1, 4, card(Unit::Warden, 6, 6, 4, 1, 2));
    put(&mut board, 1, 1, card(Unit::Keeper, 9, 5, 1, 5, 1));
    Card::play(&mut board, 1, 1, false, None);
    // Keeper's right 5 against left 1 + 1 Warden bonus: win, from afar
    assert_eq!(board.get(1, 4).unwrap().player, 1);
}

#[test]
fn two_stacks_fill_a_deck() {
    let mut deck: Vec<Card> = Vec::new();
    Card::add_to_deck(&mut deck, Unit::Keeper, 1);
    Card::add_to_deck(&mut deck, Unit::Slayer, 1);
    assert_eq!(deck.len(), 8);
    assert!(deck[..4].iter().all(|c| c.name == Unit::Keeper));
    assert!(deck[4..].iter().all(|c| c.name == Unit::Slayer));
}

#[test]
fn scores_sum_to_placements() {
    let mut board = Board::new();
    let mut bombs = Bombs::new();
    let mut deck1 = vec![card(Unit::Warden, 6, 6, 4, 4, 1), card(Unit::Lancer, 6, 4, 6, 4, 1)];
    let mut deck2 = vec![card(Unit::Titan, 7, 4, 6, 3, 2)];
    for (player, cell) in [(1u8, (0usize, 0usize)), (2u8, (3, 4)), (1u8, (2, 2))] {
        let unit = if player == 1 { deck1[0].name } else { deck2[0].name };
        let mut nb = Card::get_neighbours(&board, cell.0, cell.1, unit);
        assert!(Card::place_card(
            &mut board,
            &mut deck1,
            &mut deck2,
            0,
            cell,
            player,
            &mut bombs,
            &mut nb,
        ));
    }
    let (p1, p2) = calc_scores(&board);
    assert_eq!(p1 + p2, 3);
    assert_eq!((p1, p2), (2, 1));
}

#[test]
fn swarm_defender_bonus_counts_its_own_side() {
    let mut board = Board::new();
    // the defending Swarm's side has three Swarms in all, so it defends
    // with +2; the attacker is an ally, and the resulting tie joins the
    // enemy's tie to make a Same pair that captures the enemy
    put(&mut board, 2, 1, card(Unit::Swarm, 3, 3, 3, 3, 2));
    put(&mut board, 0, 0, card(Unit::Swarm, 7, 3, 3, 3, 2));
    put(&mut board, 3, 3, card(Unit::Swarm, 7, 3, 3, 3, 2));
    put(&mut board, 1, 2, card(Unit::Lancer, 4, 4, 6, 6, 1));
    put(&mut board, 1, 1, card(Unit::Keeper, 9, 6, 5, 1, 2));
    Card::play(&mut board, 1, 1, false, None);
    // bottom: 5 against 3 + 2 allies: tie; right: 6 against 6: tie;
    // two ties capture the tied enemy
    assert_eq!(board.get(1, 2).unwrap().player, 2);
    assert_eq!(board.get(2, 1).unwrap().player, 2);
}
