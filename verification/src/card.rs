//! Cards and the rules engine: unit roster, per-card stats, placement
//! abilities, directional combat and capture propagation.

use vstd::prelude::*;

use crate::board::{
    cidx, enemy_measure, lemma_enemy_measure_bounds, lemma_occ_upto_same_shape,
    lemma_occ_upto_update, lemma_owned_le_occ, lemma_owned_lt_occ, lemma_owned_upto_mono,
    lemma_owned_upto_update, lemma_swarm_upto_bound, occ_at, occ_upto, on_grid, owned_at,
    owned_count, swarm_upto, Board, Bombs,
};

verus! {

/// A cell of the grid, as (row, column).
pub type Position = (usize, usize);

#[derive(Clone, Copy, PartialEq, Eq, Structural, Debug)]
pub enum Direction {
    Top,
    Right,
    Bottom,
    Left,
}

#[derive(Clone, Copy, PartialEq, Eq, Structural, Debug)]
pub enum Unit {
    Warden,
    Keeper,
    Siren,
    Saboteur,
    Ravager,
    Titan,
    Slayer,
    Swarm,
    Lancer,
}

/// One card instance: a unit tag, four directional values and an owner.
#[derive(Clone, Copy, PartialEq, Eq, Structural, Debug)]
pub struct Card {
    pub name: Unit,
    pub top: u8,
    pub right: u8,
    pub bottom: u8,
    pub left: u8,
    pub player: u8,
}

/// A valid card: directional values between 1 and 10, owner 1 or 2.
pub open spec fn card_wf(c: Card) -> bool {
    &&& 1 <= c.top <= 10
    &&& 1 <= c.right <= 10
    &&& 1 <= c.bottom <= 10
    &&& 1 <= c.left <= 10
    &&& (c.player == 1 || c.player == 2)
}

/// The card with every directional value raised by `n`, capped at 10.
pub open spec fn upgrade_spec(c: Card, n: int) -> Card {
    Card {
        top: if c.top + n > 10 {
            10
        } else {
            (c.top + n) as u8
        },
        right: if c.right + n > 10 {
            10
        } else {
            (c.right + n) as u8
        },
        bottom: if c.bottom + n > 10 {
            10
        } else {
            (c.bottom + n) as u8
        },
        left: if c.left + n > 10 {
            10
        } else {
            (c.left + n) as u8
        },
        ..c
    }
}

/// The card with every directional value lowered by `n`, floored at 1.
pub open spec fn downgrade_spec(c: Card, n: int) -> Card {
    Card {
        top: if c.top - n < 1 {
            1
        } else {
            (c.top - n) as u8
        },
        right: if c.right - n < 1 {
            1
        } else {
            (c.right - n) as u8
        },
        bottom: if c.bottom - n < 1 {
            1
        } else {
            (c.bottom - n) as u8
        },
        left: if c.left - n < 1 {
            1
        } else {
            (c.left - n) as u8
        },
        ..c
    }
}

/// The base value quadruple of a unit, as (top, right, bottom, left) entries.
pub open spec fn base_val(unit: Unit, k: int) -> u8 {
    let q: (u8, u8, u8, u8) = match unit {
        Unit::Warden => (6, 6, 4, 4),
        Unit::Siren => (7, 4, 4, 5),
        Unit::Keeper => (9, 5, 1, 5),
        Unit::Saboteur => (6, 5, 4, 5),
        Unit::Swarm => (7, 3, 3, 3),
        Unit::Slayer => (1, 6, 7, 6),
        Unit::Titan => (7, 4, 6, 3),
        Unit::Ravager => (8, 4, 6, 2),
        Unit::Lancer => (6, 4, 6, 4),
    };
    if k == 0 {
        q.0
    } else if k == 1 {
        q.1
    } else if k == 2 {
        q.2
    } else {
        q.3
    }
}

/// The `i`-th card of the 4-card stack a unit contributes to a deck: the base
/// quadruple rotated once per copy, and mirrored (left and right swapped)
/// for player 2.
pub open spec fn stack_card(unit: Unit, player: u8, i: int) -> Card {
    if player == 1 {
        Card {
            name: unit,
            top: base_val(unit, (4 - i) % 4),
            right: base_val(unit, (5 - i) % 4),
            bottom: base_val(unit, (6 - i) % 4),
            left: base_val(unit, (7 - i) % 4),
            player: 1,
        }
    } else {
        Card {
            name: unit,
            top: base_val(unit, i % 4),
            right: base_val(unit, (3 + i) % 4),
            bottom: base_val(unit, (2 + i) % 4),
            left: base_val(unit, (1 + i) % 4),
            player: 2,
        }
    }
}

/// A deck of player `p`: at most 8 valid cards, all owned by `p`.
pub open spec fn deck_wf(d: Seq<Card>, p: u8) -> bool {
    forall|i: int| 0 <= i < d.len() ==> card_wf(#[trigger] d[i]) && d[i].player == p
}

impl Card {
    /// Returns a copy of the card.
    pub fn copy(card: &Card) -> (r: Card)
        ensures
            r == *card,
    {
        Card {
            name: card.name,
            top: card.top,
            right: card.right,
            bottom: card.bottom,
            left: card.left,
            player: card.player,
        }
    }

    /// Increases every directional value by `n`, up to a maximum of 10.
    /// No value ends above 10, however large `n` is.
    pub fn upgrade(&mut self, n: u8)
        ensures
            *final(self) == upgrade_spec(*old(self), n as int),
            final(self).top <= 10,
            final(self).right <= 10,
            final(self).bottom <= 10,
            final(self).left <= 10,
    {
        let t: u16 = self.top as u16 + n as u16;
        self.top = if t > 10 {
            10
        } else {
            t as u8
        };
        let r: u16 = self.right as u16 + n as u16;
        self.right = if r > 10 {
            10
        } else {
            r as u8
        };
        let b: u16 = self.bottom as u16 + n as u16;
        self.bottom = if b > 10 {
            10
        } else {
            b as u8
        };
        let l: u16 = self.left as u16 + n as u16;
        self.left = if l > 10 {
            10
        } else {
            l as u8
        };
    }

    /// Decreases every directional value by `n`, down to a minimum of 1.
    /// No value ends below 1, however large `n` is.
    pub fn downgrade(&mut self, n: u8)
        ensures
            *final(self) == downgrade_spec(*old(self), n as int),
            final(self).top >= 1,
            final(self).right >= 1,
            final(self).bottom >= 1,
            final(self).left >= 1,
    {
        self.top = if self.top > n {
            self.top - n
        } else {
            1
        };
        self.right = if self.right > n {
            self.right - n
        } else {
            1
        };
        self.bottom = if self.bottom > n {
            self.bottom - n
        } else {
            1
        };
        self.left = if self.left > n {
            self.left - n
        } else {
            1
        };
    }

    /// The base value quadruple of a unit type.
    pub fn get_values(unit: Unit) -> (r: [u8; 4])
        ensures
            forall|k: int| 0 <= k < 4 ==> r@[k] == base_val(unit, k),
    {
        match unit {
            Unit::Warden => [6, 6, 4, 4],
            Unit::Siren => [7, 4, 4, 5],
            Unit::Keeper => [9, 5, 1, 5],
            Unit::Saboteur => [6, 5, 4, 5],
            Unit::Swarm => [7, 3, 3, 3],
            Unit::Slayer => [1, 6, 7, 6],
            Unit::Titan => [7, 4, 6, 3],
            Unit::Ravager => [8, 4, 6, 2],
            Unit::Lancer => [6, 4, 6, 4],
        }
    }

    /// Appends the 4-card stack of the given unit type to the deck.
    pub fn add_to_deck(deck: &mut Vec<Card>, card: Unit, player: u8)
        requires
            player == 1 || player == 2,
            old(deck)@.len() + 4 <= 8,
        ensures
            final(deck)@.len() == old(deck)@.len() + 4,
            forall|i: int| 0 <= i < old(deck)@.len() ==> final(deck)@[i] == old(deck)@[i],
            forall|i: int|
                0 <= i < 4 ==> final(deck)@[old(deck)@.len() + i] == stack_card(card, player, i),
            deck_wf(old(deck)@, player) ==> deck_wf(final(deck)@, player),
    {
        let values: [u8; 4] = Card::get_values(card);
        let mut i: usize = 0;
        while i < 4
            invariant
                player == 1 || player == 2,
                i <= 4,
                deck@.len() == old(deck)@.len() + i,
                forall|k: int| 0 <= k < 4 ==> values@[k] == base_val(card, k),
                forall|k: int| 0 <= k < old(deck)@.len() ==> deck@[k] == old(deck)@[k],
                forall|k: int|
                    0 <= k < i ==> deck@[old(deck)@.len() + k] == stack_card(card, player, k),
            decreases 4 - i,
        {
            if player == 1 {
                deck.push(
                    Card {
                        name: card,
                        top: values[(0 + (4 - i)) % 4],
                        right: values[(1 + (4 - i)) % 4],
                        bottom: values[(2 + (4 - i)) % 4],
                        left: values[(3 + (4 - i)) % 4],
                        player,
                    },
                );
            } else {
                // player 2 uses mirrored cards
                deck.push(
                    Card {
                        name: card,
                        top: values[(0 + i) % 4],
                        right: values[(3 + i) % 4],
                        bottom: values[(2 + i) % 4],
                        left: values[(1 + i) % 4],
                        player,
                    },
                );
            }
            i = i + 1;
        }
        proof {
            if deck_wf(old(deck)@, player) {
                lemma_stack_card_wf(card, player, 0);
                lemma_stack_card_wf(card, player, 1);
                lemma_stack_card_wf(card, player, 2);
                lemma_stack_card_wf(card, player, 3);
            }
        }
    }
}

/// Every card of a freshly built stack is valid.
pub proof fn lemma_stack_card_wf(unit: Unit, player: u8, i: int)
    requires
        player == 1 || player == 2,
        0 <= i < 4,
    ensures
        card_wf(stack_card(unit, player, i)),
{
}

} // verus!

verus! {

/// The up-to-four neighbour positions of a cell, one per direction.
#[derive(Clone, Copy, PartialEq, Eq, Debug)]
pub struct Neighbours {
    pub top: Option<Position>,
    pub right: Option<Position>,
    pub bottom: Option<Position>,
    pub left: Option<Position>,
}

/// Ranged units look for the first occupied cell toward the board edge;
/// all other units only see the adjacent cell.
pub open spec fn ranged(u: Unit) -> bool {
    u is Keeper || u is Siren
}

/// Row of the first occupied cell strictly above (y, x), scanning upward.
pub open spec fn far_up(b: Seq<Option<Card>>, y: int, x: int) -> Option<int>
    decreases y,
{
    if y <= 0 {
        None
    } else if occ_at(b, cidx(y - 1, x)) {
        Some(y - 1)
    } else {
        far_up(b, y - 1, x)
    }
}

/// Row of the first occupied cell strictly below (y, x), scanning downward.
pub open spec fn far_down(b: Seq<Option<Card>>, y: int, x: int) -> Option<int>
    decreases 3 - y,
{
    if y >= 3 {
        None
    } else if occ_at(b, cidx(y + 1, x)) {
        Some(y + 1)
    } else {
        far_down(b, y + 1, x)
    }
}

/// Column of the first occupied cell strictly left of (y, x).
pub open spec fn far_left(b: Seq<Option<Card>>, y: int, x: int) -> Option<int>
    decreases x,
{
    if x <= 0 {
        None
    } else if occ_at(b, cidx(y, x - 1)) {
        Some(x - 1)
    } else {
        far_left(b, y, x - 1)
    }
}

/// Column of the first occupied cell strictly right of (y, x).
pub open spec fn far_right(b: Seq<Option<Card>>, y: int, x: int) -> Option<int>
    decreases 4 - x,
{
    if x >= 4 {
        None
    } else if occ_at(b, cidx(y, x + 1)) {
        Some(x + 1)
    } else {
        far_right(b, y, x + 1)
    }
}

/// The neighbour a unit at (y, x) sees in the given direction: the adjacent
/// occupied cell for melee units, the first occupied cell toward the edge
/// for ranged units.
#[verifier::opaque]
pub open spec fn nbr_spec(b: Seq<Option<Card>>, y: int, x: int, u: Unit, d: Direction) -> Option<
    (int, int),
> {
    match d {
        Direction::Top => if y > 0 {
            if ranged(u) {
                match far_up(b, y, x) {
                    Some(r) => Some((r, x)),
                    None => None,
                }
            } else if occ_at(b, cidx(y - 1, x)) {
                Some((y - 1, x))
            } else {
                None
            }
        } else {
            None
        },
        Direction::Right => if x < 4 {
            if ranged(u) {
                match far_right(b, y, x) {
                    Some(c) => Some((y, c)),
                    None => None,
                }
            } else if occ_at(b, cidx(y, x + 1)) {
                Some((y, x + 1))
            } else {
                None
            }
        } else {
            None
        },
        Direction::Bottom => if y < 3 {
            if ranged(u) {
                match far_down(b, y, x) {
                    Some(r) => Some((r, x)),
                    None => None,
                }
            } else if occ_at(b, cidx(y + 1, x)) {
                Some((y + 1, x))
            } else {
                None
            }
        } else {
            None
        },
        Direction::Left => if x > 0 {
            if ranged(u) {
                match far_left(b, y, x) {
                    Some(c) => Some((y, c)),
                    None => None,
                }
            } else if occ_at(b, cidx(y, x - 1)) {
                Some((y, x - 1))
            } else {
                None
            }
        } else {
            None
        },
    }
}

/// (ny, nx) lies strictly in direction `d` from (y, x), on the grid.
pub open spec fn on_ray(d: Direction, y: int, x: int, ny: int, nx: int) -> bool {
    match d {
        Direction::Top => nx == x && 0 <= ny < y,
        Direction::Right => ny == y && x < nx < 5,
        Direction::Bottom => nx == x && y < ny < 4,
        Direction::Left => ny == y && 0 <= nx < x,
    }
}

/// Every cell strictly between (y, x) and (ny, nx) along direction `d` is empty.
pub open spec fn between_empty(
    b: Seq<Option<Card>>,
    d: Direction,
    y: int,
    x: int,
    ny: int,
    nx: int,
) -> bool {
    match d {
        Direction::Top => forall|j: int| ny < j < y ==> !occ_at(b, cidx(j, x)),
        Direction::Right => forall|j: int| x < j < nx ==> !occ_at(b, cidx(y, j)),
        Direction::Bottom => forall|j: int| y < j < ny ==> !occ_at(b, cidx(j, x)),
        Direction::Left => forall|j: int| nx < j < x ==> !occ_at(b, cidx(y, j)),
    }
}

/// An executable optional position agrees with a spec-level one.
pub open spec fn pos_opt_eq(r: Option<Position>, s: Option<(int, int)>) -> bool {
    &&& (r is Some <==> s is Some)
    &&& (r is Some ==> (r->0).0 as int == (s->0).0 && (r->0).1 as int == (s->0).1)
}

/// The four neighbours agree with the neighbour resolver's specification.
pub open spec fn nbrs_match(n: Neighbours, b: Seq<Option<Card>>, y: int, x: int, u: Unit) -> bool {
    &&& pos_opt_eq(n.top, nbr_spec(b, y, x, u, Direction::Top))
    &&& pos_opt_eq(n.right, nbr_spec(b, y, x, u, Direction::Right))
    &&& pos_opt_eq(n.bottom, nbr_spec(b, y, x, u, Direction::Bottom))
    &&& pos_opt_eq(n.left, nbr_spec(b, y, x, u, Direction::Left))
}

/// A present neighbour entry is on the grid, occupied, and on the ray of
/// its direction from (y, x).
pub open spec fn nbr_entry_ok(
    b: Seq<Option<Card>>,
    y: int,
    x: int,
    d: Direction,
    e: Option<Position>,
) -> bool {
    e is Some ==> {
        &&& on_grid((e->0).0 as int, (e->0).1 as int)
        &&& occ_at(b, cidx((e->0).0 as int, (e->0).1 as int))
        &&& on_ray(d, y, x, (e->0).0 as int, (e->0).1 as int)
    }
}

/// All four neighbour entries are sane for a card standing at (y, x).
pub open spec fn nbrs_ok(b: Seq<Option<Card>>, y: int, x: int, n: Neighbours) -> bool {
    &&& nbr_entry_ok(b, y, x, Direction::Top, n.top)
    &&& nbr_entry_ok(b, y, x, Direction::Right, n.right)
    &&& nbr_entry_ok(b, y, x, Direction::Bottom, n.bottom)
    &&& nbr_entry_ok(b, y, x, Direction::Left, n.left)
}

pub proof fn lemma_far_up_props(b: Seq<Option<Card>>, y: int, x: int)
    requires
        b.len() == 20,
        0 <= y < 4,
        0 <= x < 5,
    ensures
        match far_up(b, y, x) {
            Some(r) => 0 <= r < y && occ_at(b, cidx(r, x)) && (forall|j: int|
                r < j < y ==> !occ_at(b, cidx(j, x))),
            None => forall|j: int| 0 <= j < y ==> !occ_at(b, cidx(j, x)),
        },
    decreases y,
{
    if y > 0 && !occ_at(b, cidx(y - 1, x)) {
        lemma_far_up_props(b, y - 1, x);
    }
}

pub proof fn lemma_far_down_props(b: Seq<Option<Card>>, y: int, x: int)
    requires
        b.len() == 20,
        0 <= y < 4,
        0 <= x < 5,
    ensures
        match far_down(b, y, x) {
            Some(r) => y < r < 4 && occ_at(b, cidx(r, x)) && (forall|j: int|
                y < j < r ==> !occ_at(b, cidx(j, x))),
            None => forall|j: int| y < j < 4 ==> !occ_at(b, cidx(j, x)),
        },
    decreases 3 - y,
{
    if y < 3 && !occ_at(b, cidx(y + 1, x)) {
        lemma_far_down_props(b, y + 1, x);
    }
}

pub proof fn lemma_far_left_props(b: Seq<Option<Card>>, y: int, x: int)
    requires
        b.len() == 20,
        0 <= y < 4,
        0 <= x < 5,
    ensures
        match far_left(b, y, x) {
            Some(c) => 0 <= c < x && occ_at(b, cidx(y, c)) && (forall|j: int|
                c < j < x ==> !occ_at(b, cidx(y, j))),
            None => forall|j: int| 0 <= j < x ==> !occ_at(b, cidx(y, j)),
        },
    decreases x,
{
    if x > 0 && !occ_at(b, cidx(y, x - 1)) {
        lemma_far_left_props(b, y, x - 1);
    }
}

pub proof fn lemma_far_right_props(b: Seq<Option<Card>>, y: int, x: int)
    requires
        b.len() == 20,
        0 <= y < 4,
        0 <= x < 5,
    ensures
        match far_right(b, y, x) {
            Some(c) => x < c < 5 && occ_at(b, cidx(y, c)) && (forall|j: int|
                x < j < c ==> !occ_at(b, cidx(y, j))),
            None => forall|j: int| x < j < 5 ==> !occ_at(b, cidx(y, j)),
        },
    decreases 4 - x,
{
    if x < 4 && !occ_at(b, cidx(y, x + 1)) {
        lemma_far_right_props(b, y, x + 1);
    }
}

/// A resolved neighbour is occupied, on the grid, on its direction's ray,
/// with only empty cells strictly between.
pub proof fn lemma_nbr_spec_props(b: Seq<Option<Card>>, y: int, x: int, u: Unit, d: Direction)
    requires
        b.len() == 20,
        on_grid(y, x),
    ensures
        match nbr_spec(b, y, x, u, d) {
            Some(p) => on_grid(p.0, p.1) && occ_at(b, cidx(p.0, p.1)) && on_ray(d, y, x, p.0, p.1)
                && between_empty(b, d, y, x, p.0, p.1),
            None => true,
        },
{
    reveal(nbr_spec);
    match d {
        Direction::Top => lemma_far_up_props(b, y, x),
        Direction::Right => lemma_far_right_props(b, y, x),
        Direction::Bottom => lemma_far_down_props(b, y, x),
        Direction::Left => lemma_far_left_props(b, y, x),
    }
}

/// Neighbours that agree with the resolver are sane.
pub proof fn lemma_nbrs_match_ok(n: Neighbours, b: Seq<Option<Card>>, y: int, x: int, u: Unit)
    requires
        b.len() == 20,
        on_grid(y, x),
        nbrs_match(n, b, y, x, u),
    ensures
        nbrs_ok(b, y, x, n),
{
    lemma_nbr_spec_props(b, y, x, u, Direction::Top);
    lemma_nbr_spec_props(b, y, x, u, Direction::Right);
    lemma_nbr_spec_props(b, y, x, u, Direction::Bottom);
    lemma_nbr_spec_props(b, y, x, u, Direction::Left);
}

impl Card {
    /// Coordinate of the first occupied cell from (y, x) toward the edge in
    /// the given direction: the row for vertical scans, the column for
    /// horizontal ones.
    pub fn get_far_neighbour(direction: Direction, board: &Board, y: usize, x: usize) -> (r: Option<
        usize,
    >)
        requires
            board@.len() == 20,
            y < 4,
            x < 5,
        ensures
            ({
                let s = match direction {
                    Direction::Top => far_up(board@, y as int, x as int),
                    Direction::Right => far_right(board@, y as int, x as int),
                    Direction::Bottom => far_down(board@, y as int, x as int),
                    Direction::Left => far_left(board@, y as int, x as int),
                };
                &&& (r is Some <==> s is Some)
                &&& (r is Some ==> r->0 as int == s->0)
            }),
    {
        match direction {
            Direction::Top => {
                let mut j: usize = y;
                while j > 0
                    invariant
                        direction == Direction::Top,
                        board@.len() == 20,
                        j <= y < 4,
                        x < 5,
                        far_up(board@, y as int, x as int) == far_up(board@, j as int, x as int),
                    decreases j,
                {
                    if board.get(j - 1, x).is_some() {
                        return Some(j - 1);
                    }
                    j = j - 1;
                }
                None
            },
            Direction::Right => {
                let mut j: usize = x;
                while j < 4
                    invariant
                        direction == Direction::Right,
                        board@.len() == 20,
                        x <= j <= 4,
                        y < 4,
                        far_right(board@, y as int, x as int) == far_right(
                            board@,
                            y as int,
                            j as int,
                        ),
                    decreases 4 - j,
                {
                    if board.get(y, j + 1).is_some() {
                        return Some(j + 1);
                    }
                    j = j + 1;
                }
                None
            },
            Direction::Bottom => {
                let mut j: usize = y;
                while j < 3
                    invariant
                        direction == Direction::Bottom,
                        board@.len() == 20,
                        y <= j <= 3,
                        x < 5,
                        far_down(board@, y as int, x as int) == far_down(board@, j as int, x as int),
                    decreases 3 - j,
                {
                    if board.get(j + 1, x).is_some() {
                        return Some(j + 1);
                    }
                    j = j + 1;
                }
                None
            },
            Direction::Left => {
                let mut j: usize = x;
                while j > 0
                    invariant
                        direction == Direction::Left,
                        board@.len() == 20,
                        j <= x < 5,
                        y < 4,
                        far_left(board@, y as int, x as int) == far_left(board@, y as int, j as int),
                    decreases j,
                {
                    if board.get(y, j - 1).is_some() {
                        return Some(j - 1);
                    }
                    j = j - 1;
                }
                None
            },
        }
    }

    /// The neighbour seen from (y, x) in one direction, for a unit type.
    pub fn get_neighbour(board: &Board, direction: Direction, y: usize, x: usize, card: Unit) -> (r:
        Option<Position>)
        requires
            board@.len() == 20,
            y < 4,
            x < 5,
        ensures
            pos_opt_eq(r, nbr_spec(board@, y as int, x as int, card, direction)),
    {
        proof {
            reveal(nbr_spec);
        }
        match direction {
            Direction::Top => {
                if y > 0 {
                    let n: Option<usize> = match card {
                        Unit::Keeper | Unit::Siren => Card::get_far_neighbour(
                            direction,
                            board,
                            y,
                            x,
                        ),
                        _ => {
                            if board.get(y - 1, x).is_some() {
                                Some(y - 1)
                            } else {
                                None
                            }
                        },
                    };
                    if let Some(np) = n {
                        return Some((np, x));
                    }
                }
                None
            },
            Direction::Right => {
                if x < 4 {
                    let n: Option<usize> = match card {
                        Unit::Keeper | Unit::Siren => Card::get_far_neighbour(
                            direction,
                            board,
                            y,
                            x,
                        ),
                        _ => {
                            if board.get(y, x + 1).is_some() {
                                Some(x + 1)
                            } else {
                                None
                            }
                        },
                    };
                    if let Some(np) = n {
                        return Some((y, np));
                    }
                }
                None
            },
            Direction::Bottom => {
                if y < 3 {
                    let n: Option<usize> = match card {
                        Unit::Keeper | Unit::Siren => Card::get_far_neighbour(
                            direction,
                            board,
                            y,
                            x,
                        ),
                        _ => {
                            if board.get(y + 1, x).is_some() {
                                Some(y + 1)
                            } else {
                                None
                            }
                        },
                    };
                    if let Some(np) = n {
                        return Some((np, x));
                    }
                }
                None
            },
            Direction::Left => {
                if x > 0 {
                    let n: Option<usize> = match card {
                        Unit::Keeper | Unit::Siren => Card::get_far_neighbour(
                            direction,
                            board,
                            y,
                            x,
                        ),
                        _ => {
                            if board.get(y, x - 1).is_some() {
                                Some(x - 1)
                            } else {
                                None
                            }
                        },
                    };
                    if let Some(np) = n {
                        return Some((y, np));
                    }
                }
                None
            },
        }
    }

    /// The Top, Right, Bottom and Left neighbours of (y, x) for a unit type.
    pub fn get_neighbours(board: &Board, y: usize, x: usize, card: Unit) -> (r: Neighbours)
        requires
            board@.len() == 20,
            y < 4,
            x < 5,
        ensures
            nbrs_match(r, board@, y as int, x as int, card),
    {
        Neighbours {
            top: Card::get_neighbour(board, Direction::Top, y, x, card),
            right: Card::get_neighbour(board, Direction::Right, y, x, card),
            bottom: Card::get_neighbour(board, Direction::Bottom, y, x, card),
            left: Card::get_neighbour(board, Direction::Left, y, x, card),
        }
    }
}

} // verus!

verus! {

/// Result of one directional battle between two cards.
#[derive(Clone, Copy, PartialEq, Eq, Structural, Debug)]
pub enum FightResult {
    Win,
    Tie,
    Lose,
}

/// The ally-swarm bonus of player `p`: one per Swarm card of `p` on the
/// board, minus one for the fighting Swarm itself, floored at 0.
pub open spec fn swarm_count_spec(b: Seq<Option<Card>>, p: u8) -> nat {
    let c = swarm_upto(b, p, 20);
    if c > 0 {
        (c - 1) as nat
    } else {
        0
    }
}

/// Caps a battle value at 10.
pub open spec fn min10(v: int) -> int {
    if v > 10 {
        10
    } else {
        v
    }
}

/// The value the card at (y, x) attacks with in direction `d`.
pub open spec fn outward_val(c: Card, d: Direction) -> u8 {
    match d {
        Direction::Top => c.top,
        Direction::Right => c.right,
        Direction::Bottom => c.bottom,
        Direction::Left => c.left,
    }
}

/// The value a neighbour in direction `d` defends with: its side facing back.
pub open spec fn inward_val(c: Card, d: Direction) -> u8 {
    match d {
        Direction::Top => c.bottom,
        Direction::Right => c.left,
        Direction::Bottom => c.top,
        Direction::Left => c.right,
    }
}

/// Outcome of a battle after all unit modifiers: Warden defenders get +1
/// against enemies, Swarm defenders and attackers add their side's ally-swarm
/// bonus (capped at 10), Slayer attackers fight with attack and defense
/// swapped.
#[verifier::opaque]
pub open spec fn fight_spec(
    b: Seq<Option<Card>>,
    attacker: Unit,
    defender: Unit,
    attack_value: u8,
    defense_value: u8,
    attacking_player: u8,
    defending_player: u8,
) -> FightResult {
    let dv1: int = if defender is Warden {
        if attacking_player != defending_player {
            defense_value + 1
        } else {
            defense_value as int
        }
    } else if defender is Swarm {
        min10(defense_value + swarm_count_spec(b, defending_player))
    } else {
        defense_value as int
    };
    let av1: int = attack_value as int;
    let av2: int = if attacker is Slayer {
        dv1
    } else if attacker is Swarm {
        min10(av1 + swarm_count_spec(b, attacking_player))
    } else {
        av1
    };
    let dv2: int = if attacker is Slayer {
        av1
    } else {
        dv1
    };
    if av2 > dv2 {
        FightResult::Win
    } else if av2 == dv2 {
        FightResult::Tie
    } else {
        FightResult::Lose
    }
}

/// Outcome of the battle the card at (y, x) fights against the cell at
/// (ny, nx) in direction `d`; no battle when that cell is empty.
#[verifier::opaque]
pub open spec fn battle_spec(
    b: Seq<Option<Card>>,
    y: int,
    x: int,
    ny: int,
    nx: int,
    d: Direction,
) -> Option<FightResult> {
    if !occ_at(b, cidx(ny, nx)) {
        None
    } else {
        let a = b[cidx(y, x)]->0;
        let dc = b[cidx(ny, nx)]->0;
        Some(
            fight_spec(b, a.name, dc.name, outward_val(a, d), inward_val(dc, d), a.player, dc.player),
        )
    }
}

impl Card {
    /// The ally-swarm bonus for player `p`: the count of `p`'s Swarm cards
    /// on the board, minus one for the Swarm asking, floored at 0.
    pub fn swarm_count(board: &Board, player: u8) -> (r: u8)
        requires
            board@.len() == 20,
        ensures
            r as nat == swarm_count_spec(board@, player),
            r <= 19,
    {
        let mut swarm: u8 = 0;
        let mut y: usize = 0;
        while y < 4
            invariant
                board@.len() == 20,
                y <= 4,
                swarm as nat == swarm_upto(board@, player, 5 * y as int),
                swarm <= 5 * y,
            decreases 4 - y,
        {
            let mut x: usize = 0;
            while x < 5
                invariant
                    board@.len() == 20,
                    y < 4,
                    x <= 5,
                    swarm as nat == swarm_upto(board@, player, cidx(y as int, x as int)),
                    swarm <= 5 * y + x,
                decreases 5 - x,
            {
                if board.get(y, x).is_some() {
                    let card = board.get(y, x).unwrap();
                    if card.name == Unit::Swarm && card.player == player {
                        swarm = swarm + 1;
                    }
                }
                x = x + 1;
            }
            y = y + 1;
        }
        proof {
            lemma_swarm_upto_bound(board@, player, 20);
        }
        // a swarm gets a bonus for each ally swarm except itself
        if swarm > 0 {
            swarm - 1
        } else {
            swarm
        }
    }
}

/// Fights one battle between an attacker and a defender after applying the
/// unit modifiers, and returns the outcome.
fn fight(
    attacker: Unit,
    defender: Unit,
    attack_value: u8,
    defense_value: u8,
    board: &Board,
    attacking_player: u8,
    defending_player: u8,
) -> (r: FightResult)
    requires
        board@.len() == 20,
        attack_value <= 10,
        defense_value <= 10,
        attacking_player == 1 || attacking_player == 2,
    ensures
        r == fight_spec(
            board@,
            attacker,
            defender,
            attack_value,
            defense_value,
            attacking_player,
            defending_player,
        ),
{
    proof {
        reveal(fight_spec);
    }
    let mut attack_value: u8 = attack_value;
    let mut defense_value: u8 = defense_value;

    match defender {
        // Warden has a defense bonus ONLY against enemies
        Unit::Warden => {
            if attacking_player != defending_player {
                defense_value = defense_value + 1;
            }
        },
        // Swarm gets the ally bonus of the defending side
        Unit::Swarm => {
            let s: u8 = defense_value + Card::swarm_count(board, defending_player);
            defense_value = if s > 10 {
                10
            } else {
                s
            };
        },
        _ => {},
    }

    match attacker {
        // Slayer uses swapped attack values
        Unit::Slayer => {
            let t: u8 = attack_value;
            attack_value = defense_value;
            defense_value = t;
        },
        // Swarm gets ally bonus
        Unit::Swarm => {
            let s: u8 = attack_value + Card::swarm_count(board, attacking_player);
            attack_value = if s > 10 {
                10
            } else {
                s
            };
        },
        _ => {},
    }

    if attack_value > defense_value {
        FightResult::Win
    } else if attack_value == defense_value {
        FightResult::Tie
    } else {
        FightResult::Lose
    }
}

/// Fights the battle between the card at `position` and the cell at
/// `neighbour_position`; no battle when that cell is empty.
fn battle(
    board: &Board,
    position: Position,
    neighbour_position: Position,
    direction: Direction,
) -> (r: Option<FightResult>)
    requires
        board.wf(),
        position.0 < 4,
        position.1 < 5,
        neighbour_position.0 < 4,
        neighbour_position.1 < 5,
        occ_at(board@, cidx(position.0 as int, position.1 as int)),
    ensures
        r == battle_spec(
            board@,
            position.0 as int,
            position.1 as int,
            neighbour_position.0 as int,
            neighbour_position.1 as int,
            direction,
        ),
{
    proof {
        reveal(battle_spec);
    }
    let (y, x) = position;
    let (ny, nx) = neighbour_position;
    let attacking_player: u8 = board.get(y, x).unwrap().player;
    let neighbour = board.get(ny, nx);

    if let Some(neighbour) = neighbour {
        let a = board.get(y, x).unwrap();
        let d = neighbour;

        match direction {
            Direction::Top => Some(
                fight(a.name, d.name, a.top, d.bottom, board, attacking_player, d.player),
            ),
            Direction::Right => Some(
                fight(a.name, d.name, a.right, d.left, board, attacking_player, d.player),
            ),
            Direction::Bottom => Some(
                fight(a.name, d.name, a.bottom, d.top, board, attacking_player, d.player),
            ),
            Direction::Left => Some(
                fight(a.name, d.name, a.left, d.right, board, attacking_player, d.player),
            ),
        }
    } else {
        None
    }
}

} // verus!


verus! {

/// The directional values of two cards agree.
pub open spec fn stats_eq(a: Card, b: Card) -> bool {
    a.top == b.top && a.right == b.right && a.bottom == b.bottom && a.left == b.left
}

/// Both boards hold cards in the same cells, with the same unit in each.
pub open spec fn same_shape(b0: Seq<Option<Card>>, b1: Seq<Option<Card>>) -> bool {
    &&& b0.len() == 20
    &&& b1.len() == 20
    &&& forall|i: int|
        0 <= i < 20 ==> ((#[trigger] b0[i]) is Some <==> (#[trigger] b1[i]) is Some) && (b0[i] is Some
            ==> b1[i]->0.name == b0[i]->0.name)
}

/// What combat resolution may do to a board, fighting for player `p`: no
/// card appears, vanishes or moves, ownership only ever changes to `p`, and
/// only Ravagers change their directional values.
pub open spec fn combat_frame(b0: Seq<Option<Card>>, b1: Seq<Option<Card>>, p: u8) -> bool {
    &&& same_shape(b0, b1)
    &&& forall|i: int|
        0 <= i < 20 && (#[trigger] b0[i]) is Some ==> {
            &&& (b1[i]->0.player == b0[i]->0.player || b1[i]->0.player == p)
            &&& (b0[i]->0.name != Unit::Ravager ==> stats_eq(b0[i]->0, b1[i]->0))
        }
}

pub proof fn lemma_frame_refl(b: Seq<Option<Card>>, p: u8)
    requires
        b.len() == 20,
    ensures
        combat_frame(b, b, p),
{
}

pub proof fn lemma_frame_trans(
    b0: Seq<Option<Card>>,
    b1: Seq<Option<Card>>,
    b2: Seq<Option<Card>>,
    p: u8,
)
    requires
        combat_frame(b0, b1, p),
        combat_frame(b1, b2, p),
    ensures
        combat_frame(b0, b2, p),
{
}

/// Combat never costs the fighting player a card, and never frees or fills
/// a cell, so the count of cards opposing `p` never grows.
pub proof fn lemma_frame_owned(b0: Seq<Option<Card>>, b1: Seq<Option<Card>>, p: u8)
    requires
        combat_frame(b0, b1, p),
    ensures
        owned_count(b1, p) >= owned_count(b0, p),
        occ_upto(b1, 20) == occ_upto(b0, 20),
        enemy_measure(b1, p) <= enemy_measure(b0, p),
        0 <= enemy_measure(b1, p),
        0 <= enemy_measure(b0, p),
{
    assert forall|i: int| 0 <= i < 20 && owned_at(b0, p, i) implies owned_at(b1, p, i) by {
        assert(b0[i] is Some);
    }
    lemma_owned_upto_mono(b0, b1, p, 20);
    lemma_occ_upto_same_shape(b0, b1, 20);
    lemma_owned_le_occ(b0, p, 20);
    lemma_owned_le_occ(b1, p, 20);
}

/// The exact effect of a capture with no chain reaction: the defender joins
/// the attacker's side (upgraded by 1 if it is a Ravager, and only if it
/// changed sides), then the attacker is upgraded by 1 if it is a Ravager.
#[verifier::opaque]
pub open spec fn capture_spec(b: Seq<Option<Card>>, dy: int, dx: int, ay: int, ax: int) -> Seq<
    Option<Card>,
> {
    let p = b[cidx(ay, ax)]->0.player;
    let d0 = b[cidx(dy, dx)]->0;
    let b1 = if d0.player != p {
        let d1 = Card { player: p, ..d0 };
        let d2 = if d1.name is Ravager {
            upgrade_spec(d1, 1)
        } else {
            d1
        };
        b.update(cidx(dy, dx), Some(d2))
    } else {
        b
    };
    let a0 = b1[cidx(ay, ax)]->0;
    if a0.name is Ravager {
        b1.update(cidx(ay, ax), Some(upgrade_spec(a0, 1)))
    } else {
        b1
    }
}

impl Card {
    /// Captures the defender for the attacker's player: the defender's owner
    /// becomes the attacker's, Ravagers get +1 on capturing and on being
    /// captured, and a card captured through the Same chain (`combo`) is
    /// immediately re-played by its new owner, cascading further captures.
    pub fn capture_event(
        defender_position: Position,
        attacker_position: Position,
        board: &mut Board,
        combo: bool,
    )
        requires
            old(board).wf(),
            defender_position.0 < 4,
            defender_position.1 < 5,
            attacker_position.0 < 4,
            attacker_position.1 < 5,
            occ_at(old(board)@, cidx(defender_position.0 as int, defender_position.1 as int)),
            occ_at(old(board)@, cidx(attacker_position.0 as int, attacker_position.1 as int)),
        ensures
            ({
                let b0 = old(board)@;
                let b1 = final(board)@;
                let di = cidx(defender_position.0 as int, defender_position.1 as int);
                let p = b0[cidx(attacker_position.0 as int, attacker_position.1 as int)]->0.player;
                &&& final(board).wf()
                &&& combat_frame(b0, b1, p)
                &&& b1[di]->0.player == p
                &&& enemy_measure(b1, p) <= enemy_measure(b0, p)
                &&& (b0[di]->0.player != p ==> enemy_measure(b1, p) < enemy_measure(b0, p))
                &&& (!combo ==> b1 == capture_spec(
                    b0,
                    defender_position.0 as int,
                    defender_position.1 as int,
                    attacker_position.0 as int,
                    attacker_position.1 as int,
                ))
                &&& (forall|f: int|
                    f >= enemy_measure(b0, p) ==> b1 == chain_capture_spec(
                        f,
                        b0,
                        defender_position.0 as int,
                        defender_position.1 as int,
                        attacker_position.0 as int,
                        attacker_position.1 as int,
                        combo,
                    ))
            }),
        decreases
                enemy_measure(
                    old(board)@,
                    old(board)@[cidx(attacker_position.0 as int, attacker_position.1 as int)]->0.player,
                ),
                1int,
    {
        proof {
            reveal(capture_spec);
        }
        let ghost b0 = board@;
        let (dy, dx) = defender_position;
        let (ay, ax) = attacker_position;
        let ghost di = cidx(dy as int, dx as int);
        let ghost ai = cidx(ay as int, ax as int);

        // determine the attacking player
        let attacking_player: u8 = board.get(ay, ax).unwrap().player;
        let ghost p = attacking_player;

        proof {
            lemma_enemy_measure_bounds(b0, p);
        }

        let ghost mut bu: Seq<Option<Card>> = b0;
        // capture the defender if the attacker does not own it already
        let dcard = board.get(dy, dx).unwrap();
        if dcard.player != attacking_player {
            let mut defender = dcard;
            // change the owner of the captured card
            defender.player = attacking_player;
            // Ravager gets an upgrade upon being captured
            if defender.name == Unit::Ravager {
                defender.upgrade(1);
            }
            board.set(dy, dx, Some(defender));
            proof {
                bu = board@;
                lemma_owned_upto_update(b0, p, di, Some(defender), 20);
                lemma_occ_upto_update(b0, di, Some(defender), 20);
                assert(combat_frame(b0, board@, p));
                assert(board@[di]->0.player == p);
                assert(enemy_measure(board@, p) < enemy_measure(b0, p));
                lemma_enemy_measure_bounds(board@, p);
            }
            // a card captured through the Same mechanic is played by its new owner
            if combo {
                let ghost bc = board@;
                Card::play(board, dy, dx, combo, None);
                proof {
                    lemma_frame_trans(b0, bc, board@, p);
                    lemma_frame_owned(bc, board@, p);
                    assert(owned_at(bc, p, di));
                    assert(board@[di]->0.player == p);
                }
            }
        }

        let ghost b2 = board@;
        proof {
            lemma_frame_owned(b0, b2, p);
        }

        // Ravager gets an upgrade upon capturing
        let acard = board.get(ay, ax).unwrap();
        if acard.name == Unit::Ravager {
            let mut attacker = acard;
            attacker.upgrade(1);
            board.set(ay, ax, Some(attacker));
            proof {
                lemma_owned_upto_update(b2, p, ai, Some(attacker), 20);
                lemma_occ_upto_update(b2, ai, Some(attacker), 20);
                assert(combat_frame(b2, board@, p));
            }
        }

        proof {
            lemma_frame_trans(b0, b2, board@, p);
            lemma_frame_owned(b0, board@, p);
            if b0[di]->0.player != p {
                assert forall|i: int| 0 <= i < 20 && owned_at(b2, p, i) implies owned_at(
                    board@,
                    p,
                    i,
                ) by {
                    assert(b2[i] is Some);
                }
                lemma_owned_upto_mono(b2, board@, p, 20);
                lemma_occ_upto_same_shape(b2, board@, 20);
            }

            // the interpreter computes the same board
            assert forall|f: int| f >= enemy_measure(b0, p) implies board@ == chain_capture_spec(
                f,
                b0,
                dy as int,
                dx as int,
                ay as int,
                ax as int,
                combo,
            ) by {
                let d0 = b0[di]->0;
                let dmoved = Card { player: p, ..d0 };
                let dfin = if dmoved.name is Ravager {
                    upgrade_spec(dmoved, 1)
                } else {
                    dmoved
                };
                let stage = if d0.player != p {
                    let buv = b0.update(di, Some(dfin));
                    if combo && f > 0 {
                        play_spec(f - 1, buv, dy as int, dx as int, true, None)
                    } else {
                        buv
                    }
                } else {
                    b0
                };
                assert(chain_capture_spec(f, b0, dy as int, dx as int, ay as int, ax as int, combo)
                    == (if stage[ai]->0.name is Ravager {
                    stage.update(ai, Some(upgrade_spec(stage[ai]->0, 1)))
                } else {
                    stage
                }));
                if d0.player != p {
                    lemma_owned_lt_occ(b0, p, di, 20);
                    assert(bu == b0.update(di, Some(dfin)));
                    if combo {
                        assert(f > 0);
                        assert(enemy_measure(bu, p) <= f - 1);
                        assert(b2 == play_spec(f - 1, bu, dy as int, dx as int, true, None));
                    } else {
                        assert(b2 == bu);
                    }
                } else {
                    assert(b2 == b0);
                }
                assert(b2 == stage);
                assert(board@ == (if stage[ai]->0.name is Ravager {
                    stage.update(ai, Some(upgrade_spec(stage[ai]->0, 1)))
                } else {
                    stage
                }));
            }
        }
    }
}

} // verus!

verus! {

/// The neighbours the resolver yields for a unit standing at (y, x).
pub open spec fn nbrs_of(b: Seq<Option<Card>>, y: int, x: int, u: Unit) -> Neighbours {
    Neighbours {
        top: match nbr_spec(b, y, x, u, Direction::Top) {
            Some(p) => Some(((p.0 as usize), (p.1 as usize))),
            None => None,
        },
        right: match nbr_spec(b, y, x, u, Direction::Right) {
            Some(p) => Some(((p.0 as usize), (p.1 as usize))),
            None => None,
        },
        bottom: match nbr_spec(b, y, x, u, Direction::Bottom) {
            Some(p) => Some(((p.0 as usize), (p.1 as usize))),
            None => None,
        },
        left: match nbr_spec(b, y, x, u, Direction::Left) {
            Some(p) => Some(((p.0 as usize), (p.1 as usize))),
            None => None,
        },
    }
}

pub proof fn lemma_nbrs_of_match(b: Seq<Option<Card>>, y: int, x: int, u: Unit)
    requires
        b.len() == 20,
        on_grid(y, x),
    ensures
        nbrs_match(nbrs_of(b, y, x, u), b, y, x, u),
        nbrs_ok(b, y, x, nbrs_of(b, y, x, u)),
{
    lemma_nbr_spec_props(b, y, x, u, Direction::Top);
    lemma_nbr_spec_props(b, y, x, u, Direction::Right);
    lemma_nbr_spec_props(b, y, x, u, Direction::Bottom);
    lemma_nbr_spec_props(b, y, x, u, Direction::Left);
    lemma_nbrs_match_ok(nbrs_of(b, y, x, u), b, y, x, u);
}

/// The battle the card at (y, x) fights against the neighbour entry `e`.
pub open spec fn dir_battle(
    b: Seq<Option<Card>>,
    y: int,
    x: int,
    e: Option<Position>,
    d: Direction,
) -> Option<FightResult> {
    match e {
        Some(p) => battle_spec(b, y, x, p.0 as int, p.1 as int, d),
        None => None,
    }
}

/// 1 when the battle against `e` is a value tie, else 0.
pub open spec fn tie1(
    b: Seq<Option<Card>>,
    y: int,
    x: int,
    e: Option<Position>,
    d: Direction,
) -> int {
    if dir_battle(b, y, x, e, d) == Some(FightResult::Tie) {
        1
    } else {
        0
    }
}

/// How many of the four battles from (y, x) end in a value tie, on the
/// pre-battle snapshot `b`.
pub open spec fn tie_count(b: Seq<Option<Card>>, y: int, x: int, n: Neighbours) -> int {
    tie1(b, y, x, n.top, Direction::Top) + tie1(b, y, x, n.right, Direction::Right) + tie1(
        b,
        y,
        x,
        n.bottom,
        Direction::Bottom,
    ) + tie1(b, y, x, n.left, Direction::Left)
}

/// What one direction's battle outcome forces on the final board `b1`:
/// a won battle leaves the neighbour owned by the placing player; with two
/// or more ties every tied neighbour is captured; with fewer, a tied or
/// winning neighbour is left exactly as it was.
pub open spec fn play_dir_post(
    b0: Seq<Option<Card>>,
    b1: Seq<Option<Card>>,
    y: int,
    x: int,
    e: Option<Position>,
    d: Direction,
    combo: bool,
    tc: int,
) -> bool {
    let p = b0[cidx(y, x)]->0.player;
    let o = dir_battle(b0, y, x, e, d);
    let ni = cidx((e->0).0 as int, (e->0).1 as int);
    &&& (o == Some(FightResult::Win) ==> owned_at(b1, p, ni))
    &&& (!combo && tc >= 2 && o == Some(FightResult::Tie) ==> owned_at(b1, p, ni))
    &&& (!combo && tc < 2 && o == Some(FightResult::Tie) ==> b1[ni] == b0[ni])
    &&& (!combo && tc < 2 && o == Some(FightResult::Lose) ==> b1[ni] == b0[ni])
}

/// The per-direction outcome obligations for all four directions.
pub open spec fn play_post(
    b0: Seq<Option<Card>>,
    b1: Seq<Option<Card>>,
    y: int,
    x: int,
    combo: bool,
    rn: Neighbours,
) -> bool {
    let tc = if combo {
        0int
    } else {
        tie_count(b0, y, x, rn)
    };
    &&& play_dir_post(b0, b1, y, x, rn.top, Direction::Top, combo, tc)
    &&& play_dir_post(b0, b1, y, x, rn.right, Direction::Right, combo, tc)
    &&& play_dir_post(b0, b1, y, x, rn.bottom, Direction::Bottom, combo, tc)
    &&& play_dir_post(b0, b1, y, x, rn.left, Direction::Left, combo, tc)
}

impl Card {
    /// Acts on the stored outcome of the battle fought toward `npos`: a win
    /// captures the neighbour (and lets a Lancer pierce one cell further), a
    /// tie captures it only as part of a Same chain of two or more ties, and
    /// a loss does nothing.
    #[verifier::rlimit(100)]
    fn resolve_direction(
        board: &mut Board,
        y: usize,
        x: usize,
        npos: Position,
        direction: Direction,
        res: FightResult,
        same_count: u8,
        combo: bool,
    )
        requires
            old(board).wf(),
            y < 4,
            x < 5,
            npos.0 < 4,
            npos.1 < 5,
            occ_at(old(board)@, cidx(y as int, x as int)),
            occ_at(old(board)@, cidx(npos.0 as int, npos.1 as int)),
            on_ray(direction, y as int, x as int, npos.0 as int, npos.1 as int),
        ensures
            ({
                let b0 = old(board)@;
                let b1 = final(board)@;
                let p = b0[cidx(y as int, x as int)]->0.player;
                let ni = cidx(npos.0 as int, npos.1 as int);
                &&& final(board).wf()
                &&& combat_frame(b0, b1, p)
                &&& (res is Win ==> owned_at(b1, p, ni))
                &&& (res is Tie && same_count > 1 ==> owned_at(b1, p, ni))
                &&& (res is Tie && same_count <= 1 ==> b1 == b0)
                &&& (res is Lose ==> b1 == b0)
                &&& (!combo && !(res is Tie && same_count > 1) ==> forall|py: int, px: int|
                    on_grid(py, px) && !(py == y as int && px == x as int) && !on_ray(
                        direction,
                        y as int,
                        x as int,
                        py,
                        px,
                    ) ==> b1[cidx(py, px)] == b0[cidx(py, px)])
                &&& (!combo && res is Win && b0[cidx(y as int, x as int)]->0.name != Unit::Lancer
                    ==> b1 == capture_spec(b0, npos.0 as int, npos.1 as int, y as int, x as int))
                &&& (forall|f: int|
                    f >= enemy_measure(b0, p) ==> b1 == resolve_spec(
                        f,
                        b0,
                        y as int,
                        x as int,
                        npos.0 as int,
                        npos.1 as int,
                        direction,
                        res,
                        same_count as int,
                        combo,
                    ))
            }),
        decreases
                enemy_measure(old(board)@, old(board)@[cidx(y as int, x as int)]->0.player),
                2int,
    {
        proof {
            reveal(capture_spec);
        }
        let ghost b0 = board@;
        let ghost p = board@[cidx(y as int, x as int)]->0.player;
        let ghost yi = cidx(y as int, x as int);
        let (ny, nx) = npos;
        let ghost ni = cidx(ny as int, nx as int);
        let ghost mut g1: Seq<Option<Card>> = b0;
        let ghost mut g2: Seq<Option<Card>> = b0;
        let ghost mut g3: Seq<Option<Card>> = b0;
        proof {
            lemma_enemy_measure_bounds(b0, p);
        }

        match res {
            FightResult::Win => {
                // capture the neighbour when the battle is won
                Card::capture_event(npos, (y, x), board, combo);
                let ghost b1 = board@;
                proof {
                    g1 = board@;
                    lemma_frame_owned(b0, b1, p);
                }

                // Lancer's pierce attacks the fallen neighbour's neighbour
                if board.get(y, x).unwrap().name == Unit::Lancer {
                    let def = Card::get_neighbour(board, direction, ny, nx, Unit::Lancer);
                    proof {
                        lemma_nbr_spec_props(b1, ny as int, nx as int, Unit::Lancer, direction);
                    }

                    // if there is a card to pierce
                    if let Some(d) = def {
                        let ghost di = cidx(d.0 as int, d.1 as int);
                        // swap the lancer with its defeated neighbour
                        let temp_card = board.get(ny, nx);
                        let lancer = board.get(y, x);
                        board.set(ny, nx, lancer);
                        board.set(y, x, None);
                        let ghost b2 = board@;
                        proof {
                            g2 = board@;
                            assert(lancer->0.player == p);
                            assert(owned_at(b1, p, ni));
                            lemma_owned_upto_update(b1, p, ni, lancer, 20);
                            lemma_occ_upto_update(b1, ni, lancer, 20);
                            lemma_owned_upto_update(b1.update(ni, lancer), p, yi, None, 20);
                            lemma_occ_upto_update(b1.update(ni, lancer), yi, None, 20);
                            assert(enemy_measure(b2, p) == enemy_measure(b1, p));
                            lemma_enemy_measure_bounds(b2, p);
                            assert(b2[ni]->0.player == p);
                        }

                        // commence battle at the neighbour's position
                        let battle_result = battle(board, npos, d, direction);

                        if let Some(r2) = battle_result {
                            if r2 == FightResult::Win {
                                Card::capture_event(d, npos, board, combo);
                            }
                        }
                        let ghost b3 = board@;
                        proof {
                            g3 = board@;
                        }

                        // now put the cards back into their original cells
                        let lancer2 = board.get(ny, nx);
                        board.set(y, x, lancer2);
                        board.set(ny, nx, temp_card);

                        proof {
                            assert(b3[ni]->0 == b2[ni]->0);
                            assert(b3[ni] == b2[ni]);
                            assert(lancer2 == lancer);
                            assert(board@ =~= b3.update(yi, lancer).update(ni, temp_card));
                            assert(board@[yi] == b1[yi]);
                            assert(board@[ni] == b1[ni]);
                            assert forall|i: int|
                                0 <= i < 20 && i != yi && i != ni implies board@[i] == b3[i]
                                && b2[i] == b1[i] by {}
                            assert forall|i: int| 0 <= i < 20 && (#[trigger] b1[i]) is Some implies {
                                &&& board@[i] is Some
                                &&& board@[i]->0.name == b1[i]->0.name
                                &&& (board@[i]->0.player == b1[i]->0.player || board@[i]->0.player
                                    == p)
                                &&& (b1[i]->0.name != Unit::Ravager ==> stats_eq(
                                    b1[i]->0,
                                    board@[i]->0,
                                ))
                            } by {
                                if i != yi && i != ni {
                                    assert(b2[i] == b1[i]);
                                    assert(board@[i] == b3[i]);
                                }
                            }
                            assert forall|i: int|
                                0 <= i < 20 && (#[trigger] board@[i]) is Some implies b1[i] is Some by {
                                if i != yi && i != ni {
                                    assert(b2[i] == b1[i]);
                                    assert(board@[i] == b3[i]);
                                }
                            }
                            assert(combat_frame(b1, board@, p));
                            lemma_frame_trans(b0, b1, board@, p);
                        }
                    }
                }
            },
            FightResult::Tie => {
                // with two or more same values this is a valid capture,
                // starting a Same chain
                if same_count > 1 {
                    Card::capture_event(npos, (y, x), board, true);
                }
            },
            FightResult::Lose => {},
        }
        proof {
            lemma_frame_owned(b0, board@, p);

            // the interpreter computes the same board
            assert forall|f: int| f >= enemy_measure(b0, p) implies board@ == resolve_spec(
                f,
                b0,
                y as int,
                x as int,
                ny as int,
                nx as int,
                direction,
                res,
                same_count as int,
                combo,
            ) by {
                match res {
                    FightResult::Win => {
                        assert(g1 == chain_capture_spec(
                            f,
                            b0,
                            ny as int,
                            nx as int,
                            y as int,
                            x as int,
                            combo,
                        ));
                        if g1[yi]->0.name is Lancer {
                            match nbr_spec(g1, ny as int, nx as int, Unit::Lancer, direction) {
                                Some(t) => {
                                    assert(g2 == g1.update(ni, g1[yi]).update(yi, None));
                                    let b3s = if battle_spec(g2, ny as int, nx as int, t.0, t.1, direction)
                                        == Some(FightResult::Win) {
                                        chain_capture_spec(
                                            f,
                                            g2,
                                            t.0,
                                            t.1,
                                            ny as int,
                                            nx as int,
                                            combo,
                                        )
                                    } else {
                                        g2
                                    };
                                    assert(g3 == b3s);
                                    assert(board@ == g3.update(yi, g3[ni]).update(ni, g1[ni]));
                                },
                                None => {
                                    assert(board@ == g1);
                                },
                            }
                        } else {
                            assert(board@ == g1);
                        }
                    },
                    FightResult::Tie => {
                        if same_count > 1 {
                            assert(board@ == chain_capture_spec(
                                f,
                                b0,
                                ny as int,
                                nx as int,
                                y as int,
                                x as int,
                                true,
                            ));
                        } else {
                            assert(board@ == b0);
                        }
                    },
                    FightResult::Lose => {
                        assert(board@ == b0);
                    },
                }
            }
        }
    }
}

} // verus!

verus! {

/// Two neighbour sets that both agree with the resolver are equal.
pub proof fn lemma_nbrs_match_unique(
    n1: Neighbours,
    n2: Neighbours,
    b: Seq<Option<Card>>,
    y: int,
    x: int,
    u: Unit,
)
    requires
        nbrs_match(n1, b, y, x, u),
        nbrs_match(n2, b, y, x, u),
    ensures
        n1 == n2,
{
    if n1.top is Some {
        assert((n1.top->0).0 == (n2.top->0).0 && (n1.top->0).1 == (n2.top->0).1);
    }
    if n1.right is Some {
        assert((n1.right->0).0 == (n2.right->0).0 && (n1.right->0).1 == (n2.right->0).1);
    }
    if n1.bottom is Some {
        assert((n1.bottom->0).0 == (n2.bottom->0).0 && (n1.bottom->0).1 == (n2.bottom->0).1);
    }
    if n1.left is Some {
        assert((n1.left->0).0 == (n2.left->0).0 && (n1.left->0).1 == (n2.left->0).1);
    }
}

/// Fights the four battles of the card at (y, x) against its neighbours,
/// all on the same snapshot of the board, in Top, Right, Bottom, Left order.
fn snapshot_battles(board: &Board, y: usize, x: usize, nbrs: Neighbours) -> (r: (
    Option<FightResult>,
    Option<FightResult>,
    Option<FightResult>,
    Option<FightResult>,
))
    requires
        board.wf(),
        y < 4,
        x < 5,
        occ_at(board@, cidx(y as int, x as int)),
        nbrs_ok(board@, y as int, x as int, nbrs),
    ensures
        r.0 == dir_battle(board@, y as int, x as int, nbrs.top, Direction::Top),
        r.1 == dir_battle(board@, y as int, x as int, nbrs.right, Direction::Right),
        r.2 == dir_battle(board@, y as int, x as int, nbrs.bottom, Direction::Bottom),
        r.3 == dir_battle(board@, y as int, x as int, nbrs.left, Direction::Left),
{
    let top_battle: Option<FightResult> = match nbrs.top {
        Some(n) => battle(board, (y, x), n, Direction::Top),
        None => None,
    };
    let right_battle: Option<FightResult> = match nbrs.right {
        Some(n) => battle(board, (y, x), n, Direction::Right),
        None => None,
    };
    let bottom_battle: Option<FightResult> = match nbrs.bottom {
        Some(n) => battle(board, (y, x), n, Direction::Bottom),
        None => None,
    };
    let left_battle: Option<FightResult> = match nbrs.left {
        Some(n) => battle(board, (y, x), n, Direction::Left),
        None => None,
    };
    (top_battle, right_battle, bottom_battle, left_battle)
}

/// What one resolution step in direction `d` did to the board, given the
/// stored outcome `o` of its battle and the tie count `sc` in force.
pub open spec fn step_post(
    bpre: Seq<Option<Card>>,
    bpost: Seq<Option<Card>>,
    y: int,
    x: int,
    e: Option<Position>,
    d: Direction,
    o: Option<FightResult>,
    combo: bool,
    sc: int,
    p: u8,
) -> bool {
    let ni = cidx((e->0).0 as int, (e->0).1 as int);
    &&& combat_frame(bpre, bpost, p)
    &&& (o is None ==> bpost == bpre)
    &&& (o == Some(FightResult::Win) ==> owned_at(bpost, p, ni))
    &&& (o == Some(FightResult::Tie) && sc > 1 ==> owned_at(bpost, p, ni))
    &&& (o == Some(FightResult::Tie) && sc <= 1 ==> bpost == bpre)
    &&& (o == Some(FightResult::Lose) ==> bpost == bpre)
    &&& (!combo && !(o == Some(FightResult::Tie) && sc > 1) ==> forall|py: int, px: int|
        on_grid(py, px) && !(py == y && px == x) && !on_ray(d, y, x, py, px) ==> bpost[cidx(py, px)]
            == bpre[cidx(py, px)])
}

/// Chains the four resolution steps: every won or Same-captured neighbour
/// ends owned by the placing player, and with fewer than two ties a tied
/// neighbour comes out of the whole resolution untouched.
#[verifier::rlimit(100)]
proof fn lemma_play_assemble(
    b0: Seq<Option<Card>>,
    s1: Seq<Option<Card>>,
    s2: Seq<Option<Card>>,
    s3: Seq<Option<Card>>,
    s4: Seq<Option<Card>>,
    p: u8,
    y: int,
    x: int,
    rn: Neighbours,
    combo: bool,
    sc: int,
    o0: Option<FightResult>,
    o1: Option<FightResult>,
    o2: Option<FightResult>,
    o3: Option<FightResult>,
)
    requires
        b0.len() == 20,
        on_grid(y, x),
        p == b0[cidx(y, x)]->0.player,
        nbrs_ok(b0, y, x, rn),
        o0 == dir_battle(b0, y, x, rn.top, Direction::Top),
        o1 == dir_battle(b0, y, x, rn.right, Direction::Right),
        o2 == dir_battle(b0, y, x, rn.bottom, Direction::Bottom),
        o3 == dir_battle(b0, y, x, rn.left, Direction::Left),
        sc == (if combo {
            0int
        } else {
            tie_count(b0, y, x, rn)
        }),
        step_post(b0, s1, y, x, rn.top, Direction::Top, o0, combo, sc, p),
        step_post(s1, s2, y, x, rn.right, Direction::Right, o1, combo, sc, p),
        step_post(s2, s3, y, x, rn.bottom, Direction::Bottom, o2, combo, sc, p),
        step_post(s3, s4, y, x, rn.left, Direction::Left, o3, combo, sc, p),
    ensures
        combat_frame(b0, s4, p),
        play_post(b0, s4, y, x, combo, rn),
{
    lemma_frame_trans(b0, s1, s2, p);
    lemma_frame_trans(b0, s2, s3, p);
    lemma_frame_trans(b0, s3, s4, p);

    let tc = if combo {
        0int
    } else {
        tie_count(b0, y, x, rn)
    };

    if rn.top is Some {
        let ni = cidx((rn.top->0).0 as int, (rn.top->0).1 as int);
        if o0 == Some(FightResult::Win) || (!combo && tc >= 2 && o0 == Some(FightResult::Tie)) {
            assert(owned_at(s1, p, ni));
            assert(owned_at(s2, p, ni));
            assert(owned_at(s3, p, ni));
            assert(owned_at(s4, p, ni));
        }
        if !combo && tc < 2 && (o0 == Some(FightResult::Tie) || o0 == Some(FightResult::Lose)) {
            assert(s1[ni] == b0[ni]);
            assert(s2[ni] == s1[ni]);
            assert(s3[ni] == s2[ni]);
            assert(s4[ni] == s3[ni]);
        }
    }
    if rn.right is Some {
        let ni = cidx((rn.right->0).0 as int, (rn.right->0).1 as int);
        if o1 == Some(FightResult::Win) || (!combo && tc >= 2 && o1 == Some(FightResult::Tie)) {
            assert(owned_at(s2, p, ni));
            assert(owned_at(s3, p, ni));
            assert(owned_at(s4, p, ni));
        }
        if !combo && tc < 2 && (o1 == Some(FightResult::Tie) || o1 == Some(FightResult::Lose)) {
            assert(s1[ni] == b0[ni]);
            assert(s2[ni] == s1[ni]);
            assert(s3[ni] == s2[ni]);
            assert(s4[ni] == s3[ni]);
        }
    }
    if rn.bottom is Some {
        let ni = cidx((rn.bottom->0).0 as int, (rn.bottom->0).1 as int);
        if o2 == Some(FightResult::Win) || (!combo && tc >= 2 && o2 == Some(FightResult::Tie)) {
            assert(owned_at(s3, p, ni));
            assert(owned_at(s4, p, ni));
        }
        if !combo && tc < 2 && (o2 == Some(FightResult::Tie) || o2 == Some(FightResult::Lose)) {
            assert(s1[ni] == b0[ni]);
            assert(s2[ni] == s1[ni]);
            assert(s3[ni] == s2[ni]);
            assert(s4[ni] == s3[ni]);
        }
    }
    if rn.left is Some {
        let ni = cidx((rn.left->0).0 as int, (rn.left->0).1 as int);
        if !combo && tc < 2 && (o3 == Some(FightResult::Tie) || o3 == Some(FightResult::Lose)) {
            assert(s1[ni] == b0[ni]);
            assert(s2[ni] == s1[ni]);
            assert(s3[ni] == s2[ni]);
            assert(s4[ni] == s3[ni]);
        }
    }
    assert(play_post(b0, s4, y, x, combo, rn));
}

impl Card {
    /// Resolves the four stored battle outcomes in Top, Right, Bottom, Left
    /// order against the neighbours they were fought with.
    #[verifier::rlimit(100)]
    fn resolve_all(
        board: &mut Board,
        y: usize,
        x: usize,
        nbrs: Neighbours,
        battles: (Option<FightResult>, Option<FightResult>, Option<FightResult>, Option<
            FightResult,
        >),
        same_count: u8,
        combo: bool,
    )
        requires
            old(board).wf(),
            y < 4,
            x < 5,
            occ_at(old(board)@, cidx(y as int, x as int)),
            nbrs_ok(old(board)@, y as int, x as int, nbrs),
            battles.0 == dir_battle(old(board)@, y as int, x as int, nbrs.top, Direction::Top),
            battles.1 == dir_battle(old(board)@, y as int, x as int, nbrs.right, Direction::Right),
            battles.2 == dir_battle(
                old(board)@,
                y as int,
                x as int,
                nbrs.bottom,
                Direction::Bottom,
            ),
            battles.3 == dir_battle(old(board)@, y as int, x as int, nbrs.left, Direction::Left),
            same_count as int == (if combo {
                0int
            } else {
                tie_count(old(board)@, y as int, x as int, nbrs)
            }),
        ensures
            final(board).wf(),
            combat_frame(old(board)@, final(board)@, old(board)@[cidx(y as int, x as int)]->0.player),
            play_post(old(board)@, final(board)@, y as int, x as int, combo, nbrs),
            forall|f: int|
                f >= enemy_measure(old(board)@, old(board)@[cidx(y as int, x as int)]->0.player)
                    ==> final(board)@ == resolve_steps_spec(
                    f,
                    old(board)@,
                    y as int,
                    x as int,
                    nbrs,
                    battles.0,
                    battles.1,
                    battles.2,
                    battles.3,
                    same_count as int,
                    combo,
                ),
        decreases
                enemy_measure(old(board)@, old(board)@[cidx(y as int, x as int)]->0.player),
                3int,
    {
        let ghost b0 = board@;
        let ghost yi = y as int;
        let ghost xi = x as int;
        let ghost ci = cidx(yi, xi);
        let ghost p = b0[ci]->0.player;
        let ghost sc = same_count as int;
        proof {
            lemma_enemy_measure_bounds(b0, p);
            lemma_frame_refl(b0, p);
        }

        // resolve the four battles in order
        if let Some(res) = battles.0 {
            proof {
                assert(occ_at(board@, cidx((nbrs.top->0).0 as int, (nbrs.top->0).1 as int)));
            }
            Card::resolve_direction(
                board,
                y,
                x,
                nbrs.top.unwrap(),
                Direction::Top,
                res,
                same_count,
                combo,
            );
        }
        let ghost s1 = board@;
        proof {
            assert(step_post(b0, s1, yi, xi, nbrs.top, Direction::Top, battles.0, combo, sc, p));
            lemma_frame_owned(b0, s1, p);
            assert(s1[ci]->0.player == p);
            assert(occ_at(s1, ci));
        }

        if let Some(res) = battles.1 {
            proof {
                assert(occ_at(board@, cidx((nbrs.right->0).0 as int, (nbrs.right->0).1 as int)));
            }
            Card::resolve_direction(
                board,
                y,
                x,
                nbrs.right.unwrap(),
                Direction::Right,
                res,
                same_count,
                combo,
            );
        }
        let ghost s2 = board@;
        proof {
            assert(step_post(s1, s2, yi, xi, nbrs.right, Direction::Right, battles.1, combo, sc, p));
            lemma_frame_trans(b0, s1, s2, p);
            lemma_frame_owned(b0, s2, p);
            assert(s2[ci]->0.player == p);
            assert(occ_at(s2, ci));
        }

        if let Some(res) = battles.2 {
            proof {
                assert(occ_at(board@, cidx((nbrs.bottom->0).0 as int, (nbrs.bottom->0).1 as int)));
            }
            Card::resolve_direction(
                board,
                y,
                x,
                nbrs.bottom.unwrap(),
                Direction::Bottom,
                res,
                same_count,
                combo,
            );
        }
        let ghost s3 = board@;
        proof {
            assert(step_post(
                s2,
                s3,
                yi,
                xi,
                nbrs.bottom,
                Direction::Bottom,
                battles.2,
                combo,
                sc,
                p,
            ));
            lemma_frame_trans(b0, s2, s3, p);
            lemma_frame_owned(b0, s3, p);
            assert(s3[ci]->0.player == p);
            assert(occ_at(s3, ci));
        }

        if let Some(res) = battles.3 {
            proof {
                assert(occ_at(board@, cidx((nbrs.left->0).0 as int, (nbrs.left->0).1 as int)));
            }
            Card::resolve_direction(
                board,
                y,
                x,
                nbrs.left.unwrap(),
                Direction::Left,
                res,
                same_count,
                combo,
            );
        }
        let ghost s4 = board@;
        proof {
            assert(step_post(s3, s4, yi, xi, nbrs.left, Direction::Left, battles.3, combo, sc, p));
            lemma_play_assemble(
                b0,
                s1,
                s2,
                s3,
                s4,
                p,
                yi,
                xi,
                nbrs,
                combo,
                sc,
                battles.0,
                battles.1,
                battles.2,
                battles.3,
            );

            // the interpreter computes the same board
            lemma_frame_trans(b0, s3, s4, p);
            lemma_frame_owned(b0, s4, p);
            assert forall|f: int| f >= enemy_measure(b0, p) implies s4 == resolve_steps_spec(
                f,
                b0,
                yi,
                xi,
                nbrs,
                battles.0,
                battles.1,
                battles.2,
                battles.3,
                sc,
                combo,
            ) by {
                if battles.0 is Some {
                    assert(s1 == resolve_spec(
                        f,
                        b0,
                        yi,
                        xi,
                        (nbrs.top->0).0 as int,
                        (nbrs.top->0).1 as int,
                        Direction::Top,
                        battles.0->0,
                        sc,
                        combo,
                    ));
                } else {
                    assert(s1 == b0);
                }
                if battles.1 is Some {
                    assert(s2 == resolve_spec(
                        f,
                        s1,
                        yi,
                        xi,
                        (nbrs.right->0).0 as int,
                        (nbrs.right->0).1 as int,
                        Direction::Right,
                        battles.1->0,
                        sc,
                        combo,
                    ));
                } else {
                    assert(s2 == s1);
                }
                if battles.2 is Some {
                    assert(s3 == resolve_spec(
                        f,
                        s2,
                        yi,
                        xi,
                        (nbrs.bottom->0).0 as int,
                        (nbrs.bottom->0).1 as int,
                        Direction::Bottom,
                        battles.2->0,
                        sc,
                        combo,
                    ));
                } else {
                    assert(s3 == s2);
                }
                if battles.3 is Some {
                    assert(s4 == resolve_spec(
                        f,
                        s3,
                        yi,
                        xi,
                        (nbrs.left->0).0 as int,
                        (nbrs.left->0).1 as int,
                        Direction::Left,
                        battles.3->0,
                        sc,
                        combo,
                    ));
                } else {
                    assert(s4 == s3);
                }
            }
        }
    }


    /// Runs combat for the card standing at (y, x): one battle per
    /// neighbour, all four outcomes taken from a single pre-battle snapshot,
    /// then resolved in Top, Right, Bottom, Left order. `combo` marks a call
    /// re-triggered by a Same-chain capture, which suppresses tie counting.
    #[verifier::rlimit(100)]
    pub fn play(board: &mut Board, y: usize, x: usize, combo: bool, neighbours: Option<Neighbours>)
        requires
            old(board).wf(),
            y < 4,
            x < 5,
            occ_at(old(board)@, cidx(y as int, x as int)),
            neighbours is Some ==> nbrs_ok(old(board)@, y as int, x as int, neighbours->0),
        ensures
            ({
                let b0 = old(board)@;
                let b1 = final(board)@;
                let p = b0[cidx(y as int, x as int)]->0.player;
                let rn = match neighbours {
                    Some(n) => n,
                    None => nbrs_of(b0, y as int, x as int, b0[cidx(y as int, x as int)]->0.name),
                };
                &&& final(board).wf()
                &&& combat_frame(b0, b1, p)
                &&& play_post(b0, b1, y as int, x as int, combo, rn)
                &&& (forall|f: int|
                    f >= enemy_measure(b0, p) ==> b1 == play_spec(
                        f,
                        b0,
                        y as int,
                        x as int,
                        combo,
                        neighbours,
                    ))
            }),
        decreases
                enemy_measure(old(board)@, old(board)@[cidx(y as int, x as int)]->0.player),
                4int,
    {
        let ghost b0 = board@;
        let ghost yi = y as int;
        let ghost xi = x as int;
        let ghost ci = cidx(yi, xi);
        let ghost p = b0[ci]->0.player;
        proof {
            lemma_enemy_measure_bounds(b0, p);
        }

        // fetch neighbours
        let name = board.get(y, x).unwrap().name;
        let nbrs: Neighbours = match neighbours {
            Some(n) => n,
            None => Card::get_neighbours(board, y, x, name),
        };
        let ghost rn = match neighbours {
            Some(n) => n,
            None => nbrs_of(b0, yi, xi, b0[ci]->0.name),
        };
        proof {
            lemma_nbrs_of_match(b0, yi, xi, b0[ci]->0.name);
            if neighbours is None {
                lemma_nbrs_match_unique(
                    nbrs,
                    nbrs_of(b0, yi, xi, b0[ci]->0.name),
                    b0,
                    yi,
                    xi,
                    b0[ci]->0.name,
                );
            }
            assert(nbrs == rn);
            assert(nbrs_ok(b0, yi, xi, rn));
        }

        // fight all four battles on the pre-battle snapshot
        let battles = snapshot_battles(board, y, x, nbrs);

        // count same values, unless this card was captured through the
        // Same mechanic itself
        let mut same_count: u8 = 0;
        if !combo {
            if battles.0 == Some(FightResult::Tie) {
                same_count = same_count + 1;
            }
            if battles.1 == Some(FightResult::Tie) {
                same_count = same_count + 1;
            }
            if battles.2 == Some(FightResult::Tie) {
                same_count = same_count + 1;
            }
            if battles.3 == Some(FightResult::Tie) {
                same_count = same_count + 1;
            }
            proof {
                assert(same_count as int == tie_count(b0, yi, xi, rn));
            }
        }

        // resolve the four battles in order
        Card::resolve_all(board, y, x, nbrs, battles, same_count, combo);

        proof {
            assert forall|f: int| f >= enemy_measure(b0, p) implies board@ == play_spec(
                f,
                b0,
                yi,
                xi,
                combo,
                neighbours,
            ) by {
                assert(board@ == resolve_steps_spec(
                    f,
                    b0,
                    yi,
                    xi,
                    nbrs,
                    battles.0,
                    battles.1,
                    battles.2,
                    battles.3,
                    same_count as int,
                    combo,
                ));
                assert(same_count as int == (if combo {
                    0int
                } else {
                    tie_count(b0, yi, xi, rn)
                }));
            }
        }
    }
}

} // verus!

verus! {

/// The exact effect of a bomb check at (y, x): a present card absorbs the
/// cell's whole charge as one downgrade and the charge is cleared; an empty
/// cell keeps its charge.
pub open spec fn bomb_check_spec(b: Seq<Option<Card>>, bb: Seq<u8>, y: int, x: int) -> (
    Seq<Option<Card>>,
    Seq<u8>,
) {
    let i = cidx(y, x);
    if bb[i] > 0 && b[i] is Some {
        (b.update(i, Some(downgrade_spec(b[i]->0, bb[i] as int))), bb.update(i, 0))
    } else {
        (b, bb)
    }
}

/// The card with one opposing stat pair swapped: top with bottom for a
/// vertical neighbour, left with right for a horizontal one.
pub open spec fn flip_card(c: Card, vertical: bool) -> Card {
    if vertical {
        Card { top: c.bottom, bottom: c.top, ..c }
    } else {
        Card { right: c.left, left: c.right, ..c }
    }
}

/// One step of Titan's flip: the neighbour entry, when present and
/// occupied, has its opposing stat pair swapped in place.
pub open spec fn flip_one(b: Seq<Option<Card>>, e: Option<Position>, vertical: bool) -> Seq<
    Option<Card>,
> {
    match e {
        Some(np) => {
            let i = cidx(np.0 as int, np.1 as int);
            if b[i] is Some {
                b.update(i, Some(flip_card(b[i]->0, vertical)))
            } else {
                b
            }
        },
        None => b,
    }
}

/// The exact effect of Titan's placement flip, applied to each neighbour
/// independently in Top, Right, Bottom, Left order.
pub open spec fn flip_spec(b: Seq<Option<Card>>, n: Neighbours) -> Seq<Option<Card>> {
    flip_one(flip_one(flip_one(flip_one(b, n.top, true), n.right, false), n.bottom, true), n.left, false)
}

impl Card {
    /// Detonates any bomb charge under the card at `position`: the card is
    /// downgraded by the full charge and the charge is cleared. A charge on
    /// an empty cell stays armed.
    pub fn bomb_check(board: &mut Board, position: Position, bombs: &mut Bombs)
        requires
            old(board).wf(),
            old(bombs).wf(),
            position.0 < 4,
            position.1 < 5,
        ensures
            final(board).wf(),
            final(bombs).wf(),
            (final(board)@, final(bombs)@) == bomb_check_spec(
                old(board)@,
                old(bombs)@,
                position.0 as int,
                position.1 as int,
            ),
            occ_upto(final(board)@, 20) == occ_upto(old(board)@, 20),
            occ_at(old(board)@, cidx(position.0 as int, position.1 as int)) ==> final(bombs)@[cidx(
                position.0 as int,
                position.1 as int,
            )] == 0,
            forall|i: int|
                0 <= i < 20 ==> (((#[trigger] final(board)@[i]) is Some <==> old(board)@[i] is Some)
                    && (final(board)@[i] is Some ==> final(board)@[i]->0.name == old(
                    board,
                )@[i]->0.name && final(board)@[i]->0.player == old(board)@[i]->0.player)),
    {
        let ghost b0 = board@;
        proof {
            lemma_occ_upto_same_shape(b0, b0, 20);
        }
        let (y, x) = position;
        let cell: u8 = bombs.get(y, x);
        // check if there is a bomb
        if cell > 0 {
            match board.get(y, x) {
                Some(card) => {
                    let mut card = card;
                    // bombs detonate, reducing every stat down to a minimum of 1
                    card.downgrade(cell);
                    board.set(y, x, Some(card));
                    // all bombs are detonated
                    bombs.set(y, x, 0);
                },
                None => {},
            }
        }
        proof {
            lemma_occ_upto_same_shape(b0, board@, 20);
        }
    }

    /// Titan's placement ability: flips each present neighbour's opposing
    /// stat pair in place, independently per direction.
    pub fn flip(board: &mut Board, neighbours: Neighbours)
        requires
            old(board).wf(),
            nbr_entry_occ(old(board)@, neighbours.top),
            nbr_entry_occ(old(board)@, neighbours.right),
            nbr_entry_occ(old(board)@, neighbours.bottom),
            nbr_entry_occ(old(board)@, neighbours.left),
        ensures
            final(board).wf(),
            final(board)@ == flip_spec(old(board)@, neighbours),
            occ_upto(final(board)@, 20) == occ_upto(old(board)@, 20),
            forall|i: int|
                0 <= i < 20 ==> (((#[trigger] final(board)@[i]) is Some <==> old(board)@[i] is Some)
                    && (final(board)@[i] is Some ==> final(board)@[i]->0.name == old(
                    board,
                )@[i]->0.name && final(board)@[i]->0.player == old(board)@[i]->0.player)),
    {
        let ghost b0 = board@;
        flip_at(board, neighbours.top, true);
        let ghost b1 = board@;
        flip_at(board, neighbours.right, false);
        let ghost b2 = board@;
        flip_at(board, neighbours.bottom, true);
        let ghost b3 = board@;
        flip_at(board, neighbours.left, false);
        proof {
            assert forall|i: int| 0 <= i < 20 implies ((#[trigger] board@[i]) is Some <==> b0[i]
                is Some) && (board@[i] is Some ==> board@[i]->0.name == b0[i]->0.name
                && board@[i]->0.player == b0[i]->0.player) by {}
            lemma_occ_upto_same_shape(b0, board@, 20);
        }
    }
}

/// Swaps one neighbour's opposing stat pair in place, when the entry is
/// present.
fn flip_at(board: &mut Board, e: Option<Position>, vertical: bool)
    requires
        old(board).wf(),
        nbr_entry_occ(old(board)@, e),
    ensures
        final(board).wf(),
        final(board)@ == flip_one(old(board)@, e, vertical),
        forall|i: int|
            0 <= i < 20 ==> (((#[trigger] final(board)@[i]) is Some <==> old(board)@[i] is Some) && (
            final(board)@[i] is Some ==> final(board)@[i]->0.name == old(board)@[i]->0.name
                && final(board)@[i]->0.player == old(board)@[i]->0.player)),
{
    if let Some(np) = e {
        let c = board.get(np.0, np.1).unwrap();
        let swapped = if vertical {
            Card { top: c.bottom, bottom: c.top, ..c }
        } else {
            Card { right: c.left, left: c.right, ..c }
        };
        board.set(np.0, np.1, Some(swapped));
    }
}

/// A present neighbour entry points at an occupied cell on the grid.
pub open spec fn nbr_entry_occ(b: Seq<Option<Card>>, e: Option<Position>) -> bool {
    e is Some ==> on_grid((e->0).0 as int, (e->0).1 as int) && occ_at(
        b,
        cidx((e->0).0 as int, (e->0).1 as int),
    )
}

} // verus!

verus! {

/// Sum of the bomb charges in column `x`, rows `lo` (inclusive) to `hi`
/// (exclusive).
pub open spec fn col_bomb_sum(bb: Seq<u8>, x: int, lo: int, hi: int) -> int
    decreases hi - lo,
{
    if lo >= hi {
        0
    } else {
        bb[cidx(lo, x)] + col_bomb_sum(bb, x, lo + 1, hi)
    }
}

/// Sum of the bomb charges in row `y`, columns `lo` to `hi` (exclusive).
pub open spec fn row_bomb_sum(bb: Seq<u8>, y: int, lo: int, hi: int) -> int
    decreases hi - lo,
{
    if lo >= hi {
        0
    } else {
        bb[cidx(y, lo)] + row_bomb_sum(bb, y, lo + 1, hi)
    }
}

/// The grid with the charges of column `x`, rows `lo` to `hi`, cleared.
#[verifier::opaque]
pub open spec fn zero_col(bb: Seq<u8>, x: int, lo: int, hi: int) -> Seq<u8> {
    Seq::new(
        bb.len(),
        |i: int|
            if i % 5 == x && lo <= i / 5 < hi {
                0u8
            } else {
                bb[i]
            },
    )
}

/// The grid with the charges of row `y`, columns `lo` to `hi`, cleared.
#[verifier::opaque]
pub open spec fn zero_row(bb: Seq<u8>, y: int, lo: int, hi: int) -> Seq<u8> {
    Seq::new(
        bb.len(),
        |i: int|
            if i / 5 == y && lo <= i % 5 < hi {
                0u8
            } else {
                bb[i]
            },
    )
}

pub proof fn lemma_cidx_decomp(y: int, x: int)
    requires
        0 <= y,
        0 <= x < 5,
    ensures
        cidx(y, x) / 5 == y,
        cidx(y, x) % 5 == x,
{
}

pub proof fn lemma_col_sum_snoc(bb: Seq<u8>, x: int, lo: int, hi: int)
    requires
        lo <= hi,
    ensures
        col_bomb_sum(bb, x, lo, hi + 1) == col_bomb_sum(bb, x, lo, hi) + bb[cidx(hi, x)],
    decreases hi - lo,
{
    if lo < hi {
        lemma_col_sum_snoc(bb, x, lo + 1, hi);
    } else {
        assert(col_bomb_sum(bb, x, lo + 1, hi + 1) == 0);
    }
}

pub proof fn lemma_row_sum_snoc(bb: Seq<u8>, y: int, lo: int, hi: int)
    requires
        lo <= hi,
    ensures
        row_bomb_sum(bb, y, lo, hi + 1) == row_bomb_sum(bb, y, lo, hi) + bb[cidx(y, hi)],
    decreases hi - lo,
{
    if lo < hi {
        lemma_row_sum_snoc(bb, y, lo + 1, hi);
    } else {
        assert(row_bomb_sum(bb, y, lo + 1, hi + 1) == 0);
    }
}

/// Clears the bomb charges of column `x`, rows `lo` to `hi`, and returns
/// their sum.
fn sweep_col(bombs: &mut Bombs, x: usize, lo: usize, hi: usize) -> (damage: u16)
    requires
        old(bombs).wf(),
        x < 5,
        lo <= hi <= 4,
    ensures
        final(bombs).wf(),
        final(bombs)@ == zero_col(old(bombs)@, x as int, lo as int, hi as int),
        damage as int == col_bomb_sum(old(bombs)@, x as int, lo as int, hi as int),
{
    proof {
        reveal(zero_col);
    }
    let ghost bb0 = bombs@;
    let mut damage: u16 = 0;
    let mut j: usize = lo;
    proof {
        assert(bombs@ =~= zero_col(bb0, x as int, lo as int, lo as int));
    }
    while j < hi
        invariant
            bombs.wf(),
            x < 5,
            lo <= j <= hi <= 4,
            bombs@ == zero_col(bb0, x as int, lo as int, j as int),
            bb0.len() == 20,
            damage as int == col_bomb_sum(bb0, x as int, lo as int, j as int),
            damage <= 255 * (j - lo),
        decreases hi - j,
    {
        proof {
            reveal(zero_col);
            lemma_cidx_decomp(j as int, x as int);
        }
        let cur: u8 = bombs.get(j, x);
        proof {
            assert(cur == bb0[cidx(j as int, x as int)]);
            lemma_col_sum_snoc(bb0, x as int, lo as int, j as int);
        }
        damage = damage + cur as u16;
        bombs.set(j, x, 0);
        proof {
            assert(bombs@ =~= zero_col(bb0, x as int, lo as int, j as int + 1)) by {
                assert forall|i: int| 0 <= i < 20 implies bombs@[i] == zero_col(
                    bb0,
                    x as int,
                    lo as int,
                    j as int + 1,
                )[i] by {
                    if i % 5 == x as int && i / 5 == j as int {
                        assert(i == cidx(j as int, x as int));
                    }
                }
            }
        }
        j = j + 1;
    }
    damage
}

/// Clears the bomb charges of row `y`, columns `lo` to `hi`, and returns
/// their sum.
fn sweep_row(bombs: &mut Bombs, y: usize, lo: usize, hi: usize) -> (damage: u16)
    requires
        old(bombs).wf(),
        y < 4,
        lo <= hi <= 5,
    ensures
        final(bombs).wf(),
        final(bombs)@ == zero_row(old(bombs)@, y as int, lo as int, hi as int),
        damage as int == row_bomb_sum(old(bombs)@, y as int, lo as int, hi as int),
{
    proof {
        reveal(zero_row);
    }
    let ghost bb0 = bombs@;
    let mut damage: u16 = 0;
    let mut j: usize = lo;
    proof {
        assert(bombs@ =~= zero_row(bb0, y as int, lo as int, lo as int));
    }
    while j < hi
        invariant
            bombs.wf(),
            y < 4,
            lo <= j <= hi <= 5,
            bombs@ == zero_row(bb0, y as int, lo as int, j as int),
            bb0.len() == 20,
            damage as int == row_bomb_sum(bb0, y as int, lo as int, j as int),
            damage <= 255 * (j - lo),
        decreases hi - j,
    {
        proof {
            reveal(zero_row);
            lemma_cidx_decomp(y as int, j as int);
        }
        let cur: u8 = bombs.get(y, j);
        proof {
            assert(cur == bb0[cidx(y as int, j as int)]);
            lemma_row_sum_snoc(bb0, y as int, lo as int, j as int);
        }
        damage = damage + cur as u16;
        bombs.set(y, j, 0);
        proof {
            assert(bombs@ =~= zero_row(bb0, y as int, lo as int, j as int + 1)) by {
                assert forall|i: int| 0 <= i < 20 implies bombs@[i] == zero_row(
                    bb0,
                    y as int,
                    lo as int,
                    j as int + 1,
                )[i] by {
                    if i / 5 == y as int && i % 5 == j as int {
                        assert(i == cidx(y as int, j as int));
                    }
                }
            }
        }
        j = j + 1;
    }
    damage
}

} // verus!

verus! {

/// A present neighbour entry fit for a pull: occupied, on its direction's
/// ray, with only empty cells strictly between it and (y, x).
pub open spec fn nbr_far_ok(
    b: Seq<Option<Card>>,
    y: int,
    x: int,
    d: Direction,
    e: Option<Position>,
) -> bool {
    e is Some ==> {
        &&& on_grid((e->0).0 as int, (e->0).1 as int)
        &&& occ_at(b, cidx((e->0).0 as int, (e->0).1 as int))
        &&& on_ray(d, y, x, (e->0).0 as int, (e->0).1 as int)
        &&& between_empty(b, d, y, x, (e->0).0 as int, (e->0).1 as int)
    }
}

/// One step of Siren's pull in direction `d`: the bomb charges strictly
/// between the neighbour and (y, x) detonate against it as one downgrade
/// and are cleared, then the card moves to the cell adjacent to (y, x),
/// and the neighbour entry follows it.
#[verifier::opaque]
pub open spec fn pull_step(
    b: Seq<Option<Card>>,
    bb: Seq<u8>,
    e: Option<Position>,
    y: int,
    x: int,
    d: Direction,
) -> (Seq<Option<Card>>, Seq<u8>, Option<Position>) {
    match e {
        Some(np) => {
            let ny = np.0 as int;
            let nx = np.1 as int;
            let dmg = match d {
                Direction::Top => col_bomb_sum(bb, x, ny + 1, y),
                Direction::Right => row_bomb_sum(bb, y, x + 1, nx),
                Direction::Bottom => col_bomb_sum(bb, x, y + 1, ny),
                Direction::Left => row_bomb_sum(bb, y, nx + 1, x),
            };
            let bb1 = match d {
                Direction::Top => zero_col(bb, x, ny + 1, y),
                Direction::Right => zero_row(bb, y, x + 1, nx),
                Direction::Bottom => zero_col(bb, x, y + 1, ny),
                Direction::Left => zero_row(bb, y, nx + 1, x),
            };
            let ty: int = match d {
                Direction::Top => y - 1,
                Direction::Right => y,
                Direction::Bottom => y + 1,
                Direction::Left => y,
            };
            let tx: int = match d {
                Direction::Top => x,
                Direction::Right => x + 1,
                Direction::Bottom => x,
                Direction::Left => x - 1,
            };
            let card = downgrade_spec(b[cidx(ny, nx)]->0, dmg);
            let b1 = b.update(cidx(ny, nx), None).update(cidx(ty, tx), Some(card));
            (b1, bb1, Some(((ty as usize), (tx as usize))))
        },
        None => (b, bb, None),
    }
}

/// The exact effect of Siren's pull: the four directions processed in Top,
/// Right, Bottom, Left order, each on the state the previous one left.
pub open spec fn pull_spec(
    b: Seq<Option<Card>>,
    bb: Seq<u8>,
    y: int,
    x: int,
    n: Neighbours,
) -> (Seq<Option<Card>>, Seq<u8>, Neighbours) {
    let s1 = pull_step(b, bb, n.top, y, x, Direction::Top);
    let s2 = pull_step(s1.0, s1.1, n.right, y, x, Direction::Right);
    let s3 = pull_step(s2.0, s2.1, n.bottom, y, x, Direction::Bottom);
    let s4 = pull_step(s3.0, s3.1, n.left, y, x, Direction::Left);
    (s4.0, s4.1, Neighbours { top: s1.2, right: s2.2, bottom: s3.2, left: s4.2 })
}

impl Card {
    /// Pulls the single neighbour `nb` of (y, x) in `direction` up to the
    /// adjacent cell, detonating the bomb charges it passes over, and
    /// returns the cell the card now stands on.
    #[verifier::rlimit(100)]
    fn pull_one(
        board: &mut Board,
        y: usize,
        x: usize,
        nb: Position,
        direction: Direction,
        bombs: &mut Bombs,
    ) -> (np: Position)
        requires
            old(board).wf(),
            old(bombs).wf(),
            y < 4,
            x < 5,
            nbr_far_ok(old(board)@, y as int, x as int, direction, Some(nb)),
        ensures
            final(board).wf(),
            final(bombs).wf(),
            (final(board)@, final(bombs)@, Some(np)) == pull_step(
                old(board)@,
                old(bombs)@,
                Some(nb),
                y as int,
                x as int,
                direction,
            ),
            occ_upto(final(board)@, 20) == occ_upto(old(board)@, 20),
            on_grid(np.0 as int, np.1 as int),
            occ_at(final(board)@, cidx(np.0 as int, np.1 as int)),
            on_ray(direction, y as int, x as int, np.0 as int, np.1 as int),
            forall|i: int|
                0 <= i < 20 && i != cidx(nb.0 as int, nb.1 as int) && i != cidx(
                    np.0 as int,
                    np.1 as int,
                ) ==> final(board)@[i] == old(board)@[i],
    {
        proof {
            reveal(pull_step);
        }
        let ghost b0 = board@;
        let ghost bb0 = bombs@;
        let ghost yi = y as int;
        let ghost xi = x as int;
        let ghost ni = cidx(nb.0 as int, nb.1 as int);

        // detonate the bomb charges strictly between against the pulled card
        let damage: u16 = match direction {
            Direction::Top => sweep_col(bombs, x, nb.0 + 1, y),
            Direction::Right => sweep_row(bombs, y, x + 1, nb.1),
            Direction::Bottom => sweep_col(bombs, x, y + 1, nb.0),
            Direction::Left => sweep_row(bombs, y, nb.1 + 1, x),
        };
        let mut ncard = board.get(nb.0, nb.1).unwrap();
        proof {
            assert(card_wf(ncard));
        }
        let d8: u8 = if damage > 255 {
            255
        } else {
            damage as u8
        };
        ncard.downgrade(d8);

        // relocate the card to the cell adjacent to (y, x)
        let np: Position = match direction {
            Direction::Top => (y - 1, x),
            Direction::Right => (y, x + 1),
            Direction::Bottom => (y + 1, x),
            Direction::Left => (y, x - 1),
        };
        board.set(nb.0, nb.1, None);
        board.set(np.0, np.1, Some(ncard));

        proof {
            let ti = cidx(np.0 as int, np.1 as int);
            assert(board@ == pull_step(b0, bb0, Some(nb), yi, xi, direction).0);
            lemma_occ_upto_update(b0, ni, None, 20);
            lemma_occ_upto_update(b0.update(ni, None), ti, Some(ncard), 20);
            assert(occ_upto(board@, 20) == occ_upto(b0, 20));
        }
        np
    }

    /// Siren's placement ability: pulls each neighbour straight up to the
    /// cell adjacent to `position`, detonating the bomb charges it passes
    /// over against it, and updates the neighbour entries to the new cells.
    #[verifier::rlimit(100)]
    pub fn pull(
        board: &mut Board,
        position: Position,
        neighbours: &mut Neighbours,
        bombs: &mut Bombs,
    )
        requires
            old(board).wf(),
            old(bombs).wf(),
            position.0 < 4,
            position.1 < 5,
            nbr_far_ok(
                old(board)@,
                position.0 as int,
                position.1 as int,
                Direction::Top,
                old(neighbours).top,
            ),
            nbr_far_ok(
                old(board)@,
                position.0 as int,
                position.1 as int,
                Direction::Right,
                old(neighbours).right,
            ),
            nbr_far_ok(
                old(board)@,
                position.0 as int,
                position.1 as int,
                Direction::Bottom,
                old(neighbours).bottom,
            ),
            nbr_far_ok(
                old(board)@,
                position.0 as int,
                position.1 as int,
                Direction::Left,
                old(neighbours).left,
            ),
        ensures
            final(board).wf(),
            final(bombs).wf(),
            (final(board)@, final(bombs)@, *final(neighbours)) == pull_spec(
                old(board)@,
                old(bombs)@,
                position.0 as int,
                position.1 as int,
                *old(neighbours),
            ),
            occ_upto(final(board)@, 20) == occ_upto(old(board)@, 20),
            nbrs_ok(final(board)@, position.0 as int, position.1 as int, *final(neighbours)),
            final(board)@[cidx(position.0 as int, position.1 as int)] == old(board)@[cidx(
                position.0 as int,
                position.1 as int,
            )],
    {
        let (y, x) = position;
        let ghost yi = y as int;
        let ghost xi = x as int;
        let ghost b0 = board@;
        let ghost bb0 = bombs@;
        let ghost n0 = *neighbours;

        if let Some(nb) = neighbours.top {
            let np = Card::pull_one(board, y, x, nb, Direction::Top, bombs);
            neighbours.top = Some(np);
        }
        let ghost s1 = pull_step(b0, bb0, n0.top, yi, xi, Direction::Top);
        proof {
            if n0.top is None {
                reveal(pull_step);
            }
            assert(board@ == s1.0 && bombs@ == s1.1 && neighbours.top == s1.2);
        }

        if let Some(nb) = neighbours.right {
            proof {
                assert(nbr_far_ok(board@, yi, xi, Direction::Right, Some(nb)));
            }
            let np = Card::pull_one(board, y, x, nb, Direction::Right, bombs);
            neighbours.right = Some(np);
        }
        let ghost s2 = pull_step(s1.0, s1.1, n0.right, yi, xi, Direction::Right);
        proof {
            if n0.right is None {
                reveal(pull_step);
            }
            assert(board@ == s2.0 && bombs@ == s2.1 && neighbours.right == s2.2);
        }

        if let Some(nb) = neighbours.bottom {
            proof {
                assert(nbr_far_ok(board@, yi, xi, Direction::Bottom, Some(nb)));
            }
            let np = Card::pull_one(board, y, x, nb, Direction::Bottom, bombs);
            neighbours.bottom = Some(np);
        }
        let ghost s3 = pull_step(s2.0, s2.1, n0.bottom, yi, xi, Direction::Bottom);
        proof {
            if n0.bottom is None {
                reveal(pull_step);
            }
            assert(board@ == s3.0 && bombs@ == s3.1 && neighbours.bottom == s3.2);
        }

        if let Some(nb) = neighbours.left {
            proof {
                assert(nbr_far_ok(board@, yi, xi, Direction::Left, Some(nb)));
            }
            let np = Card::pull_one(board, y, x, nb, Direction::Left, bombs);
            neighbours.left = Some(np);
        }
        let ghost s4 = pull_step(s3.0, s3.1, n0.left, yi, xi, Direction::Left);
        proof {
            if n0.left is None {
                reveal(pull_step);
            }
            assert(board@ == s4.0 && bombs@ == s4.1 && neighbours.left == s4.2);
            assert(*neighbours == (pull_spec(b0, bb0, yi, xi, n0).2));
        }
    }
}

} // verus!

verus! {

/// One more bomb charge, saturating at the counter's ceiling.
pub open spec fn inc_charge(v: u8) -> u8 {
    if v < 255 {
        (v + 1) as u8
    } else {
        255
    }
}

/// The exact effect of Saboteur's placement: one bomb charge seeded on each
/// in-bounds empty adjacent cell, in top, bottom, left, right order.
pub open spec fn seed_bombs(bb: Seq<u8>, b: Seq<Option<Card>>, y: int, x: int) -> Seq<u8> {
    let bb1 = if y > 0 && b[cidx(y - 1, x)] is None {
        bb.update(cidx(y - 1, x), inc_charge(bb[cidx(y - 1, x)]))
    } else {
        bb
    };
    let bb2 = if y < 3 && b[cidx(y + 1, x)] is None {
        bb1.update(cidx(y + 1, x), inc_charge(bb1[cidx(y + 1, x)]))
    } else {
        bb1
    };
    let bb3 = if x > 0 && b[cidx(y, x - 1)] is None {
        bb2.update(cidx(y, x - 1), inc_charge(bb2[cidx(y, x - 1)]))
    } else {
        bb2
    };
    if x < 4 && b[cidx(y, x + 1)] is None {
        bb3.update(cidx(y, x + 1), inc_charge(bb3[cidx(y, x + 1)]))
    } else {
        bb3
    }
}

/// The exact effect of the placement phase at (y, x): the unit's placement
/// ability, then the bomb check on the placed cell.
pub open spec fn placement_spec(
    b: Seq<Option<Card>>,
    bb: Seq<u8>,
    y: int,
    x: int,
    n: Neighbours,
) -> (Seq<Option<Card>>, Seq<u8>, Neighbours) {
    let u = b[cidx(y, x)]->0.name;
    if u is Saboteur {
        let bb1 = seed_bombs(bb, b, y, x);
        let r = bomb_check_spec(b, bb1, y, x);
        (r.0, r.1, n)
    } else if u is Siren {
        let pr = pull_spec(b, bb, y, x, n);
        let r = bomb_check_spec(pr.0, pr.1, y, x);
        (r.0, r.1, pr.2)
    } else if u is Titan {
        let fb = flip_spec(b, n);
        let r = bomb_check_spec(fb, bb, y, x);
        (r.0, r.1, n)
    } else {
        let r = bomb_check_spec(b, bb, y, x);
        (r.0, r.1, n)
    }
}

/// Far scans agree on boards that agree along the scanned ray.
pub proof fn lemma_far_up_agree(b1: Seq<Option<Card>>, b2: Seq<Option<Card>>, y: int, x: int)
    requires
        forall|j: int| 0 <= j < y ==> b1[cidx(j, x)] == b2[cidx(j, x)],
    ensures
        far_up(b1, y, x) == far_up(b2, y, x),
    decreases y,
{
    if y > 0 {
        lemma_far_up_agree(b1, b2, y - 1, x);
    }
}

pub proof fn lemma_far_down_agree(b1: Seq<Option<Card>>, b2: Seq<Option<Card>>, y: int, x: int)
    requires
        forall|j: int| y < j < 4 ==> b1[cidx(j, x)] == b2[cidx(j, x)],
    ensures
        far_down(b1, y, x) == far_down(b2, y, x),
    decreases 3 - y,
{
    if y < 3 {
        lemma_far_down_agree(b1, b2, y + 1, x);
    }
}

pub proof fn lemma_far_left_agree(b1: Seq<Option<Card>>, b2: Seq<Option<Card>>, y: int, x: int)
    requires
        forall|j: int| 0 <= j < x ==> b1[cidx(y, j)] == b2[cidx(y, j)],
    ensures
        far_left(b1, y, x) == far_left(b2, y, x),
    decreases x,
{
    if x > 0 {
        lemma_far_left_agree(b1, b2, y, x - 1);
    }
}

pub proof fn lemma_far_right_agree(b1: Seq<Option<Card>>, b2: Seq<Option<Card>>, y: int, x: int)
    requires
        forall|j: int| x < j < 5 ==> b1[cidx(y, j)] == b2[cidx(y, j)],
    ensures
        far_right(b1, y, x) == far_right(b2, y, x),
    decreases 4 - x,
{
    if x < 4 {
        lemma_far_right_agree(b1, b2, y, x + 1);
    }
}

/// The neighbour resolver never looks at the cell it resolves from, so
/// placing a card there leaves its own neighbours unchanged.
pub proof fn lemma_nbrs_match_update_self(
    n: Neighbours,
    b: Seq<Option<Card>>,
    y: int,
    x: int,
    v: Option<Card>,
    u: Unit,
)
    requires
        b.len() == 20,
        on_grid(y, x),
        nbrs_match(n, b, y, x, u),
    ensures
        nbrs_match(n, b.update(cidx(y, x), v), y, x, u),
{
    reveal(nbr_spec);
    let b2 = b.update(cidx(y, x), v);
    lemma_far_up_agree(b, b2, y, x);
    lemma_far_down_agree(b, b2, y, x);
    lemma_far_left_agree(b, b2, y, x);
    lemma_far_right_agree(b, b2, y, x);
}

/// Neighbours that agree with the resolver are fit for a pull.
pub proof fn lemma_nbrs_match_far_ok(n: Neighbours, b: Seq<Option<Card>>, y: int, x: int, u: Unit)
    requires
        b.len() == 20,
        on_grid(y, x),
        nbrs_match(n, b, y, x, u),
    ensures
        nbr_far_ok(b, y, x, Direction::Top, n.top),
        nbr_far_ok(b, y, x, Direction::Right, n.right),
        nbr_far_ok(b, y, x, Direction::Bottom, n.bottom),
        nbr_far_ok(b, y, x, Direction::Left, n.left),
{
    lemma_nbr_spec_props(b, y, x, u, Direction::Top);
    lemma_nbr_spec_props(b, y, x, u, Direction::Right);
    lemma_nbr_spec_props(b, y, x, u, Direction::Bottom);
    lemma_nbr_spec_props(b, y, x, u, Direction::Left);
}

impl Card {
    /// The placement phase, run once per card right after it lands on the
    /// board: Saboteur seeds bombs around itself, Siren pulls its neighbours
    /// in, Titan flips their facing stat pairs, and in every case the placed
    /// cell's own bomb charge then detonates.
    #[verifier::rlimit(100)]
    pub fn placement(
        board: &mut Board,
        position: Position,
        bombs: &mut Bombs,
        neighbours: &mut Neighbours,
    )
        requires
            old(board).wf(),
            old(bombs).wf(),
            position.0 < 4,
            position.1 < 5,
            occ_at(old(board)@, cidx(position.0 as int, position.1 as int)),
            nbrs_match(
                *old(neighbours),
                old(board)@,
                position.0 as int,
                position.1 as int,
                old(board)@[cidx(position.0 as int, position.1 as int)]->0.name,
            ),
        ensures
            ({
                let ci = cidx(position.0 as int, position.1 as int);
                let b0 = old(board)@;
                let b1 = final(board)@;
                &&& final(board).wf()
                &&& final(bombs).wf()
                &&& (b1, final(bombs)@, *final(neighbours)) == placement_spec(
                    b0,
                    old(bombs)@,
                    position.0 as int,
                    position.1 as int,
                    *old(neighbours),
                )
                &&& occ_upto(b1, 20) == occ_upto(b0, 20)
                &&& b1[ci] is Some
                &&& b1[ci]->0.name == b0[ci]->0.name
                &&& b1[ci]->0.player == b0[ci]->0.player
                &&& final(bombs)@[ci] == 0
                &&& nbrs_ok(b1, position.0 as int, position.1 as int, *final(neighbours))
                &&& (!(b0[ci]->0.name is Saboteur) && !(b0[ci]->0.name is Siren) && !(b0[ci]->0.name
                    is Titan) && old(bombs)@[ci] == 0 ==> b1 == b0 && final(bombs)@ == old(bombs)@
                    && *final(neighbours) == *old(neighbours))
            }),
    {
        let (y, x) = position;
        let ghost yi = y as int;
        let ghost xi = x as int;
        let ghost ci = cidx(yi, xi);
        let ghost b0 = board@;
        let ghost bb0 = bombs@;
        let ghost n0 = *neighbours;
        proof {
            lemma_nbrs_match_ok(n0, b0, yi, xi, b0[ci]->0.name);
        }

        match board.get(y, x).unwrap().name {
            // Saboteur places bombs on empty neighbours
            Unit::Saboteur => {
                // top neighbour
                if y > 0 && board.get(y - 1, x).is_none() {
                    let v: u8 = bombs.get(y - 1, x);
                    bombs.set(y - 1, x, if v < 255 { v + 1 } else { v });
                }
                // bottom neighbour
                if y < 3 && board.get(y + 1, x).is_none() {
                    let v: u8 = bombs.get(y + 1, x);
                    bombs.set(y + 1, x, if v < 255 { v + 1 } else { v });
                }
                // left neighbour
                if x > 0 && board.get(y, x - 1).is_none() {
                    let v: u8 = bombs.get(y, x - 1);
                    bombs.set(y, x - 1, if v < 255 { v + 1 } else { v });
                }
                // right neighbour
                if x < 4 && board.get(y, x + 1).is_none() {
                    let v: u8 = bombs.get(y, x + 1);
                    bombs.set(y, x + 1, if v < 255 { v + 1 } else { v });
                }
                proof {
                    assert(bombs@ == seed_bombs(bb0, b0, yi, xi));
                }
            },
            // Siren pulls cards
            Unit::Siren => {
                proof {
                    lemma_nbrs_match_far_ok(n0, b0, yi, xi, b0[ci]->0.name);
                }
                Card::pull(board, position, neighbours, bombs);
            },
            // Titan flips adjacent cards
            Unit::Titan => {
                Card::flip(board, *neighbours);
            },
            // Others do nothing at this stage
            _ => {},
        }

        // after the card is placed, check for bombs
        let ghost bmid = board@;
        let ghost nmid = *neighbours;
        Card::bomb_check(board, position, bombs);

        proof {
            if b0[ci]->0.name is Siren {
                // the pulled neighbours sit on occupied cells, which the
                // bomb check does not change
                assert(nbrs_ok(board@, yi, xi, nmid)) by {
                    if nmid.top is Some {
                        assert(occ_at(
                            board@,
                            cidx((nmid.top->0).0 as int, (nmid.top->0).1 as int),
                        ));
                    }
                    if nmid.right is Some {
                        assert(occ_at(
                            board@,
                            cidx((nmid.right->0).0 as int, (nmid.right->0).1 as int),
                        ));
                    }
                    if nmid.bottom is Some {
                        assert(occ_at(
                            board@,
                            cidx((nmid.bottom->0).0 as int, (nmid.bottom->0).1 as int),
                        ));
                    }
                    if nmid.left is Some {
                        assert(occ_at(
                            board@,
                            cidx((nmid.left->0).0 as int, (nmid.left->0).1 as int),
                        ));
                    }
                }
            } else {
                assert(nbrs_ok(board@, yi, xi, n0)) by {
                    if n0.top is Some {
                        assert(occ_at(board@, cidx((n0.top->0).0 as int, (n0.top->0).1 as int)));
                    }
                    if n0.right is Some {
                        assert(occ_at(
                            board@,
                            cidx((n0.right->0).0 as int, (n0.right->0).1 as int),
                        ));
                    }
                    if n0.bottom is Some {
                        assert(occ_at(
                            board@,
                            cidx((n0.bottom->0).0 as int, (n0.bottom->0).1 as int),
                        ));
                    }
                    if n0.left is Some {
                        assert(occ_at(board@, cidx((n0.left->0).0 as int, (n0.left->0).1 as int)));
                    }
                }
            }
        }
    }
}

} // verus!

verus! {

impl Card {
    /// The one mutation entry point: places card `card` of `player`'s deck
    /// at `mov`. Fails without touching anything when the cell is occupied;
    /// otherwise removes the card from the deck, runs the placement phase
    /// and then combat, and reports success.
    #[verifier::rlimit(100)]
    pub fn place_card(
        board: &mut Board,
        deck1: &mut Vec<Card>,
        deck2: &mut Vec<Card>,
        card: usize,
        mov: Position,
        player: u8,
        bombs: &mut Bombs,
        neighbours: &mut Neighbours,
    ) -> (r: bool)
        requires
            old(board).wf(),
            old(bombs).wf(),
            mov.0 < 4,
            mov.1 < 5,
            player == 1 || player == 2,
            deck_wf(old(deck1)@, 1),
            deck_wf(old(deck2)@, 2),
            card < (if player == 1 {
                old(deck1)@.len()
            } else {
                old(deck2)@.len()
            }),
            nbrs_match(
                *old(neighbours),
                old(board)@,
                mov.0 as int,
                mov.1 as int,
                (if player == 1 {
                    old(deck1)@[card as int]
                } else {
                    old(deck2)@[card as int]
                }).name,
            ),
        ensures
            ({
                let b0 = old(board)@;
                let b1 = final(board)@;
                let mi = cidx(mov.0 as int, mov.1 as int);
                let chosen = if player == 1 {
                    old(deck1)@[card as int]
                } else {
                    old(deck2)@[card as int]
                };
                let placed = b0.update(mi, Some(chosen));
                let pl = placement_spec(placed, old(bombs)@, mov.0 as int, mov.1 as int, *old(neighbours));
                &&& r <==> !occ_at(b0, mi)
                &&& (!r ==> b1 == b0 && final(bombs)@ == old(bombs)@ && final(deck1)@ == old(
                    deck1,
                )@ && final(deck2)@ == old(deck2)@ && *final(neighbours) == *old(neighbours))
                &&& (r ==> {
                    &&& final(board).wf()
                    &&& final(bombs).wf()
                    &&& (player == 1 ==> final(deck1)@ == old(deck1)@.remove(card as int)
                        && final(deck2)@ == old(deck2)@)
                    &&& (player == 2 ==> final(deck2)@ == old(deck2)@.remove(card as int)
                        && final(deck1)@ == old(deck1)@)
                    &&& deck_wf(final(deck1)@, 1)
                    &&& deck_wf(final(deck2)@, 2)
                    &&& occ_upto(b1, 20) == occ_upto(b0, 20) + 1
                    &&& b1[mi] is Some
                    &&& b1[mi]->0.player == player
                    &&& b1[mi]->0.name == chosen.name
                    &&& final(bombs)@ == pl.1
                    &&& combat_frame(pl.0, b1, player)
                    &&& play_post(pl.0, b1, mov.0 as int, mov.1 as int, false, pl.2)
                    &&& b1 == play_spec(20, pl.0, mov.0 as int, mov.1 as int, false, Some(pl.2))
                    &&& (!(chosen.name is Saboteur) && !(chosen.name is Siren) && !(chosen.name
                        is Titan) && old(bombs)@[mi] == 0 ==> final(bombs)@ == old(bombs)@
                        && combat_frame(placed, b1, player) && play_post(
                        placed,
                        b1,
                        mov.0 as int,
                        mov.1 as int,
                        false,
                        *old(neighbours),
                    ))
                })
            }),
    {
        let ghost b0 = board@;
        let ghost mi = cidx(mov.0 as int, mov.1 as int);

        // a cell that already holds a card refuses the move
        if board.get(mov.0, mov.1).is_some() {
            return false;
        }

        // take the card out of the acting player's deck
        let c: Card = if player == 1 {
            deck1.remove(card)
        } else {
            deck2.remove(card)
        };
        board.set(mov.0, mov.1, Some(c));
        let ghost placed = board@;

        proof {
            assert(placed == b0.update(mi, Some(c)));
            assert(card_wf(c));
            lemma_occ_upto_update(b0, mi, Some(c), 20);
            lemma_nbrs_match_update_self(*neighbours, b0, mov.0 as int, mov.1 as int, Some(c), c.name);
        }

        Card::placement(board, mov, bombs, neighbours);
        let ghost bp = board@;
        let ghost np = *neighbours;

        Card::play(board, mov.0, mov.1, false, Some(*neighbours));

        proof {
            lemma_frame_owned(bp, board@, bp[mi]->0.player);
            assert(board@[mi]->0.player == player);
            assert(occ_upto(board@, 20) == occ_upto(b0, 20) + 1);
            lemma_enemy_measure_bounds(bp, bp[mi]->0.player);
            assert(board@ == play_spec(20, bp, mov.0 as int, mov.1 as int, false, Some(np)));
        }
        true
    }
}

} // verus!

verus! {

/// The decimal value of a digit character.
pub open spec fn digit_val(c: char) -> int {
    c as u32 - 48
}

} // verus!

verus! {

/// Law of the capture event: the defender always ends up owned by the
/// attacker's player; a defender that changed sides keeps its values unless
/// it is a Ravager, which gains 1 on every directional value (capped at
/// 10), and a Ravager attacker gains the same bonus.
pub proof fn lemma_capture_effects(b: Seq<Option<Card>>, dy: int, dx: int, ay: int, ax: int)
    requires
        b.len() == 20,
        on_grid(dy, dx),
        on_grid(ay, ax),
        occ_at(b, cidx(dy, dx)),
        occ_at(b, cidx(ay, ax)),
        cidx(dy, dx) != cidx(ay, ax),
    ensures
        ({
            let p = b[cidx(ay, ax)]->0.player;
            let d0 = b[cidx(dy, dx)]->0;
            let a0 = b[cidx(ay, ax)]->0;
            let b1 = capture_spec(b, dy, dx, ay, ax);
            &&& b1[cidx(dy, dx)]->0.player == p
            &&& (d0.player != p && d0.name is Ravager ==> b1[cidx(dy, dx)]->0 == upgrade_spec(
                Card { player: p, ..d0 },
                1,
            ))
            &&& (d0.player != p && !(d0.name is Ravager) ==> b1[cidx(dy, dx)]->0 == (Card {
                player: p,
                ..d0
            }))
            &&& (d0.player == p ==> b1[cidx(dy, dx)]->0 == d0)
            &&& (a0.name is Ravager ==> b1[cidx(ay, ax)]->0 == upgrade_spec(a0, 1))
            &&& (!(a0.name is Ravager) ==> b1[cidx(ay, ax)]->0 == a0)
        }),
{
    reveal(capture_spec);
}

} // verus!

verus! {

/// The interpreter of capture propagation: these functions compute, cell
/// for cell, the board that the combat engine leaves behind. The fuel `f`
/// only bounds the chain-capture recursion; any fuel at least the number
/// of cards opposing the attacker gives the real result, because every
/// chain step first converts one such card.
///
/// The capture event: the defender joins the attacker's side (a Ravager
/// gains 1 on every value), a Same-chain capture re-plays the captured
/// card at once, and then a Ravager attacker gains 1 on every value.
pub open spec fn chain_capture_spec(
    f: int,
    b: Seq<Option<Card>>,
    dy: int,
    dx: int,
    ay: int,
    ax: int,
    combo: bool,
) -> Seq<Option<Card>>
    decreases f, 1int,
{
    let p = b[cidx(ay, ax)]->0.player;
    let d0 = b[cidx(dy, dx)]->0;
    let b1 = if d0.player != p {
        let dmoved = Card { player: p, ..d0 };
        let dfin = if dmoved.name is Ravager {
            upgrade_spec(dmoved, 1)
        } else {
            dmoved
        };
        let bu = b.update(cidx(dy, dx), Some(dfin));
        if combo && f > 0 {
            play_spec(f - 1, bu, dy, dx, true, None)
        } else {
            bu
        }
    } else {
        b
    };
    let a0 = b1[cidx(ay, ax)]->0;
    if a0.name is Ravager {
        b1.update(cidx(ay, ax), Some(upgrade_spec(a0, 1)))
    } else {
        b1
    }
}

/// One direction's resolution: a win captures the neighbour and lets a
/// Lancer pierce the next card on the same ray from the fallen neighbour's
/// cell; a tie captures only as part of a Same chain of two or more; a
/// loss does nothing.
pub open spec fn resolve_spec(
    f: int,
    b: Seq<Option<Card>>,
    y: int,
    x: int,
    ny: int,
    nx: int,
    d: Direction,
    res: FightResult,
    same_count: int,
    combo: bool,
) -> Seq<Option<Card>>
    decreases f, 2int,
{
    match res {
        FightResult::Win => {
            let b1 = chain_capture_spec(f, b, ny, nx, y, x, combo);
            if b1[cidx(y, x)]->0.name is Lancer {
                match nbr_spec(b1, ny, nx, Unit::Lancer, d) {
                    Some(t) => {
                        let b2 = b1.update(cidx(ny, nx), b1[cidx(y, x)]).update(cidx(y, x), None);
                        let b3 = if battle_spec(b2, ny, nx, t.0, t.1, d) == Some(FightResult::Win) {
                            chain_capture_spec(f, b2, t.0, t.1, ny, nx, combo)
                        } else {
                            b2
                        };
                        b3.update(cidx(y, x), b3[cidx(ny, nx)]).update(cidx(ny, nx), b1[cidx(ny, nx)])
                    },
                    None => b1,
                }
            } else {
                b1
            }
        },
        FightResult::Tie => if same_count > 1 {
            chain_capture_spec(f, b, ny, nx, y, x, true)
        } else {
            b
        },
        FightResult::Lose => b,
    }
}

/// The four stored outcomes resolved in Top, Right, Bottom, Left order,
/// each step on the board the previous one left.
pub open spec fn resolve_steps_spec(
    f: int,
    b: Seq<Option<Card>>,
    y: int,
    x: int,
    rn: Neighbours,
    o0: Option<FightResult>,
    o1: Option<FightResult>,
    o2: Option<FightResult>,
    o3: Option<FightResult>,
    sc: int,
    combo: bool,
) -> Seq<Option<Card>>
    decreases f, 3int,
{
    let s1 = if o0 is Some {
        resolve_spec(
            f,
            b,
            y,
            x,
            (rn.top->0).0 as int,
            (rn.top->0).1 as int,
            Direction::Top,
            o0->0,
            sc,
            combo,
        )
    } else {
        b
    };
    let s2 = if o1 is Some {
        resolve_spec(
            f,
            s1,
            y,
            x,
            (rn.right->0).0 as int,
            (rn.right->0).1 as int,
            Direction::Right,
            o1->0,
            sc,
            combo,
        )
    } else {
        s1
    };
    let s3 = if o2 is Some {
        resolve_spec(
            f,
            s2,
            y,
            x,
            (rn.bottom->0).0 as int,
            (rn.bottom->0).1 as int,
            Direction::Bottom,
            o2->0,
            sc,
            combo,
        )
    } else {
        s2
    };
    if o3 is Some {
        resolve_spec(
            f,
            s3,
            y,
            x,
            (rn.left->0).0 as int,
            (rn.left->0).1 as int,
            Direction::Left,
            o3->0,
            sc,
            combo,
        )
    } else {
        s3
    }
}

/// A full combat run for the card at (y, x): neighbours resolved (or taken
/// as given), all four battle outcomes read off one snapshot, ties counted
/// unless chained, then the four resolutions in order.
pub open spec fn play_spec(
    f: int,
    b: Seq<Option<Card>>,
    y: int,
    x: int,
    combo: bool,
    neighbours: Option<Neighbours>,
) -> Seq<Option<Card>>
    decreases f, 4int,
{
    let rn = match neighbours {
        Some(n) => n,
        None => nbrs_of(b, y, x, b[cidx(y, x)]->0.name),
    };
    let o0 = dir_battle(b, y, x, rn.top, Direction::Top);
    let o1 = dir_battle(b, y, x, rn.right, Direction::Right);
    let o2 = dir_battle(b, y, x, rn.bottom, Direction::Bottom);
    let o3 = dir_battle(b, y, x, rn.left, Direction::Left);
    let sc = if combo {
        0int
    } else {
        tie_count(b, y, x, rn)
    };
    resolve_steps_spec(f, b, y, x, rn, o0, o1, o2, o3, sc, combo)
}

/// With no chain in flight the capture event does not recurse, whatever
/// the fuel.
pub proof fn lemma_chain_capture_no_combo(
    f: int,
    b: Seq<Option<Card>>,
    dy: int,
    dx: int,
    ay: int,
    ax: int,
)
    ensures
        chain_capture_spec(f, b, dy, dx, ay, ax, false) == capture_spec(b, dy, dx, ay, ax),
{
    reveal(capture_spec);
}

} // verus!

