//! The 4x5 playing field: a grid of optional cards and a parallel grid of
//! bomb charges, with the counting functions the engine's contracts use.

use vstd::prelude::*;

use crate::card::{card_wf, Card, Unit};

verus! {

/// Flat index of the cell at row `y`, column `x`.
pub open spec fn cidx(y: int, x: int) -> int {
    y * 5 + x
}

/// True when (y, x) lies on the 4x5 grid.
pub open spec fn on_grid(y: int, x: int) -> bool {
    0 <= y < 4 && 0 <= x < 5
}

/// A well-formed board: 20 cells, every card on it valid.
pub open spec fn board_wf(b: Seq<Option<Card>>) -> bool {
    &&& b.len() == 20
    &&& forall|i: int| 0 <= i < 20 && b[i] is Some ==> card_wf(b[i]->0)
}

/// The 4 rows x 5 columns grid of cells, each empty or holding one card.
pub struct Board {
    cells: Vec<Option<Card>>,
}

impl View for Board {
    type V = Seq<Option<Card>>;

    closed spec fn view(&self) -> Seq<Option<Card>> {
        self.cells@
    }
}

impl Board {
    pub open spec fn wf(&self) -> bool {
        board_wf(self@)
    }

    /// An empty board.
    pub fn new() -> (b: Board)
        ensures
            b.wf(),
            b@.len() == 20,
            forall|i: int| 0 <= i < 20 ==> b@[i] is None,
    {
        let mut cells: Vec<Option<Card>> = Vec::new();
        let mut k: usize = 0;
        while k < 20
            invariant
                k <= 20,
                cells@.len() == k,
                forall|i: int| 0 <= i < k ==> cells@[i] is None,
            decreases 20 - k,
        {
            cells.push(None);
            k = k + 1;
        }
        Board { cells }
    }

    /// The cell at row `y`, column `x`.
    pub fn get(&self, y: usize, x: usize) -> (r: Option<Card>)
        requires
            self@.len() == 20,
            y < 4,
            x < 5,
        ensures
            r == self@[cidx(y as int, x as int)],
    {
        self.cells[y * 5 + x]
    }

    /// Replaces the cell at row `y`, column `x`.
    pub fn set(&mut self, y: usize, x: usize, v: Option<Card>)
        requires
            old(self)@.len() == 20,
            y < 4,
            x < 5,
        ensures
            final(self)@ == old(self)@.update(cidx(y as int, x as int), v),
    {
        self.cells.set(y * 5 + x, v);
    }
}

/// A well-formed bomb grid: one charge counter per cell.
pub open spec fn bombs_wf(bb: Seq<u8>) -> bool {
    bb.len() == 20
}

/// The 4x5 grid of bomb charges that runs parallel to the board.
pub struct Bombs {
    cells: Vec<u8>,
}

impl View for Bombs {
    type V = Seq<u8>;

    closed spec fn view(&self) -> Seq<u8> {
        self.cells@
    }
}

impl Bombs {
    pub open spec fn wf(&self) -> bool {
        bombs_wf(self@)
    }

    /// A grid with no charges.
    pub fn new() -> (b: Bombs)
        ensures
            b.wf(),
            forall|i: int| 0 <= i < 20 ==> b@[i] == 0u8,
    {
        let mut cells: Vec<u8> = Vec::new();
        let mut k: usize = 0;
        while k < 20
            invariant
                k <= 20,
                cells@.len() == k,
                forall|i: int| 0 <= i < k ==> cells@[i] == 0u8,
            decreases 20 - k,
        {
            cells.push(0);
            k = k + 1;
        }
        Bombs { cells }
    }

    /// The charge at row `y`, column `x`.
    pub fn get(&self, y: usize, x: usize) -> (r: u8)
        requires
            self@.len() == 20,
            y < 4,
            x < 5,
        ensures
            r == self@[cidx(y as int, x as int)],
    {
        self.cells[y * 5 + x]
    }

    /// Replaces the charge at row `y`, column `x`.
    pub fn set(&mut self, y: usize, x: usize, v: u8)
        requires
            old(self)@.len() == 20,
            y < 4,
            x < 5,
        ensures
            final(self)@ == old(self)@.update(cidx(y as int, x as int), v),
    {
        self.cells.set(y * 5 + x, v);
    }

    /// A cell-for-cell copy of the grid.
    pub fn duplicate(&self) -> (r: Bombs)
        requires
            self@.len() == 20,
        ensures
            r@ == self@,
    {
        let mut cells: Vec<u8> = Vec::new();
        let mut k: usize = 0;
        while k < 20
            invariant
                self@.len() == 20,
                k <= 20,
                cells@.len() == k,
                forall|i: int| 0 <= i < k ==> cells@[i] == self@[i],
            decreases 20 - k,
        {
            cells.push(self.cells[k]);
            k = k + 1;
        }
        let r = Bombs { cells };
        proof {
            assert(r@ =~= self@);
        }
        r
    }
}

/// Whether the cell holds a card.
pub open spec fn occ_at(b: Seq<Option<Card>>, i: int) -> bool {
    b[i] is Some
}

/// Whether the cell holds a card of player `p`.
pub open spec fn owned_at(b: Seq<Option<Card>>, p: u8, i: int) -> bool {
    b[i] is Some && b[i]->0.player == p
}

/// Whether the cell holds a Swarm of player `p`.
pub open spec fn swarm_at(b: Seq<Option<Card>>, p: u8, i: int) -> bool {
    b[i] is Some && b[i]->0.name is Swarm && b[i]->0.player == p
}

/// Occupied cells among the first `n`.
pub open spec fn occ_upto(b: Seq<Option<Card>>, n: int) -> nat
    decreases n,
{
    if n <= 0 {
        0
    } else {
        occ_upto(b, n - 1) + if occ_at(b, n - 1) {
            1nat
        } else {
            0nat
        }
    }
}

/// Cells of player `p` among the first `n`.
pub open spec fn owned_upto(b: Seq<Option<Card>>, p: u8, n: int) -> nat
    decreases n,
{
    if n <= 0 {
        0
    } else {
        owned_upto(b, p, n - 1) + if owned_at(b, p, n - 1) {
            1nat
        } else {
            0nat
        }
    }
}

/// Swarms of player `p` among the first `n` cells.
pub open spec fn swarm_upto(b: Seq<Option<Card>>, p: u8, n: int) -> nat
    decreases n,
{
    if n <= 0 {
        0
    } else {
        swarm_upto(b, p, n - 1) + if swarm_at(b, p, n - 1) {
            1nat
        } else {
            0nat
        }
    }
}

/// Cards on the board.
pub open spec fn occ_count(b: Seq<Option<Card>>) -> nat {
    occ_upto(b, 20)
}

/// Cards of player `p` on the board.
pub open spec fn owned_count(b: Seq<Option<Card>>, p: u8) -> nat {
    owned_upto(b, p, 20)
}

pub proof fn lemma_occ_upto_bound(b: Seq<Option<Card>>, n: int)
    ensures
        occ_upto(b, n) <= (if n <= 0 {
            0int
        } else {
            n
        }),
    decreases n,
{
    if n > 0 {
        lemma_occ_upto_bound(b, n - 1);
    }
}

pub proof fn lemma_owned_upto_bound(b: Seq<Option<Card>>, p: u8, n: int)
    ensures
        owned_upto(b, p, n) <= (if n <= 0 {
            0int
        } else {
            n
        }),
    decreases n,
{
    if n > 0 {
        lemma_owned_upto_bound(b, p, n - 1);
    }
}

pub proof fn lemma_swarm_upto_bound(b: Seq<Option<Card>>, p: u8, n: int)
    ensures
        swarm_upto(b, p, n) <= (if n <= 0 {
            0int
        } else {
            n
        }),
    decreases n,
{
    if n > 0 {
        lemma_swarm_upto_bound(b, p, n - 1);
    }
}

/// Updating a cell changes the owned count by the obvious amount.
pub proof fn lemma_owned_upto_update(b: Seq<Option<Card>>, p: u8, j: int, v: Option<Card>, n: int)
    requires
        0 <= j < b.len(),
        n <= b.len(),
    ensures
        owned_upto(b.update(j, v), p, n) == if j < n {
            owned_upto(b, p, n) - (if owned_at(b, p, j) {
                1int
            } else {
                0int
            }) + (if v is Some && v->0.player == p {
                1int
            } else {
                0int
            })
        } else {
            owned_upto(b, p, n) as int
        },
    decreases n,
{
    if n > 0 {
        lemma_owned_upto_update(b, p, j, v, n - 1);
    }
}

/// Updating a cell changes the occupancy count by the obvious amount.
pub proof fn lemma_occ_upto_update(b: Seq<Option<Card>>, j: int, v: Option<Card>, n: int)
    requires
        0 <= j < b.len(),
        n <= b.len(),
    ensures
        occ_upto(b.update(j, v), n) == if j < n {
            occ_upto(b, n) - (if occ_at(b, j) {
                1int
            } else {
                0int
            }) + (if v is Some {
                1int
            } else {
                0int
            })
        } else {
            occ_upto(b, n) as int
        },
    decreases n,
{
    if n > 0 {
        lemma_occ_upto_update(b, j, v, n - 1);
    }
}

/// Occupancy counts agree when the two boards hold cards in the same cells.
pub proof fn lemma_occ_upto_same_shape(b0: Seq<Option<Card>>, b1: Seq<Option<Card>>, n: int)
    requires
        forall|i: int| 0 <= i < n ==> (occ_at(b0, i) <==> occ_at(b1, i)),
    ensures
        occ_upto(b0, n) == occ_upto(b1, n),
    decreases n,
{
    if n > 0 {
        lemma_occ_upto_same_shape(b0, b1, n - 1);
    }
}

/// The owned count can only grow when ownership is preserved pointwise.
pub proof fn lemma_owned_upto_mono(b0: Seq<Option<Card>>, b1: Seq<Option<Card>>, p: u8, n: int)
    requires
        forall|i: int| 0 <= i < n ==> (owned_at(b0, p, i) ==> owned_at(b1, p, i)),
    ensures
        owned_upto(b0, p, n) <= owned_upto(b1, p, n),
    decreases n,
{
    if n > 0 {
        lemma_owned_upto_mono(b0, b1, p, n - 1);
    }
}

/// Law of the score query: on any well-formed board, player 1's cards and
/// player 2's cards together make up exactly the cards on the board.
pub proof fn lemma_owned_split(b: Seq<Option<Card>>, n: int)
    requires
        board_wf(b),
        n <= 20,
    ensures
        owned_upto(b, 1, n) + owned_upto(b, 2, n) == occ_upto(b, n),
    decreases n,
{
    if n > 0 {
        lemma_owned_split(b, n - 1);
    }
}

} // verus!

verus! {

/// How many cards on the board do not belong to player `p`: the termination
/// measure of capture propagation, which captures strictly shrink and
/// nothing in combat ever grows.
pub open spec fn enemy_measure(b: Seq<Option<Card>>, p: u8) -> int {
    occ_upto(b, 20) - owned_upto(b, p, 20)
}

pub proof fn lemma_owned_le_occ(b: Seq<Option<Card>>, p: u8, n: int)
    ensures
        owned_upto(b, p, n) <= occ_upto(b, n),
    decreases n,
{
    if n > 0 {
        lemma_owned_le_occ(b, p, n - 1);
    }
}

pub proof fn lemma_enemy_measure_bounds(b: Seq<Option<Card>>, p: u8)
    ensures
        0 <= enemy_measure(b, p) <= 20,
{
    lemma_owned_le_occ(b, p, 20);
    lemma_occ_upto_bound(b, 20);
}

} // verus!

verus! {

/// A cell held by someone else makes the enemy count strictly positive.
pub proof fn lemma_owned_lt_occ(b: Seq<Option<Card>>, p: u8, j: int, n: int)
    requires
        0 <= j < n,
        occ_at(b, j),
        !owned_at(b, p, j),
    ensures
        owned_upto(b, p, n) < occ_upto(b, n),
    decreases n,
{
    if j == n - 1 {
        lemma_owned_le_occ(b, p, n - 1);
    } else {
        lemma_owned_lt_occ(b, p, j, n - 1);
    }
}

} // verus!
