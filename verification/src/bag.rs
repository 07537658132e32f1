//! The seven-bag randomizer: an order of the seven kinds, a cursor into it,
//! and the generator that reshuffles the order when the cursor runs out.

use crate::game::GameView;
use crate::game::TetrisGame;
use crate::prng::lcg_step;
use crate::shape::TetrominoType;
use vstd::prelude::*;

verus! {

/// Number of kinds in a bag.
pub const BAG_SIZE: usize = 7;

/// The randomizer as a mathematical value.
#[verifier::ext_equal]
pub struct BagView {
    pub order: Seq<TetrominoType>,
    pub cursor: int,
    pub rng: u64,
}

/// `order` with the items at positions `a` and `b` exchanged.
pub open spec fn swapped(order: Seq<TetrominoType>, a: int, b: int) -> Seq<TetrominoType> {
    order.update(a, order[b]).update(b, order[a])
}

/// The Fisher-Yates pass over the first `i` positions, from the last of them
/// down to position 1: each position is exchanged with one at or before it,
/// picked by the next generator state modulo the number of candidates. Gives
/// the order and the generator state after the pass.
pub open spec fn shuffle_from(order: Seq<TetrominoType>, rng: u64, i: nat) -> (
    Seq<TetrominoType>,
    u64,
)
    decreases i,
{
    if i <= 1 {
        (order, rng)
    } else {
        let s = lcg_step(rng);
        shuffle_from(swapped(order, i - 1, s as int % i as int), s, (i - 1) as nat)
    }
}

/// The bag a draw is served from: the bag itself while its cursor is inside
/// the order, a freshly shuffled one with the cursor at 0 otherwise.
pub open spec fn refilled(bag: BagView) -> BagView {
    if bag.cursor >= bag.order.len() {
        let (order, rng) = shuffle_from(bag.order, bag.rng, bag.order.len());
        BagView { order, cursor: 0, rng }
    } else {
        bag
    }
}

/// One draw: the kind served and the bag left behind.
pub open spec fn draw(bag: BagView) -> (TetrominoType, BagView) {
    let from = refilled(bag);
    (from.order[from.cursor], BagView { cursor: from.cursor + 1, ..from })
}

/// The kinds served by `n` draws in a row.
pub open spec fn draws(bag: BagView, n: nat) -> Seq<TetrominoType>
    decreases n,
{
    if n == 0 {
        Seq::empty()
    } else {
        seq![draw(bag).0] + draws(draw(bag).1, (n - 1) as nat)
    }
}

/// The kind stands at one of the seven positions.
pub open spec fn holds(order: Seq<TetrominoType>, kind: TetrominoType) -> bool {
    exists|i: int| 0 <= i < BAG_SIZE && #[trigger] order[i] == kind
}

/// Each of the seven kinds stands at exactly one of the seven positions.
pub open spec fn each_kind_once(order: Seq<TetrominoType>) -> bool {
    &&& order.len() == BAG_SIZE
    &&& forall|k: TetrominoType| #[trigger] holds(order, k)
    &&& forall|i: int, j: int|
        0 <= i < BAG_SIZE && 0 <= j < BAG_SIZE && i != j ==> order[i] != order[j]
}

/// The order a new game starts from.
pub open spec fn initial_order() -> Seq<TetrominoType> {
    seq![
        TetrominoType::I,
        TetrominoType::O,
        TetrominoType::T,
        TetrominoType::S,
        TetrominoType::Z,
        TetrominoType::J,
        TetrominoType::L,
    ]
}

/// The bag holds each kind once and its cursor has not run past the end.
pub open spec fn bag_ok(bag: BagView) -> bool {
    each_kind_once(bag.order) && 0 <= bag.cursor <= BAG_SIZE
}

/// The bag after a reshuffle of its whole order; the cursor stays.
pub open spec fn reshuffled(bag: BagView) -> BagView {
    BagView {
        order: shuffle_from(bag.order, bag.rng, bag.order.len()).0,
        cursor: bag.cursor,
        rng: shuffle_from(bag.order, bag.rng, bag.order.len()).1,
    }
}

/// The order a new game starts from holds each kind once.
pub proof fn lemma_initial_order()
    ensures
        each_kind_once(initial_order()),
{
    let order = initial_order();
    assert forall|k: TetrominoType| #[trigger] holds(order, k) by {
        let i: int = match k {
            TetrominoType::I => 0,
            TetrominoType::O => 1,
            TetrominoType::T => 2,
            TetrominoType::S => 3,
            TetrominoType::Z => 4,
            TetrominoType::J => 5,
            TetrominoType::L => 6,
        };
        assert(order[i] == k);
    }
}

/// An exchange of two positions keeps each kind in the order exactly once.
pub proof fn lemma_swapped_each_kind_once(order: Seq<TetrominoType>, a: int, b: int)
    requires
        each_kind_once(order),
        0 <= a < BAG_SIZE,
        0 <= b < BAG_SIZE,
    ensures
        each_kind_once(swapped(order, a, b)),
{
    let after = swapped(order, a, b);
    assert forall|k: TetrominoType| #[trigger] holds(after, k) by {
        assert(holds(order, k));
        let i = choose|i: int| 0 <= i < BAG_SIZE && #[trigger] order[i] == k;
        let to = if i == a {
            b
        } else if i == b {
            a
        } else {
            i
        };
        assert(after[to] == k);
    }
}

/// A shuffle keeps each kind in the order exactly once, whatever the
/// generator gives.
pub proof fn lemma_shuffle_each_kind_once(order: Seq<TetrominoType>, rng: u64, i: nat)
    requires
        each_kind_once(order),
        i <= BAG_SIZE,
    ensures
        each_kind_once(shuffle_from(order, rng, i).0),
    decreases i,
{
    if i > 1 {
        let s = lcg_step(rng);
        let j = s as int % i as int;
        lemma_swapped_each_kind_once(order, i - 1, j);
        lemma_shuffle_each_kind_once(swapped(order, i - 1, j), s, (i - 1) as nat);
    }
}

/// A draw leaves a bag that holds each kind once, with its cursor between 1
/// and 7.
pub proof fn lemma_draw_bag_ok(bag: BagView)
    requires
        each_kind_once(bag.order),
        0 <= bag.cursor,
    ensures
        bag_ok(draw(bag).1),
        1 <= draw(bag).1.cursor,
{
    lemma_shuffle_each_kind_once(bag.order, bag.rng, BAG_SIZE as nat);
}

/// Seven draws in a row that start at a bag boundary, where the cursor
/// stands before the first position or past the last, serve each of the
/// seven kinds exactly once: they serve the bag that was opened, in its
/// order.
pub proof fn lemma_seven_draws_serve_each_kind_once(bag: BagView)
    requires
        each_kind_once(bag.order),
        bag.cursor == 0 || bag.cursor == BAG_SIZE,
    ensures
        draws(bag, 7) == refilled(bag).order,
        each_kind_once(draws(bag, 7)),
{
    lemma_shuffle_each_kind_once(bag.order, bag.rng, BAG_SIZE as nat);
    let open = refilled(bag);
    let b1 = draw(bag).1;
    let b2 = draw(b1).1;
    let b3 = draw(b2).1;
    let b4 = draw(b3).1;
    let b5 = draw(b4).1;
    let b6 = draw(b5).1;
    assert(b1.order == open.order && b1.cursor == 1);
    assert(b2.order == open.order && b2.cursor == 2);
    assert(b3.order == open.order && b3.cursor == 3);
    assert(b4.order == open.order && b4.cursor == 4);
    assert(b5.order == open.order && b5.cursor == 5);
    assert(b6.order == open.order && b6.cursor == 6);
    reveal_with_fuel(draws, 8);
    assert(draws(bag, 7) =~= open.order);
}

impl TetrisGame {
    /// Serves the next kind, from a reshuffled bag where the present one is
    /// used up.
    pub fn next_piece_from_bag(&mut self) -> (kind: TetrominoType)
        ensures
            kind == draw(old(self)@.bag).0,
            final(self)@ == (GameView { bag: draw(old(self)@.bag).1, ..old(self)@ }),
            bag_ok(old(self)@.bag) ==> bag_ok(final(self)@.bag),
    {
        proof {
            if bag_ok(self@.bag) {
                lemma_draw_bag_ok(self@.bag);
            }
        }
        if self.bag_idx >= BAG_SIZE {
            self.shuffle_bag();
            self.bag_idx = 0;
        }
        let piece = self.bag[self.bag_idx];
        self.bag_idx += 1;
        proof {
            assert(self@ =~= (GameView { bag: draw(old(self)@.bag).1, ..old(self)@ }));
        }
        piece
    }

    /// Fisher-Yates shuffle of the bag, driven by the generator.
    pub fn shuffle_bag(&mut self)
        ensures
            final(self)@ == (GameView { bag: reshuffled(old(self)@.bag), ..old(self)@ }),
            each_kind_once(old(self)@.bag.order) ==> each_kind_once(final(self)@.bag.order),
    {
        proof {
            if each_kind_once(self@.bag.order) {
                lemma_shuffle_each_kind_once(self@.bag.order, self@.bag.rng, BAG_SIZE as nat);
            }
        }
        let mut i: usize = BAG_SIZE;
        while i > 1
            invariant
                1 <= i <= BAG_SIZE,
                self.board == old(self).board,
                self.current_piece == old(self).current_piece,
                self.score == old(self).score,
                self.game_over == old(self).game_over,
                self.next_piece_type == old(self).next_piece_type,
                self.bag_idx == old(self).bag_idx,
                shuffle_from(self.bag@, self.prng.state, i as nat) == shuffle_from(
                    old(self).bag@,
                    old(self).prng.state,
                    BAG_SIZE as nat,
                ),
            decreases i,
        {
            let ghost order = self.bag@;
            i -= 1;
            let j = self.prng.next_range((i + 1) as u32) as usize;
            let tmp = self.bag[i];
            self.bag[i] = self.bag[j];
            self.bag[j] = tmp;
            proof {
                assert(self.bag@ =~= swapped(order, i as int, j as int));
            }
        }
        proof {
            assert(self@ =~= (GameView { bag: reshuffled(old(self)@.bag), ..old(self)@ }));
        }
    }
}

} // verus!
