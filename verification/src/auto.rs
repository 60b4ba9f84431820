use vstd::prelude::*;
use crate::part::PartKind;
use crate::cell::{Cell, CellKind, floor_wf, lemma_floor_cell};
use crate::factory::Factory;
use crate::track::spec_abs_diff;
use crate::floor::{FLOOR_CELLS_W, FLOOR_CELLS_H, FLOOR_CELLS_WH, spec_is_edge, spec_is_middle, spec_is_edge_not_corner};

verus! {

/// The steps of the automatic builder, which plays the game by itself.
#[derive(Clone, Copy, Debug, PartialEq, Eq, Structural)]
pub enum AutoBuildPhase {
    Idle,
    Startup,
    PickQuest,
    PickMachine,
    DragMachine,
    PlaceMachine,
    MoveToTargetPart,
    DragTargetPart,
    ReleaseTargetPart,
    MoveToInputPart,
    MoveToEdge,
    CreateSupplier,
    TrackToMachineStart,
    TrackToMachine,
    TrackToMachineStep,
    TrackFromMachineStart,
    TrackFromMachine,
    TrackFromMachineStep,
    Finishing,
    Finished,
}

/// Where the automatic builder moves the mouse to.
#[derive(Clone, Copy, Debug, PartialEq, Eq, Structural)]
pub enum AutoBuildTarget {
    /// Stay where the mouse is.
    Stay,
    /// The quest with the given visible index.
    Quest(usize),
    /// The button that picks a 2x2 machine.
    MachineButton,
    /// The offer of the given part kind.
    Offer(PartKind),
    /// The floor cell at (x, y).
    FloorCell(usize, usize),
}

/// Flood fill mark of an empty cell that was not reached (yet).
pub const FLOOD_FILL_EMPTY_FRESH: i32 = 900;
/// Flood fill mark of an empty edge cell; the fill does not spread over the edge.
pub const FLOOD_FILL_EDGE: i32 = 950;
/// Flood fill mark of a cell that is taken.
pub const FLOOD_FILL_FULL: i32 = 999;

pub open spec fn spec_col(i: int) -> int {
    i % (FLOOR_CELLS_W as int)
}

pub open spec fn spec_row(i: int) -> int {
    i / (FLOOR_CELLS_W as int)
}

/// The flood starts from cell `i`: with `from_edge` every edge cell but the corners, else
/// every cell of the rectangle at (ox, oy) of `ow` by `oh` cells.
pub open spec fn spec_seed(i: int, ox: int, oy: int, ow: int, oh: int, from_edge: bool) -> bool {
    if from_edge {
        spec_is_edge_not_corner(spec_col(i), spec_row(i))
    } else {
        ox <= spec_col(i) < ox + ow && oy <= spec_row(i) < oy + oh
    }
}

/// The mark of a cell that the flood does not start from, before the flood spreads.
pub open spec fn spec_unflooded(c: Cell) -> i32 {
    if c.kind != CellKind::Empty {
        FLOOD_FILL_FULL
    } else if c.is_edge {
        FLOOD_FILL_EDGE
    } else {
        FLOOD_FILL_EMPTY_FRESH
    }
}

/// Cell `i` is an empty cell inside the edge that the flood does not start from.
pub open spec fn spec_fresh(floor: Seq<Cell>, i: int, ox: int, oy: int, ow: int, oh: int, from_edge: bool) -> bool {
    &&& 0 <= i < FLOOR_CELLS_WH
    &&& !spec_seed(i, ox, oy, ow, oh, from_edge)
    &&& spec_unflooded(floor[i]) == FLOOD_FILL_EMPTY_FRESH
}

/// Cell `i` can be reached in at most `k` steps from a cell the flood starts from, stepping
/// between side neighbors over empty cells inside the edge.
pub open spec fn spec_within(floor: Seq<Cell>, i: int, k: nat, ox: int, oy: int, ow: int, oh: int, from_edge: bool) -> bool
    decreases k,
{
    if k == 0 {
        0 <= i < FLOOR_CELLS_WH && spec_seed(i, ox, oy, ow, oh, from_edge)
    } else {
        ||| spec_within(floor, i, (k - 1) as nat, ox, oy, ow, oh, from_edge)
        ||| spec_fresh(floor, i, ox, oy, ow, oh, from_edge) && {
            ||| spec_within(floor, i - FLOOR_CELLS_W, (k - 1) as nat, ox, oy, ow, oh, from_edge)
            ||| spec_within(floor, i - 1, (k - 1) as nat, ox, oy, ow, oh, from_edge)
            ||| spec_within(floor, i + 1, (k - 1) as nat, ox, oy, ow, oh, from_edge)
            ||| spec_within(floor, i + FLOOR_CELLS_W, (k - 1) as nat, ox, oy, ow, oh, from_edge)
        }
    }
}

/// The marks of a flood over the floor: cells it starts from are 1, taken cells 999, empty
/// edge cells 950, and an empty inner cell is 900 when not reached, else a number `v` from 2 on
/// such that the cell can be reached in `v - 1` steps (see `spec_within`).
#[verifier::opaque]
pub open spec fn spec_flood_ok(floor: Seq<Cell>, fake: Seq<i32>, ox: int, oy: int, ow: int, oh: int, from_edge: bool) -> bool {
    &&& fake.len() == FLOOR_CELLS_WH
    &&& forall|i: int| 0 <= i < FLOOR_CELLS_WH ==> {
        if spec_seed(i, ox, oy, ow, oh, from_edge) {
            #[trigger] fake[i] == 1
        } else if spec_unflooded(floor[i]) != FLOOD_FILL_EMPTY_FRESH {
            fake[i] == spec_unflooded(floor[i])
        } else {
            &&& 2 <= fake[i] <= FLOOD_FILL_EMPTY_FRESH
            &&& fake[i] < FLOOD_FILL_EMPTY_FRESH ==> spec_within(floor, i, (fake[i] - 1) as nat, ox, oy, ow, oh, from_edge)
        }
    }
}

/// The marks that the flood fill computes (`spec_flood_fill`); they are sound marks
/// (`spec_flood_ok`), exact distances for every cell within 100 steps (`spec_flood_complete`).
pub open spec fn spec_flood(floor: Seq<Cell>, fake: Seq<i32>, ox: int, oy: int, ow: int, oh: int, from_edge: bool) -> bool {
    &&& fake == spec_flood_fill(floor, ox, oy, ow, oh, from_edge)
    &&& spec_flood_ok(floor, fake, ox, oy, ow, oh, from_edge)
    &&& spec_flood_complete(floor, fake, ox, oy, ow, oh, from_edge, 100)
}

/// The marks before the flood spreads: 1 where it starts, else `spec_unflooded`.
pub open spec fn spec_fill_start(floor: Seq<Cell>, ox: int, oy: int, ow: int, oh: int, from_edge: bool) -> Seq<i32> {
    Seq::new(FLOOR_CELLS_WH as nat, |j: int| if spec_seed(j, ox, oy, ow, oh, from_edge) { 1i32 } else { spec_unflooded(floor[j]) })
}

/// The new mark of cell `i` when a sweep reaches it: a cell marked from 2 to 900 takes one more
/// than the smallest mark below 900 among its neighbors up, left, down and right, when that is
/// lower than its own mark; any other cell keeps its mark.
pub open spec fn spec_swept_mark(fake: Seq<i32>, i: int) -> i32 {
    let n = fake[i];
    if n <= FLOOD_FILL_EMPTY_FRESH && n != 1 {
        let p1 = fake[i - FLOOR_CELLS_W];
        let m1 = if p1 < FLOOD_FILL_EMPTY_FRESH && n > p1 { p1 } else { n };
        let p2 = fake[i - 1];
        let m2 = if p2 < FLOOD_FILL_EMPTY_FRESH && m1 > p2 { p2 } else { m1 };
        let p3 = fake[i + FLOOR_CELLS_W];
        let m3 = if p3 < FLOOD_FILL_EMPTY_FRESH && m2 > p3 { p3 } else { m2 };
        let p4 = fake[i + 1];
        let m4 = if p4 < FLOOD_FILL_EMPTY_FRESH && m3 > p4 { p4 } else { m3 };
        if m4 + 1 < n { (m4 + 1) as i32 } else { n }
    } else {
        n
    }
}

/// The marks after a sweep has visited the first `k` cells in order, each cell updated from the
/// marks as they stand when it is reached.
pub open spec fn spec_sweep(fake: Seq<i32>, k: nat) -> Seq<i32>
    decreases k,
{
    if k == 0 {
        fake
    } else {
        let f = spec_sweep(fake, (k - 1) as nat);
        f.update(k - 1, spec_swept_mark(f, k - 1))
    }
}

/// The marks after `r` whole sweeps over the floor.
pub open spec fn spec_sweeps(fake: Seq<i32>, r: nat) -> Seq<i32>
    decreases r,
{
    if r == 0 { fake } else { spec_sweep(spec_sweeps(fake, (r - 1) as nat), FLOOR_CELLS_WH as nat) }
}

/// The marks the flood fill computes: a hundred sweeps from the starting marks (it stops as soon
/// as a sweep changes nothing, which gives the same marks).
pub open spec fn spec_flood_fill(floor: Seq<Cell>, ox: int, oy: int, ow: int, oh: int, from_edge: bool) -> Seq<i32> {
    spec_sweeps(spec_fill_start(floor, ox, oy, ow, oh, from_edge), 100)
}

/// Once a sweep changes nothing, further sweeps change nothing either.
proof fn lemma_sweeps_stable(fake: Seq<i32>, r: nat, t: nat)
    requires
        spec_sweep(spec_sweeps(fake, r), FLOOR_CELLS_WH as nat) == spec_sweeps(fake, r),
        r <= t,
    ensures
        spec_sweeps(fake, t) == spec_sweeps(fake, r),
    decreases t - r,
{
    if r < t {
        lemma_sweeps_stable(fake, r, (t - 1) as nat);
    }
}

/// Every cell that can be reached in `k <= 100` steps has a mark of at most `k + 1`: with the
/// marks of `spec_flood_ok`, its mark is its distance plus one.
pub open spec fn spec_flood_complete(floor: Seq<Cell>, fake: Seq<i32>, ox: int, oy: int, ow: int, oh: int, from_edge: bool, rounds: nat) -> bool {
    forall|i: int, k: nat| k <= rounds && #[trigger] spec_within(floor, i, k, ox, oy, ow, oh, from_edge) ==> fake[i] <= k + 1
}

proof fn lemma_within_kind(floor: Seq<Cell>, i: int, k: nat, ox: int, oy: int, ow: int, oh: int, from_edge: bool)
    ensures
        spec_within(floor, i, k, ox, oy, ow, oh, from_edge) ==> 0 <= i < FLOOR_CELLS_WH
            && (spec_seed(i, ox, oy, ow, oh, from_edge) || spec_fresh(floor, i, ox, oy, ow, oh, from_edge)),
    decreases k,
{
    if k > 0 {
        lemma_within_kind(floor, i, (k - 1) as nat, ox, oy, ow, oh, from_edge);
    }
}

/// The flood is settled at cell `i`: no side neighbor that was reached could lower its mark.
pub open spec fn spec_settled_at(floor: Seq<Cell>, fake: Seq<i32>, i: int, ox: int, oy: int, ow: int, oh: int, from_edge: bool) -> bool {
    spec_fresh(floor, i, ox, oy, ow, oh, from_edge) ==> {
        &&& fake[i - FLOOR_CELLS_W] < FLOOD_FILL_EMPTY_FRESH ==> fake[i] <= fake[i - FLOOR_CELLS_W] + 1
        &&& fake[i - 1] < FLOOD_FILL_EMPTY_FRESH ==> fake[i] <= fake[i - 1] + 1
        &&& fake[i + 1] < FLOOD_FILL_EMPTY_FRESH ==> fake[i] <= fake[i + 1] + 1
        &&& fake[i + FLOOR_CELLS_W] < FLOOD_FILL_EMPTY_FRESH ==> fake[i] <= fake[i + FLOOR_CELLS_W] + 1
    }
}

proof fn lemma_settled_complete(floor: Seq<Cell>, fake: Seq<i32>, ox: int, oy: int, ow: int, oh: int, from_edge: bool, i: int, k: nat)
    requires
        spec_flood_ok(floor, fake, ox, oy, ow, oh, from_edge),
        forall|j: int| 0 <= j < FLOOR_CELLS_WH ==> #[trigger] spec_settled_at(floor, fake, j, ox, oy, ow, oh, from_edge),
        k <= 800,
        spec_within(floor, i, k, ox, oy, ow, oh, from_edge),
    ensures
        fake[i] <= k + 1,
    decreases k,
{
    reveal(spec_flood_ok);
    lemma_within_kind(floor, i, k, ox, oy, ow, oh, from_edge);
    if k > 0 {
        if spec_within(floor, i, (k - 1) as nat, ox, oy, ow, oh, from_edge) {
            lemma_settled_complete(floor, fake, ox, oy, ow, oh, from_edge, i, (k - 1) as nat);
        } else {
            assert(spec_settled_at(floor, fake, i, ox, oy, ow, oh, from_edge));
            let k1 = (k - 1) as nat;
            if spec_within(floor, i - FLOOR_CELLS_W, k1, ox, oy, ow, oh, from_edge) {
                lemma_settled_complete(floor, fake, ox, oy, ow, oh, from_edge, i - FLOOR_CELLS_W, k1);
            } else if spec_within(floor, i - 1, k1, ox, oy, ow, oh, from_edge) {
                lemma_settled_complete(floor, fake, ox, oy, ow, oh, from_edge, i - 1, k1);
            } else if spec_within(floor, i + 1, k1, ox, oy, ow, oh, from_edge) {
                lemma_settled_complete(floor, fake, ox, oy, ow, oh, from_edge, i + 1, k1);
            } else {
                lemma_settled_complete(floor, fake, ox, oy, ow, oh, from_edge, i + FLOOR_CELLS_W, k1);
            }
        }
    }
}

proof fn lemma_fresh_is_middle(floor: Seq<Cell>, i: int)
    requires
        floor_wf(floor),
        0 <= i < FLOOR_CELLS_WH,
        spec_unflooded(floor[i]) == FLOOD_FILL_EMPTY_FRESH,
    ensures
        spec_is_middle(spec_col(i), spec_row(i)),
        FLOOR_CELLS_W + 1 <= i < FLOOR_CELLS_WH - FLOOR_CELLS_W - 1,
{
    lemma_floor_cell(floor, i);
}


/// Spreading to fresh cell `i` with `m` the smallest of its mark and its reached neighbors'
/// marks: the cell's new mark `min(mark, m + 1)` meets the bound for one more round.
proof fn lemma_spread_cell(floor: Seq<Cell>, fake: Seq<i32>, i: int, m: i32, ox: int, oy: int, ow: int, oh: int, from_edge: bool, r: nat)
    requires
        spec_flood_ok(floor, fake, ox, oy, ow, oh, from_edge),
        spec_flood_complete(floor, fake, ox, oy, ow, oh, from_edge, r),
        r < 100,
        spec_fresh(floor, i, ox, oy, ow, oh, from_edge),
        FLOOR_CELLS_W + 1 <= i < FLOOR_CELLS_WH - FLOOR_CELLS_W - 1,
        m <= fake[i],
        fake[i - FLOOR_CELLS_W] < FLOOD_FILL_EMPTY_FRESH ==> m <= fake[i - FLOOR_CELLS_W],
        fake[i - 1] < FLOOD_FILL_EMPTY_FRESH ==> m <= fake[i - 1],
        fake[i + 1] < FLOOD_FILL_EMPTY_FRESH ==> m <= fake[i + 1],
        fake[i + FLOOR_CELLS_W] < FLOOD_FILL_EMPTY_FRESH ==> m <= fake[i + FLOOR_CELLS_W],
        m == fake[i] || m == fake[i - FLOOR_CELLS_W] || m == fake[i - 1] || m == fake[i + 1] || m == fake[i + FLOOR_CELLS_W],
    ensures
        forall|k: nat| k <= r + 1 && #[trigger] spec_within(floor, i, k, ox, oy, ow, oh, from_edge)
            ==> (if m + 1 < fake[i] { m + 1 } else { fake[i] as int }) <= k + 1,
        !(m + 1 < fake[i]) ==> spec_settled_at(floor, fake, i, ox, oy, ow, oh, from_edge),
{
    reveal(spec_flood_ok);
    assert forall|k: nat| k <= r + 1 && #[trigger] spec_within(floor, i, k, ox, oy, ow, oh, from_edge)
        implies (if m + 1 < fake[i] { m + 1 } else { fake[i] as int }) <= k + 1 by {
        if k == 0 {
        } else {
            let k1 = (k - 1) as nat;
            if spec_within(floor, i, k1, ox, oy, ow, oh, from_edge) {
                assert(fake[i] <= k1 + 1);
            } else if spec_within(floor, i - FLOOR_CELLS_W, k1, ox, oy, ow, oh, from_edge) {
                assert(fake[i - FLOOR_CELLS_W] <= k1 + 1);
            } else if spec_within(floor, i - 1, k1, ox, oy, ow, oh, from_edge) {
                assert(fake[i - 1] <= k1 + 1);
            } else if spec_within(floor, i + 1, k1, ox, oy, ow, oh, from_edge) {
                assert(fake[i + 1] <= k1 + 1);
            } else {
                assert(spec_within(floor, i + FLOOR_CELLS_W, k1, ox, oy, ow, oh, from_edge));
                assert(fake[i + FLOOR_CELLS_W] <= k1 + 1);
            }
        }
    }
}

/// Lowering the mark of fresh cell `i` to `m + 1`, where `m` is a reached neighbor's mark,
/// keeps the marks sound and only lowers marks.
proof fn lemma_spread_update(floor: Seq<Cell>, before: Seq<i32>, after: Seq<i32>, i: int, m: i32, ox: int, oy: int, ow: int, oh: int, from_edge: bool, r: nat)
    requires
        spec_flood_ok(floor, before, ox, oy, ow, oh, from_edge),
        spec_flood_complete(floor, before, ox, oy, ow, oh, from_edge, r),
        spec_fresh(floor, i, ox, oy, ow, oh, from_edge),
        FLOOR_CELLS_W + 1 <= i < FLOOR_CELLS_WH - FLOOR_CELLS_W - 1,
        m + 1 < before[i],
        m == before[i - FLOOR_CELLS_W] || m == before[i - 1] || m == before[i + 1] || m == before[i + FLOOR_CELLS_W],
        after == before.update(i, (m + 1) as i32),
    ensures
        spec_flood_ok(floor, after, ox, oy, ow, oh, from_edge),
        spec_flood_complete(floor, after, ox, oy, ow, oh, from_edge, r),
{
    reveal(spec_flood_ok);
    let n = if m == before[i - FLOOR_CELLS_W] { i - FLOOR_CELLS_W } else if m == before[i - 1] { i - 1 }
        else if m == before[i + 1] { i + 1 } else { i + FLOOR_CELLS_W };
    assert(before[n] == m);
    assert(m < FLOOD_FILL_EMPTY_FRESH);
    if spec_seed(n, ox, oy, ow, oh, from_edge) {
        assert(spec_within(floor, n, 0, ox, oy, ow, oh, from_edge));
    } else {
        assert(spec_unflooded(floor[n]) == FLOOD_FILL_EMPTY_FRESH);
        assert(spec_within(floor, n, (m - 1) as nat, ox, oy, ow, oh, from_edge));
    }
    assert(spec_within(floor, i, m as nat, ox, oy, ow, oh, from_edge));
    assert forall|j: int| 0 <= j < FLOOR_CELLS_WH implies {
        if spec_seed(j, ox, oy, ow, oh, from_edge) {
            #[trigger] after[j] == 1
        } else if spec_unflooded(floor[j]) != FLOOD_FILL_EMPTY_FRESH {
            after[j] == spec_unflooded(floor[j])
        } else {
            &&& 2 <= after[j] <= FLOOD_FILL_EMPTY_FRESH
            &&& after[j] < FLOOD_FILL_EMPTY_FRESH ==> spec_within(floor, j, (after[j] - 1) as nat, ox, oy, ow, oh, from_edge)
        }
    } by {
        if j != i {
            assert(after[j] == before[j]);
        }
    }
    assert(after[i] == m + 1);
    assert forall|j: int, k: nat| k <= r && #[trigger] spec_within(floor, j, k, ox, oy, ow, oh, from_edge) implies after[j] <= k + 1 by {
        assert(before[j] <= k + 1);
        lemma_within_kind(floor, j, k, ox, oy, ow, oh, from_edge);
        if j != i {
            assert(after[j] == before[j]);
        }
    }
}


/// Reaching a cell in `a` steps is reaching it in any `b >= a` steps.
pub proof fn lemma_within_mono(floor: Seq<Cell>, i: int, a: nat, b: nat, ox: int, oy: int, ow: int, oh: int, from_edge: bool)
    requires
        a <= b,
        spec_within(floor, i, a, ox, oy, ow, oh, from_edge),
    ensures
        spec_within(floor, i, b, ox, oy, ow, oh, from_edge),
    decreases b - a,
{
    if a < b {
        lemma_within_mono(floor, i, a, (b - 1) as nat, ox, oy, ow, oh, from_edge);
    }
}

/// The flood marks distances: a cell that can be reached in `k <= 100` steps but not in fewer
/// is marked `k + 1`.
pub proof fn lemma_flood_exact(floor: Seq<Cell>, fake: Seq<i32>, i: int, k: nat, ox: int, oy: int, ow: int, oh: int, from_edge: bool)
    requires
        spec_flood_ok(floor, fake, ox, oy, ow, oh, from_edge),
        spec_flood_complete(floor, fake, ox, oy, ow, oh, from_edge, 100),
        k <= 100,
        spec_within(floor, i, k, ox, oy, ow, oh, from_edge),
        k == 0 || !spec_within(floor, i, (k - 1) as nat, ox, oy, ow, oh, from_edge),
    ensures
        fake[i] == k + 1,
{
    reveal(spec_flood_ok);
    lemma_within_kind(floor, i, k, ox, oy, ow, oh, from_edge);
    assert(fake[i] <= k + 1);
    if !spec_seed(i, ox, oy, ow, oh, from_edge) {
        assert(spec_within(floor, i, (fake[i] - 1) as nat, ox, oy, ow, oh, from_edge));
        if fake[i] - 1 < k {
            lemma_within_mono(floor, i, (fake[i] - 1) as nat, (k - 1) as nat, ox, oy, ow, oh, from_edge);
        }
    } else {
        if k > 0 {
            assert(spec_within(floor, i, 0, ox, oy, ow, oh, from_edge));
            lemma_within_mono(floor, i, 0, (k - 1) as nat, ox, oy, ow, oh, from_edge);
        }
    }
}

/// Floods the empty cells of the floor from a rectangle (or from the edge): the marks are
/// exactly `spec_flood_fill`, a hundred sweeps that stop early once nothing changes; they are
/// sound (`spec_flood_ok`) and exact distances within 100 steps (`spec_flood_complete`).
pub fn flood_fill_get_flooded_floor(factory: &Factory, ox: usize, oy: usize, ow: usize, oh: usize, from_edge: bool) -> (fake: Vec<i32>)
    requires
        factory.wf(),
        !from_edge ==> ox + ow <= FLOOR_CELLS_W && oy + oh <= FLOOR_CELLS_H,
    ensures
        spec_flood(factory.floor@, fake@, ox as int, oy as int, ow as int, oh as int, from_edge),
        fake@.len() == FLOOR_CELLS_WH,
{
    let ghost floor = factory.floor@;
    let ghost seed = |i: int| spec_seed(i, ox as int, oy as int, ow as int, oh as int, from_edge);
    proof { reveal(spec_flood_ok); }
    let mut fake: Vec<i32> = Vec::new();
    let mut i: usize = 0;
    while i < FLOOR_CELLS_WH
        invariant
            factory.wf(),
            floor == factory.floor@,
            i <= FLOOR_CELLS_WH,
            fake@.len() == i,
            forall|j: int| 0 <= j < i ==> #[trigger] fake@[j] == spec_unflooded(floor[j]),
        decreases FLOOR_CELLS_WH - i,
    {
        let cell = &factory.floor[i];
        let v: i32 = if cell.kind != CellKind::Empty {
            FLOOD_FILL_FULL
        } else if cell.is_edge {
            FLOOD_FILL_EDGE
        } else {
            FLOOD_FILL_EMPTY_FRESH
        };
        fake.push(v);
        i = i + 1;
    }
    // Seed the flood.
    if from_edge {
        let mut x: usize = 1;
        while x < FLOOR_CELLS_W - 1
            invariant
                1 <= x <= FLOOR_CELLS_W - 1,
                fake@.len() == FLOOR_CELLS_WH,
                forall|j: int| 0 <= j < FLOOR_CELLS_WH ==> #[trigger] fake@[j] == (
                    if (spec_row(j) == 0 || spec_row(j) == FLOOR_CELLS_H - 1) && 1 <= spec_col(j) < x { 1 } else { spec_unflooded(floor[j]) }),
            decreases FLOOR_CELLS_W - 1 - x,
        {
            fake.set(x, 1);
            fake.set(x + FLOOR_CELLS_WH - FLOOR_CELLS_W, 1);
            x = x + 1;
        }
        let mut y: usize = 1;
        while y < FLOOR_CELLS_H - 1
            invariant
                1 <= y <= FLOOR_CELLS_H - 1,
                fake@.len() == FLOOR_CELLS_WH,
                forall|j: int| 0 <= j < FLOOR_CELLS_WH ==> #[trigger] fake@[j] == (
                    if (spec_row(j) == 0 || spec_row(j) == FLOOR_CELLS_H - 1) && 1 <= spec_col(j) < FLOOR_CELLS_W - 1 { 1 }
                    else if (spec_col(j) == 0 || spec_col(j) == FLOOR_CELLS_W - 1) && 1 <= spec_row(j) < y { 1 }
                    else { spec_unflooded(floor[j]) }),
            decreases FLOOR_CELLS_H - 1 - y,
        {
            fake.set(y * FLOOR_CELLS_W, 1);
            fake.set(y * FLOOR_CELLS_W + FLOOR_CELLS_W - 1, 1);
            y = y + 1;
        }
    } else {
        let mut x: usize = ox;
        while x < ox + ow
            invariant
                ox <= x <= ox + ow,
                ox + ow <= FLOOR_CELLS_W && oy + oh <= FLOOR_CELLS_H,
                fake@.len() == FLOOR_CELLS_WH,
                forall|j: int| 0 <= j < FLOOR_CELLS_WH ==> #[trigger] fake@[j] == (
                    if ox <= spec_col(j) < x && oy <= spec_row(j) < oy + oh { 1 } else { spec_unflooded(floor[j]) }),
            decreases ox + ow - x,
        {
            let mut y: usize = oy;
            while y < oy + oh
                invariant
                    ox <= x < ox + ow,
                    oy <= y <= oy + oh,
                    ox + ow <= FLOOR_CELLS_W && oy + oh <= FLOOR_CELLS_H,
                    fake@.len() == FLOOR_CELLS_WH,
                    forall|j: int| 0 <= j < FLOOR_CELLS_WH ==> #[trigger] fake@[j] == (
                        if (ox <= spec_col(j) < x && oy <= spec_row(j) < oy + oh) || (spec_col(j) == x && oy <= spec_row(j) < y) { 1 } else { spec_unflooded(floor[j]) }),
                decreases oy + oh - y,
            {
                proof {
                    vstd::arithmetic::div_mod::lemma_fundamental_div_mod_converse((x + y * 17) as int, 17, y as int, x as int);
                }
                fake.set(x + y * FLOOR_CELLS_W, 1);
                y = y + 1;
            }
            x = x + 1;
        }
    }
    proof {
        assert forall|j: int| 0 <= j < FLOOR_CELLS_WH implies #[trigger] fake@[j] == (if seed(j) { 1 } else { spec_unflooded(floor[j]) }) by {}
        assert(fake@ =~= spec_fill_start(floor, ox as int, oy as int, ow as int, oh as int, from_edge));
    }
    let ghost init = fake@;
    // Spread.
    let ghost (gx, gy, gw, gh) = (ox as int, oy as int, ow as int, oh as int);
    proof {
        assert forall|i: int, k: nat| k <= 0 && #[trigger] spec_within(floor, i, k, gx, gy, gw, gh, from_edge) implies fake@[i] <= k + 1 by {}
    }
    let mut lop: usize = 0;
    while lop < 100
        invariant
            factory.wf(),
            floor == factory.floor@,
            gx == ox && gy == oy && gw == ow && gh == oh,
            lop <= 100,
            spec_flood_ok(floor, fake@, gx, gy, gw, gh, from_edge),
            spec_flood_complete(floor, fake@, gx, gy, gw, gh, from_edge, lop as nat),
            init == spec_fill_start(floor, gx, gy, gw, gh, from_edge),
            fake@ == spec_sweeps(init, lop as nat),
            fake@.len() == FLOOR_CELLS_WH,
        ensures
            spec_flood_ok(floor, fake@, gx, gy, gw, gh, from_edge),
            spec_flood_complete(floor, fake@, gx, gy, gw, gh, from_edge, 100),
            fake@ == spec_sweeps(init, 100),
        decreases 100 - lop,
    {
        let ghost start = fake@;
        let mut changed = false;
        let mut i: usize = 0;
        while i < FLOOR_CELLS_WH
            invariant
                factory.wf(),
                floor == factory.floor@,
                gx == ox && gy == oy && gw == ow && gh == oh,
                lop < 100,
                i <= FLOOR_CELLS_WH,
                spec_flood_ok(floor, fake@, gx, gy, gw, gh, from_edge),
                spec_flood_complete(floor, fake@, gx, gy, gw, gh, from_edge, lop as nat),
                forall|j: int, k: nat| 0 <= j < i && k <= lop + 1 && #[trigger] spec_within(floor, j, k, gx, gy, gw, gh, from_edge)
                    ==> fake@[j] <= k + 1,
                !changed ==> fake@ == start,
                !changed ==> forall|j: int| 0 <= j < i ==> #[trigger] spec_settled_at(floor, fake@, j, gx, gy, gw, gh, from_edge),
                start.len() == FLOOR_CELLS_WH,
                fake@.len() == FLOOR_CELLS_WH,
                start == spec_sweeps(init, lop as nat),
                fake@ == spec_sweep(start, i as nat),
            decreases FLOOR_CELLS_WH - i,
        {
            proof { reveal(spec_flood_ok); }
            let ghost before = fake@;
            let n = fake[i];
            if n <= FLOOD_FILL_EMPTY_FRESH && n != 1 {
                proof {
                    assert(!spec_seed(i as int, gx, gy, gw, gh, from_edge));
                    assert(spec_unflooded(floor[i as int]) == FLOOD_FILL_EMPTY_FRESH);
                    lemma_fresh_is_middle(floor, i as int);
                }
                let mut m = n;
                let p = fake[i - FLOOR_CELLS_W];
                if p < FLOOD_FILL_EMPTY_FRESH && m > p {
                    m = p;
                }
                let p = fake[i - 1];
                if p < FLOOD_FILL_EMPTY_FRESH && m > p {
                    m = p;
                }
                let p = fake[i + FLOOR_CELLS_W];
                if p < FLOOD_FILL_EMPTY_FRESH && m > p {
                    m = p;
                }
                let p = fake[i + 1];
                if p < FLOOD_FILL_EMPTY_FRESH && m > p {
                    m = p;
                }
                proof {
                    lemma_spread_cell(floor, before, i as int, m, gx, gy, gw, gh, from_edge, lop as nat);
                }
                if m + 1 < n {
                    fake.set(i, m + 1);
                    changed = true;
                    proof {
                        lemma_spread_update(floor, before, fake@, i as int, m, gx, gy, gw, gh, from_edge, lop as nat);
                    }
                } else {
                    proof { assert(before.update(i as int, before[i as int]) =~= before); }
                }
                proof { assert(fake@ == before.update(i as int, spec_swept_mark(before, i as int))); }
            } else {
                proof {
                    assert(before.update(i as int, before[i as int]) =~= before);
                    assert(fake@ == before.update(i as int, spec_swept_mark(before, i as int)));
                }
                proof {
                    assert forall|k: nat| k <= lop + 1 && #[trigger] spec_within(floor, i as int, k, gx, gy, gw, gh, from_edge)
                        implies fake@[i as int] <= k + 1 by {
                        lemma_within_kind(floor, i as int, k, gx, gy, gw, gh, from_edge);
                    }
                    assert(spec_settled_at(floor, fake@, i as int, gx, gy, gw, gh, from_edge));
                }
            }
            proof {
                assert forall|j: int, k: nat| 0 <= j < i + 1 && k <= lop + 1 && #[trigger] spec_within(floor, j, k, gx, gy, gw, gh, from_edge)
                    implies fake@[j] <= k + 1 by {
                    if j < i {
                        assert(before[j] <= k + 1);
                    }
                }
            }
            i = i + 1;
        }
        proof {
            assert forall|j: int, k: nat| k <= lop + 1 && #[trigger] spec_within(floor, j, k, gx, gy, gw, gh, from_edge)
                implies fake@[j] <= k + 1 by {
                lemma_within_kind(floor, j, k, gx, gy, gw, gh, from_edge);
            }
        }
        if !changed {
            proof {
                assert forall|j: int, k: nat| k <= 100 && #[trigger] spec_within(floor, j, k, gx, gy, gw, gh, from_edge)
                    implies fake@[j] <= k + 1 by {
                    lemma_settled_complete(floor, fake@, gx, gy, gw, gh, from_edge, j, k);
                }
                lemma_sweeps_stable(init, lop as nat, 100);
            }
            break;
        }
        lop = lop + 1;
    }
    fake
}

/// The `k`th edge cell that is checked for a way in, as (edge cell, its inner neighbor,
/// x, y): top and bottom cells column by column, then right and left cells row by row.
pub open spec fn spec_edge_cand(k: int) -> (int, int, usize, usize) {
    if k < 30 {
        let x = k / 2 + 1;
        if k % 2 == 0 {
            (x, x + FLOOR_CELLS_W, x as usize, 0usize)
        } else {
            (FLOOR_CELLS_WH - FLOOR_CELLS_W + x, FLOOR_CELLS_WH - 2 * FLOOR_CELLS_W + x, x as usize, (FLOOR_CELLS_H - 1) as usize)
        }
    } else {
        let y = (k - 30) / 2 + 1;
        if k % 2 == 0 {
            (FLOOR_CELLS_W - 1 + y * FLOOR_CELLS_W, FLOOR_CELLS_W - 2 + y * FLOOR_CELLS_W, (FLOOR_CELLS_W - 1) as usize, y as usize)
        } else {
            (y * FLOOR_CELLS_W, y * FLOOR_CELLS_W + 1, 0usize, y as usize)
        }
    }
}

/// The best of the first `k` edge cells: an empty edge cell whose inner neighbor was reached
/// by the flood (mark above 1) with the smallest such mark, the first one on a tie; with the
/// mark, starting from 900 at (17, 17).
pub open spec fn spec_best_edge(fake: Seq<i32>, k: nat) -> (i32, usize, usize)
    decreases k,
{
    if k == 0 {
        (FLOOD_FILL_EMPTY_FRESH, FLOOR_CELLS_W, FLOOR_CELLS_H)
    } else {
        let prev = spec_best_edge(fake, (k - 1) as nat);
        let (e, inner, x, y) = spec_edge_cand(k - 1);
        let p = fake[inner];
        if fake[e] == FLOOD_FILL_EDGE && p > 1 && p < prev.0 { (p, x, y) } else { prev }
    }
}

/// The inner neighbor of the edge cell (x, y): the cell next to it towards the middle.
pub open spec fn spec_inward(x: int, y: int) -> int {
    if y == 0 {
        x + FLOOR_CELLS_W
    } else if y == FLOOR_CELLS_H - 1 {
        x + (FLOOR_CELLS_H - 2) * FLOOR_CELLS_W
    } else if x == FLOOR_CELLS_W - 1 {
        (FLOOR_CELLS_W - 2) + y * FLOOR_CELLS_W
    } else {
        1 + y * FLOOR_CELLS_W
    }
}

/// The edge cell (x, y) is a way in by the marks `fake`: an empty edge cell (marked 950), not
/// a corner, whose inner neighbor the flood reached (a mark from 2 to 899).
pub open spec fn spec_way_in(fake: Seq<i32>, x: int, y: int) -> bool {
    &&& 0 <= x < FLOOR_CELLS_W && 0 <= y < FLOOR_CELLS_H
    &&& spec_is_edge_not_corner(x, y)
    &&& fake[x + y * FLOOR_CELLS_W] == FLOOD_FILL_EDGE
    &&& 1 < fake[spec_inward(x, y)] < FLOOD_FILL_EMPTY_FRESH
}

/// Each edge cell that is checked is the non-corner edge cell (x, y) it reports, and the cell
/// checked beside it is its inner neighbor.
proof fn lemma_edge_cand_cell(k: int)
    requires
        0 <= k < 60,
    ensures
        ({
            let (e, inner, x, y) = spec_edge_cand(k);
            &&& x < FLOOR_CELLS_W && y < FLOOR_CELLS_H
            &&& e == x + y * FLOOR_CELLS_W
            &&& spec_is_edge_not_corner(x as int, y as int)
            &&& inner == spec_inward(x as int, y as int)
        }),
{
}

/// Every non-corner edge cell is checked.
proof fn lemma_edge_cand_onto(x: int, y: int) -> (k: int)
    requires
        0 <= x < FLOOR_CELLS_W && 0 <= y < FLOOR_CELLS_H,
        spec_is_edge_not_corner(x, y),
    ensures
        0 <= k < 60,
        spec_edge_cand(k).2 == x && spec_edge_cand(k).3 == y,
{
    if y == 0 {
        2 * (x - 1)
    } else if y == FLOOR_CELLS_H - 1 {
        2 * (x - 1) + 1
    } else if x == FLOOR_CELLS_W - 1 {
        30 + 2 * (y - 1)
    } else {
        30 + 2 * (y - 1) + 1
    }
}

proof fn lemma_best_edge_prefix(fake: Seq<i32>, k: nat)
    requires
        k <= 60,
        fake.len() == FLOOR_CELLS_WH,
    ensures
        ({
            let b = spec_best_edge(fake, k);
            &&& b.0 <= FLOOD_FILL_EMPTY_FRESH
            &&& b.0 < FLOOD_FILL_EMPTY_FRESH ==> spec_way_in(fake, b.1 as int, b.2 as int)
                && fake[spec_inward(b.1 as int, b.2 as int)] == b.0
            &&& forall|j: int| 0 <= j < k && #[trigger] spec_way_in(fake, spec_edge_cand(j).2 as int, spec_edge_cand(j).3 as int)
                ==> b.0 <= fake[spec_inward(spec_edge_cand(j).2 as int, spec_edge_cand(j).3 as int)]
        }),
    decreases k,
{
    if k > 0 {
        lemma_best_edge_prefix(fake, (k - 1) as nat);
        lemma_edge_cand_cell(k - 1);
        let b = spec_best_edge(fake, k);
        assert forall|j: int| 0 <= j < k && #[trigger] spec_way_in(fake, spec_edge_cand(j).2 as int, spec_edge_cand(j).3 as int)
            implies b.0 <= fake[spec_inward(spec_edge_cand(j).2 as int, spec_edge_cand(j).3 as int)] by {
            lemma_edge_cand_cell(j);
        }
    }
}

/// The way in that the search settles on, when there is one, is a non-corner edge cell marked
/// empty whose inner neighbor the flood reached, and no other way in has an inner neighbor
/// with a smaller mark; when it settles on none, there is no way in.
pub proof fn lemma_best_edge_is_nearest(fake: Seq<i32>)
    requires
        fake.len() == FLOOR_CELLS_WH,
    ensures
        ({
            let b = spec_best_edge(fake, 60);
            &&& b.0 == FLOOD_FILL_EMPTY_FRESH ==> forall|x: int, y: int| !#[trigger] spec_way_in(fake, x, y)
            &&& b.0 != FLOOD_FILL_EMPTY_FRESH ==> spec_way_in(fake, b.1 as int, b.2 as int)
                && fake[spec_inward(b.1 as int, b.2 as int)] == b.0
                && forall|x: int, y: int| #[trigger] spec_way_in(fake, x, y) ==> b.0 <= fake[spec_inward(x, y)]
        }),
{
    lemma_best_edge_prefix(fake, 60);
    let b = spec_best_edge(fake, 60);
    assert forall|x: int, y: int| #[trigger] spec_way_in(fake, x, y) implies b.0 <= fake[spec_inward(x, y)] by {
        let k = lemma_edge_cand_onto(x, y);
        lemma_edge_cand_cell(k);
        assert(spec_way_in(fake, spec_edge_cand(k).2 as int, spec_edge_cand(k).3 as int));
    }
}

fn edge_cand(k: usize) -> (r: (usize, usize, usize, usize))
    requires
        k < 60,
    ensures
        r.0 == spec_edge_cand(k as int).0,
        r.1 == spec_edge_cand(k as int).1,
        r.2 == spec_edge_cand(k as int).2,
        r.3 == spec_edge_cand(k as int).3,
        r.0 < FLOOR_CELLS_WH && r.1 < FLOOR_CELLS_WH,
{
    if k < 30 {
        let x = k / 2 + 1;
        if k % 2 == 0 {
            (x, x + FLOOR_CELLS_W, x, 0)
        } else {
            (FLOOR_CELLS_WH - FLOOR_CELLS_W + x, FLOOR_CELLS_WH - 2 * FLOOR_CELLS_W + x, x, FLOOR_CELLS_H - 1)
        }
    } else {
        let y = (k - 30) / 2 + 1;
        if k % 2 == 0 {
            (FLOOR_CELLS_W - 1 + y * FLOOR_CELLS_W, FLOOR_CELLS_W - 2 + y * FLOOR_CELLS_W, FLOOR_CELLS_W - 1, y)
        } else {
            (y * FLOOR_CELLS_W, y * FLOOR_CELLS_W + 1, 0, y)
        }
    }
}

/// The empty edge cell nearest (by flood marks) to the rectangle at (ox, oy) of `ow` by `oh`
/// cells through empty cells, with at least one cell between them; see `spec_best_edge`.
pub fn flood_fill_find_reachable_edge_from(factory: &Factory, ox: usize, oy: usize, ow: usize, oh: usize) -> (r: Option<(usize, usize)>)
    requires
        factory.wf(),
        ox + ow <= FLOOR_CELLS_W,
        oy + oh <= FLOOR_CELLS_H,
    ensures
        exists|fake: Seq<i32>| #![trigger spec_best_edge(fake, 60)] {
            &&& spec_flood(factory.floor@, fake, ox as int, oy as int, ow as int, oh as int, false)
            &&& r == (if spec_best_edge(fake, 60).0 == FLOOD_FILL_EMPTY_FRESH { None } else {
                Some((spec_best_edge(fake, 60).1, spec_best_edge(fake, 60).2)) })
        },
        ({
            let fake = spec_flood_fill(factory.floor@, ox as int, oy as int, ow as int, oh as int, false);
            &&& r is None ==> forall|x: int, y: int| !#[trigger] spec_way_in(fake, x, y)
            &&& r matches Some((x, y)) ==> {
                &&& spec_way_in(fake, x as int, y as int)
                &&& factory.floor@[x + y * FLOOR_CELLS_W].kind == CellKind::Empty
                &&& forall|x2: int, y2: int| #[trigger] spec_way_in(fake, x2, y2)
                    ==> fake[spec_inward(x as int, y as int)] <= fake[spec_inward(x2, y2)]
            }
        }),
{
    let fake = flood_fill_get_flooded_floor(factory, ox, oy, ow, oh, false);
    proof {
        lemma_best_edge_is_nearest(fake@);
        let b = spec_best_edge(fake@, 60);
        if b.0 != FLOOD_FILL_EMPTY_FRESH {
            reveal(spec_flood_ok);
            let e = b.1 + b.2 * FLOOR_CELLS_W;
            assert(fake@[e] == FLOOD_FILL_EDGE);
            assert(factory.floor@[e].kind == CellKind::Empty);
        }
    }
    let mut min_value: i32 = FLOOD_FILL_EMPTY_FRESH;
    let mut min_x: usize = FLOOR_CELLS_W;
    let mut min_y: usize = FLOOR_CELLS_H;
    let mut k: usize = 0;
    while k < 60
        invariant
            k <= 60,
            fake@.len() == FLOOR_CELLS_WH,
            (min_value, min_x, min_y) == spec_best_edge(fake@, k as nat),
        decreases 60 - k,
    {
        let (e, inner, x, y) = edge_cand(k);
        let p = fake[inner];
        if fake[e] == FLOOD_FILL_EDGE && p > 1 && p < min_value {
            min_value = p;
            min_x = x;
            min_y = y;
        }
        k = k + 1;
    }
    if min_value == FLOOD_FILL_EMPTY_FRESH {
        return None;
    }
    Some((min_x, min_y))
}

/// The machine rectangle of the automatic builder lies inside the floor's edge.
pub open spec fn spec_machine_inside(f: &Factory) -> bool {
    &&& 1 <= f.auto_build_machine_x
    &&& 1 <= f.auto_build_machine_y
    &&& 1 <= f.auto_build_machine_w
    &&& 1 <= f.auto_build_machine_h
    &&& f.auto_build_machine_x + f.auto_build_machine_w <= FLOOR_CELLS_W - 1
    &&& f.auto_build_machine_y + f.auto_build_machine_h <= FLOOR_CELLS_H - 1
}

/// `flood_fill_find_reachable_edge_from` for the machine of the automatic builder.
pub fn flood_fill_find_reachable_edge_from_machine(factory: &Factory) -> (r: Option<(usize, usize)>)
    requires
        factory.wf(),
        spec_machine_inside(factory),
    ensures
        exists|fake: Seq<i32>| #![trigger spec_best_edge(fake, 60)] {
            &&& spec_flood(factory.floor@, fake, factory.auto_build_machine_x as int, factory.auto_build_machine_y as int,
                factory.auto_build_machine_w as int, factory.auto_build_machine_h as int, false)
            &&& r == (if spec_best_edge(fake, 60).0 == FLOOD_FILL_EMPTY_FRESH { None } else {
                Some((spec_best_edge(fake, 60).1, spec_best_edge(fake, 60).2)) })
        },
        ({
            let fake = spec_flood_fill(factory.floor@, factory.auto_build_machine_x as int, factory.auto_build_machine_y as int,
                factory.auto_build_machine_w as int, factory.auto_build_machine_h as int, false);
            &&& r is None ==> forall|x: int, y: int| !#[trigger] spec_way_in(fake, x, y)
            &&& r matches Some((x, y)) ==> {
                &&& spec_way_in(fake, x as int, y as int)
                &&& factory.floor@[x + y * FLOOR_CELLS_W].kind == CellKind::Empty
                &&& forall|x2: int, y2: int| #[trigger] spec_way_in(fake, x2, y2)
                    ==> fake[spec_inward(x as int, y as int)] <= fake[spec_inward(x2, y2)]
            }
        }),
{
    flood_fill_find_reachable_edge_from(factory, factory.auto_build_machine_x, factory.auto_build_machine_y,
        factory.auto_build_machine_w, factory.auto_build_machine_h)
}

/// Whether the neighbor `j` can be the next step: a cell the flood starts from, or an empty
/// cell with a mark below `best`.
pub open spec fn spec_step_ok(floor: Seq<Cell>, fake: Seq<i32>, j: int, best: i32) -> bool {
    fake[j] == 1 || (floor[j].kind == CellKind::Empty && fake[j] < best)
}

/// The next cell from (ox, oy) towards the flood's start: of the neighbors up, right, down and
/// left (checked in that order, a later one winning when it qualifies), the one with the
/// smallest mark; see `spec_step_ok`.
pub open spec fn spec_connect_step(floor: Seq<Cell>, fake: Seq<i32>, ox: int, oy: int) -> Option<(usize, usize)> {
    let c = ox + oy * FLOOR_CELLS_W;
    let s0 = (FLOOD_FILL_EMPTY_FRESH, FLOOR_CELLS_W as int, FLOOR_CELLS_W as int);
    let s1 = if c >= FLOOR_CELLS_W && spec_step_ok(floor, fake, c - FLOOR_CELLS_W, s0.0) { (fake[c - FLOOR_CELLS_W], ox, oy - 1) } else { s0 };
    let s2 = if c < FLOOR_CELLS_WH - 1 && spec_step_ok(floor, fake, c + 1, s1.0) { (fake[c + 1], ox + 1, oy) } else { s1 };
    let s3 = if c < FLOOR_CELLS_WH - FLOOR_CELLS_W - 1 && spec_step_ok(floor, fake, c + FLOOR_CELLS_W, s2.0) { (fake[c + FLOOR_CELLS_W], ox, oy + 1) } else { s2 };
    let s4 = if c > 0 && spec_step_ok(floor, fake, c - 1, s3.0) { (fake[c - 1], ox - 1, oy) } else { s3 };
    if s4.0 == FLOOD_FILL_EMPTY_FRESH { None } else { Some((s4.1 as usize, s4.2 as usize)) }
}

proof fn lemma_step_ok_inside(f: &Factory, fake: Seq<i32>, j: int, best: i32)
    requires
        f.wf(),
        spec_machine_inside(f),
        0 <= j < FLOOR_CELLS_WH,
        best <= FLOOD_FILL_EMPTY_FRESH,
        spec_flood_ok(f.floor@, fake, f.auto_build_machine_x as int, f.auto_build_machine_y as int, f.auto_build_machine_w as int, f.auto_build_machine_h as int, false),
        spec_step_ok(f.floor@, fake, j, best),
    ensures
        spec_is_middle(spec_col(j), spec_row(j)),
{
    reveal(spec_flood_ok);
    if !spec_seed(j, f.auto_build_machine_x as int, f.auto_build_machine_y as int, f.auto_build_machine_w as int, f.auto_build_machine_h as int, false) {
        if spec_unflooded(f.floor@[j]) == FLOOD_FILL_EMPTY_FRESH {
            lemma_fresh_is_middle(f.floor@, j);
        }
    }
}


proof fn lemma_neighbor_cells(ox: int, oy: int)
    requires
        0 <= ox < 17,
        0 <= oy < 17,
    ensures
        ({
            let c = ox + oy * 17;
            &&& spec_col(c) == ox && spec_row(c) == oy
            &&& oy >= 1 ==> spec_col(c - 17) == ox && spec_row(c - 17) == oy - 1
            &&& oy <= 15 ==> spec_col(c + 17) == ox && spec_row(c + 17) == oy + 1
            &&& ox <= 15 ==> spec_col(c + 1) == ox + 1 && spec_row(c + 1) == oy
            &&& ox == 16 ==> spec_col(c + 1) == 0 && spec_row(c + 1) == oy + 1
            &&& ox >= 1 ==> spec_col(c - 1) == ox - 1 && spec_row(c - 1) == oy
            &&& ox == 0 && oy >= 1 ==> spec_col(c - 1) == 16 && spec_row(c - 1) == oy - 1
        }),
{
    let c = ox + oy * 17;
    vstd::arithmetic::div_mod::lemma_fundamental_div_mod_converse(c, 17, oy, ox);
    if oy >= 1 { vstd::arithmetic::div_mod::lemma_fundamental_div_mod_converse(c - 17, 17, oy - 1, ox); }
    if oy <= 15 { vstd::arithmetic::div_mod::lemma_fundamental_div_mod_converse(c + 17, 17, oy + 1, ox); }
    if ox <= 15 { vstd::arithmetic::div_mod::lemma_fundamental_div_mod_converse(c + 1, 17, oy, ox + 1); }
    if ox == 16 { vstd::arithmetic::div_mod::lemma_fundamental_div_mod_converse(c + 1, 17, oy + 1, 0); }
    if ox >= 1 { vstd::arithmetic::div_mod::lemma_fundamental_div_mod_converse(c - 1, 17, oy, ox - 1); }
    if ox == 0 && oy >= 1 { vstd::arithmetic::div_mod::lemma_fundamental_div_mod_converse(c - 1, 17, oy - 1, 16); }
}

/// The next step from (ox, oy) by the given flood marks; see `spec_connect_step`.
#[verifier::spinoff_prover]
#[verifier::rlimit(100)]
fn connect_step(factory: &Factory, fake: &Vec<i32>, ox: usize, oy: usize) -> (r: Option<(usize, usize)>)
    requires
        factory.wf(),
        spec_machine_inside(factory),
        ox < FLOOR_CELLS_W,
        oy < FLOOR_CELLS_H,
        fake@.len() == FLOOR_CELLS_WH,
        forall|j: int| 0 <= j < FLOOR_CELLS_WH && #[trigger] spec_step_ok(factory.floor@, fake@, j, FLOOD_FILL_EMPTY_FRESH)
            ==> spec_is_middle(spec_col(j), spec_row(j)),
    ensures
        r == spec_connect_step(factory.floor@, fake@, ox as int, oy as int),
        r matches Some((x, y)) ==> x < FLOOR_CELLS_W && y < FLOOR_CELLS_H && spec_is_middle(x as int, y as int)
            && spec_abs_diff(x as int, ox as int) + spec_abs_diff(y as int, oy as int) == 1,
{
    let ghost floor = factory.floor@;
    let ghost f = fake@;
    let coord = ox + oy * FLOOR_CELLS_W;
    let ghost c = coord as int;
    let ghost s0 = (FLOOD_FILL_EMPTY_FRESH, FLOOR_CELLS_W as int, FLOOR_CELLS_W as int);
    let ghost s1 = if c >= FLOOR_CELLS_W && spec_step_ok(floor, f, c - FLOOR_CELLS_W, s0.0) { (f[c - FLOOR_CELLS_W], ox as int, oy - 1) } else { s0 };
    let ghost s2 = if c < FLOOR_CELLS_WH - 1 && spec_step_ok(floor, f, c + 1, s1.0) { (f[c + 1], ox + 1, oy as int) } else { s1 };
    let ghost s3 = if c < FLOOR_CELLS_WH - FLOOR_CELLS_W - 1 && spec_step_ok(floor, f, c + FLOOR_CELLS_W, s2.0) { (f[c + FLOOR_CELLS_W], ox as int, oy + 1) } else { s2 };
    let ghost s4 = if c > 0 && spec_step_ok(floor, f, c - 1, s3.0) { (f[c - 1], ox - 1, oy as int) } else { s3 };
    let mut min_value: i32 = FLOOD_FILL_EMPTY_FRESH;
    let mut min_x: usize = FLOOR_CELLS_W;
    let mut min_y: usize = FLOOR_CELLS_W;
    proof {
        lemma_neighbor_cells(ox as int, oy as int);
    }
    if coord >= FLOOR_CELLS_W {
        let j = coord - FLOOR_CELLS_W;
        if fake[j] == 1 || (factory.floor[j].kind == CellKind::Empty && fake[j] < min_value) {
            proof {
                assert(spec_step_ok(floor, f, j as int, FLOOD_FILL_EMPTY_FRESH));
            }
            min_value = fake[j];
            min_x = ox;
            min_y = oy - 1;
        }
    }
    assert((min_value, min_x as int, min_y as int) == s1);
    assert(min_value == FLOOD_FILL_EMPTY_FRESH || (min_value < FLOOD_FILL_EMPTY_FRESH && spec_is_middle(min_x as int, min_y as int) && spec_abs_diff(min_x as int, ox as int) + spec_abs_diff(min_y as int, oy as int) == 1));
    if coord < FLOOR_CELLS_WH - 1 {
        let j = coord + 1;
        if fake[j] == 1 || (factory.floor[j].kind == CellKind::Empty && fake[j] < min_value) {
            proof {
                assert(spec_step_ok(floor, f, j as int, FLOOD_FILL_EMPTY_FRESH));
            }
            min_value = fake[j];
            min_x = ox + 1;
            min_y = oy;
        }
    }
    assert((min_value, min_x as int, min_y as int) == s2);
    assert(min_value == FLOOD_FILL_EMPTY_FRESH || (min_value < FLOOD_FILL_EMPTY_FRESH && spec_is_middle(min_x as int, min_y as int) && spec_abs_diff(min_x as int, ox as int) + spec_abs_diff(min_y as int, oy as int) == 1));
    if coord < FLOOR_CELLS_WH - FLOOR_CELLS_W - 1 {
        let j = coord + FLOOR_CELLS_W;
        if fake[j] == 1 || (factory.floor[j].kind == CellKind::Empty && fake[j] < min_value) {
            proof {
                assert(spec_step_ok(floor, f, j as int, FLOOD_FILL_EMPTY_FRESH));
            }
            min_value = fake[j];
            min_x = ox;
            min_y = oy + 1;
        }
    }
    assert((min_value, min_x as int, min_y as int) == s3);
    assert(min_value == FLOOD_FILL_EMPTY_FRESH || (min_value < FLOOD_FILL_EMPTY_FRESH && spec_is_middle(min_x as int, min_y as int) && spec_abs_diff(min_x as int, ox as int) + spec_abs_diff(min_y as int, oy as int) == 1));
    if coord > 0 {
        let j = coord - 1;
        if fake[j] == 1 || (factory.floor[j].kind == CellKind::Empty && fake[j] < min_value) {
            proof {
                assert(spec_step_ok(floor, f, j as int, FLOOD_FILL_EMPTY_FRESH));
            }
            min_value = fake[j];
            min_x = ox - 1;
            min_y = oy;
        }
    }
    assert((min_value, min_x as int, min_y as int) == s4);
    assert(min_value == FLOOD_FILL_EMPTY_FRESH || (min_value < FLOOD_FILL_EMPTY_FRESH && spec_is_middle(min_x as int, min_y as int) && spec_abs_diff(min_x as int, ox as int) + spec_abs_diff(min_y as int, oy as int) == 1));
    if min_value == FLOOD_FILL_EMPTY_FRESH {
        return None;
    }
    Some((min_x, min_y))
}

/// The next cell of a track from (ox, oy) to the machine of the automatic builder, following
/// the flood from the machine; see `spec_connect_step`.
pub fn flood_fill_next_step_to_connect_machine(factory: &Factory, ox: usize, oy: usize) -> (r: Option<(usize, usize)>)
    requires
        factory.wf(),
        spec_machine_inside(factory),
        ox < FLOOR_CELLS_W,
        oy < FLOOR_CELLS_H,
    ensures
        exists|fake: Seq<i32>| #![trigger spec_connect_step(factory.floor@, fake, ox as int, oy as int)] {
            &&& spec_flood(factory.floor@, fake, factory.auto_build_machine_x as int, factory.auto_build_machine_y as int,
                factory.auto_build_machine_w as int, factory.auto_build_machine_h as int, false)
            &&& r == spec_connect_step(factory.floor@, fake, ox as int, oy as int)
        },
        r matches Some((x, y)) ==> x < FLOOR_CELLS_W && y < FLOOR_CELLS_H && spec_is_middle(x as int, y as int)
            && spec_abs_diff(x as int, ox as int) + spec_abs_diff(y as int, oy as int) == 1,
{
    let fake = flood_fill_get_flooded_floor(factory, factory.auto_build_machine_x, factory.auto_build_machine_y,
        factory.auto_build_machine_w, factory.auto_build_machine_h, false);
    proof {
        assert forall|j: int| 0 <= j < FLOOR_CELLS_WH && #[trigger] spec_step_ok(factory.floor@, fake@, j, FLOOD_FILL_EMPTY_FRESH)
            implies spec_is_middle(spec_col(j), spec_row(j)) by {
            lemma_step_ok_inside(factory, fake@, j, FLOOD_FILL_EMPTY_FRESH);
        }
    }
    connect_step(factory, &fake, ox, oy)
}

/// The character that shows a flood mark: blank for an unreached cell, `#` for a taken one,
/// `%` for an empty edge cell, else the mark in base 62 (0-9, a-z, A-Z), `?` from 62 on.
pub open spec fn spec_b62(n: i32) -> char {
    if n == FLOOD_FILL_EMPTY_FRESH {
        ' '
    } else if n == FLOOD_FILL_FULL {
        '#'
    } else if n == FLOOD_FILL_EDGE {
        '%'
    } else if n < 10 {
        (n + 48) as char
    } else if n < 36 {
        (n - 10 + 97) as char
    } else if n < 62 {
        (n - 36 + 65) as char
    } else {
        '?'
    }
}

/// See `spec_b62`.
pub fn b62(n: i32) -> (c: char)
    requires
        n >= 0,
    ensures
        c == spec_b62(n),
{
    if n == FLOOD_FILL_EMPTY_FRESH {
        ' '
    } else if n == FLOOD_FILL_FULL {
        '#'
    } else if n == FLOOD_FILL_EDGE {
        '%'
    } else if n < 10 {
        ((n as u8) + 48) as char
    } else if n < 36 {
        ((n as u8) - 10 + 97) as char
    } else if n < 62 {
        ((n as u8) - 36 + 65) as char
    } else {
        '?'
    }
}

/// The flood marks drawn as text: a line break, then each row of the floor as 17 characters
/// (see `spec_b62`) and a line break.
pub open spec fn spec_fake_text(fake: Seq<i32>) -> Seq<char> {
    Seq::new((1 + FLOOR_CELLS_H * (FLOOR_CELLS_W + 1)) as nat, |i: int|
        if i == 0 || (i - 1) % 18 == 17 { '\n' } else { spec_b62(fake[((i - 1) / 18) * 17 + (i - 1) % 18]) })
}

/// See `spec_fake_text`.
pub fn fake_text(fake: &Vec<i32>) -> (t: Vec<char>)
    requires
        fake@.len() == FLOOR_CELLS_WH,
        forall|i: int| 0 <= i < fake@.len() ==> #[trigger] fake@[i] >= 0,
    ensures
        t@ == spec_fake_text(fake@),
{
    let ghost target = spec_fake_text(fake@);
    let mut t: Vec<char> = Vec::new();
    t.push('\n');
    let mut y: usize = 0;
    while y < FLOOR_CELLS_H
        invariant
            fake@.len() == FLOOR_CELLS_WH,
            forall|i: int| 0 <= i < fake@.len() ==> #[trigger] fake@[i] >= 0,
            target == spec_fake_text(fake@),
            y <= FLOOR_CELLS_H,
            t@.len() == 1 + y * 18,
            forall|k: int| 0 <= k < t@.len() ==> t@[k] == #[trigger] target[k],
        decreases FLOOR_CELLS_H - y,
    {
        let mut x: usize = 0;
        while x < FLOOR_CELLS_W
            invariant
                fake@.len() == FLOOR_CELLS_WH,
                forall|i: int| 0 <= i < fake@.len() ==> #[trigger] fake@[i] >= 0,
                target == spec_fake_text(fake@),
                y < FLOOR_CELLS_H,
                x <= FLOOR_CELLS_W,
                t@.len() == 1 + y * 18 + x,
                forall|k: int| 0 <= k < t@.len() ==> t@[k] == #[trigger] target[k],
            decreases FLOOR_CELLS_W - x,
        {
            let ghost k = t@.len() as int;
            proof {
                vstd::arithmetic::div_mod::lemma_fundamental_div_mod_converse(k - 1, 18, y as int, x as int);
            }
            t.push(b62(fake[y * FLOOR_CELLS_W + x]));
            assert(t@[k] == target[k]);
            x = x + 1;
        }
        let ghost k = t@.len() as int;
        proof {
            vstd::arithmetic::div_mod::lemma_fundamental_div_mod_converse(k - 1, 18, y as int, 17);
        }
        t.push('\n');
        assert(t@[k] == target[k]);
        y = y + 1;
    }
    assert(t@ =~= target);
    t
}

} // verus!
