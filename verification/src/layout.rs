use vstd::prelude::*;
use crate::cell::{Cell, CellKind, floor_wf, spec_coord_is_middle, lemma_floor_cell, lemma_floor_update};
use crate::floor::{FLOOR_CELLS_W, FLOOR_CELLS_WH};
use crate::machine::MachineKind;
use crate::part::{Config, Part, PartKind, part_none, part_from_part_kind, spec_part_none};

verus! {

/// Column of the cell at index `c`.
pub open spec fn spec_col(c: int) -> int {
    c % (FLOOR_CELLS_W as int)
}

/// Row of the cell at index `c`.
pub open spec fn spec_row(c: int) -> int {
    c / (FLOOR_CELLS_W as int)
}

/// The cell `c` lies in the rectangle whose top left cell is `first` and whose bottom right
/// cell is `last`.
pub open spec fn spec_in_rect(first: int, last: int, c: int) -> bool {
    &&& 0 <= c < FLOOR_CELLS_WH
    &&& spec_col(first) <= spec_col(c) <= spec_col(last)
    &&& spec_row(first) <= spec_row(c) <= spec_row(last)
}

/// Width of that rectangle, in cells.
pub open spec fn spec_rect_w(first: int, last: int) -> int {
    spec_col(last) - spec_col(first) + 1
}

/// Height of that rectangle, in cells.
pub open spec fn spec_rect_h(first: int, last: int) -> int {
    spec_row(last) - spec_row(first) + 1
}

/// The cells of that rectangle, column by column, each column from top to bottom.
pub open spec fn spec_rect_coords(first: int, last: int) -> Seq<usize> {
    let h = spec_rect_h(first, last);
    Seq::new((spec_rect_w(first, last) * h) as nat, |i: int|
        ((spec_row(first) + i % h) * (FLOOR_CELLS_W as int) + spec_col(first) + i / h) as usize)
}

/// What a machine with `n` cells wants: the parts of `pattern` in order, then empty slots;
/// a pattern longer than the machine is cut.
pub open spec fn spec_wants(config: &Config, pattern: Seq<PartKind>, n: nat) -> Seq<Part> {
    Seq::new(n, |i: int| if i < pattern.len() {
        Part { kind: pattern[i], icon: config.nodes[pattern[i] as int].icon }
    } else {
        spec_part_none()
    })
}

/// Cell `c` after the machine `id` spanning `first` to `last` was laid over it: cells of the
/// rectangle become cells of the machine, its top left cell the main cell, which holds what
/// the machine wants, an empty slot per cell and the speed. Ports and all else stay.
pub open spec fn spec_placed(config: &Config, c0: Cell, c1: Cell, c: int, id: char, first: int, last: int, pattern: Seq<PartKind>, speed: u64) -> bool {
    if spec_in_rect(first, last, c) {
        let n = (spec_rect_w(first, last) * spec_rect_h(first, last)) as nat;
        &&& c1 == Cell { kind: CellKind::Machine, machine: c1.machine, ..c0 }
        &&& c1.machine.kind == (if c == first { MachineKind::Main } else { MachineKind::SubBuilding })
        &&& c1.machine.main_coord == first
        &&& c1.machine.id == id
        &&& c1.machine.cell_width == spec_rect_w(first, last)
        &&& c1.machine.cell_height == spec_rect_h(first, last)
        &&& c1.machine.coords@ == spec_rect_coords(first, last)
        &&& c1.machine.output_want == c0.machine.output_want
        &&& c1.machine.start_at == c0.machine.start_at
        &&& if c == first {
            &&& c1.machine.wants@ == spec_wants(config, pattern, n)
            &&& c1.machine.haves@ == Seq::new(n, |i: int| spec_part_none())
            &&& c1.machine.speed == speed
        } else {
            &&& c1.machine.wants == c0.machine.wants
            &&& c1.machine.haves == c0.machine.haves
            &&& c1.machine.speed == c0.machine.speed
        }
    } else {
        c1 == c0
    }
}

proof fn lemma_rect_index(first: int, last: int, x: int, y: int)
    requires
        0 <= first <= last < FLOOR_CELLS_WH,
        spec_col(first) <= x <= spec_col(last),
        spec_row(first) <= y <= spec_row(last),
    ensures
        ({
            let h = spec_rect_h(first, last);
            let i = (x - spec_col(first)) * h + (y - spec_row(first));
            &&& 0 <= i < spec_rect_w(first, last) * h
            &&& i % h == y - spec_row(first)
            &&& i / h == x - spec_col(first)
        }),
{
    let h = spec_rect_h(first, last);
    let w = spec_rect_w(first, last);
    let q = x - spec_col(first);
    let r = y - spec_row(first);
    let i = q * h + r;
    vstd::arithmetic::div_mod::lemma_fundamental_div_mod_converse(i, h, q, r);
    assert(0 <= i < w * h) by (nonlinear_arith)
        requires i == q * h + r, 0 <= q < w, 0 <= r < h;
}

/// The cells of the rectangle from `first` to `last`; see `spec_rect_coords`.
fn rect_coords(first: usize, last: usize) -> (v: Vec<usize>)
    requires
        first <= last < FLOOR_CELLS_WH,
        first % FLOOR_CELLS_W <= last % FLOOR_CELLS_W,
    ensures
        v@ == spec_rect_coords(first as int, last as int),
{
    let x1 = first % FLOOR_CELLS_W;
    let y1 = first / FLOOR_CELLS_W;
    let x2 = last % FLOOR_CELLS_W;
    let y2 = last / FLOOR_CELLS_W;
    let ghost h = spec_rect_h(first as int, last as int);
    let ghost target = spec_rect_coords(first as int, last as int);
    let mut v: Vec<usize> = Vec::new();
    let mut x = x1;
    while x <= x2
        invariant
            x1 == spec_col(first as int), y1 == spec_row(first as int),
            x2 == spec_col(last as int), y2 == spec_row(last as int),
            first <= last < FLOOR_CELLS_WH,
            x1 <= x <= x2 + 1,
            x2 < 17, y2 < 17,
            h == y2 - y1 + 1,
            target == spec_rect_coords(first as int, last as int),
            v@.len() == (x - x1) * h,
            forall|k: int| 0 <= k < v@.len() ==> v@[k] == #[trigger] target[k],
        decreases x2 + 1 - x,
    {
        let mut y = y1;
        while y <= y2
            invariant
                x1 == spec_col(first as int), y1 == spec_row(first as int),
                x2 == spec_col(last as int), y2 == spec_row(last as int),
                first <= last < FLOOR_CELLS_WH,
                x1 <= x <= x2,
                y1 <= y <= y2 + 1,
                x2 < 17, y2 < 17,
                h == y2 - y1 + 1,
                target == spec_rect_coords(first as int, last as int),
                v@.len() == (x - x1) * h + (y - y1),
                forall|k: int| 0 <= k < v@.len() ==> v@[k] == #[trigger] target[k],
            decreases y2 + 1 - y,
        {
            proof {
                lemma_rect_index(first as int, last as int, x as int, y as int);
            }
            let ghost i = v@.len() as int;
            v.push(y * FLOOR_CELLS_W + x);
            proof {
                assert(v@[i] == target[i]);
            }
            y = y + 1;
        }
        proof {
            assert((x - x1) * h + h == (x + 1 - x1) * h) by (nonlinear_arith);
        }
        x = x + 1;
    }
    proof {
        assert((x2 + 1 - x1) * h == spec_rect_w(first as int, last as int) * h);
        assert(v@ =~= target);
    }
    v
}

proof fn lemma_rect_coords_middle(first: int, last: int)
    requires
        0 <= first <= last < FLOOR_CELLS_WH,
        spec_coord_is_middle(first),
        spec_coord_is_middle(last),
        spec_col(first) <= spec_col(last),
    ensures
        forall|j: int| 0 <= j < spec_rect_coords(first, last).len()
            ==> #[trigger] spec_coord_is_middle(spec_rect_coords(first, last)[j] as int),
{
    let h = spec_rect_h(first, last);
    let w = spec_rect_w(first, last);
    assert forall|j: int| 0 <= j < spec_rect_coords(first, last).len()
        implies #[trigger] spec_coord_is_middle(spec_rect_coords(first, last)[j] as int) by {
        let q = j / h;
        let r = j % h;
        assert(0 <= r < h && j == q * h + r && 0 <= q) by (nonlinear_arith)
            requires h > 0, 0 <= j, q == j / h, r == j % h;
        assert(q < w) by (nonlinear_arith)
            requires j < w * h, j == q * h + r, 0 <= r, h > 0;
        let v = (spec_row(first) + r) * 17 + spec_col(first) + q;
        vstd::arithmetic::div_mod::lemma_fundamental_div_mod_converse(v, 17, spec_row(first) + r, spec_col(first) + q);
    }
}

/// Whether cell `c` was visited by the walk that goes column by column up to column `x`,
/// and in column `x` down to row `y` (not included).
pub open spec fn spec_visited(first: int, c: int, x: int, y: int) -> bool {
    spec_col(c) < x || (spec_col(c) == x && spec_row(c) < y)
}

/// Cell `c` after it was marked as a cell of the machine, before the main cell got the
/// machine's wants.
pub open spec fn spec_marked(c0: Cell, c1: Cell, c: int, id: char, first: int, last: int) -> bool {
    &&& c1 == Cell { kind: CellKind::Machine, machine: c1.machine, ..c0 }
    &&& c1.machine.kind == (if c == first { MachineKind::Main } else { MachineKind::SubBuilding })
    &&& c1.machine.main_coord == first
    &&& c1.machine.id == id
    &&& c1.machine.cell_width == spec_rect_w(first, last)
    &&& c1.machine.cell_height == spec_rect_h(first, last)
    &&& c1.machine.coords@ == spec_rect_coords(first, last)
    &&& c1.machine.output_want == c0.machine.output_want
    &&& c1.machine.start_at == c0.machine.start_at
    &&& c1.machine.wants == c0.machine.wants
    &&& c1.machine.haves == c0.machine.haves
    &&& c1.machine.speed == c0.machine.speed
}

/// A copy of a list of indices.
pub fn copy_usizes(v: &Vec<usize>) -> (r: Vec<usize>)
    ensures
        r@ == v@,
{
    let mut r: Vec<usize> = Vec::new();
    let mut i: usize = 0;
    while i < v.len()
        invariant
            i <= v@.len(),
            r@ == v@.subrange(0, i as int),
        decreases v.len() - i,
    {
        r.push(v[i]);
        i = i + 1;
        assert(r@ =~= v@.subrange(0, i as int));
    }
    assert(v@.subrange(0, v@.len() as int) =~= v@);
    r
}

fn wants_of(config: &Config, pattern: &Vec<PartKind>, n: usize) -> (r: (Vec<Part>, Vec<Part>))
    requires
        config.wf(),
        forall|i: int| 0 <= i < pattern@.len() ==> #[trigger] pattern@[i] < config.nodes.len(),
    ensures
        r.0@ == spec_wants(config, pattern@, n as nat),
        r.1@ == Seq::new(n as nat, |i: int| spec_part_none()),
{
    let mut wants: Vec<Part> = Vec::new();
    let mut haves: Vec<Part> = Vec::new();
    let mut i: usize = 0;
    while i < n
        invariant
            config.wf(),
            forall|i: int| 0 <= i < pattern@.len() ==> #[trigger] pattern@[i] < config.nodes.len(),
            i <= n,
            wants@ == spec_wants(config, pattern@, i as nat),
            haves@ == Seq::new(i as nat, |k: int| spec_part_none()),
        decreases n - i,
    {
        if i < pattern.len() {
            wants.push(part_from_part_kind(config, pattern[i]));
        } else {
            wants.push(part_none());
        }
        haves.push(part_none());
        i = i + 1;
        assert(wants@ =~= spec_wants(config, pattern@, i as nat));
        assert(haves@ =~= Seq::new(i as nat, |k: int| spec_part_none()));
    }
    (wants, haves)
}

/// Lays the machine `id` over the rectangle from `first` to `last`; see `spec_placed`.
pub fn place_machine(config: &Config, floor: &mut Vec<Cell>, id: char, first: usize, last: usize, pattern: &Vec<PartKind>, speed: u64)
    requires
        config.wf(),
        floor_wf(old(floor)@),
        first <= last < FLOOR_CELLS_WH,
        spec_coord_is_middle(first as int),
        spec_coord_is_middle(last as int),
        spec_col(first as int) <= spec_col(last as int),
        forall|i: int| 0 <= i < pattern@.len() ==> #[trigger] pattern@[i] < config.nodes.len(),
    ensures
        floor_wf(final(floor)@),
        forall|c: int| 0 <= c < FLOOR_CELLS_WH ==> spec_placed(config, old(floor)@[c], #[trigger] final(floor)@[c], c, id, first as int, last as int, pattern@, speed),
{
    proof {
        reveal(floor_wf);
        lemma_rect_coords_middle(first as int, last as int);
    }
    let coords = rect_coords(first, last);
    let x1 = first % FLOOR_CELLS_W;
    let y1 = first / FLOOR_CELLS_W;
    let x2 = last % FLOOR_CELLS_W;
    let y2 = last / FLOOR_CELLS_W;
    let w = x2 - x1 + 1;
    let h = y2 - y1 + 1;
    let mut x = x1;
    while x <= x2
        invariant
            x1 == spec_col(first as int), y1 == spec_row(first as int),
            x2 == spec_col(last as int), y2 == spec_row(last as int),
            w == x2 - x1 + 1, h == y2 - y1 + 1,
            first <= last < FLOOR_CELLS_WH,
            x1 <= x <= x2 + 1,
            x2 < 17, y2 < 17,
            coords@ == spec_rect_coords(first as int, last as int),
            floor@.len() == FLOOR_CELLS_WH,
            forall|c: int| 0 <= c < FLOOR_CELLS_WH ==> (if spec_in_rect(first as int, last as int, c) && spec_visited(first as int, c, x as int, 0) {
                spec_marked(old(floor)@[c], #[trigger] floor@[c], c, id, first as int, last as int)
            } else {
                floor@[c] == old(floor)@[c]
            }),
        decreases x2 + 1 - x,
    {
        let mut y = y1;
        while y <= y2
            invariant
                x1 == spec_col(first as int), y1 == spec_row(first as int),
                x2 == spec_col(last as int), y2 == spec_row(last as int),
                w == x2 - x1 + 1, h == y2 - y1 + 1,
                first <= last < FLOOR_CELLS_WH,
                x1 <= x <= x2,
                y1 <= y <= y2 + 1,
                x2 < 17, y2 < 17,
                coords@ == spec_rect_coords(first as int, last as int),
                floor@.len() == FLOOR_CELLS_WH,
                forall|c: int| 0 <= c < FLOOR_CELLS_WH ==> (if spec_in_rect(first as int, last as int, c) && spec_visited(first as int, c, x as int, y as int) {
                    spec_marked(old(floor)@[c], #[trigger] floor@[c], c, id, first as int, last as int)
                } else {
                    floor@[c] == old(floor)@[c]
                }),
            decreases y2 + 1 - y,
        {
            let c = y * FLOOR_CELLS_W + x;
            proof {
                vstd::arithmetic::div_mod::lemma_fundamental_div_mod_converse(c as int, 17, y as int, x as int);
            }
            let cc = copy_usizes(&coords);
            floor[c].kind = CellKind::Machine;
            floor[c].machine.kind = if c == first { MachineKind::Main } else { MachineKind::SubBuilding };
            floor[c].machine.main_coord = first;
            floor[c].machine.id = id;
            floor[c].machine.cell_width = w;
            floor[c].machine.cell_height = h;
            floor[c].machine.coords = cc;
            proof {
                assert forall|k: int| 0 <= k < FLOOR_CELLS_WH implies (if spec_in_rect(first as int, last as int, k) && spec_visited(first as int, k, x as int, y + 1) {
                    spec_marked(old(floor)@[k], #[trigger] floor@[k], k, id, first as int, last as int)
                } else {
                    floor@[k] == old(floor)@[k]
                }) by {
                    if k != c {
                        assert(spec_col(k) != x || spec_row(k) != y);
                    }
                }
            }
            y = y + 1;
        }
        proof {
            assert forall|k: int| 0 <= k < FLOOR_CELLS_WH implies (if spec_in_rect(first as int, last as int, k) && spec_visited(first as int, k, x + 1, 0) {
                spec_marked(old(floor)@[k], #[trigger] floor@[k], k, id, first as int, last as int)
            } else {
                floor@[k] == old(floor)@[k]
            }) by {
                if spec_in_rect(first as int, last as int, k) && spec_visited(first as int, k, x + 1, 0) {
                    assert(spec_visited(first as int, k, x as int, y as int));
                }
            }
        }
        x = x + 1;
    }
    proof {
        assert(w * h == coords@.len());
        assert(w * h <= 289) by (nonlinear_arith)
            requires w <= 17, h <= 17;
    }
    let (wants, haves) = wants_of(config, pattern, w * h);
    let ghost marked = floor@;
    floor[first].machine.wants = wants;
    floor[first].machine.haves = haves;
    floor[first].machine.speed = speed;
    proof {
        assert forall|c: int| 0 <= c < FLOOR_CELLS_WH implies spec_placed(config, old(floor)@[c], #[trigger] floor@[c], c, id, first as int, last as int, pattern@, speed) by {
            assert(spec_visited(first as int, c, x as int, 0) || !spec_in_rect(first as int, last as int, c));
            if c != first {
                assert(floor@[c] == marked[c]);
            } else {
                assert(spec_in_rect(first as int, last as int, c));
            }
        }
        assert forall|c: int| 0 <= c < FLOOR_CELLS_WH implies #[trigger] floor@[c].wf_at(c) by {
            assert(old(floor)@[c].wf_at(c));
            assert(spec_placed(config, old(floor)@[c], floor@[c], c, id, first as int, last as int, pattern@, speed));
        }
    }
}

} // verus!
