use vstd::prelude::*;
use crate::belt::{spec_add_ports, add_unknown_port_to_cell, add_two_ports_to_cell};
use crate::belt_meta::BeltType;
use crate::direction::{Direction, spec_direction_reverse, direction_reverse, spec_from_dir_between_xy, get_from_dir_between_xy};
use crate::factory::Factory;
use crate::floor::{FLOOR_CELLS_W, FLOOR_CELLS_H, FLOOR_CELLS_WH, spec_to_coord, to_coord};

verus! {

/// How many steps along x (first) and along y (second) the walk from one cell towards
/// another, `dx` columns and `dy` rows away, has taken after `k` steps: it steps along x while
/// `dx * (1 + b) > dy * (1 + a)`, else along y.
pub open spec fn spec_walk(dx: nat, dy: nat, k: nat) -> (nat, nat)
    decreases k,
{
    if k == 0 {
        (0, 0)
    } else {
        let (a, b) = spec_walk(dx, dy, (k - 1) as nat);
        if dx * (1 + b) > dy * (1 + a) {
            (a + 1, b)
        } else {
            (a, b + 1)
        }
    }
}

/// The walk never goes past its target: after `k <= dx + dy` steps it took `k` steps in all,
/// at most `dx` of them along x and at most `dy` along y.
pub proof fn lemma_walk_bounds(dx: nat, dy: nat, k: nat)
    requires
        k <= dx + dy,
    ensures
        spec_walk(dx, dy, k).0 + spec_walk(dx, dy, k).1 == k,
        spec_walk(dx, dy, k).0 <= dx,
        spec_walk(dx, dy, k).1 <= dy,
    decreases k,
{
    if k > 0 {
        lemma_walk_bounds(dx, dy, (k - 1) as nat);
        let (a, b) = spec_walk(dx, dy, (k - 1) as nat);
        if a == dx && b < dy {
            assert(dx * (1 + b) <= dy * (1 + a)) by (nonlinear_arith)
                requires a == dx, b + 1 <= dy;
        }
        if b == dy && a < dx {
            assert(dx * (1 + b) > dy * (1 + a)) by (nonlinear_arith)
                requires b == dy, a + 1 <= dx;
        }
    }
}

pub open spec fn spec_abs_diff(a: int, b: int) -> nat {
    if a >= b { (a - b) as nat } else { (b - a) as nat }
}

/// The coordinate `v0` moved `steps` steps towards `v1`.
pub open spec fn spec_toward(v0: int, v1: int, steps: int) -> int {
    if v1 > v0 { v0 + steps } else { v0 - steps }
}

/// The cell the walk from (x0, y0) to (x1, y1) visits after `k` steps.
pub open spec fn spec_cover_at(x0: int, y0: int, x1: int, y1: int, k: nat) -> (usize, usize) {
    let (a, b) = spec_walk(spec_abs_diff(x1, x0), spec_abs_diff(y1, y0), k);
    (spec_toward(x0, x1, a as int) as usize, spec_toward(y0, y1, b as int) as usize)
}

/// The cells a straight line from (x0, y0) to (x1, y1) passes through, each one a step along
/// x or y from the one before, from (x0, y0) up to and including (x1, y1).
pub fn get_cells_from_a_to_b(x0: usize, y0: usize, x1: usize, y1: usize) -> (covered: Vec<(usize, usize)>)
    requires
        x0 < FLOOR_CELLS_W,
        x1 < FLOOR_CELLS_W,
        y0 < FLOOR_CELLS_H,
        y1 < FLOOR_CELLS_H,
    ensures
        covered@.len() == 1 + spec_abs_diff(x1 as int, x0 as int) + spec_abs_diff(y1 as int, y0 as int),
        forall|k: int| 0 <= k < covered@.len() ==> #[trigger] covered@[k] == spec_cover_at(x0 as int, y0 as int, x1 as int, y1 as int, k as nat),
        covered@[0] == (x0, y0),
        covered@.last() == (x1, y1),
        forall|k: int| 0 <= k < covered@.len() ==> (#[trigger] covered@[k]).0 < FLOOR_CELLS_W && covered@[k].1 < FLOOR_CELLS_H,
{
    let dx: usize = if x1 >= x0 { x1 - x0 } else { x0 - x1 };
    let dy: usize = if y1 >= y0 { y1 - y0 } else { y0 - y1 };
    let n: usize = 1 + dx + dy;
    let mut x: usize = x0;
    let mut y: usize = y0;
    let mut error: i64 = dx as i64 - dy as i64;
    let ghost mut a: nat = 0;
    let ghost mut b: nat = 0;
    let mut covered: Vec<(usize, usize)> = Vec::new();
    let mut k: usize = 0;
    assert(dx * (1 + b) - dy * (1 + a) == dx - dy) by (nonlinear_arith) requires a == 0, b == 0;
    while k < n
        invariant
            x0 < FLOOR_CELLS_W && x1 < FLOOR_CELLS_W && y0 < FLOOR_CELLS_H && y1 < FLOOR_CELLS_H,
            dx == spec_abs_diff(x1 as int, x0 as int),
            dy == spec_abs_diff(y1 as int, y0 as int),
            n == 1 + dx + dy,
            k <= n,
            (a, b) == spec_walk(dx as nat, dy as nat, k as nat),
            k < n ==> a + b == k && a <= dx && b <= dy,
            k < n ==> x == spec_toward(x0 as int, x1 as int, a as int),
            k < n ==> y == spec_toward(y0 as int, y1 as int, b as int),
            k < n ==> error == dx * (1 + b) - dy * (1 + a),
            covered@.len() == k,
            forall|j: int| 0 <= j < k ==> #[trigger] covered@[j] == spec_cover_at(x0 as int, y0 as int, x1 as int, y1 as int, j as nat),
            forall|j: int| 0 <= j < k ==> (#[trigger] covered@[j]).0 < FLOOR_CELLS_W && covered@[j].1 < FLOOR_CELLS_H,
        decreases n - k,
    {
        covered.push((x, y));
        proof {
            assert(covered@[k as int] == spec_cover_at(x0 as int, y0 as int, x1 as int, y1 as int, k as nat));
        }
        if k + 1 < n {
            proof {
                lemma_walk_bounds(dx as nat, dy as nat, (k + 1) as nat);
                assert(dx * (1 + b) <= 17 * 17) by (nonlinear_arith) requires dx <= 16, b <= 16;
                assert(dy * (1 + a) <= 17 * 17) by (nonlinear_arith) requires dy <= 16, a <= 16;
            }
            if error > 0 {
                x = if x1 > x0 { x + 1 } else { x - 1 };
                error = error - dy as i64;
                proof {
                    a = a + 1;
                    assert(error == dx * (1 + b) - dy * (1 + a)) by (nonlinear_arith)
                        requires error == dx * (1 + b) - dy * a - dy, a >= 1;
                }
            } else {
                y = if y1 > y0 { y + 1 } else { y - 1 };
                error = error + dx as i64;
                proof {
                    b = b + 1;
                    assert(error == dx * (1 + b) - dy * (1 + a)) by (nonlinear_arith)
                        requires error == dx * b + dx - dy * (1 + a), b >= 1;
                }
            }
        } else {
            proof {
                let (na, nb) = spec_walk(dx as nat, dy as nat, (k + 1) as nat);
                a = na;
                b = nb;
            }
        }
        k = k + 1;
    }
    proof {
        lemma_walk_bounds(dx as nat, dy as nat, (dx + dy) as nat);
        assert(covered@.last() == covered@[(n - 1) as int]);
    }
    covered
}

/// Each step of the walk from (x0, y0) to (x1, y1) (see `get_cells_from_a_to_b`) moves one
/// cell along x or along y.
pub proof fn lemma_cover_step(x0: int, y0: int, x1: int, y1: int, k: nat)
    requires
        0 <= x0 < FLOOR_CELLS_W && 0 <= x1 < FLOOR_CELLS_W,
        0 <= y0 < FLOOR_CELLS_H && 0 <= y1 < FLOOR_CELLS_H,
        1 <= k <= spec_abs_diff(x1, x0) + spec_abs_diff(y1, y0),
    ensures
        ({
            let p = spec_cover_at(x0, y0, x1, y1, (k - 1) as nat);
            let q = spec_cover_at(x0, y0, x1, y1, k);
            spec_abs_diff(p.0 as int, q.0 as int) + spec_abs_diff(p.1 as int, q.1 as int) == 1
        }),
{
    let dx = spec_abs_diff(x1, x0);
    let dy = spec_abs_diff(y1, y0);
    lemma_walk_bounds(dx, dy, k);
    lemma_walk_bounds(dx, dy, (k - 1) as nat);
}

/// A track end on the edge is pulled one cell inwards when the other end is not on that
/// same edge line: `v` is the coordinate of this end, `other` that of the other end.
pub open spec fn spec_pull_in(v: int, other: int, max: int) -> int {
    if v == 0 && other != 0 { 1 } else if v == max && other != max { max - 1 } else { v }
}

/// The start of a track after it was pulled off the edge.
pub open spec fn spec_track_start(ix0: int, iy0: int, ix1: int, iy1: int) -> (int, int) {
    (spec_pull_in(ix0, ix1, FLOOR_CELLS_W - 1), spec_pull_in(iy0, iy1, FLOOR_CELLS_H - 1))
}

/// The end of a track after it was pulled off the edge (measured against the moved start).
pub open spec fn spec_track_end(ix0: int, iy0: int, ix1: int, iy1: int) -> (int, int) {
    let s = spec_track_start(ix0, iy0, ix1, iy1);
    (spec_pull_in(ix1, s.0, FLOOR_CELLS_W - 1), spec_pull_in(iy1, s.1, FLOOR_CELLS_H - 1))
}

/// The cells a dragged track from (ix0, iy0) to (ix1, iy1) covers: its ends are pulled off the
/// edge, the cells of the straight line between them are taken, and the ends that were moved
/// are put back in front and at the back.
pub open spec fn spec_covered(ix0: int, iy0: int, ix1: int, iy1: int) -> Seq<(usize, usize)> {
    let s = spec_track_start(ix0, iy0, ix1, iy1);
    let e = spec_track_end(ix0, iy0, ix1, iy1);
    let n = 1 + spec_abs_diff(e.0, s.0) + spec_abs_diff(e.1, s.1);
    let line = Seq::new(n, |k: int| spec_cover_at(s.0, s.1, e.0, e.1, k as nat));
    (if s != (ix0, iy0) { seq![(ix0 as usize, iy0 as usize)] } else { seq![] })
        + line
        + (if e != (ix1, iy1) { seq![(ix1 as usize, iy1 as usize)] } else { seq![] })
}

/// One piece of a dragged track: the cell, the belt type it would get, the side the track
/// comes in through and the side it leaves through.
pub type TrackPiece = ((usize, usize), BeltType, Direction, Direction);

/// The side through which a track over the cells `cov` enters its cell `i` (the first cell
/// has none; it counts as up).
pub open spec fn spec_track_from(cov: Seq<(usize, usize)>, i: int) -> Direction {
    if i == 0 {
        Direction::Up
    } else {
        spec_from_dir_between_xy(cov[i - 1].0 as int, cov[i - 1].1 as int, cov[i].0 as int, cov[i].1 as int)
    }
}

/// Piece `i` of the track over the cells `cov` (at least two) on the floor `f`: the cell's
/// current ports with an unknown port added on the sides the track uses.
pub open spec fn spec_track_piece(f: Seq<crate::cell::Cell>, cov: Seq<(usize, usize)>, i: int) -> TrackPiece {
    let n = cov.len();
    let c = f[spec_to_coord(cov[i].0 as int, cov[i].1 as int)];
    let from = spec_track_from(cov, i);
    if i == n - 1 {
        (cov[i], spec_add_ports(c, from == Direction::Up, from == Direction::Right, from == Direction::Down, from == Direction::Left), from, from)
    } else {
        let to = spec_direction_reverse(spec_track_from(cov, i + 1));
        let bt = if i == 0 {
            spec_add_ports(c, to == Direction::Up, to == Direction::Right, to == Direction::Down, to == Direction::Left)
        } else {
            spec_add_ports(c, from == Direction::Up || to == Direction::Up, from == Direction::Right || to == Direction::Right,
                from == Direction::Down || to == Direction::Down, from == Direction::Left || to == Direction::Left)
        };
        (cov[i], bt, from, to)
    }
}

/// See `spec_pull_in`.
fn pull_in(v: usize, other: usize, max: usize) -> (r: usize)
    requires
        1 <= max,
        v <= max,
    ensures
        r == spec_pull_in(v as int, other as int, max as int),
{
    if v == 0 && other != 0 { 1 } else if v == max && other != max { max - 1 } else { v }
}

/// The cells a track dragged from (ix0, iy0) to (ix1, iy1) covers; see `spec_covered`.
#[verifier::rlimit(40)]
pub fn covered_cells(ix0: usize, iy0: usize, ix1: usize, iy1: usize) -> (covered: Vec<(usize, usize)>)
    requires
        ix0 < FLOOR_CELLS_W,
        ix1 < FLOOR_CELLS_W,
        iy0 < FLOOR_CELLS_H,
        iy1 < FLOOR_CELLS_H,
    ensures
        covered@ == spec_covered(ix0 as int, iy0 as int, ix1 as int, iy1 as int),
        covered@.len() >= 1,
        forall|k: int| 0 <= k < covered@.len() ==> (#[trigger] covered@[k]).0 < FLOOR_CELLS_W && covered@[k].1 < FLOOR_CELLS_H,
{
    let x0 = pull_in(ix0, ix1, FLOOR_CELLS_W - 1);
    let y0 = pull_in(iy0, iy1, FLOOR_CELLS_H - 1);
    let x1 = pull_in(ix1, x0, FLOOR_CELLS_W - 1);
    let y1 = pull_in(iy1, y0, FLOOR_CELLS_H - 1);
    let ghost cov = spec_covered(ix0 as int, iy0 as int, ix1 as int, iy1 as int);
    let mut line = get_cells_from_a_to_b(x0, y0, x1, y1);
    let ghost line0 = line@;
    let mut covered: Vec<(usize, usize)> = Vec::new();
    if x0 != ix0 || y0 != iy0 {
        covered.push((ix0, iy0));
    }
    let ghost head = covered@;
    covered.append(&mut line);
    if x1 != ix1 || y1 != iy1 {
        covered.push((ix1, iy1));
    }
    proof {
        let s = spec_track_start(ix0 as int, iy0 as int, ix1 as int, iy1 as int);
        let e = spec_track_end(ix0 as int, iy0 as int, ix1 as int, iy1 as int);
        assert(s == (x0 as int, y0 as int));
        assert(e == (x1 as int, y1 as int));
        let n = 1 + spec_abs_diff(e.0, s.0) + spec_abs_diff(e.1, s.1);
        assert(line0 =~= Seq::new(n, |k: int| spec_cover_at(s.0, s.1, e.0, e.1, k as nat)));
        assert(covered@ =~= cov);
        assert forall|k: int| 0 <= k < covered@.len() implies (#[trigger] covered@[k]).0 < FLOOR_CELLS_W && covered@[k].1 < FLOOR_CELLS_H by {
            if k < head.len() {
            } else if k < head.len() + line0.len() {
                assert(covered@[k] == line0[k - head.len()]);
            }
        }
    }
    covered
}

/// The track that `ray_trace_dragged_line_expensive` traces on floor `f`.
pub open spec fn spec_track_of(f: Seq<crate::cell::Cell>, ix0: int, iy0: int, ix1: int, iy1: int) -> Seq<TrackPiece> {
    let cov = spec_covered(ix0, iy0, ix1, iy1);
    if cov.len() == 1 {
        seq![(cov[0], BeltType::INVALID, Direction::Up, Direction::Up)]
    } else {
        Seq::new(cov.len(), |i: int| spec_track_piece(f, cov, i))
    }
}

/// Traces a belt dragged from cell (ix0, iy0) to cell (ix1, iy1): one piece per covered cell
/// (see `spec_covered` and `spec_track_piece`); a track of a single cell is one invalid piece.
pub fn ray_trace_dragged_line_expensive(factory: &Factory, ix0: usize, iy0: usize, ix1: usize, iy1: usize) -> (track: Vec<TrackPiece>)
    requires
        factory.floor.len() == FLOOR_CELLS_WH,
        ix0 < FLOOR_CELLS_W,
        ix1 < FLOOR_CELLS_W,
        iy0 < FLOOR_CELLS_H,
        iy1 < FLOOR_CELLS_H,
    ensures
        ({
            let cov = spec_covered(ix0 as int, iy0 as int, ix1 as int, iy1 as int);
            if cov.len() == 1 {
                track@ == seq![(cov[0], BeltType::INVALID, Direction::Up, Direction::Up)]
            } else {
                &&& track@.len() == cov.len()
                &&& forall|i: int| 0 <= i < cov.len() ==> #[trigger] track@[i] == spec_track_piece(factory.floor@, cov, i)
            }
        }),
        track@ == spec_track_of(factory.floor@, ix0 as int, iy0 as int, ix1 as int, iy1 as int),
        track@.len() == spec_covered(ix0 as int, iy0 as int, ix1 as int, iy1 as int).len(),
        forall|k: int| 0 <= k < track@.len() ==> (#[trigger] spec_covered(ix0 as int, iy0 as int, ix1 as int, iy1 as int)[k]).0 < FLOOR_CELLS_W
            && spec_covered(ix0 as int, iy0 as int, ix1 as int, iy1 as int)[k].1 < FLOOR_CELLS_H,
{
    let ghost cov = spec_covered(ix0 as int, iy0 as int, ix1 as int, iy1 as int);
    let covered = covered_cells(ix0, iy0, ix1, iy1);
    if covered.len() == 1 {
        let only = covered[0];
        let mut r: Vec<TrackPiece> = Vec::new();
        r.push((only, BeltType::INVALID, Direction::Up, Direction::Up));
        proof { assert(r@ =~= seq![(cov[0], BeltType::INVALID, Direction::Up, Direction::Up)]); }
        return r;
    }

    let mut track: Vec<TrackPiece> = Vec::new();
    let (mut lx, mut ly) = covered[0];
    let mut last_from = Direction::Up;
    let n = covered.len();
    let mut index: usize = 1;
    while index < n
        invariant
            factory.floor.len() == FLOOR_CELLS_WH,
            covered@ == cov,
            n == cov.len(),
            n >= 2,
            1 <= index <= n,
            forall|k: int| 0 <= k < n ==> (#[trigger] cov[k]).0 < FLOOR_CELLS_W && cov[k].1 < FLOOR_CELLS_H,
            (lx, ly) == cov[index - 1],
            last_from == spec_track_from(cov, index - 1),
            track@.len() == index - 1,
            forall|i: int| 0 <= i < index - 1 ==> #[trigger] track@[i] == spec_track_piece(factory.floor@, cov, i),
        decreases n - index,
    {
        let (x, y) = covered[index];
        let new_from = get_from_dir_between_xy(lx, ly, x, y);
        let last_to = direction_reverse(new_from);
        let bt = if track.len() == 0 {
            add_unknown_port_to_cell(factory, to_coord(lx, ly), last_to)
        } else {
            add_two_ports_to_cell(factory, to_coord(lx, ly), last_from, last_to)
        };
        track.push(((lx, ly), bt, last_from, last_to));
        proof {
            assert(track@[index - 1] == spec_track_piece(factory.floor@, cov, index - 1));
        }
        lx = x;
        ly = y;
        last_from = new_from;
        index = index + 1;
    }
    let bt = add_unknown_port_to_cell(factory, to_coord(lx, ly), last_from);
    track.push(((lx, ly), bt, last_from, last_from));
    proof {
        assert(track@[n - 1] == spec_track_piece(factory.floor@, cov, n - 1));
        assert(track@ =~= spec_track_of(factory.floor@, ix0 as int, iy0 as int, ix1 as int, iy1 as int));
    }
    track
}

/// A dragged track between two side by side cells, one of them off the edge, covers just
/// those two cells, one after the other.
pub proof fn lemma_covered_neighbors(x1: int, y1: int, x2: int, y2: int)
    requires
        0 <= x1 < FLOOR_CELLS_W && 0 <= x2 < FLOOR_CELLS_W,
        0 <= y1 < FLOOR_CELLS_H && 0 <= y2 < FLOOR_CELLS_H,
        spec_abs_diff(x1, x2) + spec_abs_diff(y1, y2) == 1,
        (0 < x1 < FLOOR_CELLS_W - 1 && 0 < y1 < FLOOR_CELLS_H - 1) || (0 < x2 < FLOOR_CELLS_W - 1 && 0 < y2 < FLOOR_CELLS_H - 1),
    ensures
        spec_covered(x1, y1, x2, y2) == seq![(x1 as usize, y1 as usize), (x2 as usize, y2 as usize)],
{
    let s = spec_track_start(x1, y1, x2, y2);
    let e = spec_track_end(x1, y1, x2, y2);
    assert(spec_walk(1, 0, 1) == (1nat, 0nat)) by { reveal_with_fuel(spec_walk, 2); }
    assert(spec_walk(0, 1, 1) == (0nat, 1nat)) by { reveal_with_fuel(spec_walk, 2); }
    assert(spec_walk(0, 0, 0) == (0nat, 0nat));
    assert(spec_walk(1, 0, 0) == (0nat, 0nat));
    assert(spec_walk(0, 1, 0) == (0nat, 0nat));
    let n = 1 + spec_abs_diff(e.0, s.0) + spec_abs_diff(e.1, s.1);
    let line = Seq::new(n, |k: int| spec_cover_at(s.0, s.1, e.0, e.1, k as nat));
    if s != (x1, y1) {
        assert(e == (x2, y2));
        assert(s == (x2, y2));
        assert(line =~= seq![(x2 as usize, y2 as usize)]);
    } else if e != (x2, y2) {
        assert(e == (x1, y1));
        assert(line =~= seq![(x1 as usize, y1 as usize)]);
    } else {
        assert(line =~= seq![(x1 as usize, y1 as usize), (x2 as usize, y2 as usize)]);
    }
    assert(spec_covered(x1, y1, x2, y2) =~= seq![(x1 as usize, y1 as usize), (x2 as usize, y2 as usize)]);
}

} // verus!
