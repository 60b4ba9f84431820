use vstd::prelude::*;
use crate::belt_meta::{BeltType, belt_type_to_belt_meta, spec_belt_type_to_belt_meta};
use crate::belt::Belt;
use crate::cell::{Cell, CellKind, spec_port_set, spec_meta_of_ports, spec_new_empty, spec_new_belt, spec_new_supply,
    spec_new_demand, empty_cell, belt_cell, supply_cell, demand_cell, fix_belt_meta, lemma_floor_cell, lemma_floor_len,
    lemma_floor_update};
use crate::connect::{spec_cells_connected, spec_dir_of_delta, cell_connect_if_possible, set_port_dir};
use crate::direction::{Direction, spec_direction_reverse};
use crate::edit::{Action, spec_part_cleared, clear_part_from_cell};
use crate::factory::{Factory, same_but_floor, same_but_floor_changed};
use crate::floor::{FLOOR_CELLS_W, FLOOR_CELLS_H, FLOOR_CELLS_WH, spec_is_edge, spec_is_edge_not_corner, spec_is_corner, spec_is_middle,
    spec_to_coord, is_edge, is_edge_not_corner, is_middle, to_coord};
use crate::part::{Config, Part, part_c, CONFIG_NODE_PART_TRASH};
use crate::port::Port;
use crate::track::{TrackPiece, spec_covered, spec_track_of, ray_trace_dragged_line_expensive, spec_track_start, spec_track_end,
    spec_abs_diff, spec_cover_at, lemma_walk_bounds, lemma_cover_step};

verus! {

/// The floor after the belt description of the cell at `c` was set to match its ports.
pub open spec fn spec_meta_fixed(f: Seq<Cell>, c: int) -> Seq<Cell> {
    f.update(c, Cell { belt: Belt { meta: spec_meta_of_ports(f[c]), ..f[c].belt }, ..f[c] })
}

/// The trash part that placeholder suppliers hand out.
pub open spec fn spec_trash_part() -> Part {
    Part { kind: CONFIG_NODE_PART_TRASH, icon: 't' }
}

/// The floor after the start cell of a dragged belt was filled in: an empty edge cell (not a
/// corner) becomes a trash supplier, an empty middle cell a belt of type `bt`.
pub open spec fn spec_placed_start(f0: Seq<Cell>, f1: Seq<Cell>, coord: int, x: int, y: int, bt: BeltType) -> bool {
    if f0[coord].kind != CellKind::Empty {
        f1 == f0
    } else if spec_is_edge_not_corner(x, y) {
        f1 == f0.update(coord, f1[coord]) && spec_new_supply(f1[coord], x, y, spec_trash_part(), 2000, 0, 0)
    } else if spec_is_middle(x, y) {
        f1 == f0.update(coord, f1[coord]) && spec_new_belt(f1[coord], x, y, spec_belt_type_to_belt_meta(bt))
    } else {
        f1 == f0
    }
}

/// The floor after the end cell of a dragged belt was filled in: an empty edge cell (not a
/// corner) becomes a demander, an empty middle cell a belt of type `bt`.
pub open spec fn spec_placed_end(f0: Seq<Cell>, f1: Seq<Cell>, coord: int, x: int, y: int, bt: BeltType, demand_speed: u64, demand_cooldown: u64) -> bool {
    if f0[coord].kind != CellKind::Empty {
        f1 == f0
    } else if spec_is_edge_not_corner(x, y) {
        f1 == f0.update(coord, f1[coord]) && spec_new_demand(f1[coord], x, y, demand_speed, demand_cooldown)
    } else if spec_is_middle(x, y) {
        f1 == f0.update(coord, f1[coord]) && spec_new_belt(f1[coord], x, y, spec_belt_type_to_belt_meta(bt))
    } else {
        f1 == f0
    }
}

/// The floor after the ports between two adjacent cells were removed (side `d1` of the first,
/// side `d2` of the second).
pub open spec fn spec_disconnected(f0: Seq<Cell>, f1: Seq<Cell>, c1: usize, d1: Direction, c2: usize, d2: Direction) -> bool {
    exists|mid: Seq<Cell>| #[trigger] spec_port_set(f0, mid, c1 as int, d1, Port::Absent, c2)
        && spec_port_set(mid, f1, c2 as int, d2, Port::Absent, c1)
}

/// A belt cell without any port.
pub open spec fn spec_bare_belt(c: Cell) -> bool {
    c.kind == CellKind::Belt && c.port_u == Port::Absent && c.port_r == Port::Absent
        && c.port_d == Port::Absent && c.port_l == Port::Absent
}

/// The floor after the cell at `coord`, at (x, y), was tidied after losing a connection: a belt
/// without ports is replaced by an empty cell, any other cell loses its part.
pub open spec fn spec_tidied(f0: Seq<Cell>, f1: Seq<Cell>, coord: int, x: int, y: int) -> bool {
    if spec_bare_belt(f0[coord]) {
        f1 == f0.update(coord, f1[coord]) && spec_new_empty(f1[coord], x, y)
    } else {
        spec_part_cleared(f0, f1, coord)
    }
}

/// The floor after a drag between the adjacent cells (x1, y1) and (x2, y2).
pub open spec fn spec_action_applied(f0: Seq<Cell>, f1: Seq<Cell>, action: Action, x1: usize, y1: usize, bt1: BeltType,
    x2: usize, y2: usize, bt2: BeltType, demand_speed: u64, demand_cooldown: u64) -> bool
{
    let c1 = spec_to_coord(x1 as int, y1 as int);
    let c2 = spec_to_coord(x2 as int, y2 as int);
    let dir = spec_dir_of_delta((x2 - x1) as i8, (y2 - y1) as i8);
    match action {
        Action::Add => if spec_is_edge(x1 as int, y1 as int) && spec_is_edge(x2 as int, y2 as int) {
            f1 == spec_meta_fixed(spec_meta_fixed(f0, c1), c2)
        } else {
            exists|fa: Seq<Cell>| #[trigger] spec_placed_start(f0, fa, c1, x1 as int, y1 as int, bt1)
                && exists|fb: Seq<Cell>| #[trigger] spec_placed_end(fa, fb, c2, x2 as int, y2 as int, bt2, demand_speed, demand_cooldown)
                && exists|fc: Seq<Cell>| #[trigger] spec_cells_connected(fb, fc, c1 as usize, c2 as usize, dir)
                && f1 == spec_meta_fixed(spec_meta_fixed(fc, c1), c2)
        },
        Action::Remove => exists|fa: Seq<Cell>| #[trigger] spec_disconnected(f0, fa, c1 as usize, dir, c2 as usize, spec_direction_reverse(dir))
            && exists|fb: Seq<Cell>| #[trigger] spec_tidied(spec_meta_fixed(spec_meta_fixed(fa, c1), c2), fb, c1, x1 as int, y1 as int)
            && spec_tidied(fb, f1, c2, x2 as int, y2 as int),
    }
}

/// Puts `cell` at `coord`.
fn put_cell(factory: &mut Factory, coord: usize, cell: Cell)
    requires
        old(factory).wf(),
        coord < FLOOR_CELLS_WH,
        cell.wf_at(coord as int),
    ensures
        final(factory).wf(),
        same_but_floor(final(factory), old(factory)),
        final(factory).floor@ == old(factory).floor@.update(coord as int, cell),
{
    proof { lemma_floor_update(factory.floor@, coord as int, cell); }
    factory.floor.set(coord, cell);
}

/// Fills in the start cell of a dragged belt; see `spec_placed_start`.
fn place_start(factory: &mut Factory, config: &Config, x: usize, y: usize, bt: BeltType)
    requires
        old(factory).wf(),
        config.wf(),
        x < FLOOR_CELLS_W,
        y < FLOOR_CELLS_H,
    ensures
        final(factory).wf(),
        same_but_floor(final(factory), old(factory)),
        spec_placed_start(old(factory).floor@, final(factory).floor@, spec_to_coord(x as int, y as int), x as int, y as int, bt),
{
    let coord = to_coord(x, y);
    if factory.floor[coord].kind == CellKind::Empty {
        if is_edge_not_corner(x, y) {
            let trash = part_c(config, 't');
            assert(trash == spec_trash_part()) by {
                assert(config.nodes[1].icon == 't');
                assert(config.nodes[0].icon != 't');
            }
            let cell = supply_cell(x, y, trash, 2000, 0, 0);
            put_cell(factory, coord, cell);
        } else if is_middle(x, y) {
            let cell = belt_cell(x, y, belt_type_to_belt_meta(bt));
            put_cell(factory, coord, cell);
        }
    }
}

/// Fills in the end cell of a dragged belt; see `spec_placed_end`.
fn place_end(factory: &mut Factory, x: usize, y: usize, bt: BeltType, demand_speed: u64, demand_cooldown: u64)
    requires
        old(factory).wf(),
        x < FLOOR_CELLS_W,
        y < FLOOR_CELLS_H,
    ensures
        final(factory).wf(),
        same_but_floor(final(factory), old(factory)),
        spec_placed_end(old(factory).floor@, final(factory).floor@, spec_to_coord(x as int, y as int), x as int, y as int, bt, demand_speed, demand_cooldown),
{
    let coord = to_coord(x, y);
    if factory.floor[coord].kind == CellKind::Empty {
        if is_edge_not_corner(x, y) {
            let cell = demand_cell(x, y, demand_speed, demand_cooldown);
            put_cell(factory, coord, cell);
        } else if is_middle(x, y) {
            let cell = belt_cell(x, y, belt_type_to_belt_meta(bt));
            put_cell(factory, coord, cell);
        }
    }
}

/// Removes the ports between two adjacent cells: side `dir1` of the first, side `dir2` of the
/// second; see `spec_disconnected`.
pub fn port_disconnect_cells(factory: &mut Factory, coord1: usize, dir1: Direction, coord2: usize, dir2: Direction)
    requires
        old(factory).wf(),
        coord1 < FLOOR_CELLS_WH,
        coord2 < FLOOR_CELLS_WH,
    ensures
        final(factory).wf(),
        same_but_floor(final(factory), old(factory)),
        spec_disconnected(old(factory).floor@, final(factory).floor@, coord1, dir1, coord2, dir2),
{
    set_port_dir(factory, coord1, dir1, Port::Absent, coord2);
    let ghost mid = factory.floor@;
    set_port_dir(factory, coord2, dir2, Port::Absent, coord1);
    proof {
        assert(spec_port_set(old(factory).floor@, mid, coord1 as int, dir1, Port::Absent, coord2));
    }
}

/// Replaces the cell at (x, y) by an empty cell.
pub fn floor_delete_cell_at_partial(factory: &mut Factory, x: usize, y: usize)
    requires
        old(factory).wf(),
        x < FLOOR_CELLS_W,
        y < FLOOR_CELLS_H,
    ensures
        final(factory).wf(),
        same_but_floor(final(factory), old(factory)),
        final(factory).floor@ == old(factory).floor@.update(spec_to_coord(x as int, y as int), final(factory).floor@[spec_to_coord(x as int, y as int)]),
        spec_new_empty(final(factory).floor@[spec_to_coord(x as int, y as int)], x as int, y as int),
{
    let coord = to_coord(x, y);
    let cell = empty_cell(x, y);
    put_cell(factory, coord, cell);
}

/// Tidies the cell at (x, y) after it lost a connection; see `spec_tidied`.
fn tidy_cell(factory: &mut Factory, x: usize, y: usize)
    requires
        old(factory).wf(),
        x < FLOOR_CELLS_W,
        y < FLOOR_CELLS_H,
    ensures
        final(factory).wf(),
        same_but_floor(final(factory), old(factory)),
        spec_tidied(old(factory).floor@, final(factory).floor@, spec_to_coord(x as int, y as int), x as int, y as int),
{
    let coord = to_coord(x, y);
    let c = &factory.floor[coord];
    if c.kind == CellKind::Belt && c.port_u == Port::Absent && c.port_r == Port::Absent && c.port_d == Port::Absent && c.port_l == Port::Absent {
        floor_delete_cell_at_partial(factory, x, y);
    } else {
        clear_part_from_cell(factory, coord);
    }
}

/// Applies a drag between the adjacent cells (x1, y1) and (x2, y2): `Add` fills empty cells
/// in (a trash supplier or a demander on the edge, a belt inside) and connects the two cells,
/// unless both are on the edge; `Remove` cuts the connection and clears both cells, removing
/// belts that are left without ports. Both belt descriptions are brought in line with their
/// ports and the factory is marked as changed.
pub fn apply_action_between_two_cells(factory: &mut Factory, config: &Config, add_or_remove: Action,
    cell_x1: usize, cell_y1: usize, belt_type1: BeltType, cell_x2: usize, cell_y2: usize, belt_type2: BeltType,
    demand_speed: u64, demand_cooldown: u64)
    requires
        old(factory).wf(),
        config.wf(),
        cell_x1 < FLOOR_CELLS_W,
        cell_y1 < FLOOR_CELLS_H,
        cell_x2 < FLOOR_CELLS_W,
        cell_y2 < FLOOR_CELLS_H,
        (cell_x1 == cell_x2) != (cell_y1 == cell_y2),
        -1 <= cell_x2 - cell_x1 <= 1,
        -1 <= cell_y2 - cell_y1 <= 1,
    ensures
        final(factory).wf(),
        final(factory).changed,
        same_but_floor_changed(final(factory), old(factory)),
        spec_action_applied(old(factory).floor@, final(factory).floor@, add_or_remove, cell_x1, cell_y1, belt_type1,
            cell_x2, cell_y2, belt_type2, demand_speed, demand_cooldown),
{
    let coord1 = to_coord(cell_x1, cell_y1);
    let coord2 = to_coord(cell_x2, cell_y2);
    let dx: i8 = (cell_x2 as i8) - (cell_x1 as i8);
    let dy: i8 = (cell_y2 as i8) - (cell_y1 as i8);
    let ghost f0 = factory.floor@;
    let ghost dir = spec_dir_of_delta(dx, dy);
    proof {
        assert(dx == (cell_x2 - cell_x1) as i8);
        assert(dy == (cell_y2 - cell_y1) as i8);
        assert(coord1 == spec_to_coord(cell_x1 as int, cell_y1 as int) as usize);
        assert(coord2 == spec_to_coord(cell_x2 as int, cell_y2 as int) as usize);
    }
    match add_or_remove {
        Action::Add => {
            if is_edge(cell_x1, cell_y1) && is_edge(cell_x2, cell_y2) {
                fix_belt_meta(factory, coord1);
                fix_belt_meta(factory, coord2);
            } else {
                place_start(factory, config, cell_x1, cell_y1, belt_type1);
                let ghost fa = factory.floor@;
                place_end(factory, cell_x2, cell_y2, belt_type2, demand_speed, demand_cooldown);
                let ghost fb = factory.floor@;
                cell_connect_if_possible(factory, coord1, coord2, dx, dy);
                let ghost fc = factory.floor@;
                fix_belt_meta(factory, coord1);
                fix_belt_meta(factory, coord2);
                proof {
                    assert(spec_placed_start(f0, fa, coord1 as int, cell_x1 as int, cell_y1 as int, belt_type1));
                    assert(spec_placed_end(fa, fb, coord2 as int, cell_x2 as int, cell_y2 as int, belt_type2, demand_speed, demand_cooldown));
                    assert(spec_cells_connected(fb, fc, coord1, coord2, dir));
                }
            }
        },
        Action::Remove => {
            let (dir1, dir2) = if dy == -1 {
                (Direction::Up, Direction::Down)
            } else if dx == 1 {
                (Direction::Right, Direction::Left)
            } else if dy == 1 {
                (Direction::Down, Direction::Up)
            } else {
                (Direction::Left, Direction::Right)
            };
            port_disconnect_cells(factory, coord1, dir1, coord2, dir2);
            let ghost fa = factory.floor@;
            fix_belt_meta(factory, coord1);
            fix_belt_meta(factory, coord2);
            tidy_cell(factory, cell_x1, cell_y1);
            let ghost fb = factory.floor@;
            tidy_cell(factory, cell_x2, cell_y2);
            proof {
                assert(spec_disconnected(f0, fa, coord1, dir, coord2, spec_direction_reverse(dir)));
                assert(spec_tidied(spec_meta_fixed(spec_meta_fixed(fa, coord1 as int), coord2 as int), fb, coord1 as int, cell_x1 as int, cell_y1 as int));
            }
        },
    }
    factory.changed = true;
}

/// The two cells are side by side.
pub open spec fn spec_adjacent(a: (usize, usize), b: (usize, usize)) -> bool {
    &&& (a.0 == b.0) != (a.1 == b.1)
    &&& -1 <= b.0 - a.0 <= 1
    &&& -1 <= b.1 - a.1 <= 1
}

/// Each cell of the sequence is side by side with the one before.
pub open spec fn spec_steps_adjacent(cov: Seq<(usize, usize)>) -> bool {
    forall|i: int| 1 <= i < cov.len() ==> #[trigger] spec_adjacent(cov[i - 1], cov[i])
}

proof fn lemma_line_step_adjacent(x0: int, y0: int, x1: int, y1: int, k: nat)
    requires
        0 <= x0 < FLOOR_CELLS_W && 0 <= x1 < FLOOR_CELLS_W,
        0 <= y0 < FLOOR_CELLS_H && 0 <= y1 < FLOOR_CELLS_H,
        1 <= k <= spec_abs_diff(x1, x0) + spec_abs_diff(y1, y0),
    ensures
        spec_adjacent(spec_cover_at(x0, y0, x1, y1, (k - 1) as nat), spec_cover_at(x0, y0, x1, y1, k)),
{
    let dx = spec_abs_diff(x1, x0);
    let dy = spec_abs_diff(y1, y0);
    lemma_cover_step(x0, y0, x1, y1, k);
    lemma_walk_bounds(dx, dy, k);
    lemma_walk_bounds(dx, dy, (k - 1) as nat);
}

proof fn lemma_line_ends(x0: int, y0: int, x1: int, y1: int)
    requires
        0 <= x0 < FLOOR_CELLS_W && 0 <= x1 < FLOOR_CELLS_W,
        0 <= y0 < FLOOR_CELLS_H && 0 <= y1 < FLOOR_CELLS_H,
    ensures
        spec_cover_at(x0, y0, x1, y1, 0) == (x0 as usize, y0 as usize),
        spec_cover_at(x0, y0, x1, y1, spec_abs_diff(x1, x0) + spec_abs_diff(y1, y0)) == (x1 as usize, y1 as usize),
{
    let dx = spec_abs_diff(x1, x0);
    let dy = spec_abs_diff(y1, y0);
    lemma_walk_bounds(dx, dy, (dx + dy) as nat);
}

proof fn lemma_pulled_ends(ix0: int, iy0: int, ix1: int, iy1: int)
    requires
        0 <= ix0 < FLOOR_CELLS_W && 0 <= ix1 < FLOOR_CELLS_W,
        0 <= iy0 < FLOOR_CELLS_H && 0 <= iy1 < FLOOR_CELLS_H,
        !spec_is_corner(ix0, iy0),
        !spec_is_corner(ix1, iy1),
    ensures
        ({
            let st = spec_track_start(ix0, iy0, ix1, iy1);
            let e = spec_track_end(ix0, iy0, ix1, iy1);
            &&& 0 <= st.0 < FLOOR_CELLS_W && 0 <= st.1 < FLOOR_CELLS_H
            &&& 0 <= e.0 < FLOOR_CELLS_W && 0 <= e.1 < FLOOR_CELLS_H
            &&& st != (ix0, iy0) ==> spec_adjacent((ix0 as usize, iy0 as usize), (st.0 as usize, st.1 as usize))
            &&& e != (ix1, iy1) ==> spec_adjacent((e.0 as usize, e.1 as usize), (ix1 as usize, iy1 as usize))
        }),
{
}

/// A drag between two cells of the floor that are not corners covers cells that are side by
/// side, each with the one before (a drag to or from a corner would step diagonally).
pub proof fn lemma_covered_adjacent(ix0: int, iy0: int, ix1: int, iy1: int)
    requires
        0 <= ix0 < FLOOR_CELLS_W && 0 <= ix1 < FLOOR_CELLS_W,
        0 <= iy0 < FLOOR_CELLS_H && 0 <= iy1 < FLOOR_CELLS_H,
        !spec_is_corner(ix0, iy0),
        !spec_is_corner(ix1, iy1),
    ensures
        spec_steps_adjacent(spec_covered(ix0, iy0, ix1, iy1)),
{
    let st = spec_track_start(ix0, iy0, ix1, iy1);
    let e = spec_track_end(ix0, iy0, ix1, iy1);
    lemma_pulled_ends(ix0, iy0, ix1, iy1);
    lemma_line_ends(st.0, st.1, e.0, e.1);
    let dx = spec_abs_diff(e.0, st.0);
    let dy = spec_abs_diff(e.1, st.1);
    let n = 1 + dx + dy;
    let line = Seq::new(n, |k: int| spec_cover_at(st.0, st.1, e.0, e.1, k as nat));
    let pre: Seq<(usize, usize)> = if st != (ix0, iy0) { seq![(ix0 as usize, iy0 as usize)] } else { seq![] };
    let post: Seq<(usize, usize)> = if e != (ix1, iy1) { seq![(ix1 as usize, iy1 as usize)] } else { seq![] };
    let cov = spec_covered(ix0, iy0, ix1, iy1);
    assert(cov == pre + line + post);
    let p = pre.len() as int;
    assert forall|i: int| 1 <= i < cov.len() implies #[trigger] spec_adjacent(cov[i - 1], cov[i]) by {
        if p <= i - 1 && i < p + n {
            assert(cov[i - 1] == line[i - 1 - p]);
            assert(cov[i] == line[i - p]);
            lemma_line_step_adjacent(st.0, st.1, e.0, e.1, (i - p) as nat);
        } else if i == p {
            assert(cov[i - 1] == (ix0 as usize, iy0 as usize));
            assert(cov[i] == line[0]);
        } else {
            assert(i == p + n);
            assert(cov[i - 1] == line[n - 1]);
            assert(cov[i] == (ix1 as usize, iy1 as usize));
        }
    }
}

/// `fs` lists the floors while the first `k` pieces of `track` are laid: `fs[0]` before, and
/// `fs[j]` after piece `j` was connected to piece `j - 1` (see `spec_action_applied`).
pub open spec fn spec_floors_chain(fs: Seq<Seq<Cell>>, track: Seq<TrackPiece>, k: nat, demand_speed: u64, demand_cooldown: u64) -> bool {
    &&& fs.len() == k
    &&& forall|j: int| 1 <= j < k ==> #[trigger] spec_action_applied(fs[j - 1], fs[j], Action::Add,
            track[j - 1].0.0, track[j - 1].0.1, track[j - 1].1,
            track[j].0.0, track[j].0.1, track[j].1, demand_speed, demand_cooldown)
}

/// The floor after laying the first `k` (at least one) pieces of `track`, each piece connected
/// to the one before it.
pub open spec fn spec_track_laid(f0: Seq<Cell>, f1: Seq<Cell>, track: Seq<TrackPiece>, k: nat, demand_speed: u64, demand_cooldown: u64) -> bool {
    exists|fs: Seq<Seq<Cell>>| #[trigger] spec_floors_chain(fs, track, k, demand_speed, demand_cooldown)
        && fs[0] == f0 && fs[k - 1] == f1
}

/// Lays a belt from cell (x1, y1) to cell (x2, y2) along the traced track (see
/// `ray_trace_dragged_line_expensive`), connecting each piece to the one before it.
pub fn belt_connect_cells_expensive(factory: &mut Factory, config: &Config, x1: usize, y1: usize, x2: usize, y2: usize,
    demand_speed: u64, demand_cooldown: u64)
    requires
        old(factory).wf(),
        config.wf(),
        x1 < FLOOR_CELLS_W,
        x2 < FLOOR_CELLS_W,
        y1 < FLOOR_CELLS_H,
        y2 < FLOOR_CELLS_H,
        spec_steps_adjacent(spec_covered(x1 as int, y1 as int, x2 as int, y2 as int)),
    ensures
        final(factory).wf(),
        same_but_floor_changed(final(factory), old(factory)),
        ({
            let track = spec_track_of(old(factory).floor@, x1 as int, y1 as int, x2 as int, y2 as int);
            &&& final(factory).changed == (old(factory).changed || track.len() >= 2)
            &&& spec_track_laid(old(factory).floor@, final(factory).floor@, track, track.len(), demand_speed, demand_cooldown)
        }),
{
    let ghost cov = spec_covered(x1 as int, y1 as int, x2 as int, y2 as int);
    let track = ray_trace_dragged_line_expensive(factory, x1, y1, x2, y2);
    let ghost f0 = factory.floor@;
    let ghost t = track@;
    proof {
        crate::cell::lemma_floor_len(f0);
        assert forall|i: int| 0 <= i < t.len() implies (#[trigger] t[i]).0 == cov[i] by {}
    }
    let n = track.len();
    let mut i: usize = 1;
    let ghost mut fs: Seq<Seq<Cell>> = seq![f0];
    while i < n
        invariant
            factory.wf(),
            config.wf(),
            same_but_floor_changed(factory, old(factory)),
            t == track@,
            t == spec_track_of(f0, x1 as int, y1 as int, x2 as int, y2 as int),
            n == t.len(),
            n == cov.len(),
            n >= 1,
            1 <= i <= n,
            forall|k: int| 0 <= k < t.len() ==> (#[trigger] t[k]).0 == cov[k],
            forall|k: int| 0 <= k < cov.len() ==> (#[trigger] cov[k]).0 < FLOOR_CELLS_W && cov[k].1 < FLOOR_CELLS_H,
            spec_steps_adjacent(cov),
            factory.changed == (old(factory).changed || i >= 2),
            spec_floors_chain(fs, t, i as nat, demand_speed, demand_cooldown),
            fs[0] == f0,
            fs[i - 1] == factory.floor@,
        decreases n - i,
    {
        let ((cell_x1, cell_y1), belt_type1, _unused, _port_out_dir1) = track[i - 1];
        let ((cell_x2, cell_y2), belt_type2, _port_in_dir2, _unused2) = track[i];
        let ghost fm = factory.floor@;
        proof {
            assert(t[i - 1].0 == cov[i - 1]);
            assert(t[i as int].0 == cov[i as int]);
            assert(spec_adjacent(cov[i - 1], cov[i as int]));
        }
        apply_action_between_two_cells(factory, config, Action::Add, cell_x1, cell_y1, belt_type1, cell_x2, cell_y2, belt_type2,
            demand_speed, demand_cooldown);
        proof {
            let fs2 = fs.push(factory.floor@);
            assert forall|j: int| 1 <= j < i + 1 implies #[trigger] spec_action_applied(fs2[j - 1], fs2[j], Action::Add,
                t[j - 1].0.0, t[j - 1].0.1, t[j - 1].1,
                t[j].0.0, t[j].0.1, t[j].1, demand_speed, demand_cooldown) by {
                if j < i {
                    assert(fs2[j - 1] == fs[j - 1] && fs2[j] == fs[j]);
                }
            }
            fs = fs2;
        }
        i = i + 1;
    }
    proof {
        assert(spec_floors_chain(fs, t, n as nat, demand_speed, demand_cooldown));
    }
}

} // verus!
