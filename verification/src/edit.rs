use vstd::prelude::*;
use crate::belt::Belt;
use crate::belt_meta::{BeltMeta, belt_type_from_ports, belt_type_to_belt_meta, spec_belt_type_from_ports, spec_belt_type_to_belt_meta};
use crate::cell::{Cell, CellKind, same_frame, spec_meta_of_ports, spec_ports_with, same_but_ports_links_meta, lemma_floor_cell, lemma_floor_len,
    lemma_floor_update_frame, lemma_floor_update, fix_belt_meta, spec_new_empty, empty_cell};
use crate::connect::{spec_neighbor, set_port_dir, same_ports};
use crate::direction::{Direction, spec_direction_reverse, direction_reverse};
use crate::factory::{Factory, same_but_floor, same_but_floor_changed};
use crate::floor::{FLOOR_CELLS_W, FLOOR_CELLS_H, FLOOR_CELLS_WH, to_xy};
use crate::machine::Machine;
use crate::part::{part_none, spec_part_none};
use crate::port::{Port, port_to_char, spec_port_to_char};
use crate::supply::spec_supply_cleared;
use crate::text::string_from_chars;

verus! {

/// What a drag between two cells does.
#[derive(Clone, Copy, Debug, PartialEq, Eq, Structural)]
pub enum Action {
    /// Lay a belt between the cells.
    Add,
    /// Cut the connection between the cells.
    Remove,
}

/// The number of sides of a cell that have a port.
pub open spec fn spec_port_count(c: Cell) -> int {
    (if c.port_u != Port::Absent { 1int } else { 0 })
    + (if c.port_r != Port::Absent { 1int } else { 0 })
    + (if c.port_d != Port::Absent { 1int } else { 0 })
    + (if c.port_l != Port::Absent { 1int } else { 0 })
}

/// The number of sides of the cell at `coord` that have a port.
pub fn port_count(factory: &Factory, coord: usize) -> (n: u8)
    requires
        coord < factory.floor.len(),
    ensures
        n == spec_port_count(factory.floor@[coord as int]),
{
    let c = &factory.floor[coord];
    let mut n: u8 = 0;
    if c.port_u != Port::Absent { n = n + 1; }
    if c.port_r != Port::Absent { n = n + 1; }
    if c.port_d != Port::Absent { n = n + 1; }
    if c.port_l != Port::Absent { n = n + 1; }
    n
}

/// The cell with port `p` on side `dir` and the belt description that matches its new ports.
pub open spec fn spec_with_port(c: Cell, dir: Direction, p: Port) -> Cell {
    let ports = spec_ports_with(c, dir, p);
    Cell {
        port_u: ports.0,
        port_r: ports.1,
        port_d: ports.2,
        port_l: ports.3,
        belt: Belt { meta: spec_belt_type_to_belt_meta(spec_belt_type_from_ports(ports.0, ports.1, ports.2, ports.3)), ..c.belt },
        ..c
    }
}

/// The floor after the cell at `coord` reached out on side `dir` to a neighbor belt that has
/// at most one port: both facing sides get an unknown port.
pub open spec fn spec_dead_end_step(f: Seq<Cell>, coord: int, dir: Direction) -> Seq<Cell> {
    match spec_neighbor(f[coord], dir) {
        Some(o) => if f[o as int].kind == CellKind::Belt && spec_port_count(f[o as int]) <= 1 {
            f.update(coord, spec_with_port(f[coord], dir, Port::Unknown))
                .update(o as int, spec_with_port(f[o as int], spec_direction_reverse(dir), Port::Unknown))
        } else {
            f
        },
        None => f,
    }
}

/// Sets the port on side `dir` of the cell at `coord` and its belt description to match,
/// without touching any links.
#[verifier::spinoff_prover]
#[verifier::rlimit(50)]
fn set_port_and_meta(factory: &mut Factory, coord: usize, dir: Direction, p: Port)
    requires
        old(factory).wf(),
        coord < FLOOR_CELLS_WH,
    ensures
        final(factory).wf(),
        same_but_floor(final(factory), old(factory)),
        final(factory).floor@ == old(factory).floor@.update(coord as int, spec_with_port(old(factory).floor@[coord as int], dir, p)),
{
    proof { lemma_floor_len(factory.floor@); }
    let pu = if dir == Direction::Up { p } else { factory.floor[coord].port_u };
    let pr = if dir == Direction::Right { p } else { factory.floor[coord].port_r };
    let pd = if dir == Direction::Down { p } else { factory.floor[coord].port_d };
    let pl = if dir == Direction::Left { p } else { factory.floor[coord].port_l };
    let meta = belt_type_to_belt_meta(belt_type_from_ports(pu, pr, pd, pl));
    factory.floor[coord].port_u = pu;
    factory.floor[coord].port_r = pr;
    factory.floor[coord].port_d = pd;
    factory.floor[coord].port_l = pl;
    factory.floor[coord].belt.meta = meta;
    proof {
        lemma_floor_update_frame(old(factory).floor@, coord as int, factory.floor@[coord as int]);
        assert(factory.floor@[coord as int] == spec_with_port(old(factory).floor@[coord as int], dir, p));
        assert(factory.floor@ =~= old(factory).floor@.update(coord as int, spec_with_port(old(factory).floor@[coord as int], dir, p)));
    }
}

/// One side of `connect_to_neighbor_dead_end_belts`.
fn dead_end_side(factory: &mut Factory, coord: usize, dir: Direction)
    requires
        old(factory).wf(),
        coord < FLOOR_CELLS_WH,
    ensures
        final(factory).wf(),
        same_but_floor(final(factory), old(factory)),
        final(factory).floor@ == spec_dead_end_step(old(factory).floor@, coord as int, dir),
{
    proof { lemma_floor_cell(factory.floor@, coord as int); }
    let n = match dir {
        Direction::Up => factory.floor[coord].coord_u,
        Direction::Right => factory.floor[coord].coord_r,
        Direction::Down => factory.floor[coord].coord_d,
        Direction::Left => factory.floor[coord].coord_l,
    };
    if let Some(ocoord) = n {
        if factory.floor[ocoord].kind == CellKind::Belt && port_count(factory, ocoord) <= 1 {
            let ghost f0 = factory.floor@;
            let rev = direction_reverse(dir);
            set_port_and_meta(factory, coord, dir, Port::Unknown);
            let ghost f1 = factory.floor@;
            set_port_and_meta(factory, ocoord, rev, Port::Unknown);
            proof {
                assert(coord != ocoord);
                assert(f1[ocoord as int] == f0[ocoord as int]);
            }
        }
    }
}

/// Gives the cell at `coord` an unknown port towards each neighbor belt that has at most one
/// port, and that neighbor an unknown port back; see `spec_dead_end_step`.
pub fn connect_to_neighbor_dead_end_belts(factory: &mut Factory, coord: usize)
    requires
        old(factory).wf(),
        coord < FLOOR_CELLS_WH,
    ensures
        final(factory).wf(),
        same_but_floor(final(factory), old(factory)),
        final(factory).floor@ == spec_dead_end_step(spec_dead_end_step(spec_dead_end_step(spec_dead_end_step(
            old(factory).floor@, coord as int, Direction::Up), coord as int, Direction::Right),
            coord as int, Direction::Down), coord as int, Direction::Left),
{
    dead_end_side(factory, coord, Direction::Up);
    dead_end_side(factory, coord, Direction::Right);
    dead_end_side(factory, coord, Direction::Down);
    dead_end_side(factory, coord, Direction::Left);
}

/// The floor after the part in the cell at `coord` was dropped: a belt loses its part, a
/// machine (through its main cell) loses the parts it holds and its production timer, and a
/// supplier starts over on its next part.
pub open spec fn spec_part_cleared(f0: Seq<Cell>, f1: Seq<Cell>, coord: int) -> bool {
    let c = f0[coord];
    if c.kind == CellKind::Belt {
        f1 == f0.update(coord, Cell { belt: Belt { part: spec_part_none(), ..c.belt }, ..c })
    } else if c.kind == CellKind::Machine {
        let m = c.machine.main_coord as int;
        &&& f1 == f0.update(m, Cell { machine: Machine { haves: f1[m].machine.haves, start_at: 0, ..f0[m].machine }, ..f0[m] })
        &&& f1[m].machine.haves@ == Seq::new(f0[m].machine.haves@.len(), |i: int| spec_part_none())
    } else if c.kind == CellKind::Supply {
        f1 == f0.update(coord, Cell { supply: spec_supply_cleared(c.supply), ..c })
    } else {
        f1 == f0
    }
}

/// Drops the part held by the cell at `coord`; see `spec_part_cleared`.
pub fn clear_part_from_cell(factory: &mut Factory, coord: usize)
    requires
        old(factory).wf(),
        coord < FLOOR_CELLS_WH,
    ensures
        final(factory).wf(),
        same_but_floor(final(factory), old(factory)),
        spec_part_cleared(old(factory).floor@, final(factory).floor@, coord as int),
{
    let ghost f0 = factory.floor@;
    proof { lemma_floor_cell(f0, coord as int); }
    match factory.floor[coord].kind {
        CellKind::Belt => {
            factory.floor[coord].belt.part = part_none();
            proof {
                lemma_floor_update_frame(f0, coord as int, factory.floor@[coord as int]);
                assert(factory.floor@ =~= f0.update(coord as int, factory.floor@[coord as int]));
            }
        },
        CellKind::Machine => {
            let m = factory.floor[coord].machine.main_coord;
            proof { lemma_floor_cell(f0, m as int); }
            let n = factory.floor[m].machine.haves.len();
            let mut i: usize = 0;
            while i < n
                invariant
                    m < FLOOR_CELLS_WH,
                    factory.floor.len() == FLOOR_CELLS_WH,
                    f0.len() == FLOOR_CELLS_WH,
                    same_but_floor(factory, old(factory)),
                    n == f0[m as int].machine.haves@.len(),
                    i <= n,
                    factory.floor@ == f0.update(m as int, Cell {
                        machine: Machine { haves: factory.floor@[m as int].machine.haves, ..f0[m as int].machine },
                        ..f0[m as int]
                    }),
                    factory.floor@[m as int].machine.haves@.len() == n,
                    forall|j: int| 0 <= j < i ==> #[trigger] factory.floor@[m as int].machine.haves@[j] == spec_part_none(),
                    forall|j: int| i <= j < n ==> #[trigger] factory.floor@[m as int].machine.haves@[j] == f0[m as int].machine.haves@[j],
                decreases n - i,
            {
                let ghost before = factory.floor@;
                factory.floor[m].machine.haves[i] = part_none();
                i = i + 1;
                proof {
                    assert(factory.floor@[m as int].machine == Machine { haves: factory.floor@[m as int].machine.haves, ..before[m as int].machine });
                    assert(factory.floor@ =~= before.update(m as int, Cell {
                        machine: Machine { haves: factory.floor@[m as int].machine.haves, ..before[m as int].machine },
                        ..before[m as int]
                    }));
                    assert(factory.floor@ =~= f0.update(m as int, Cell {
                        machine: Machine { haves: factory.floor@[m as int].machine.haves, ..f0[m as int].machine },
                        ..f0[m as int]
                    }));
                }
            }
            factory.floor[m].machine.start_at = 0;
            proof {
                lemma_floor_update_frame(f0, m as int, factory.floor@[m as int]);
                assert(factory.floor@ =~= f0.update(m as int, factory.floor@[m as int]));
                assert(factory.floor@[m as int].machine.haves@ =~= Seq::new(f0[m as int].machine.haves@.len(), |i: int| spec_part_none()));
            }
        },
        CellKind::Supply => {
            factory.floor[coord].supply.part_created_at = 0;
            factory.floor[coord].supply.part_tbd = true;
            factory.floor[coord].supply.part_progress = 0;
            proof {
                lemma_floor_update_frame(f0, coord as int, factory.floor@[coord as int]);
                assert(factory.floor@ =~= f0.update(coord as int, factory.floor@[coord as int]));
            }
        },
        _ => {},
    }
}

/// A debug line that shows the four ports of a cell, such as `up:o right:  down:i left:?`.
pub fn cell_ports_to_str(cell: &Cell) -> (s: String)
    ensures
        s@ == seq!['u', 'p', ':', spec_port_to_char(cell.port_u),
            ' ', 'r', 'i', 'g', 'h', 't', ':', spec_port_to_char(cell.port_r),
            ' ', 'd', 'o', 'w', 'n', ':', spec_port_to_char(cell.port_d),
            ' ', 'l', 'e', 'f', 't', ':', spec_port_to_char(cell.port_l)],
{
    let chars: Vec<char> = vec!['u', 'p', ':', port_to_char(cell.port_u),
        ' ', 'r', 'i', 'g', 'h', 't', ':', port_to_char(cell.port_r),
        ' ', 'd', 'o', 'w', 'n', ':', port_to_char(cell.port_d),
        ' ', 'l', 'e', 'f', 't', ':', port_to_char(cell.port_l)];
    string_from_chars(&chars)
}

/// The port a belt gets on a side when it reaches out to every neighbor that is not empty.
pub open spec fn spec_auto_port(k: CellKind) -> Port {
    if k == CellKind::Empty { Port::Absent } else { Port::Unknown }
}

/// The belt description of a belt with an unknown port towards every neighbor that is not
/// empty (and no port at all when all four are empty).
pub fn cell_neighbors_to_auto_belt_meta(up: CellKind, right: CellKind, down: CellKind, left: CellKind) -> (m: BeltMeta)
    ensures
        m == spec_belt_type_to_belt_meta(spec_belt_type_from_ports(
            spec_auto_port(up), spec_auto_port(right), spec_auto_port(down), spec_auto_port(left))),
{
    let pu = if up == CellKind::Empty { Port::Absent } else { Port::Unknown };
    let pr = if right == CellKind::Empty { Port::Absent } else { Port::Unknown };
    let pd = if down == CellKind::Empty { Port::Absent } else { Port::Unknown };
    let pl = if left == CellKind::Empty { Port::Absent } else { Port::Unknown };
    belt_type_to_belt_meta(belt_type_from_ports(pu, pr, pd, pl))
}

/// The cell that removing all belts makes of `c` at index `i`: a belt becomes an empty cell, a
/// machine cell loses its ports, and anything else stays as it is.
pub open spec fn spec_unbelted_cell(c: Cell, d: Cell, i: int) -> bool {
    if c.kind == CellKind::Belt {
        spec_new_empty(d, i % (FLOOR_CELLS_W as int), i / (FLOOR_CELLS_W as int))
    } else if c.kind == CellKind::Machine {
        d == Cell { port_u: Port::Absent, port_r: Port::Absent, port_d: Port::Absent, port_l: Port::Absent, ..c }
    } else {
        d == c
    }
}

/// Removes every belt from the floor: belts become empty cells and machines lose their ports.
/// The factory is marked as changed.
pub fn factory_unbelt(factory: &mut Factory)
    requires
        old(factory).wf(),
    ensures
        final(factory).wf(),
        final(factory).changed,
        same_but_floor_changed(final(factory), old(factory)),
        forall|i: int| 0 <= i < FLOOR_CELLS_WH ==> #[trigger] spec_unbelted_cell(old(factory).floor@[i], final(factory).floor@[i], i),
{
    let ghost f0 = factory.floor@;
    proof { lemma_floor_len(f0); }
    let mut coord: usize = 0;
    while coord < FLOOR_CELLS_WH
        invariant
            factory.wf(),
            same_but_floor(factory, old(factory)),
            f0 == old(factory).floor@,
            coord <= FLOOR_CELLS_WH,
            forall|i: int| 0 <= i < coord ==> #[trigger] spec_unbelted_cell(f0[i], factory.floor@[i], i),
            forall|i: int| coord <= i < FLOOR_CELLS_WH ==> #[trigger] factory.floor@[i] == f0[i],
        decreases FLOOR_CELLS_WH - coord,
    {
        let ghost before = factory.floor@;
        proof { lemma_floor_cell(before, coord as int); }
        let (x, y) = to_xy(coord);
        if factory.floor[coord].kind == CellKind::Belt {
            let e = empty_cell(x, y);
            factory.floor.set(coord, e);
            proof { lemma_floor_update(before, coord as int, e); }
        } else if factory.floor[coord].kind == CellKind::Machine {
            factory.floor[coord].port_u = Port::Absent;
            factory.floor[coord].port_r = Port::Absent;
            factory.floor[coord].port_d = Port::Absent;
            factory.floor[coord].port_l = Port::Absent;
            proof {
                assert(factory.floor@ =~= before.update(coord as int, factory.floor@[coord as int]));
                assert(factory.floor@[coord as int].wf_at(coord as int));
                lemma_floor_update(before, coord as int, factory.floor@[coord as int]);
            }
        }
        proof {
            assert forall|i: int| 0 <= i < coord + 1 implies #[trigger] spec_unbelted_cell(f0[i], factory.floor@[i], i) by {
                if i < coord {
                    assert(factory.floor@[i] == before[i]);
                }
            }
            assert forall|i: int| coord + 1 <= i < FLOOR_CELLS_WH implies #[trigger] factory.floor@[i] == f0[i] by {
                assert(factory.floor@[i] == before[i]);
            }
        }
        coord = coord + 1;
    }
    factory.changed = true;
}

/// A port after turning directions into questions: a port becomes unknown, no port stays none.
pub open spec fn spec_undir_port(p: Port) -> Port {
    if p == Port::Absent { Port::Absent } else { Port::Unknown }
}

/// Every side of the cell at `i` that has a port faces a cell of the floor.
pub open spec fn spec_sides_face_floor(c: Cell, i: int) -> bool {
    let x = i % (FLOOR_CELLS_W as int);
    let y = i / (FLOOR_CELLS_W as int);
    &&& c.port_u != Port::Absent ==> y > 0
    &&& c.port_r != Port::Absent ==> x < FLOOR_CELLS_W - 1
    &&& c.port_d != Port::Absent ==> y < FLOOR_CELLS_H - 1
    &&& c.port_l != Port::Absent ==> x > 0
}

/// Makes the port on side `dir` of the cell at `coord` unknown, if it has one.
fn undir_side(factory: &mut Factory, coord: usize, dir: Direction)
    requires
        old(factory).wf(),
        coord < FLOOR_CELLS_WH,
        spec_sides_face_floor(old(factory).floor@[coord as int], coord as int),
    ensures
        final(factory).wf(),
        same_but_floor(final(factory), old(factory)),
        forall|i: int| 0 <= i < FLOOR_CELLS_WH ==> #[trigger] same_but_ports_links_meta(final(factory).floor@[i], old(factory).floor@[i]),
        forall|i: int| 0 <= i < FLOOR_CELLS_WH && i != coord ==> #[trigger] same_ports(final(factory).floor@[i], old(factory).floor@[i]),
        (final(factory).floor@[coord as int].port_u, final(factory).floor@[coord as int].port_r,
            final(factory).floor@[coord as int].port_d, final(factory).floor@[coord as int].port_l)
            == spec_ports_with(old(factory).floor@[coord as int], dir, spec_undir_port(old(factory).floor@[coord as int].port(dir))),
{
    proof { lemma_floor_len(factory.floor@); }
    let p = match dir {
        Direction::Up => factory.floor[coord].port_u,
        Direction::Right => factory.floor[coord].port_r,
        Direction::Down => factory.floor[coord].port_d,
        Direction::Left => factory.floor[coord].port_l,
    };
    if p != Port::Absent {
        let ocoord = match dir {
            Direction::Up => coord - FLOOR_CELLS_W,
            Direction::Right => coord + 1,
            Direction::Down => coord + FLOOR_CELLS_W,
            Direction::Left => coord - 1,
        };
        set_port_dir(factory, coord, dir, Port::Unknown, ocoord);
    } else {
        proof {
            let c = old(factory).floor@[coord as int];
            assert(spec_ports_with(c, dir, Port::Absent) == (c.port_u, c.port_r, c.port_d, c.port_l));
        }
    }
}

/// Makes every port of the cell at `coord` unknown; sides without a port stay so.
fn undir_cell(factory: &mut Factory, coord: usize)
    requires
        old(factory).wf(),
        coord < FLOOR_CELLS_WH,
        spec_sides_face_floor(old(factory).floor@[coord as int], coord as int),
    ensures
        final(factory).wf(),
        same_but_floor(final(factory), old(factory)),
        forall|i: int| 0 <= i < FLOOR_CELLS_WH ==> #[trigger] same_but_ports_links_meta(final(factory).floor@[i], old(factory).floor@[i]),
        forall|i: int| 0 <= i < FLOOR_CELLS_WH && i != coord ==> #[trigger] same_ports(final(factory).floor@[i], old(factory).floor@[i]),
        ({
            let c = old(factory).floor@[coord as int];
            let d = final(factory).floor@[coord as int];
            d.port_u == spec_undir_port(c.port_u) && d.port_r == spec_undir_port(c.port_r)
                && d.port_d == spec_undir_port(c.port_d) && d.port_l == spec_undir_port(c.port_l)
        }),
{
    let ghost g0 = factory.floor@;
    undir_side(factory, coord, Direction::Up);
    let ghost g1 = factory.floor@;
    undir_side(factory, coord, Direction::Right);
    let ghost g2 = factory.floor@;
    undir_side(factory, coord, Direction::Down);
    let ghost g3 = factory.floor@;
    undir_side(factory, coord, Direction::Left);
    let ghost g4 = factory.floor@;
    proof {
        assert forall|i: int| 0 <= i < FLOOR_CELLS_WH implies #[trigger] same_but_ports_links_meta(g4[i], g0[i]) by {
            assert(same_but_ports_links_meta(g4[i], g3[i]));
            assert(same_but_ports_links_meta(g3[i], g2[i]));
            assert(same_but_ports_links_meta(g2[i], g1[i]));
            assert(same_but_ports_links_meta(g1[i], g0[i]));
        }
        assert forall|i: int| 0 <= i < FLOOR_CELLS_WH && i != coord implies #[trigger] same_ports(g4[i], g0[i]) by {
            assert(same_ports(g4[i], g3[i]));
            assert(same_ports(g3[i], g2[i]));
            assert(same_ports(g2[i], g1[i]));
            assert(same_ports(g1[i], g0[i]));
        }
    }
}

/// Turns every port of the floor into an unknown one, but for those of suppliers and
/// demanders, so that the directions are worked out anew. Sides without a port stay so. Kinds,
/// parts and everything but ports, links and belt descriptions stay as they were. The factory
/// is marked as changed.
pub fn factory_undir(factory: &mut Factory)
    requires
        old(factory).wf(),
        forall|i: int| 0 <= i < FLOOR_CELLS_WH ==> #[trigger] spec_sides_face_floor(old(factory).floor@[i], i)
            || old(factory).floor@[i].kind == CellKind::Supply || old(factory).floor@[i].kind == CellKind::Demand,
    ensures
        final(factory).wf(),
        final(factory).changed,
        same_but_floor_changed(final(factory), old(factory)),
        forall|i: int| 0 <= i < FLOOR_CELLS_WH ==> #[trigger] same_but_ports_links_meta(final(factory).floor@[i], old(factory).floor@[i]),
        forall|i: int| 0 <= i < FLOOR_CELLS_WH ==> {
            let c = #[trigger] old(factory).floor@[i];
            let d = final(factory).floor@[i];
            if c.kind == CellKind::Supply || c.kind == CellKind::Demand {
                same_ports(d, c)
            } else {
                d.port_u == spec_undir_port(c.port_u) && d.port_r == spec_undir_port(c.port_r)
                    && d.port_d == spec_undir_port(c.port_d) && d.port_l == spec_undir_port(c.port_l)
            }
        },
{
    let ghost f0 = factory.floor@;
    proof { lemma_floor_len(f0); }
    let mut coord: usize = 0;
    while coord < FLOOR_CELLS_WH
        invariant
            factory.wf(),
            same_but_floor(factory, old(factory)),
            f0 == old(factory).floor@,
            f0.len() == FLOOR_CELLS_WH,
            coord <= FLOOR_CELLS_WH,
            forall|i: int| 0 <= i < FLOOR_CELLS_WH ==> #[trigger] spec_sides_face_floor(f0[i], i)
                || f0[i].kind == CellKind::Supply || f0[i].kind == CellKind::Demand,
            forall|i: int| 0 <= i < FLOOR_CELLS_WH ==> #[trigger] same_but_ports_links_meta(factory.floor@[i], f0[i]),
            forall|i: int| coord <= i < FLOOR_CELLS_WH ==> #[trigger] same_ports(factory.floor@[i], f0[i]),
            forall|i: int| 0 <= i < coord ==> {
                let c = #[trigger] f0[i];
                let d = factory.floor@[i];
                if c.kind == CellKind::Supply || c.kind == CellKind::Demand {
                    same_ports(d, c)
                } else {
                    d.port_u == spec_undir_port(c.port_u) && d.port_r == spec_undir_port(c.port_r)
                        && d.port_d == spec_undir_port(c.port_d) && d.port_l == spec_undir_port(c.port_l)
                }
            },
        decreases FLOOR_CELLS_WH - coord,
    {
        let ghost g0 = factory.floor@;
        proof {
            assert(same_but_ports_links_meta(g0[coord as int], f0[coord as int]));
            assert(same_ports(g0[coord as int], f0[coord as int]));
        }
        if factory.floor[coord].kind != CellKind::Supply && factory.floor[coord].kind != CellKind::Demand {
            proof { assert(spec_sides_face_floor(f0[coord as int], coord as int)); }
            undir_cell(factory, coord);
        }
        proof {
            let g1 = factory.floor@;
            assert forall|i: int| 0 <= i < FLOOR_CELLS_WH implies #[trigger] same_but_ports_links_meta(g1[i], f0[i]) by {
                assert(same_but_ports_links_meta(g1[i], g0[i]));
                assert(same_but_ports_links_meta(g0[i], f0[i]));
            }
            assert forall|i: int| coord + 1 <= i < FLOOR_CELLS_WH implies #[trigger] same_ports(g1[i], f0[i]) by {
                assert(same_ports(g1[i], g0[i]));
                assert(same_ports(g0[i], f0[i]));
            }
            assert forall|i: int| 0 <= i < coord + 1 implies {
                let c = #[trigger] f0[i];
                let d = g1[i];
                if c.kind == CellKind::Supply || c.kind == CellKind::Demand {
                    same_ports(d, c)
                } else {
                    d.port_u == spec_undir_port(c.port_u) && d.port_r == spec_undir_port(c.port_r)
                        && d.port_d == spec_undir_port(c.port_d) && d.port_l == spec_undir_port(c.port_l)
                }
            } by {
                if i < coord {
                    assert(same_ports(g1[i], g0[i]));
                }
            }
        }
        coord = coord + 1;
    }
    factory.changed = true;
}

} // verus!
