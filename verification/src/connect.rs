use vstd::prelude::*;
use crate::belt::{spec_dir_links, dir_links, belt_discover_ins_and_outs};
use crate::cell::{Link, links_ok, lemma_floor_update, get_main_coord, Cell, CellKind, spec_port_set, spec_main_coord, same_but_ports_links_meta, spec_ports_with,
    lemma_floor_cell, lemma_floor_len, floor_wf, cell_set_port_u_to, cell_set_port_r_to, cell_set_port_d_to, cell_set_port_l_to};
use crate::direction::{Direction, spec_direction_reverse};
use crate::factory::{Factory, same_but_floor};
use crate::floor::FLOOR_CELLS_WH;
use crate::port::Port;

verus! {

/// The neighbor of a cell on side `dir`, if the floor has one there.
pub open spec fn spec_neighbor(c: Cell, dir: Direction) -> Option<usize> {
    match dir {
        Direction::Up => c.coord_u,
        Direction::Right => c.coord_r,
        Direction::Down => c.coord_d,
        Direction::Left => c.coord_l,
    }
}

/// The two cells have the same four ports.
pub open spec fn same_ports(a: Cell, b: Cell) -> bool {
    a.port_u == b.port_u && a.port_r == b.port_r && a.port_d == b.port_d && a.port_l == b.port_l
}

/// What setting a port keeps: every cell keeps all but its ports, links and belt description,
/// and only the cell whose port was set has other ports.
pub open spec fn spec_port_set_frame(f0: Seq<Cell>, f1: Seq<Cell>, from: int, dir: Direction, port: Port) -> bool {
    &&& f1.len() == f0.len()
    &&& forall|i: int| 0 <= i < f0.len() ==> #[trigger] same_but_ports_links_meta(f1[i], f0[i])
    &&& forall|i: int| 0 <= i < f0.len() && i != from ==> #[trigger] same_ports(f1[i], f0[i])
    &&& (f1[from].port_u, f1[from].port_r, f1[from].port_d, f1[from].port_l) == spec_ports_with(f0[from], dir, port)
}

/// Setting a port changes nothing but the ports of that cell and the links and belt
/// descriptions of that cell and of the cell that holds its links.
pub proof fn lemma_port_set_frame(f0: Seq<Cell>, f1: Seq<Cell>, from: int, dir: Direction, port: Port, ocoord: usize)
    requires
        0 <= from < f0.len(),
        0 <= spec_main_coord(f0, from) < f0.len(),
        spec_port_set(f0, f1, from, dir, port, ocoord),
    ensures
        spec_port_set_frame(f0, f1, from, dir, port),
{
    reveal(spec_port_set);
    let m = spec_main_coord(f0, from);
    if f0[from].port(dir) != port {
        assert forall|i: int| 0 <= i < f0.len() implies #[trigger] same_but_ports_links_meta(f1[i], f0[i]) by {
            if i != from && i != m {
                assert(f1[i] == f0[i]);
            }
        }
        assert forall|i: int| 0 <= i < f0.len() && i != from implies #[trigger] same_ports(f1[i], f0[i]) by {
            if i != m {
                assert(f1[i] == f0[i]);
            }
        }
    }
}

/// Sets the port on side `dir` of the cell at `coord`, whose neighbor on that side is `ocoord`.
pub fn set_port_dir(factory: &mut Factory, coord: usize, dir: Direction, port: Port, ocoord: usize)
    requires
        old(factory).wf(),
        coord < FLOOR_CELLS_WH,
        ocoord < FLOOR_CELLS_WH,
    ensures
        final(factory).wf(),
        same_but_floor(final(factory), old(factory)),
        spec_port_set(old(factory).floor@, final(factory).floor@, coord as int, dir, port, ocoord),
        spec_port_set_frame(old(factory).floor@, final(factory).floor@, coord as int, dir, port),
{
    proof { lemma_floor_cell(factory.floor@, coord as int); }
    match dir {
        Direction::Up => cell_set_port_u_to(factory, coord, port, ocoord),
        Direction::Right => cell_set_port_r_to(factory, coord, port, ocoord),
        Direction::Down => cell_set_port_d_to(factory, coord, port, ocoord),
        Direction::Left => cell_set_port_l_to(factory, coord, port, ocoord),
    }
    proof {
        lemma_port_set_frame(old(factory).floor@, factory.floor@, coord as int, dir, port, ocoord);
    }
}

/// A supplier next to the cell on side `dir` has its outbound port facing it, and a demander
/// there has its inbound port facing it.
pub open spec fn spec_facing_ok(f: Seq<Cell>, coord: int, dir: Direction) -> bool {
    match spec_neighbor(f[coord], dir) {
        None => true,
        Some(o) => {
            &&& f[o as int].kind == CellKind::Supply ==> f[o as int].port(spec_direction_reverse(dir)) == Port::Outbound
            &&& f[o as int].kind == CellKind::Demand ==> f[o as int].port(spec_direction_reverse(dir)) == Port::Inbound
        },
    }
}

/// The floor after the belt at `coord` connected to its neighbor on side `dir`: a belt or
/// machine there gets an unknown port facing the belt and the belt an unknown port facing it;
/// next to a supplier the belt gets an inbound port, next to a demander an outbound one.
pub open spec fn spec_connect_side(f0: Seq<Cell>, f1: Seq<Cell>, coord: int, dir: Direction) -> bool {
    match spec_neighbor(f0[coord], dir) {
        None => f1 == f0,
        Some(o) => {
            let k = f0[o as int].kind;
            if k == CellKind::Empty {
                f1 == f0
            } else if k == CellKind::Belt || k == CellKind::Machine {
                exists|mid: Seq<Cell>|
                    #[trigger] spec_port_set(f0, mid, o as int, spec_direction_reverse(dir), Port::Unknown, coord as usize)
                    && spec_port_set(mid, f1, coord, dir, Port::Unknown, o)
            } else if k == CellKind::Supply {
                spec_port_set(f0, f1, coord, dir, Port::Inbound, o)
            } else {
                spec_port_set(f0, f1, coord, dir, Port::Outbound, o)
            }
        },
    }
}

/// What connecting one side keeps: every cell keeps all but its ports, links and belt
/// description; only the cell and its neighbor on that side get other ports, and the cell
/// only on that side.
pub open spec fn spec_side_frame(f0: Seq<Cell>, f1: Seq<Cell>, coord: int, dir: Direction) -> bool {
    &&& f1.len() == f0.len()
    &&& forall|i: int| 0 <= i < f0.len() ==> #[trigger] same_but_ports_links_meta(f1[i], f0[i])
    &&& forall|i: int| 0 <= i < f0.len() && i != coord && spec_neighbor(f0[coord], dir) != Some(i as usize)
        ==> #[trigger] same_ports(f1[i], f0[i])
    &&& forall|d: Direction| d != dir ==> #[trigger] f1[coord].port(d) == f0[coord].port(d)
}

proof fn lemma_side_frame_one(f0: Seq<Cell>, f1: Seq<Cell>, coord: int, dir: Direction, p: Port)
    requires
        0 <= coord < f0.len(),
        spec_port_set_frame(f0, f1, coord, dir, p),
    ensures
        spec_side_frame(f0, f1, coord, dir),
{
    assert forall|d: Direction| d != dir implies #[trigger] f1[coord].port(d) == f0[coord].port(d) by {}
}

proof fn lemma_side_frame_two(f0: Seq<Cell>, mid: Seq<Cell>, f1: Seq<Cell>, coord: int, o: int, dir: Direction)
    requires
        0 <= coord < f0.len(),
        0 <= o < f0.len(),
        o != coord,
        spec_neighbor(f0[coord], dir) == Some(o as usize),
        spec_port_set_frame(f0, mid, o, spec_direction_reverse(dir), Port::Unknown),
        spec_port_set_frame(mid, f1, coord, dir, Port::Unknown),
    ensures
        spec_side_frame(f0, f1, coord, dir),
{
    assert forall|i: int| 0 <= i < f0.len() implies #[trigger] same_but_ports_links_meta(f1[i], f0[i]) by {
        assert(same_but_ports_links_meta(f1[i], mid[i]));
        assert(same_but_ports_links_meta(mid[i], f0[i]));
    }
    assert forall|i: int| 0 <= i < f0.len() && i != coord && spec_neighbor(f0[coord], dir) != Some(i as usize)
        implies #[trigger] same_ports(f1[i], f0[i]) by {
        assert(same_ports(f1[i], mid[i]));
        assert(same_ports(mid[i], f0[i]));
    }
    assert(same_ports(mid[coord], f0[coord]));
    assert forall|d: Direction| d != dir implies #[trigger] f1[coord].port(d) == f0[coord].port(d) by {}
}

/// Connects the belt at `coord` to its neighbor on side `dir`; see `spec_connect_side`.
fn connect_side(factory: &mut Factory, coord: usize, dir: Direction)
    requires
        old(factory).wf(),
        coord < FLOOR_CELLS_WH,
        spec_facing_ok(old(factory).floor@, coord as int, dir),
    ensures
        final(factory).wf(),
        same_but_floor(final(factory), old(factory)),
        spec_connect_side(old(factory).floor@, final(factory).floor@, coord as int, dir),
        spec_side_frame(old(factory).floor@, final(factory).floor@, coord as int, dir),
{
    proof { lemma_floor_cell(factory.floor@, coord as int); }
    let ghost f0 = factory.floor@;
    let n = match dir {
        Direction::Up => factory.floor[coord].coord_u,
        Direction::Right => factory.floor[coord].coord_r,
        Direction::Down => factory.floor[coord].coord_d,
        Direction::Left => factory.floor[coord].coord_l,
    };
    if let Some(ocoord) = n {
        let rev = crate::direction::direction_reverse(dir);
        match factory.floor[ocoord].kind {
            CellKind::Empty => {},
            CellKind::Belt | CellKind::Machine => {
                set_port_dir(factory, ocoord, rev, Port::Unknown, coord);
                let ghost mid = factory.floor@;
                set_port_dir(factory, coord, dir, Port::Unknown, ocoord);
                proof {
                    assert(spec_port_set(f0, mid, ocoord as int, spec_direction_reverse(dir), Port::Unknown, coord as usize)
                        && spec_port_set(mid, factory.floor@, coord as int, dir, Port::Unknown, ocoord));
                    lemma_side_frame_two(f0, mid, factory.floor@, coord as int, ocoord as int, dir);
                }
            },
            CellKind::Supply => {
                set_port_dir(factory, coord, dir, Port::Inbound, ocoord);
                proof { lemma_side_frame_one(f0, factory.floor@, coord as int, dir, Port::Inbound); }
            },
            CellKind::Demand => {
                set_port_dir(factory, coord, dir, Port::Outbound, ocoord);
                proof { lemma_side_frame_one(f0, factory.floor@, coord as int, dir, Port::Outbound); }
            },
        }
    }
}

/// The floor after the belt at `coord` connected to each of its neighbors, in the order
/// up, right, down, left.
pub open spec fn spec_connect_all_sides(f0: Seq<Cell>, f4: Seq<Cell>, coord: int) -> bool {
    exists|f1: Seq<Cell>| #[trigger] spec_connect_side(f0, f1, coord, Direction::Up)
        && exists|f2: Seq<Cell>| #[trigger] spec_connect_side(f1, f2, coord, Direction::Right)
        && exists|f3: Seq<Cell>| #[trigger] spec_connect_side(f2, f3, coord, Direction::Down)
        && spec_connect_side(f3, f4, coord, Direction::Left)
}

proof fn lemma_facing_kept(f0: Seq<Cell>, f1: Seq<Cell>, coord: int, dir: Direction, d2: Direction)
    requires
        f0[coord].wf_at(coord),
        f0.len() == FLOOR_CELLS_WH,
        spec_side_frame(f0, f1, coord, dir),
        d2 != dir,
        spec_facing_ok(f0, coord, d2),
    ensures
        spec_facing_ok(f1, coord, d2),
        f1[coord].kind == f0[coord].kind,
{
    assert(same_but_ports_links_meta(f1[coord], f0[coord]));
    match spec_neighbor(f0[coord], d2) {
        None => {},
        Some(o) => {
            assert(same_but_ports_links_meta(f1[o as int], f0[o as int]));
            assert(same_ports(f1[o as int], f0[o as int]));
        },
    }
}

/// Connects a freshly placed belt at `coord` to every neighbor that is not empty; see
/// `spec_connect_side`.
pub fn connect_belt_to_existing_neighbor_cells(factory: &mut Factory, coord: usize)
    requires
        old(factory).wf(),
        coord < FLOOR_CELLS_WH,
        spec_facing_ok(old(factory).floor@, coord as int, Direction::Up),
        spec_facing_ok(old(factory).floor@, coord as int, Direction::Right),
        spec_facing_ok(old(factory).floor@, coord as int, Direction::Down),
        spec_facing_ok(old(factory).floor@, coord as int, Direction::Left),
    ensures
        final(factory).wf(),
        same_but_floor(final(factory), old(factory)),
        spec_connect_all_sides(old(factory).floor@, final(factory).floor@, coord as int),
{
    let ghost c = coord as int;
    let ghost f0 = factory.floor@;
    proof { lemma_floor_cell(f0, c); }
    connect_side(factory, coord, Direction::Up);
    let ghost f1 = factory.floor@;
    proof {
        lemma_floor_cell(f1, c);
        lemma_facing_kept(f0, f1, c, Direction::Up, Direction::Right);
        lemma_facing_kept(f0, f1, c, Direction::Up, Direction::Down);
        lemma_facing_kept(f0, f1, c, Direction::Up, Direction::Left);
    }
    connect_side(factory, coord, Direction::Right);
    let ghost f2 = factory.floor@;
    proof {
        lemma_floor_cell(f2, c);
        lemma_facing_kept(f1, f2, c, Direction::Right, Direction::Down);
        lemma_facing_kept(f1, f2, c, Direction::Right, Direction::Left);
    }
    connect_side(factory, coord, Direction::Down);
    let ghost f3 = factory.floor@;
    proof {
        lemma_floor_cell(f3, c);
        lemma_facing_kept(f2, f3, c, Direction::Down, Direction::Left);
    }
    connect_side(factory, coord, Direction::Left);
    proof {
        assert(spec_connect_side(f0, f1, c, Direction::Up));
        assert(spec_connect_side(f1, f2, c, Direction::Right));
        assert(spec_connect_side(f2, f3, c, Direction::Down));
    }
}

/// The links of a machine: those of each of its cells in turn, each cell's in the order up,
/// right, down, left.
pub open spec fn spec_machine_links(f: Seq<Cell>, coords: Seq<usize>, p: Port) -> Seq<Link>
    decreases coords.len(),
{
    if coords.len() == 0 {
        seq![]
    } else {
        spec_machine_links(f, coords.drop_last(), p) + spec_dir_links(f[coords.last() as int], coords.last() as int, p)
    }
}

/// The floor after the links of the cell at `m` were replaced by `ins` and `outs`.
pub open spec fn spec_links_rebuilt(f0: Seq<Cell>, f1: Seq<Cell>, m: int, ins: Seq<Link>, outs: Seq<Link>) -> bool {
    &&& f1 == f0.update(m, Cell { ins: f1[m].ins, outs: f1[m].outs, ..f0[m] })
    &&& f1[m].ins@ == ins
    &&& f1[m].outs@ == outs
}

proof fn lemma_links_ok_concat(a: Seq<Link>, b: Seq<Link>)
    requires
        links_ok(a),
        links_ok(b),
    ensures
        links_ok(a + b),
{
    assert forall|i: int| 0 <= i < (a + b).len() implies #[trigger] (a + b)[i].1 < FLOOR_CELLS_WH && (a + b)[i].2 < FLOOR_CELLS_WH by {
        if i < a.len() {
            assert((a + b)[i] == a[i]);
        } else {
            assert((a + b)[i] == b[i - a.len()]);
        }
    }
}

/// Rebuilds the links of a machine, held by its main cell at `main_coord`, from the ports of
/// all of its cells.
pub fn machine_discover_ins_and_outs(factory: &mut Factory, main_coord: usize)
    requires
        old(factory).wf(),
        main_coord < FLOOR_CELLS_WH,
    ensures
        final(factory).wf(),
        same_but_floor(final(factory), old(factory)),
        spec_links_rebuilt(old(factory).floor@, final(factory).floor@, main_coord as int,
            spec_machine_links(old(factory).floor@, old(factory).floor@[main_coord as int].machine.coords@, Port::Inbound),
            spec_machine_links(old(factory).floor@, old(factory).floor@[main_coord as int].machine.coords@, Port::Outbound)),
{
    let ghost f0 = factory.floor@;
    proof { lemma_floor_cell(f0, main_coord as int); }
    let ghost coords = f0[main_coord as int].machine.coords@;
    let n = factory.floor[main_coord].machine.coords.len();
    let mut ins: Vec<Link> = Vec::new();
    let mut outs: Vec<Link> = Vec::new();
    let mut j: usize = 0;
    while j < n
        invariant
            factory.floor@ == f0,
            factory.wf(),
            main_coord < FLOOR_CELLS_WH,
            coords == f0[main_coord as int].machine.coords@,
            f0[main_coord as int].wf_at(main_coord as int),
            n == coords.len(),
            j <= n,
            ins@ == spec_machine_links(f0, coords.take(j as int), Port::Inbound),
            outs@ == spec_machine_links(f0, coords.take(j as int), Port::Outbound),
            links_ok(ins@),
            links_ok(outs@),
        decreases n - j,
    {
        let c = factory.floor[main_coord].machine.coords[j];
        proof {
            assert(crate::cell::spec_coord_is_middle(coords[j as int] as int));
            assert(coords.take(j + 1).drop_last() =~= coords.take(j as int));
            assert(coords.take(j + 1).last() == c);
        }
        let mut i_links = dir_links(&factory.floor[c], c, Port::Inbound);
        let mut o_links = dir_links(&factory.floor[c], c, Port::Outbound);
        proof {
            lemma_links_ok_concat(ins@, i_links@);
            lemma_links_ok_concat(outs@, o_links@);
        }
        ins.append(&mut i_links);
        outs.append(&mut o_links);
        j = j + 1;
    }
    proof { assert(coords.take(n as int) =~= coords); }
    factory.floor[main_coord].ins = ins;
    factory.floor[main_coord].outs = outs;
    proof {
        assert(factory.floor@[main_coord as int].wf_at(main_coord as int));
        lemma_floor_update(f0, main_coord as int, factory.floor@[main_coord as int]);
        assert(factory.floor@ =~= f0.update(main_coord as int, factory.floor@[main_coord as int]));
    }
}

/// Which ports `cell_connect_if_possible` puts on the side of the first and of the second
/// cell, given their kinds (`None`: that side is left alone).
pub open spec fn spec_connect_plan(from_kind: CellKind, to_kind: CellKind) -> (Option<Port>, Option<Port>) {
    if from_kind == CellKind::Supply || to_kind == CellKind::Supply {
        (
            if from_kind != CellKind::Supply { Some(Port::Inbound) } else { None },
            if to_kind != CellKind::Supply { Some(Port::Inbound) } else { None },
        )
    } else if from_kind == CellKind::Demand || to_kind == CellKind::Demand {
        (
            if from_kind != CellKind::Demand { Some(Port::Outbound) } else { None },
            if to_kind != CellKind::Demand { Some(Port::Outbound) } else { None },
        )
    } else if from_kind == CellKind::Empty || to_kind == CellKind::Empty {
        (None, None)
    } else if from_kind == CellKind::Machine && to_kind == CellKind::Machine {
        (None, None)
    } else {
        (Some(Port::Outbound), Some(Port::Inbound))
    }
}

/// The side of the first cell that faces the second, for a step of (dx, dy).
pub open spec fn spec_dir_of_delta(dx: i8, dy: i8) -> Direction {
    if dy == -1 {
        Direction::Up
    } else if dx == 1 {
        Direction::Right
    } else if dy == 1 {
        Direction::Down
    } else {
        Direction::Left
    }
}

/// Sets the port on side `dir` of the cell at `c`, unless there is no port to set.
pub open spec fn spec_maybe_port_set(f0: Seq<Cell>, f1: Seq<Cell>, c: int, dir: Direction, p: Option<Port>, o: usize) -> bool {
    match p {
        None => f1 == f0,
        Some(p) => spec_port_set(f0, f1, c, dir, p, o),
    }
}

/// The floor after the links of the cell at `c`, of kind `kind`, were rebuilt from its ports
/// (for a machine: the links of the whole machine, on its main cell).
pub open spec fn spec_rediscover(f0: Seq<Cell>, f1: Seq<Cell>, c: int, kind: CellKind) -> bool {
    if kind == CellKind::Belt {
        spec_links_rebuilt(f0, f1, c, spec_dir_links(f0[c], c, Port::Inbound), spec_dir_links(f0[c], c, Port::Outbound))
    } else if kind == CellKind::Machine {
        let m = spec_main_coord(f0, c);
        spec_links_rebuilt(f0, f1, m,
            spec_machine_links(f0, f0[m].machine.coords@, Port::Inbound),
            spec_machine_links(f0, f0[m].machine.coords@, Port::Outbound))
    } else {
        f1 == f0
    }
}

/// The floor after `cell_connect_if_possible` connected the cells at `from` and `to`.
pub open spec fn spec_cells_connected(f0: Seq<Cell>, f4: Seq<Cell>, from: usize, to: usize, dir: Direction) -> bool {
    let plan = spec_connect_plan(f0[from as int].kind, f0[to as int].kind);
    exists|f1: Seq<Cell>| #[trigger] spec_maybe_port_set(f0, f1, from as int, dir, plan.0, to)
        && exists|f2: Seq<Cell>| #[trigger] spec_maybe_port_set(f1, f2, to as int, spec_direction_reverse(dir), plan.1, from)
        && exists|f3: Seq<Cell>| #[trigger] spec_rediscover(f2, f3, from as int, f0[from as int].kind)
        && spec_rediscover(f3, f4, to as int, f0[to as int].kind)
}

/// Every cell's links are held by a cell of the floor.
pub open spec fn spec_mains_in(f: Seq<Cell>) -> bool {
    forall|i: int| 0 <= i < f.len() ==> 0 <= #[trigger] spec_main_coord(f, i) < f.len()
}

proof fn lemma_maybe_port_set_ports(f0: Seq<Cell>, f1: Seq<Cell>, c: int, dir: Direction, p: Option<Port>, o: usize)
    requires
        0 <= c < f0.len(),
        spec_mains_in(f0),
        spec_maybe_port_set(f0, f1, c, dir, p, o),
    ensures
        f1.len() == f0.len(),
        p matches Some(q) ==> f1[c].port(dir) == q,
        p is None ==> same_ports(f1[c], f0[c]),
        forall|i: int| 0 <= i < f0.len() && i != c ==> #[trigger] same_ports(f1[i], f0[i]),
        forall|i: int| 0 <= i < f0.len() ==> (#[trigger] f1[i]).kind == f0[i].kind && f1[i].machine == f0[i].machine,
        spec_mains_in(f1),
{
    reveal(spec_port_set);
    match p {
        None => {},
        Some(q) => {
            let m = spec_main_coord(f0, c);
            assert(0 <= m < f0.len());
            assert(spec_port_set(f0, f1, c, dir, q, o));
            if f0[c].port(dir) != q {
                assert(f1.len() == f0.len());
                assert(forall|i: int| 0 <= i < f0.len() && i != c && i != m ==> f1[i] == f0[i]);
                assert(f1[c].port(dir) == q) by {
                    match dir {
                        Direction::Up => {},
                        Direction::Right => {},
                        Direction::Down => {},
                        Direction::Left => {},
                    }
                }
                assert forall|i: int| 0 <= i < f0.len() && i != c implies #[trigger] same_ports(f1[i], f0[i]) by {
                    if i != m {
                        assert(f1[i] == f0[i]);
                    }
                }
                assert forall|i: int| 0 <= i < f0.len() implies (#[trigger] f1[i]).kind == f0[i].kind && f1[i].machine == f0[i].machine by {
                    if i != m && i != c {
                        assert(f1[i] == f0[i]);
                    }
                }
            }
            assert forall|i: int| 0 <= i < f1.len() implies 0 <= #[trigger] spec_main_coord(f1, i) < f1.len() by {
                assert(f1[i].kind == f0[i].kind && f1[i].machine == f0[i].machine);
                assert(spec_main_coord(f0, i) == spec_main_coord(f1, i));
            }
        },
    }
}

proof fn lemma_rediscover_ports(f0: Seq<Cell>, f1: Seq<Cell>, c: int, kind: CellKind)
    requires
        0 <= c < f0.len(),
        spec_mains_in(f0),
        spec_rediscover(f0, f1, c, kind),
    ensures
        f1.len() == f0.len(),
        forall|i: int| 0 <= i < f0.len() ==> #[trigger] same_ports(f1[i], f0[i]),
        forall|i: int| 0 <= i < f0.len() ==> (#[trigger] f1[i]).kind == f0[i].kind && f1[i].machine == f0[i].machine,
        spec_mains_in(f1),
{
    let m = if kind == CellKind::Belt { c } else { spec_main_coord(f0, c) };
    assert(0 <= m < f0.len());
    if kind == CellKind::Belt || kind == CellKind::Machine {
        assert forall|i: int| 0 <= i < f0.len() implies #[trigger] same_ports(f1[i], f0[i])
            && f1[i].kind == f0[i].kind && f1[i].machine == f0[i].machine by {
            if i != m { assert(f1[i] == f0[i]); }
        }
    }
    assert forall|i: int| 0 <= i < f1.len() implies 0 <= #[trigger] spec_main_coord(f1, i) < f1.len() by {
        assert(f1[i].kind == f0[i].kind && f1[i].machine == f0[i].machine);
        assert(spec_main_coord(f0, i) == spec_main_coord(f1, i));
    }
}

/// On a well formed floor every cell's links are held by a cell of the floor.
pub proof fn lemma_wf_mains_in(f: Seq<Cell>)
    requires
        floor_wf(f),
    ensures
        spec_mains_in(f),
{
    lemma_floor_len(f);
    assert forall|i: int| 0 <= i < f.len() implies 0 <= #[trigger] spec_main_coord(f, i) < f.len() by {
        lemma_floor_cell(f, i);
    }
}

/// What connecting two different cells does to the ports that face each other: next to a
/// supplier the other cell gets an inbound port; else next to a demander the other cell gets an
/// outbound port; else with an empty cell on either end neither cell's ports change; else
/// (unless both are machine cells) the first cell sends to the second, its facing port becoming
/// outbound and the second's inbound; two machine cells keep their ports.
pub proof fn lemma_connect_facing_ports(f0: Seq<Cell>, f4: Seq<Cell>, from: usize, to: usize, dir: Direction)
    requires
        from < f0.len(),
        to < f0.len(),
        from != to,
        spec_mains_in(f0),
        spec_cells_connected(f0, f4, from, to, dir),
    ensures
        ({
            let fk = f0[from as int].kind;
            let tk = f0[to as int].kind;
            let back = spec_direction_reverse(dir);
            &&& tk == CellKind::Supply && fk != CellKind::Supply ==> f4[from as int].port(dir) == Port::Inbound
            &&& fk == CellKind::Supply && tk != CellKind::Supply ==> f4[to as int].port(back) == Port::Inbound
            &&& fk != CellKind::Supply && tk != CellKind::Supply && tk == CellKind::Demand && fk != CellKind::Demand
                ==> f4[from as int].port(dir) == Port::Outbound
            &&& fk != CellKind::Supply && tk != CellKind::Supply && fk == CellKind::Demand && tk != CellKind::Demand
                ==> f4[to as int].port(back) == Port::Outbound
            &&& fk != CellKind::Supply && tk != CellKind::Supply && fk != CellKind::Demand && tk != CellKind::Demand
                && (fk == CellKind::Empty || tk == CellKind::Empty)
                ==> same_ports(f4[from as int], f0[from as int]) && same_ports(f4[to as int], f0[to as int])
            &&& fk != CellKind::Supply && tk != CellKind::Supply && fk != CellKind::Demand && tk != CellKind::Demand
                && fk != CellKind::Empty && tk != CellKind::Empty && !(fk == CellKind::Machine && tk == CellKind::Machine)
                ==> f4[from as int].port(dir) == Port::Outbound && f4[to as int].port(back) == Port::Inbound
            &&& fk == CellKind::Machine && tk == CellKind::Machine
                ==> same_ports(f4[from as int], f0[from as int]) && same_ports(f4[to as int], f0[to as int])
        }),
{
    let plan = spec_connect_plan(f0[from as int].kind, f0[to as int].kind);
    let back = spec_direction_reverse(dir);
    let f1 = choose|f1: Seq<Cell>| #[trigger] spec_maybe_port_set(f0, f1, from as int, dir, plan.0, to)
        && exists|f2: Seq<Cell>| #[trigger] spec_maybe_port_set(f1, f2, to as int, back, plan.1, from)
        && exists|f3: Seq<Cell>| #[trigger] spec_rediscover(f2, f3, from as int, f0[from as int].kind)
        && spec_rediscover(f3, f4, to as int, f0[to as int].kind);
    lemma_maybe_port_set_ports(f0, f1, from as int, dir, plan.0, to);
    let f2 = choose|f2: Seq<Cell>| #[trigger] spec_maybe_port_set(f1, f2, to as int, back, plan.1, from)
        && exists|f3: Seq<Cell>| #[trigger] spec_rediscover(f2, f3, from as int, f0[from as int].kind)
        && spec_rediscover(f3, f4, to as int, f0[to as int].kind);
    lemma_maybe_port_set_ports(f1, f2, to as int, back, plan.1, from);
    let f3 = choose|f3: Seq<Cell>| #[trigger] spec_rediscover(f2, f3, from as int, f0[from as int].kind)
        && spec_rediscover(f3, f4, to as int, f0[to as int].kind);
    lemma_rediscover_ports(f2, f3, from as int, f0[from as int].kind);
    lemma_rediscover_ports(f3, f4, to as int, f0[to as int].kind);
    assert(same_ports(f4[from as int], f3[from as int]) && same_ports(f3[from as int], f2[from as int])
        && same_ports(f2[from as int], f1[from as int]));
    assert(same_ports(f4[to as int], f3[to as int]) && same_ports(f3[to as int], f2[to as int])
        && same_ports(f1[to as int], f0[to as int]));
}

/// Sets the port on side `dir` of the cell at `c` when `p` names one.
fn maybe_set_port(factory: &mut Factory, c: usize, dir: Direction, p: Option<Port>, o: usize)
    requires
        old(factory).wf(),
        c < FLOOR_CELLS_WH,
        o < FLOOR_CELLS_WH,
    ensures
        final(factory).wf(),
        same_but_floor(final(factory), old(factory)),
        spec_maybe_port_set(old(factory).floor@, final(factory).floor@, c as int, dir, p, o),
        forall|i: int| 0 <= i < FLOOR_CELLS_WH ==> #[trigger] final(factory).floor@[i].kind == old(factory).floor@[i].kind
            && final(factory).floor@[i].machine == old(factory).floor@[i].machine,
{
    proof { lemma_floor_len(factory.floor@); }
    match p {
        None => {},
        Some(p) => {
            set_port_dir(factory, c, dir, p, o);
            proof {
                assert forall|i: int| 0 <= i < FLOOR_CELLS_WH implies #[trigger] factory.floor@[i].kind == old(factory).floor@[i].kind
                    && factory.floor@[i].machine == old(factory).floor@[i].machine by {
                    assert(same_but_ports_links_meta(factory.floor@[i], old(factory).floor@[i]));
                }
            }
        },
    }
}

/// Rebuilds the links of the cell at `c` if it is a belt or a machine.
fn rediscover(factory: &mut Factory, c: usize, kind: CellKind)
    requires
        old(factory).wf(),
        c < FLOOR_CELLS_WH,
        old(factory).floor@[c as int].kind == kind,
    ensures
        final(factory).wf(),
        same_but_floor(final(factory), old(factory)),
        spec_rediscover(old(factory).floor@, final(factory).floor@, c as int, kind),
        forall|i: int| 0 <= i < FLOOR_CELLS_WH ==> #[trigger] final(factory).floor@[i].kind == old(factory).floor@[i].kind
            && final(factory).floor@[i].machine == old(factory).floor@[i].machine,
{
    proof { lemma_floor_len(factory.floor@); }
    if kind == CellKind::Belt {
        proof { lemma_floor_cell(factory.floor@, c as int); }
        belt_discover_ins_and_outs(factory, c);
    } else if kind == CellKind::Machine {
        let m = get_main_coord(factory, c);
        machine_discover_ins_and_outs(factory, m);
    }
}

/// Connects two adjacent cells, (dx, dy) being the step from the first to the second: next to
/// a supplier the other cell gets an inbound port, next to a demander an outbound one, with an
/// empty cell on either end no port changes, two machine cells stay unconnected, and
/// otherwise the first cell sends to the second. The links of both cells are then rebuilt.
pub fn cell_connect_if_possible(factory: &mut Factory, coord_from: usize, coord_to: usize, dx: i8, dy: i8)
    requires
        old(factory).wf(),
        coord_from < FLOOR_CELLS_WH,
        coord_to < FLOOR_CELLS_WH,
        (dx == 0) != (dy == 0),
        -1 <= dx <= 1,
        -1 <= dy <= 1,
    ensures
        final(factory).wf(),
        same_but_floor(final(factory), old(factory)),
        spec_cells_connected(old(factory).floor@, final(factory).floor@, coord_from, coord_to, spec_dir_of_delta(dx, dy)),
{
    let ghost f0 = factory.floor@;
    proof { lemma_floor_len(f0); }
    let from_kind = factory.floor[coord_from].kind;
    let to_kind = factory.floor[coord_to].kind;
    let dir = if dy == -1 {
        Direction::Up
    } else if dx == 1 {
        Direction::Right
    } else if dy == 1 {
        Direction::Down
    } else {
        Direction::Left
    };
    let rev = crate::direction::direction_reverse(dir);
    let plan: (Option<Port>, Option<Port>) =
        if from_kind == CellKind::Supply || to_kind == CellKind::Supply {
            (
                if from_kind != CellKind::Supply { Some(Port::Inbound) } else { None },
                if to_kind != CellKind::Supply { Some(Port::Inbound) } else { None },
            )
        } else if from_kind == CellKind::Demand || to_kind == CellKind::Demand {
            (
                if from_kind != CellKind::Demand { Some(Port::Outbound) } else { None },
                if to_kind != CellKind::Demand { Some(Port::Outbound) } else { None },
            )
        } else if from_kind == CellKind::Empty || to_kind == CellKind::Empty {
            (None, None)
        } else if from_kind == CellKind::Machine && to_kind == CellKind::Machine {
            (None, None)
        } else {
            (Some(Port::Outbound), Some(Port::Inbound))
        };
    maybe_set_port(factory, coord_from, dir, plan.0, coord_to);
    let ghost f1 = factory.floor@;
    maybe_set_port(factory, coord_to, rev, plan.1, coord_from);
    let ghost f2 = factory.floor@;
    rediscover(factory, coord_from, from_kind);
    let ghost f3 = factory.floor@;
    rediscover(factory, coord_to, to_kind);
    proof {
        assert(plan == spec_connect_plan(f0[coord_from as int].kind, f0[coord_to as int].kind));
        assert(dir == spec_dir_of_delta(dx, dy));
        assert(spec_rediscover(f3, factory.floor@, coord_to as int, f0[coord_to as int].kind));
        assert(spec_maybe_port_set(f0, f1, coord_from as int, dir, plan.0, coord_to));
        assert(spec_maybe_port_set(f1, f2, coord_to as int, spec_direction_reverse(dir), plan.1, coord_from));
        assert(spec_rediscover(f2, f3, coord_from as int, f0[coord_from as int].kind));
    }
}

} // verus!
