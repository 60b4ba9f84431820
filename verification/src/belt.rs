use vstd::prelude::*;
use crate::belt_meta::{BeltMeta, BeltType, belt_type_to_belt_meta, spec_belt_type_to_belt_meta};
use crate::belt_meta::{belt_type_from_ports, spec_belt_type_from_ports};
use crate::cell::{Cell, CellKind, Link, links_ok, spec_coord_is_middle, lemma_floor_cell, lemma_floor_len, lemma_floor_update, lemma_floor_update_frame, spec_back_of_the_line, back_of_the_line, lemma_links_ok_back_of_the_line};
use crate::direction::Direction;
use crate::factory::{Factory, same_but_floor};
use crate::floor::{FLOOR_CELLS_W, FLOOR_CELLS_H, FLOOR_CELLS_WH, to_coord_up, to_coord_right, to_coord_down, to_coord_left};
use crate::port::Port;
use crate::supply::{Supply, spec_supply_cleared};
use crate::demand::{demand_ready, spec_demand_ready, spec_demand_received};
use crate::part::{Part, part_none, spec_part_none, CONFIG_NODE_PART_NONE};

verus! {

/// Number of ticks a part needs to cross one belt cell.
pub const BELT_SPEED_TICKS: u64 = 1000;

/// The belt specific state of a cell.
#[derive(Clone, Copy, Debug, PartialEq, Eq, Structural)]
pub struct Belt {
    pub meta: BeltMeta,
    pub part: Part,
    pub part_from: Direction,
    pub part_to: Direction,
    /// When set, `part_to` is not decided yet (no outbound port was available).
    pub part_to_tbd: bool,
    pub part_at: u64,
    /// Ticks the part has been moving over this belt; stops at `speed`.
    pub part_progress: u64,
    pub speed: u64,
    pub tick_price: i32,
    pub sprite_start_at: u64,
}

} // verus!

verus! {

pub open spec fn spec_belt_none() -> Belt {
    Belt {
        meta: spec_belt_type_to_belt_meta(BeltType::NONE),
        part: spec_part_none(),
        part_from: Direction::Up,
        part_to: Direction::Up,
        part_to_tbd: true,
        part_at: 0,
        part_progress: 0,
        speed: 0,
        tick_price: 0,
        sprite_start_at: 0,
    }
}

/// The belt state of a cell that is not a belt.
pub fn belt_none() -> (b: Belt)
    ensures
        b == spec_belt_none(),
{
    Belt {
        meta: belt_type_to_belt_meta(BeltType::NONE),
        part: part_none(),
        part_from: Direction::Up,
        part_to: Direction::Up,
        part_to_tbd: true,
        part_at: 0,
        part_progress: 0,
        speed: 0,
        tick_price: 0,
        sprite_start_at: 0,
    }
}

pub open spec fn spec_belt_new(meta: BeltMeta) -> Belt {
    Belt {
        meta,
        part: spec_part_none(),
        part_from: Direction::Up,
        part_to: Direction::Up,
        part_to_tbd: true,
        part_at: 0,
        part_progress: 0,
        speed: BELT_SPEED_TICKS,
        tick_price: 0,
        sprite_start_at: 0,
    }
}

/// A fresh belt of the given shape, without a part.
pub fn belt_new(meta: BeltMeta) -> (b: Belt)
    ensures
        b == spec_belt_new(meta),
{
    Belt {
        meta,
        part: part_none(),
        part_from: Direction::Up,
        part_to: Direction::Up,
        part_to_tbd: true,
        part_at: 0,
        part_progress: 0,
        speed: BELT_SPEED_TICKS,
        tick_price: 0,
        sprite_start_at: 0,
    }
}

} // verus!

verus! {

/// The links of a cell for its ports of kind `p`, in the order up, right, down, left.
pub open spec fn spec_dir_links(c: Cell, coord: int, p: Port) -> Seq<Link> {
    (if c.port_u == p { seq![(Direction::Up, coord as usize, (coord - FLOOR_CELLS_W) as usize, Direction::Down)] } else { seq![] })
    + (if c.port_r == p { seq![(Direction::Right, coord as usize, (coord + 1) as usize, Direction::Left)] } else { seq![] })
    + (if c.port_d == p { seq![(Direction::Down, coord as usize, (coord + FLOOR_CELLS_W) as usize, Direction::Up)] } else { seq![] })
    + (if c.port_l == p { seq![(Direction::Left, coord as usize, (coord - 1) as usize, Direction::Right)] } else { seq![] })
}

/// Every inbound or outbound port of the cell at `coord` faces a cell of the floor.
pub open spec fn spec_ports_face_floor(c: Cell, coord: int) -> bool {
    let x = coord % (FLOOR_CELLS_W as int);
    let y = coord / (FLOOR_CELLS_W as int);
    &&& (c.port_u == Port::Inbound || c.port_u == Port::Outbound) ==> y > 0
    &&& (c.port_r == Port::Inbound || c.port_r == Port::Outbound) ==> x < FLOOR_CELLS_W - 1
    &&& (c.port_d == Port::Inbound || c.port_d == Port::Outbound) ==> y < FLOOR_CELLS_H - 1
    &&& (c.port_l == Port::Inbound || c.port_l == Port::Outbound) ==> x > 0
}

/// The links of the cell at `coord` for its ports of kind `p`.
pub fn dir_links(c: &Cell, coord: usize, p: Port) -> (r: Vec<Link>)
    requires
        coord < FLOOR_CELLS_WH,
        p == Port::Inbound || p == Port::Outbound,
        spec_ports_face_floor(*c, coord as int),
    ensures
        r@ == spec_dir_links(*c, coord as int, p),
        links_ok(r@),
{
    let mut r: Vec<Link> = Vec::new();
    if c.port_u == p {
        r.push((Direction::Up, coord, to_coord_up(coord), Direction::Down));
    }
    if c.port_r == p {
        r.push((Direction::Right, coord, to_coord_right(coord), Direction::Left));
    }
    if c.port_d == p {
        r.push((Direction::Down, coord, to_coord_down(coord), Direction::Up));
    }
    if c.port_l == p {
        r.push((Direction::Left, coord, to_coord_left(coord), Direction::Right));
    }
    proof {
        let s0: Seq<Link> = if c.port_u == p { seq![(Direction::Up, coord as usize, (coord - FLOOR_CELLS_W) as usize, Direction::Down)] } else { seq![] };
        let s1: Seq<Link> = if c.port_r == p { seq![(Direction::Right, coord as usize, (coord + 1) as usize, Direction::Left)] } else { seq![] };
        let s2: Seq<Link> = if c.port_d == p { seq![(Direction::Down, coord as usize, (coord + FLOOR_CELLS_W) as usize, Direction::Up)] } else { seq![] };
        let s3: Seq<Link> = if c.port_l == p { seq![(Direction::Left, coord as usize, (coord - 1) as usize, Direction::Right)] } else { seq![] };
        assert(r@ =~= s0 + s1 + s2 + s3);
    }
    r
}

/// Rebuilds the links of the cell at `coord` from its ports: an inbound link for each inbound
/// port and an outbound link for each outbound port, in the order up, right, down, left.
pub fn belt_discover_ins_and_outs(factory: &mut Factory, coord: usize)
    requires
        old(factory).wf(),
        coord < FLOOR_CELLS_WH,
        spec_ports_face_floor(old(factory).floor@[coord as int], coord as int),
    ensures
        final(factory).wf(),
        same_but_floor(final(factory), old(factory)),
        final(factory).floor@ == old(factory).floor@.update(coord as int, Cell {
            ins: final(factory).floor@[coord as int].ins,
            outs: final(factory).floor@[coord as int].outs,
            ..old(factory).floor@[coord as int]
        }),
        final(factory).floor@[coord as int].ins@ == spec_dir_links(old(factory).floor@[coord as int], coord as int, Port::Inbound),
        final(factory).floor@[coord as int].outs@ == spec_dir_links(old(factory).floor@[coord as int], coord as int, Port::Outbound),
{
    proof { lemma_floor_cell(factory.floor@, coord as int); }
    let ins = dir_links(&factory.floor[coord], coord, Port::Inbound);
    let outs = dir_links(&factory.floor[coord], coord, Port::Outbound);
    factory.floor[coord].ins = ins;
    factory.floor[coord].outs = outs;
    proof {
        assert(factory.floor@[coord as int].wf_at(coord as int));
        lemma_floor_update(old(factory).floor@, coord as int, factory.floor@[coord as int]);
        assert(factory.floor@ =~= old(factory).floor@.update(coord as int, factory.floor@[coord as int]));
    }
}

/// The ports of a cell with an unknown port added on every side in `dirs` that has none.
pub open spec fn spec_add_ports(c: Cell, up: bool, right: bool, down: bool, left: bool) -> BeltType {
    spec_belt_type_from_ports(
        if c.port_u != Port::Absent { c.port_u } else if up { Port::Unknown } else { Port::Absent },
        if c.port_r != Port::Absent { c.port_r } else if right { Port::Unknown } else { Port::Absent },
        if c.port_d != Port::Absent { c.port_d } else if down { Port::Unknown } else { Port::Absent },
        if c.port_l != Port::Absent { c.port_l } else if left { Port::Unknown } else { Port::Absent },
    )
}

/// The belt type of the cell at `coord` with an unknown port added on side `dir` if that
/// side has none.
pub fn add_unknown_port_to_cell(factory: &Factory, coord: usize, dir: Direction) -> (t: BeltType)
    requires
        coord < factory.floor.len(),
    ensures
        t == spec_add_ports(factory.floor@[coord as int], dir == Direction::Up, dir == Direction::Right, dir == Direction::Down, dir == Direction::Left),
{
    let c = &factory.floor[coord];
    let port_u = if c.port_u != Port::Absent { c.port_u } else if dir == Direction::Up { Port::Unknown } else { Port::Absent };
    let port_r = if c.port_r != Port::Absent { c.port_r } else if dir == Direction::Right { Port::Unknown } else { Port::Absent };
    let port_d = if c.port_d != Port::Absent { c.port_d } else if dir == Direction::Down { Port::Unknown } else { Port::Absent };
    let port_l = if c.port_l != Port::Absent { c.port_l } else if dir == Direction::Left { Port::Unknown } else { Port::Absent };
    belt_type_from_ports(port_u, port_r, port_d, port_l)
}

/// The belt type of the cell at `coord` with an unknown port added on sides `dir1` and `dir2`
/// where those have none.
pub fn add_two_ports_to_cell(factory: &Factory, coord: usize, dir1: Direction, dir2: Direction) -> (t: BeltType)
    requires
        coord < factory.floor.len(),
    ensures
        t == spec_add_ports(factory.floor@[coord as int],
            dir1 == Direction::Up || dir2 == Direction::Up,
            dir1 == Direction::Right || dir2 == Direction::Right,
            dir1 == Direction::Down || dir2 == Direction::Down,
            dir1 == Direction::Left || dir2 == Direction::Left),
{
    let c = &factory.floor[coord];
    let port_u = if c.port_u != Port::Absent { c.port_u } else if dir1 == Direction::Up || dir2 == Direction::Up { Port::Unknown } else { Port::Absent };
    let port_r = if c.port_r != Port::Absent { c.port_r } else if dir1 == Direction::Right || dir2 == Direction::Right { Port::Unknown } else { Port::Absent };
    let port_d = if c.port_d != Port::Absent { c.port_d } else if dir1 == Direction::Down || dir2 == Direction::Down { Port::Unknown } else { Port::Absent };
    let port_l = if c.port_l != Port::Absent { c.port_l } else if dir1 == Direction::Left || dir2 == Direction::Left { Port::Unknown } else { Port::Absent };
    belt_type_from_ports(port_u, port_r, port_d, port_l)
}

/// Whether a part may be sent over `link`: its far end is a demander, a machine or a belt
/// without a part.
pub open spec fn spec_out_available(floor: Seq<Cell>, link: Link) -> bool {
    let n = floor[link.2 as int];
    n.kind == CellKind::Demand || n.kind == CellKind::Machine
        || (n.kind == CellKind::Belt && n.belt.part.kind == CONFIG_NODE_PART_NONE)
}

/// `i` is the first outbound link of the list that is available.
pub open spec fn is_first_available(floor: Seq<Cell>, outs: Seq<Link>, i: int) -> bool {
    &&& 0 <= i < outs.len()
    &&& spec_out_available(floor, outs[i])
    &&& forall|j: int| 0 <= j < i ==> !spec_out_available(floor, outs[j])
}

/// The relation between the floor before and after `belt_determine_part_target_port`.
pub open spec fn spec_determine(f0: Seq<Cell>, f1: Seq<Cell>, c: int) -> bool {
    let cell = f0[c];
    if exists|i: int| is_first_available(f0, cell.outs@, i) {
        let i = choose|i: int| is_first_available(f0, cell.outs@, i);
        &&& f1 == f0.update(c, Cell {
            belt: Belt { part_to: cell.outs@[i].0, part_to_tbd: false, ..cell.belt },
            outs: f1[c].outs,
            ..cell
        })
        &&& f1[c].outs@ == spec_back_of_the_line(cell.outs@, i)
    } else {
        f1 == f0
    }
}

/// Where a belt sends its part: over the first outbound link whose far end is a demander, a
/// machine cell or a belt holding no part. When there is such a link, the part's way out is
/// decided and is that link's side; when there is none, nothing changes.
pub proof fn lemma_determine_picks_first_taker(f0: Seq<Cell>, f1: Seq<Cell>, c: int, i: int)
    requires
        0 <= c < f0.len(),
        spec_determine(f0, f1, c),
        0 <= i < f0[c].outs@.len(),
        ({
            let n = f0[f0[c].outs@[i].2 as int];
            n.kind == CellKind::Demand || n.kind == CellKind::Machine
                || (n.kind == CellKind::Belt && n.belt.part.kind == CONFIG_NODE_PART_NONE)
        }),
        forall|j: int| 0 <= j < i ==> {
            let n = #[trigger] f0[f0[c].outs@[j].2 as int];
            !(n.kind == CellKind::Demand || n.kind == CellKind::Machine
                || (n.kind == CellKind::Belt && n.belt.part.kind == CONFIG_NODE_PART_NONE))
        },
    ensures
        !f1[c].belt.part_to_tbd,
        f1[c].belt.part_to == f0[c].outs@[i].0,
        f1[c].belt.part == f0[c].belt.part,
        f1[c].outs@ == f0[c].outs@.subrange(0, i) + f0[c].outs@.subrange(i + 1, f0[c].outs@.len() as int) + seq![f0[c].outs@[i]],
        f1.len() == f0.len(),
        forall|k: int| 0 <= k < f0.len() && k != c ==> f1[k] == f0[k],
{
    let outs = f0[c].outs@;
    assert forall|j: int| 0 <= j < i implies !spec_out_available(f0, outs[j]) by {
        let n = f0[outs[j].2 as int];
        assert(!(n.kind == CellKind::Demand || n.kind == CellKind::Machine
            || (n.kind == CellKind::Belt && n.belt.part.kind == CONFIG_NODE_PART_NONE)));
    }
    assert(is_first_available(f0, outs, i));
    let k = choose|k: int| is_first_available(f0, outs, k);
    lemma_first_available_unique(f0, outs, i, k);
    assert(outs.remove(i).push(outs[i]) =~= outs.subrange(0, i) + outs.subrange(i + 1, outs.len() as int) + seq![outs[i]]);
}

/// A belt none of whose outbound links ends at a demander, a machine cell or a belt holding no
/// part keeps its part undecided: nothing changes.
pub proof fn lemma_determine_no_taker(f0: Seq<Cell>, f1: Seq<Cell>, c: int)
    requires
        0 <= c < f0.len(),
        spec_determine(f0, f1, c),
        forall|j: int| 0 <= j < f0[c].outs@.len() ==> {
            let n = #[trigger] f0[f0[c].outs@[j].2 as int];
            !(n.kind == CellKind::Demand || n.kind == CellKind::Machine
                || (n.kind == CellKind::Belt && n.belt.part.kind == CONFIG_NODE_PART_NONE))
        },
    ensures
        f1 == f0,
{
    let outs = f0[c].outs@;
    if exists|i: int| is_first_available(f0, outs, i) {
        let i = choose|i: int| is_first_available(f0, outs, i);
        let n = f0[outs[i].2 as int];
        assert(!(n.kind == CellKind::Demand || n.kind == CellKind::Machine
            || (n.kind == CellKind::Belt && n.belt.part.kind == CONFIG_NODE_PART_NONE)));
    }
}

proof fn lemma_first_available_unique(floor: Seq<Cell>, outs: Seq<Link>, i: int, k: int)
    requires
        is_first_available(floor, outs, i),
        is_first_available(floor, outs, k),
    ensures
        i == k,
{
}

/// Picks the outbound link the part of a belt leaves through: the first one whose far end
/// can take it. That link then moves to the back of the list. When none can, the target
/// stays undecided.
pub fn belt_determine_part_target_port(factory: &mut Factory, curr_coord: usize)
    requires
        old(factory).wf(),
        curr_coord < FLOOR_CELLS_WH,
        old(factory).floor@[curr_coord as int].kind == CellKind::Belt,
        old(factory).floor@[curr_coord as int].belt.part.kind != CONFIG_NODE_PART_NONE,
        old(factory).floor@[curr_coord as int].belt.part_to_tbd,
    ensures
        final(factory).wf(),
        same_but_floor(final(factory), old(factory)),
        spec_determine(old(factory).floor@, final(factory).floor@, curr_coord as int),
{
    proof { lemma_floor_cell(factory.floor@, curr_coord as int); }
    let ghost f0 = factory.floor@;
    let outlen = factory.floor[curr_coord].outs.len();
    let mut i: usize = 0;
    while i < outlen
        invariant
            factory.wf(),
            factory.floor@ == f0,
            f0 == old(factory).floor@,
            same_but_floor(factory, old(factory)),
            curr_coord < FLOOR_CELLS_WH,
            f0[curr_coord as int].wf_at(curr_coord as int),
            outlen == f0[curr_coord as int].outs@.len(),
            i <= outlen,
            forall|j: int| 0 <= j < i ==> !spec_out_available(f0, f0[curr_coord as int].outs@[j]),
        decreases outlen - i,
    {
        let (a_out_dir, _a_coord, a_neighbor_coord, _a_neighbor_in_dir) = factory.floor[curr_coord].outs[i];
        let nkind = factory.floor[a_neighbor_coord].kind;
        let available = nkind == CellKind::Demand || nkind == CellKind::Machine
            || (nkind == CellKind::Belt && factory.floor[a_neighbor_coord].belt.part.kind == CONFIG_NODE_PART_NONE);
        if available {
            proof {
                assert(is_first_available(f0, f0[curr_coord as int].outs@, i as int));
                assert forall|k: int| is_first_available(f0, f0[curr_coord as int].outs@, k) implies k == i by {
                    lemma_first_available_unique(f0, f0[curr_coord as int].outs@, i as int, k);
                }
            }
            belt_set_target(factory, curr_coord, i, a_out_dir);
            return;
        }
        i = i + 1;
    }
}

/// Decides that the part of a belt leaves through its outbound link `i`.
fn belt_set_target(factory: &mut Factory, curr_coord: usize, i: usize, dir: Direction)
    requires
        old(factory).wf(),
        curr_coord < FLOOR_CELLS_WH,
        i < old(factory).floor@[curr_coord as int].outs@.len(),
    ensures
        final(factory).wf(),
        same_but_floor(final(factory), old(factory)),
        final(factory).floor@ == old(factory).floor@.update(curr_coord as int, Cell {
            belt: Belt { part_to: dir, part_to_tbd: false, ..old(factory).floor@[curr_coord as int].belt },
            outs: final(factory).floor@[curr_coord as int].outs,
            ..old(factory).floor@[curr_coord as int]
        }),
        final(factory).floor@[curr_coord as int].outs@ == spec_back_of_the_line(old(factory).floor@[curr_coord as int].outs@, i as int),
{
    proof { lemma_floor_cell(factory.floor@, curr_coord as int); }
    factory.floor[curr_coord].belt.part_to = dir;
    factory.floor[curr_coord].belt.part_to_tbd = false;
    back_of_the_line(&mut factory.floor[curr_coord].outs, i);
    proof {
        let f0 = old(factory).floor@;
        let c = factory.floor@[curr_coord as int];
        lemma_links_ok_back_of_the_line(f0[curr_coord as int].outs@, i as int);
        assert(c.wf_at(curr_coord as int));
        lemma_floor_update(f0, curr_coord as int, c);
        assert(factory.floor@ =~= f0.update(curr_coord as int, c));
    }
}

/// The floor after a belt received `part` through side `dir` at tick `ticks`.
pub open spec fn spec_received(f0: Seq<Cell>, c: int, dir: Direction, part: Part, ticks: u64) -> Seq<Cell> {
    f0.update(c, Cell {
        belt: Belt { part, part_at: ticks, part_progress: 0, part_to_tbd: true, part_from: dir, ..f0[c].belt },
        ..f0[c]
    })
}

/// The relation between the floor before and after `belt_receive_part`.
pub open spec fn spec_receive(f0: Seq<Cell>, f1: Seq<Cell>, c: int, dir: Direction, part: Part, ticks: u64) -> bool {
    if part.kind != CONFIG_NODE_PART_NONE {
        spec_determine(spec_received(f0, c, dir, part, ticks), f1, c)
    } else {
        f1 == spec_received(f0, c, dir, part, ticks)
    }
}

/// A belt receives a part: the part starts crossing the belt from side `curr_dir` and, when
/// it is a real part, its way out is determined.
pub fn belt_receive_part(factory: &mut Factory, curr_coord: usize, curr_dir: Direction, part: Part)
    requires
        old(factory).wf(),
        curr_coord < FLOOR_CELLS_WH,
        old(factory).floor@[curr_coord as int].kind == CellKind::Belt,
    ensures
        final(factory).wf(),
        same_but_floor(final(factory), old(factory)),
        spec_receive(old(factory).floor@, final(factory).floor@, curr_coord as int, curr_dir, part, old(factory).ticks),
{
    let kind = part.kind;
    factory.floor[curr_coord].belt.part = part;
    factory.floor[curr_coord].belt.part_at = factory.ticks;
    factory.floor[curr_coord].belt.part_progress = 0;
    factory.floor[curr_coord].belt.part_to_tbd = true;
    factory.floor[curr_coord].belt.part_from = curr_dir;
    proof {
        lemma_floor_update_frame(old(factory).floor@, curr_coord as int, factory.floor@[curr_coord as int]);
        assert(factory.floor@ =~= spec_received(old(factory).floor@, curr_coord as int, curr_dir, part, old(factory).ticks));
    }
    if kind != CONFIG_NODE_PART_NONE {
        belt_determine_part_target_port(factory, curr_coord);
    }
}

} // verus!

verus! {

/// Clears the part that a supplier is preparing.
pub fn supply_clear_part(factory: &mut Factory, coord: usize)
    requires
        old(factory).wf(),
        coord < FLOOR_CELLS_WH,
    ensures
        final(factory).wf(),
        same_but_floor(final(factory), old(factory)),
        final(factory).floor@ == old(factory).floor@.update(coord as int, Cell {
            supply: spec_supply_cleared(old(factory).floor@[coord as int].supply),
            ..old(factory).floor@[coord as int]
        }),
{
    factory.floor[coord].supply.part_created_at = 0;
    factory.floor[coord].supply.part_tbd = true;
    factory.floor[coord].supply.part_progress = 0;
    proof {
        lemma_floor_update_frame(old(factory).floor@, coord as int, factory.floor@[coord as int]);
        assert(factory.floor@ =~= old(factory).floor@.update(coord as int, Cell {
            supply: spec_supply_cleared(old(factory).floor@[coord as int].supply),
            ..old(factory).floor@[coord as int]
        }));
    }
}

/// The floor after the demander at `demand_coord` received `part`.
pub open spec fn spec_demand_got(f: Seq<Cell>, demand_coord: int, part: Part, ticks: u64) -> Seq<Cell> {
    f.update(demand_coord, Cell { demand: spec_demand_received(f[demand_coord].demand, part, ticks), ..f[demand_coord] })
}

/// The demander at `demand_coord` receives the part of the belt at `belt_coord`.
pub fn demand_receive_part(factory: &mut Factory, demand_coord: usize, belt_coord: usize)
    requires
        old(factory).wf(),
        demand_coord < FLOOR_CELLS_WH,
        belt_coord < FLOOR_CELLS_WH,
    ensures
        final(factory).wf(),
        same_but_floor(final(factory), old(factory)),
        final(factory).floor@ == spec_demand_got(old(factory).floor@, demand_coord as int, old(factory).floor@[belt_coord as int].belt.part, old(factory).ticks),
{
    let part = factory.floor[belt_coord].belt.part;
    let ticks = factory.ticks;
    factory.floor[demand_coord].demand.part = part;
    factory.floor[demand_coord].demand.last_part_at = ticks;
    if factory.floor[demand_coord].demand.received < u64::MAX {
        factory.floor[demand_coord].demand.received = factory.floor[demand_coord].demand.received + 1;
    }
    proof {
        lemma_floor_update_frame(old(factory).floor@, demand_coord as int, factory.floor@[demand_coord as int]);
        assert(factory.floor@ =~= spec_demand_got(old(factory).floor@, demand_coord as int, part, ticks));
    }
}

/// Whether the belt at `from` hands its part over through its side `from_dir`: it has a
/// part, the part heads that way and it crossed the whole belt.
pub open spec fn spec_take_from_belt_ok(f: Seq<Cell>, from: int, from_dir: Direction) -> bool {
    let b = f[from].belt;
    b.part.kind != CONFIG_NODE_PART_NONE && b.part_to == from_dir && b.part_progress >= b.speed
}

/// A belt takes the part of a neighbor belt that is ready to hand it over.
fn tick_belt_take_from_belt(factory: &mut Factory, curr_coord: usize, curr_dir: Direction, from_coord: usize, from_dir: Direction) -> (r: bool)
    requires
        old(factory).wf(),
        curr_coord < FLOOR_CELLS_WH,
        from_coord < FLOOR_CELLS_WH,
        old(factory).floor@[curr_coord as int].kind == CellKind::Belt,
        old(factory).floor@[from_coord as int].kind == CellKind::Belt,
    ensures
        final(factory).wf(),
        same_but_floor(final(factory), old(factory)),
        r == spec_take_from_belt_ok(old(factory).floor@, from_coord as int, from_dir),
        r ==> spec_belt_handover(old(factory).floor@, final(factory).floor@, curr_coord as int, curr_dir, from_coord as int, from_dir, old(factory).ticks),
        !r ==> final(factory).floor@ == old(factory).floor@,
{
    let b = factory.floor[from_coord].belt;
    if b.part.kind == CONFIG_NODE_PART_NONE {
        return false;
    }
    if b.part_to != from_dir {
        return false;
    }
    if b.part_progress < b.speed {
        return false;
    }
    let ghost f0 = factory.floor@;
    belt_receive_part(factory, curr_coord, curr_dir, b.part);
    let ghost mid = factory.floor@;
    proof {
        reveal(spec_belt_handover);
        lemma_receive_keeps_kinds(f0, mid, curr_coord as int, curr_dir, b.part, old(factory).ticks);
    }
    belt_receive_part(factory, from_coord, from_dir, part_none());
    true
}

/// The part of the belt at `from` moves to the belt at `curr`: `curr` receives it, then
/// `from` receives "no part".
#[verifier::opaque]
pub open spec fn spec_belt_handover(f0: Seq<Cell>, f1: Seq<Cell>, curr: int, curr_dir: Direction, from: int, from_dir: Direction, ticks: u64) -> bool {
    exists|mid: Seq<Cell>|
        spec_receive(f0, mid, curr, curr_dir, f0[from].belt.part, ticks)
        && spec_receive(mid, f1, from, from_dir, spec_part_none(), ticks)
}

/// A handover moves the part: the taking belt holds the part the giving belt held, the giving
/// belt holds nothing, and every other cell stays as it was.
pub proof fn lemma_handover_moves_part(f0: Seq<Cell>, f1: Seq<Cell>, curr: int, curr_dir: Direction, from: int, from_dir: Direction, ticks: u64)
    requires
        0 <= curr < f0.len(),
        0 <= from < f0.len(),
        curr != from,
        spec_belt_handover(f0, f1, curr, curr_dir, from, from_dir, ticks),
    ensures
        f1.len() == f0.len(),
        f1[curr].belt.part == f0[from].belt.part,
        f1[from].belt.part == spec_part_none(),
        forall|i: int| 0 <= i < f0.len() && i != curr && i != from ==> f1[i] == f0[i],
        forall|i: int| 0 <= i < f0.len() ==> #[trigger] f1[i].kind == f0[i].kind,
{
    reveal(spec_belt_handover);
    let mid = choose|mid: Seq<Cell>|
        spec_receive(f0, mid, curr, curr_dir, f0[from].belt.part, ticks)
        && spec_receive(mid, f1, from, from_dir, spec_part_none(), ticks);
    lemma_receive_keeps_kinds(f0, mid, curr, curr_dir, f0[from].belt.part, ticks);
    lemma_receive_keeps_kinds(mid, f1, from, from_dir, spec_part_none(), ticks);
    assert forall|i: int| 0 <= i < f0.len() implies #[trigger] f1[i].kind == f0[i].kind by {
        assert(f1[i].kind == mid[i].kind);
    }
}

/// Receiving a part changes only the receiving cell and keeps the kind of every cell.
pub proof fn lemma_receive_keeps_kinds(f0: Seq<Cell>, f1: Seq<Cell>, c: int, dir: Direction, part: Part, ticks: u64)
    requires
        0 <= c < f0.len(),
        spec_receive(f0, f1, c, dir, part, ticks),
    ensures
        f1.len() == f0.len(),
        forall|i: int| 0 <= i < f0.len() && i != c ==> f1[i] == f0[i],
        forall|i: int| 0 <= i < f0.len() ==> #[trigger] f1[i].kind == f0[i].kind,
        f1[c].ins@ == f0[c].ins@,
        f1[c].belt.part == part,
{
    let g = spec_received(f0, c, dir, part, ticks);
    if part.kind != CONFIG_NODE_PART_NONE {
        if exists|i: int| is_first_available(g, g[c].outs@, i) {
            assert(f1[c].kind == g[c].kind);
        }
    }
}

/// Whether the supplier at `s` hands something over this tick, and how.
pub open spec fn spec_supply_announces(f: Seq<Cell>, s: int) -> bool {
    let sup = f[s].supply;
    sup.part_created_at > 0 && sup.part_tbd
        && 2 * (sup.part_progress as int) >= (if sup.speed > 1 { sup.speed as int } else { 1 })
}

pub open spec fn spec_supply_delivers(f: Seq<Cell>, s: int) -> bool {
    let sup = f[s].supply;
    sup.part_created_at > 0 && !sup.part_tbd && sup.part_progress >= sup.speed
}

/// The relation between the floor before and after a supplier delivered its part to a belt.
#[verifier::opaque]
pub open spec fn spec_supply_handover(f0: Seq<Cell>, f1: Seq<Cell>, belt: int, s: int, ticks: u64) -> bool {
    exists|mid: Seq<Cell>|
        spec_receive(f0, mid, belt, f0[s].supply.neighbor_incoming_dir, f0[s].supply.gives, ticks)
        && f1 == mid.update(s, Cell { supply: spec_supply_cleared(mid[s].supply), ..mid[s] })
}

/// A belt without a part deals with the neighbor supplier: once the supplier's part is
/// halfway it reserves this belt; once it is complete it moves onto the belt.
fn tick_belt_take_from_supply(factory: &mut Factory, belt_coord: usize, supply_coord: usize, belt_dir: Direction) -> (r: bool)
    requires
        old(factory).wf(),
        belt_coord < FLOOR_CELLS_WH,
        supply_coord < FLOOR_CELLS_WH,
        old(factory).floor@[belt_coord as int].kind == CellKind::Belt,
        old(factory).floor@[supply_coord as int].kind == CellKind::Supply,
        old(factory).floor@[belt_coord as int].belt.part.kind == CONFIG_NODE_PART_NONE,
    ensures
        final(factory).wf(),
        same_but_floor(final(factory), old(factory)),
        r == (spec_supply_announces(old(factory).floor@, supply_coord as int) || spec_supply_delivers(old(factory).floor@, supply_coord as int)),
        spec_supply_announces(old(factory).floor@, supply_coord as int) ==> final(factory).floor@ == old(factory).floor@.update(supply_coord as int, Cell {
            supply: Supply { part_tbd: false, ..old(factory).floor@[supply_coord as int].supply },
            ..old(factory).floor@[supply_coord as int]
        }),
        spec_supply_delivers(old(factory).floor@, supply_coord as int) ==> spec_supply_handover(old(factory).floor@, final(factory).floor@, belt_coord as int, supply_coord as int, old(factory).ticks),
        !r ==> final(factory).floor@ == old(factory).floor@,
{
    let sup = factory.floor[supply_coord].supply;
    if sup.part_created_at > 0 {
        if sup.part_tbd {
            let speed = if sup.speed > 1 { sup.speed } else { 1 };
            if sup.part_progress as u128 * 2 >= speed as u128 {
                factory.floor[supply_coord].supply.part_tbd = false;
                proof {
                    lemma_floor_update_frame(old(factory).floor@, supply_coord as int, factory.floor@[supply_coord as int]);
                    assert(factory.floor@ =~= old(factory).floor@.update(supply_coord as int, Cell {
                        supply: Supply { part_tbd: false, ..old(factory).floor@[supply_coord as int].supply },
                        ..old(factory).floor@[supply_coord as int]
                    }));
                }
                return true;
            }
        } else {
            if sup.part_progress >= sup.speed {
                let ghost f0 = factory.floor@;
                belt_receive_part(factory, belt_coord, sup.neighbor_incoming_dir, sup.gives);
                let ghost mid = factory.floor@;
                proof {
                    lemma_receive_keeps_kinds(f0, mid, belt_coord as int, sup.neighbor_incoming_dir, sup.gives, old(factory).ticks);
                }
                supply_clear_part(factory, supply_coord);
                proof {
                    reveal(spec_supply_handover);
                    assert(mid[supply_coord as int] == f0[supply_coord as int]);
                }
                return true;
            }
        }
    }
    false
}

/// Whether the belt at `b` hands its part to the demander at `d` through its side `dir`.
pub open spec fn spec_give_ok(f: Seq<Cell>, b: int, dir: Direction, d: int, ticks: u64) -> bool {
    let belt = f[b].belt;
    &&& belt.part.kind != CONFIG_NODE_PART_NONE
    &&& belt.part_to == dir
    &&& belt.part_at > 0
    &&& belt.part_progress >= belt.speed
    &&& spec_demand_ready(f[d].demand, ticks)
}

/// The floor after the belt at `b` gave its part to the demander at `d`.
pub open spec fn spec_give_effect(f: Seq<Cell>, b: int, d: int, ticks: u64) -> Seq<Cell> {
    spec_received(spec_demand_got(f, d, f[b].belt.part, ticks), b, Direction::Up, spec_part_none(), ticks)
}

/// A belt whose part is ready and heads towards the neighbor demander hands it over, if the
/// demander is ready for it.
fn tick_belt_give_to_demand(factory: &mut Factory, belt_coord: usize, belt_dir_towards_demand: Direction, demand_coord: usize, demand_dir_coming_from_belt: Direction) -> (r: bool)
    requires
        old(factory).wf(),
        belt_coord < FLOOR_CELLS_WH,
        demand_coord < FLOOR_CELLS_WH,
        old(factory).floor@[belt_coord as int].kind == CellKind::Belt,
        old(factory).floor@[demand_coord as int].kind == CellKind::Demand,
    ensures
        final(factory).wf(),
        same_but_floor(final(factory), old(factory)),
        r == spec_give_ok(old(factory).floor@, belt_coord as int, belt_dir_towards_demand, demand_coord as int, old(factory).ticks),
        r ==> final(factory).floor@ == spec_give_effect(old(factory).floor@, belt_coord as int, demand_coord as int, old(factory).ticks),
        !r ==> final(factory).floor@ == old(factory).floor@,
{
    let b = factory.floor[belt_coord].belt;
    if b.part.kind != CONFIG_NODE_PART_NONE {
        if b.part_to == belt_dir_towards_demand {
            if b.part_at > 0 && b.part_progress >= b.speed {
                if demand_ready(&factory.floor[demand_coord].demand, factory.ticks) {
                    demand_receive_part(factory, demand_coord, belt_coord);
                    belt_receive_part(factory, belt_coord, Direction::Up, part_none());
                    return true;
                }
            }
        }
    }
    false
}

/// A belt deals with the far end of one of its outbound links: only a demander can take a
/// part from it here (machines pull parts themselves).
fn tick_belt_one_outbound_dir(factory: &mut Factory, curr_coord: usize, curr_dir_towards_neighbor: Direction, to_coord: usize, to_dir_coming_from_curr: Direction) -> (r: bool)
    requires
        old(factory).wf(),
        curr_coord < FLOOR_CELLS_WH,
        to_coord < FLOOR_CELLS_WH,
        old(factory).floor@[curr_coord as int].kind == CellKind::Belt,
        old(factory).floor@[to_coord as int].kind != CellKind::Empty,
        old(factory).floor@[to_coord as int].kind != CellKind::Supply,
    ensures
        final(factory).wf(),
        same_but_floor(final(factory), old(factory)),
        r == spec_out_ok(old(factory).floor@, curr_coord as int, (curr_dir_towards_neighbor, curr_coord, to_coord, to_dir_coming_from_curr), old(factory).ticks),
        r ==> final(factory).floor@ == spec_give_effect(old(factory).floor@, curr_coord as int, to_coord as int, old(factory).ticks),
        !r ==> final(factory).floor@ == old(factory).floor@,
{
    match factory.floor[to_coord].kind {
        CellKind::Demand => tick_belt_give_to_demand(factory, curr_coord, curr_dir_towards_neighbor, to_coord, to_dir_coming_from_curr),
        _ => false,
    }
}

/// Whether a belt gives its part over outbound link `l`.
pub open spec fn spec_out_ok(f: Seq<Cell>, curr: int, l: Link, ticks: u64) -> bool {
    f[l.2 as int].kind == CellKind::Demand && spec_give_ok(f, curr, l.0, l.2 as int, ticks)
}

/// Whether a belt without a part takes something over inbound link `l`.
pub open spec fn spec_in_ok(f: Seq<Cell>, l: Link) -> bool {
    let k = f[l.2 as int].kind;
    (k == CellKind::Belt && spec_take_from_belt_ok(f, l.2 as int, l.3))
        || (k == CellKind::Supply && (spec_supply_announces(f, l.2 as int) || spec_supply_delivers(f, l.2 as int)))
}

/// The effect of taking over inbound link `l` (when `spec_in_ok` holds).
pub open spec fn spec_in_effect(f0: Seq<Cell>, f1: Seq<Cell>, curr: int, l: Link, ticks: u64) -> bool {
    let s = l.2 as int;
    if f0[s].kind == CellKind::Belt {
        spec_belt_handover(f0, f1, curr, l.0, s, l.3, ticks)
    } else if spec_supply_announces(f0, s) {
        f1 == f0.update(s, Cell { supply: Supply { part_tbd: false, ..f0[s].supply }, ..f0[s] })
    } else {
        spec_supply_handover(f0, f1, curr, s, ticks)
    }
}

/// A belt without a part deals with the far end of one of its inbound links.
fn tick_belt_one_inbound_dir(factory: &mut Factory, curr_coord: usize, curr_dir: Direction, from_coord: usize, from_dir: Direction) -> (r: bool)
    requires
        old(factory).wf(),
        curr_coord < FLOOR_CELLS_WH,
        from_coord < FLOOR_CELLS_WH,
        old(factory).floor@[curr_coord as int].kind == CellKind::Belt,
        old(factory).floor@[curr_coord as int].belt.part.kind == CONFIG_NODE_PART_NONE,
        old(factory).floor@[from_coord as int].kind != CellKind::Demand,
    ensures
        final(factory).wf(),
        same_but_floor(final(factory), old(factory)),
        r == spec_in_ok(old(factory).floor@, (curr_dir, curr_coord, from_coord, from_dir)),
        r ==> spec_in_effect(old(factory).floor@, final(factory).floor@, curr_coord as int, (curr_dir, curr_coord, from_coord, from_dir), old(factory).ticks),
        !r ==> final(factory).floor@ == old(factory).floor@,
{
    match factory.floor[from_coord].kind {
        CellKind::Belt => tick_belt_take_from_belt(factory, curr_coord, curr_dir, from_coord, from_dir),
        CellKind::Supply => tick_belt_take_from_supply(factory, curr_coord, from_coord, curr_dir),
        _ => false,
    }
}

} // verus!

verus! {

/// The floor after the part on the belt at `c` advanced one tick: it moves on while its way
/// out is known or it has not reached the middle of the belt, up to the end of the belt.
pub open spec fn spec_progress_step(f: Seq<Cell>, c: int) -> Seq<Cell> {
    let b = f[c].belt;
    if !b.part_to_tbd || 2 * (b.part_progress as int) < b.speed as int {
        f.update(c, Cell {
            belt: Belt { part_progress: if b.part_progress < b.speed { (b.part_progress + 1) as u64 } else { b.speed }, ..b },
            ..f[c]
        })
    } else {
        f
    }
}

proof fn lemma_progress_frame(f: Seq<Cell>, c: int)
    requires
        0 <= c < f.len(),
    ensures
        spec_progress_step(f, c).len() == f.len(),
        forall|i: int| 0 <= i < f.len() && i != c ==> spec_progress_step(f, c)[i] == f[i],
        forall|i: int| 0 <= i < f.len() ==> #[trigger] spec_progress_step(f, c)[i].kind == f[i].kind,
        spec_progress_step(f, c)[c].ins@ == f[c].ins@,
        spec_progress_step(f, c)[c].outs@ == f[c].outs@,
        spec_progress_step(f, c)[c].belt.part == f[c].belt.part,
{
}

proof fn lemma_give_frame(f: Seq<Cell>, c: int, d: int, ticks: u64)
    requires
        0 <= c < f.len(),
        0 <= d < f.len(),
        c != d,
    ensures
        spec_give_effect(f, c, d, ticks).len() == f.len(),
        forall|i: int| 0 <= i < f.len() ==> #[trigger] spec_give_effect(f, c, d, ticks)[i].kind == f[i].kind,
        spec_give_effect(f, c, d, ticks)[c].ins@ == f[c].ins@,
        spec_give_effect(f, c, d, ticks)[c].belt.part == spec_part_none(),
{
}

proof fn lemma_in_effect_keeps_ins(f0: Seq<Cell>, f1: Seq<Cell>, c: int, l: Link, ticks: u64)
    requires
        0 <= c < f0.len(),
        0 <= l.2 < f0.len(),
        l.2 != c,
        f0[c].kind == CellKind::Belt,
        spec_in_ok(f0, l),
        spec_in_effect(f0, f1, c, l, ticks),
    ensures
        f1.len() == f0.len(),
        f1[c].ins@ == f0[c].ins@,
{
    reveal(spec_belt_handover);
    reveal(spec_supply_handover);
    let s = l.2 as int;
    if f0[s].kind == CellKind::Belt {
        let mid = choose|mid: Seq<Cell>|
            spec_receive(f0, mid, c, l.0, f0[s].belt.part, ticks)
            && spec_receive(mid, f1, s, l.3, spec_part_none(), ticks);
        lemma_receive_keeps_kinds(f0, mid, c, l.0, f0[s].belt.part, ticks);
        lemma_receive_keeps_kinds(mid, f1, s, l.3, spec_part_none(), ticks);
    } else if spec_supply_announces(f0, s) {
    } else {
        let mid = choose|mid: Seq<Cell>|
            spec_receive(f0, mid, c, f0[s].supply.neighbor_incoming_dir, f0[s].supply.gives, ticks)
            && f1 == mid.update(s, Cell { supply: spec_supply_cleared(mid[s].supply), ..mid[s] });
        lemma_receive_keeps_kinds(f0, mid, c, f0[s].supply.neighbor_incoming_dir, f0[s].supply.gives, ticks);
    }
}

/// `j` is the first outbound link of the belt at `c` over which it gives its part away.
pub open spec fn is_first_out_ok(f: Seq<Cell>, c: int, j: int, ticks: u64) -> bool {
    let outs = f[c].outs@;
    &&& 0 <= j < outs.len()
    &&& spec_out_ok(f, c, outs[j], ticks)
    &&& forall|k: int| 0 <= k < j ==> !spec_out_ok(f, c, outs[k], ticks)
}

/// `j` is the first inbound link of the belt at `c` over which it takes something.
pub open spec fn is_first_in_ok(f: Seq<Cell>, c: int, j: int) -> bool {
    let ins = f[c].ins@;
    &&& 0 <= j < ins.len()
    &&& spec_in_ok(f, ins[j])
    &&& forall|k: int| 0 <= k < j ==> !spec_in_ok(f, ins[k])
}

/// The first phase of a belt tick: give the part to a demander over the first link that allows it.
pub open spec fn spec_outs_phase(fa: Seq<Cell>, fb: Seq<Cell>, c: int, ticks: u64) -> bool {
    if exists|j: int| is_first_out_ok(fa, c, j, ticks) {
        let j = choose|j: int| is_first_out_ok(fa, c, j, ticks);
        fb == spec_give_effect(fa, c, fa[c].outs@[j].2 as int, ticks)
    } else {
        fb == fa
    }
}

/// The second phase of a belt tick without a part: take over the first inbound link that
/// allows it, and move that link to the back of the list.
pub open spec fn spec_ins_phase(fb: Seq<Cell>, fc: Seq<Cell>, c: int, ticks: u64) -> bool {
    if exists|j: int| is_first_in_ok(fb, c, j) {
        let j = choose|j: int| is_first_in_ok(fb, c, j);
        exists|g: Seq<Cell>| #![trigger spec_in_effect(fb, g, c, fb[c].ins@[j], ticks)]
            spec_in_effect(fb, g, c, fb[c].ins@[j], ticks)
            && fc == g.update(c, Cell { ins: fc[c].ins, ..g[c] })
            && fc[c].ins@ == spec_back_of_the_line(fb[c].ins@, j)
    } else {
        fc == fb
    }
}

/// The relation between the floor before and after one tick of the belt at `c`.
pub open spec fn spec_tick_belt(f0: Seq<Cell>, f1: Seq<Cell>, c: int, ticks: u64) -> bool {
    let fa = spec_progress_step(f0, c);
    exists|fb: Seq<Cell>| #![trigger fb[c]]
        (if fa[c].belt.part.kind != CONFIG_NODE_PART_NONE { spec_outs_phase(fa, fb, c, ticks) } else { fb == fa })
        && (if fb[c].belt.part.kind == CONFIG_NODE_PART_NONE {
            spec_ins_phase(fb, f1, c, ticks)
        } else if fb[c].belt.part_to_tbd {
            spec_determine(fb, f1, c)
        } else {
            f1 == fb
        })
}

/// The outbound links of the belt at `c` never end at an empty cell or a supplier, and its inbound
/// links never end at a demander (the cases on which a tick of the belt would have to give up).
pub open spec fn spec_belt_links_sane(f: Seq<Cell>, c: int) -> bool {
    &&& forall|j: int| 0 <= j < f[c].outs@.len() ==> {
        let l = #[trigger] f[c].outs@[j];
        f[l.2 as int].kind != CellKind::Empty && f[l.2 as int].kind != CellKind::Supply
    }
    &&& forall|j: int| 0 <= j < f[c].ins@.len() ==> {
        let l = #[trigger] f[c].ins@[j];
        f[l.2 as int].kind != CellKind::Demand
    }
}

/// Advances the part on the belt at `coord` by one tick.
fn belt_progress_step(factory: &mut Factory, coord: usize)
    requires
        old(factory).wf(),
        coord < FLOOR_CELLS_WH,
    ensures
        final(factory).wf(),
        same_but_floor(final(factory), old(factory)),
        final(factory).floor@ == spec_progress_step(old(factory).floor@, coord as int),
{
    let b = factory.floor[coord].belt;
    if !b.part_to_tbd || (b.part_progress as u128) * 2 < b.speed as u128 {
        factory.floor[coord].belt.part_progress = if b.part_progress < b.speed { b.part_progress + 1 } else { b.speed };
        proof {
            lemma_floor_update_frame(old(factory).floor@, coord as int, factory.floor@[coord as int]);
            assert(factory.floor@ =~= spec_progress_step(old(factory).floor@, coord as int));
        }
    }
}

/// Moves inbound link `index` of the cell at `coord` to the back of its list.
fn cell_ins_back_of_the_line(factory: &mut Factory, coord: usize, index: usize)
    requires
        old(factory).wf(),
        coord < FLOOR_CELLS_WH,
        index < old(factory).floor@[coord as int].ins@.len(),
    ensures
        final(factory).wf(),
        same_but_floor(final(factory), old(factory)),
        final(factory).floor@ == old(factory).floor@.update(coord as int, Cell { ins: final(factory).floor@[coord as int].ins, ..old(factory).floor@[coord as int] }),
        final(factory).floor@[coord as int].ins@ == spec_back_of_the_line(old(factory).floor@[coord as int].ins@, index as int),
{
    proof { lemma_floor_cell(factory.floor@, coord as int); }
    back_of_the_line(&mut factory.floor[coord].ins, index);
    proof {
        let c = factory.floor@[coord as int];
        lemma_links_ok_back_of_the_line(old(factory).floor@[coord as int].ins@, index as int);
        assert(c.wf_at(coord as int));
        lemma_floor_update(old(factory).floor@, coord as int, c);
        assert(factory.floor@ =~= old(factory).floor@.update(coord as int, c));
    }
}

proof fn lemma_first_out_unique(f: Seq<Cell>, c: int, i: int, k: int, ticks: u64)
    requires
        is_first_out_ok(f, c, i, ticks),
        is_first_out_ok(f, c, k, ticks),
    ensures
        i == k,
{
}

proof fn lemma_first_in_unique(f: Seq<Cell>, c: int, i: int, k: int)
    requires
        is_first_in_ok(f, c, i),
        is_first_in_ok(f, c, k),
    ensures
        i == k,
{
}

/// One tick of the belt at `curr_coord`: its part advances, a ready part goes to a demander
/// over the first outbound link that allows it, and a belt without a part then takes one over
/// the first inbound link that allows it (which moves to the back of the list). A part whose
/// way out is still open gets one assigned.
pub fn tick_belt(factory: &mut Factory, curr_coord: usize)
    requires
        old(factory).wf(),
        curr_coord < FLOOR_CELLS_WH,
        old(factory).floor@[curr_coord as int].kind == CellKind::Belt,
        spec_belt_links_sane(old(factory).floor@, curr_coord as int),
    ensures
        final(factory).wf(),
        same_but_floor(final(factory), old(factory)),
        spec_tick_belt(old(factory).floor@, final(factory).floor@, curr_coord as int, old(factory).ticks),
{
    let ghost ticks = factory.ticks;
    let ghost c = curr_coord as int;
    proof { lemma_floor_cell(factory.floor@, c); lemma_floor_len(factory.floor@); }
    belt_progress_step(factory, curr_coord);
    let ghost fa = factory.floor@;
    proof { lemma_floor_cell(fa, c); lemma_progress_frame(old(factory).floor@, c); }
    if factory.floor[curr_coord].belt.part.kind != CONFIG_NODE_PART_NONE {
        let outlen = factory.floor[curr_coord].outs.len();
        let mut index: usize = 0;
        while index < outlen
            invariant_except_break
                factory.floor@ == fa,
                forall|k: int| 0 <= k < index ==> !spec_out_ok(fa, c, fa[c].outs@[k], ticks),
            invariant
                factory.wf(),
                same_but_floor(factory, old(factory)),
                factory.ticks == ticks,
                fa == spec_progress_step(old(factory).floor@, c),
                old(factory).floor@.len() == FLOOR_CELLS_WH,
                spec_belt_links_sane(old(factory).floor@, c),
                old(factory).floor@[c].kind == CellKind::Belt,
                fa[c].wf_at(c),
                c == curr_coord,
                curr_coord < FLOOR_CELLS_WH,
                outlen == fa[c].outs@.len(),
                index <= outlen,
            ensures
                spec_outs_phase(fa, factory.floor@, c, ticks),
            decreases outlen - index,
        {
            let (curr_dir, _curr, to_coord, to_dir) = factory.floor[curr_coord].outs[index];
            proof {
                lemma_progress_frame(old(factory).floor@, c);
                let l = fa[c].outs@[index as int];
                assert(old(factory).floor@[c].outs@[index as int] == l);
                assert(fa[l.2 as int].kind == old(factory).floor@[l.2 as int].kind);
            }
            if tick_belt_one_outbound_dir(factory, curr_coord, curr_dir, to_coord, to_dir) {
                proof {
                    assert(is_first_out_ok(fa, c, index as int, ticks));
                    assert forall|k: int| is_first_out_ok(fa, c, k, ticks) implies k == index by {
                        lemma_first_out_unique(fa, c, index as int, k, ticks);
                    }
                }
                break;
            }
            index = index + 1;
        }
    }
    let ghost fb = factory.floor@;
    proof {
        lemma_floor_cell(fb, c);
        if fa[c].belt.part.kind != CONFIG_NODE_PART_NONE && exists|j: int| is_first_out_ok(fa, c, j, ticks) {
            let j = choose|j: int| is_first_out_ok(fa, c, j, ticks);
            let l = fa[c].outs@[j];
            assert(old(factory).floor@[c].outs@[j] == l);
            lemma_floor_cell(old(factory).floor@, c);
            assert(crate::cell::links_ok(old(factory).floor@[c].outs@));
            assert(old(factory).floor@[c].outs@[j].1 < FLOOR_CELLS_WH);
            assert(l.2 < FLOOR_CELLS_WH);
            assert(fa[l.2 as int].kind == CellKind::Demand);
            lemma_give_frame(fa, c, l.2 as int, ticks);
        }
    }
    if factory.floor[curr_coord].belt.part.kind == CONFIG_NODE_PART_NONE {
        let inlen = factory.floor[curr_coord].ins.len();
        let mut index: usize = 0;
        while index < inlen
            invariant
                factory.wf(),
                same_but_floor(factory, old(factory)),
                factory.ticks == ticks,
                factory.floor@ == fb,
                spec_belt_links_sane(old(factory).floor@, c),
                forall|i: int| 0 <= i < FLOOR_CELLS_WH ==> #[trigger] fb[i].kind == old(factory).floor@[i].kind,
                old(factory).floor@[c].kind == CellKind::Belt,
                old(factory).floor@.len() == FLOOR_CELLS_WH,
                fb.len() == FLOOR_CELLS_WH,
                fa == spec_progress_step(old(factory).floor@, c),
                if fa[c].belt.part.kind != CONFIG_NODE_PART_NONE { spec_outs_phase(fa, fb, c, ticks) } else { fb == fa },
                fb[c].ins@ == old(factory).floor@[c].ins@,
                fb[c].belt.part.kind == CONFIG_NODE_PART_NONE,
                fb[c].wf_at(c),
                c == curr_coord,
                curr_coord < FLOOR_CELLS_WH,
                inlen == fb[c].ins@.len(),
                index <= inlen,
                forall|k: int| 0 <= k < index ==> !spec_in_ok(fb, fb[c].ins@[k]),
            decreases inlen - index,
        {
            let (curr_dir, _curr, from_coord, from_dir) = factory.floor[curr_coord].ins[index];
            proof {
                let l = fb[c].ins@[index as int];
                assert(old(factory).floor@[c].ins@[index as int] == l);
            }
            if tick_belt_one_inbound_dir(factory, curr_coord, curr_dir, from_coord, from_dir) {
                let ghost g = factory.floor@;
                proof {
                    assert(is_first_in_ok(fb, c, index as int));
                    assert forall|k: int| is_first_in_ok(fb, c, k) implies k == index by {
                        lemma_first_in_unique(fb, c, index as int, k);
                    }
                    lemma_in_effect_keeps_ins(fb, g, c, fb[c].ins@[index as int], ticks);
                }
                cell_ins_back_of_the_line(factory, curr_coord, index);
                proof {
                    let fc = factory.floor@;
                    let j = choose|j: int| is_first_in_ok(fb, c, j);
                    assert(j == index);
                    assert(spec_in_effect(fb, g, c, fb[c].ins@[j], ticks)
                        && fc == g.update(c, Cell { ins: fc[c].ins, ..g[c] })
                        && fc[c].ins@ == spec_back_of_the_line(fb[c].ins@, j));
                    assert(spec_ins_phase(fb, fc, c, ticks));
                    assert(fb[c] == fb[c]);
                    assert(spec_tick_belt(old(factory).floor@, fc, c, ticks));
                }
                return;
            }
            index = index + 1;
        }
        proof {
            assert(spec_ins_phase(fb, factory.floor@, c, ticks));
            assert(spec_tick_belt(old(factory).floor@, factory.floor@, c, ticks));
        }
    } else if factory.floor[curr_coord].belt.part_to_tbd {
        belt_determine_part_target_port(factory, curr_coord);
        proof {
            assert(spec_tick_belt(old(factory).floor@, factory.floor@, c, ticks));
        }
    } else {
        proof {
            assert(spec_tick_belt(old(factory).floor@, factory.floor@, c, ticks));
        }
    }
}

} // verus!
