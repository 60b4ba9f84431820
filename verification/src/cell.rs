use vstd::prelude::*;
use crate::belt::{Belt, belt_new, belt_none, spec_belt_none, spec_belt_new};
use crate::belt_meta::{BeltMeta, belt_type_from_ports, belt_type_to_belt_meta, spec_belt_type_from_ports, spec_belt_type_to_belt_meta};
use crate::demand::{Demand, demand_new, demand_none};
use crate::direction::{Direction, spec_direction_reverse};
use crate::floor::{FLOOR_CELLS_W, FLOOR_CELLS_H, FLOOR_CELLS_WH, get_edge_neighbor, spec_edge_neighbor, spec_is_edge, spec_is_middle, spec_to_coord, to_coord_up, to_coord_right, to_coord_down, to_coord_left};
use crate::machine::{Machine, MachineKind, machine_new, machine_none};
use crate::part::{Part, part_none, spec_part_none};
use crate::port::{Port, port_to_char, spec_port_to_char};
use crate::supply::{Supply, supply_new, supply_none};
use crate::text::string_from_chars;
use crate::factory::{Factory, same_but_floor};

verus! {

/// What occupies a cell.
#[derive(Clone, Copy, Debug, PartialEq, Eq, Structural)]
pub enum CellKind {
    Empty,
    Belt,
    Machine,
    Supply,
    Demand,
}

/// A connection of a cell: (side of the cell, coord of the cell, coord of the neighbor, side of
/// the neighbor). For machines the list lives on the main cell and the second element names
/// the machine cell that owns the side.
pub type Link = (Direction, usize, usize, Direction);

/// One cell of the floor.
pub struct Cell {
    pub kind: CellKind,
    pub ticks: u64,
    pub auto_counter: u32,
    pub x: usize,
    pub y: usize,
    pub is_edge: bool,
    pub is_side: bool,
    pub is_zero: bool,
    pub coord: usize,
    pub coord_u: Option<usize>,
    pub coord_r: Option<usize>,
    pub coord_d: Option<usize>,
    pub coord_l: Option<usize>,
    pub port_u: Port,
    pub port_r: Port,
    pub port_d: Port,
    pub port_l: Port,
    /// Ordered priority list of the inbound connections.
    pub ins: Vec<Link>,
    /// Ordered priority list of the outbound connections.
    pub outs: Vec<Link>,
    pub marked: bool,
    pub belt: Belt,
    pub machine: Machine,
    pub supply: Supply,
    pub demand: Demand,
}

/// The position related fields of a cell at (x, y) hold what they should.
pub open spec fn spec_cell_position(c: Cell, x: int, y: int) -> bool {
    let coord = spec_to_coord(x, y);
    &&& 0 <= x < FLOOR_CELLS_W
    &&& 0 <= y < FLOOR_CELLS_H
    &&& c.x == x
    &&& c.y == y
    &&& c.coord == coord
    &&& c.is_edge == spec_is_edge(x, y)
    &&& c.is_side == (x == 0 || x == FLOOR_CELLS_W - 1)
    &&& c.is_zero == (x == 0 || y == 0)
    &&& c.coord_u == (if y == 0 { None } else { Some((coord - FLOOR_CELLS_W) as usize) })
    &&& c.coord_r == (if x == FLOOR_CELLS_W - 1 { None } else { Some((coord + 1) as usize) })
    &&& c.coord_d == (if y == FLOOR_CELLS_H - 1 { None } else { Some((coord + FLOOR_CELLS_W) as usize) })
    &&& c.coord_l == (if x == 0 { None } else { Some((coord - 1) as usize) })
}

/// Every link names cells of the floor.
pub open spec fn links_ok(links: Seq<Link>) -> bool {
    forall|i: int| 0 <= i < links.len() ==> #[trigger] links[i].1 < FLOOR_CELLS_WH && links[i].2 < FLOOR_CELLS_WH
}

pub open spec fn spec_coord_is_middle(c: int) -> bool {
    spec_is_middle(c % (FLOOR_CELLS_W as int), c / (FLOOR_CELLS_W as int))
}

impl Cell {
    /// The invariant of the cell stored at index `i` of the floor.
    pub open spec fn wf_at(&self, i: int) -> bool {
        &&& 0 <= i < FLOOR_CELLS_WH
        &&& spec_cell_position(*self, i % (FLOOR_CELLS_W as int), i / (FLOOR_CELLS_W as int))
        &&& links_ok(self.ins@)
        &&& links_ok(self.outs@)
        &&& self.machine.main_coord < FLOOR_CELLS_WH
        &&& forall|j: int| 0 <= j < self.machine.coords.len()
            ==> #[trigger] spec_coord_is_middle(self.machine.coords[j] as int)
        &&& (self.kind == CellKind::Belt || self.kind == CellKind::Machine) ==> spec_is_middle(self.x as int, self.y as int)
        &&& (self.kind == CellKind::Supply || self.kind == CellKind::Demand) ==> spec_is_edge(self.x as int, self.y as int)
    }

    pub open spec fn port(&self, dir: Direction) -> Port {
        match dir {
            Direction::Up => self.port_u,
            Direction::Right => self.port_r,
            Direction::Down => self.port_d,
            Direction::Left => self.port_l,
        }
    }
}

/// The floor invariant: one well formed cell per position.
#[verifier::opaque]
pub open spec fn floor_wf(floor: Seq<Cell>) -> bool {
    &&& floor.len() == FLOOR_CELLS_WH
    &&& forall|i: int| 0 <= i < FLOOR_CELLS_WH ==> #[trigger] floor[i].wf_at(i)
}

/// Two cells agree on everything the cell invariant looks at.
pub open spec fn same_frame(a: Cell, b: Cell) -> bool {
    &&& a.kind == b.kind
    &&& a.x == b.x && a.y == b.y && a.coord == b.coord
    &&& a.is_edge == b.is_edge && a.is_side == b.is_side && a.is_zero == b.is_zero
    &&& a.coord_u == b.coord_u && a.coord_r == b.coord_r && a.coord_d == b.coord_d && a.coord_l == b.coord_l
    &&& a.ins@ == b.ins@
    &&& a.outs@ == b.outs@
    &&& a.machine.main_coord == b.machine.main_coord
    &&& a.machine.coords@ == b.machine.coords@
}

/// Replacing a cell of a well formed floor by one with the same frame keeps it well formed.
pub proof fn lemma_floor_update_frame(floor: Seq<Cell>, i: int, c: Cell)
    requires
        floor_wf(floor),
        0 <= i < FLOOR_CELLS_WH,
        same_frame(c, floor[i]),
    ensures
        floor_wf(floor.update(i, c)),
{
    lemma_floor_cell(floor, i);
    assert(c.wf_at(i));
    lemma_floor_update(floor, i, c);
}

/// A well formed floor has a well formed cell at each position.
pub proof fn lemma_floor_cell(floor: Seq<Cell>, i: int)
    requires
        floor_wf(floor),
        0 <= i < FLOOR_CELLS_WH,
    ensures
        floor.len() == FLOOR_CELLS_WH,
        floor[i].wf_at(i),
{
    reveal(floor_wf);
}

/// The floor length of a well formed floor.
pub proof fn lemma_floor_len(floor: Seq<Cell>)
    requires
        floor_wf(floor),
    ensures
        floor.len() == FLOOR_CELLS_WH,
{
    reveal(floor_wf);
}

/// Replacing one cell of a well formed floor by a cell well formed at that position keeps the
/// floor well formed.
pub proof fn lemma_floor_update(floor: Seq<Cell>, i: int, c: Cell)
    requires
        floor_wf(floor),
        c.wf_at(i),
    ensures
        floor_wf(floor.update(i, c)),
{
    reveal(floor_wf);
    assert forall|j: int| 0 <= j < FLOOR_CELLS_WH implies #[trigger] floor.update(i, c)[j].wf_at(j) by {
        if j != i {
            assert(floor.update(i, c)[j] == floor[j]);
        }
    }
}

/// A fresh cell: position fields set, no ports in use yet, not marked, not ticked.
pub open spec fn spec_fresh_cell(c: Cell, kind: CellKind, x: int, y: int) -> bool {
    &&& spec_cell_position(c, x, y)
    &&& c.kind == kind
    &&& c.ticks == 0
    &&& c.auto_counter == 0
    &&& !c.marked
}

/// `c` is the empty cell that `empty_cell(x, y)` builds.
pub open spec fn spec_new_empty(c: Cell, x: int, y: int) -> bool {
    &&& spec_fresh_cell(c, CellKind::Empty, x, y)
    &&& c.ins@.len() == 0
    &&& c.outs@.len() == 0
    &&& c.port_u == Port::Absent && c.port_r == Port::Absent && c.port_d == Port::Absent && c.port_l == Port::Absent
    &&& c.belt == spec_belt_none()
    &&& c.machine.kind == MachineKind::Absent
}

/// `c` is the belt cell that `belt_cell(x, y, meta)` builds.
pub open spec fn spec_new_belt(c: Cell, x: int, y: int, meta: BeltMeta) -> bool {
    &&& spec_fresh_cell(c, CellKind::Belt, x, y)
    &&& c.ins@.len() == 0
    &&& c.outs@.len() == 0
    &&& c.port_u == meta.port_u && c.port_r == meta.port_r && c.port_d == meta.port_d && c.port_l == meta.port_l
    &&& c.belt == spec_belt_new(meta)
    &&& c.machine.kind == MachineKind::Absent
}

/// An empty cell at (x, y).
pub fn empty_cell(x: usize, y: usize) -> (c: Cell)
    requires
        x < FLOOR_CELLS_W,
        y < FLOOR_CELLS_H,
    ensures
        spec_fresh_cell(c, CellKind::Empty, x as int, y as int),
        c.wf_at(spec_to_coord(x as int, y as int)),
        c.ins@.len() == 0,
        c.outs@.len() == 0,
        c.port_u == Port::Absent && c.port_r == Port::Absent && c.port_d == Port::Absent && c.port_l == Port::Absent,
        c.belt == spec_belt_none(),
        c.machine.kind == MachineKind::Absent,
        spec_new_empty(c, x as int, y as int),
{
    let coord = x + y * FLOOR_CELLS_W;
    let coord_u = if y == 0 { None } else { Some(to_coord_up(coord)) };
    let coord_r = if x == FLOOR_CELLS_W - 1 { None } else { Some(to_coord_right(coord)) };
    let coord_d = if y == FLOOR_CELLS_H - 1 { None } else { Some(to_coord_down(coord)) };
    let coord_l = if x == 0 { None } else { Some(to_coord_left(coord)) };
    Cell {
        kind: CellKind::Empty,
        ticks: 0,
        auto_counter: 0,
        x,
        y,
        is_edge: x == 0 || y == 0 || x == FLOOR_CELLS_W - 1 || y == FLOOR_CELLS_H - 1,
        is_side: x == 0 || x == FLOOR_CELLS_W - 1,
        is_zero: x == 0 || y == 0,
        coord,
        coord_u,
        coord_r,
        coord_d,
        coord_l,
        ins: Vec::new(),
        outs: Vec::new(),
        port_u: Port::Absent,
        port_r: Port::Absent,
        port_d: Port::Absent,
        port_l: Port::Absent,
        marked: false,
        belt: belt_none(),
        machine: machine_none(coord),
        demand: demand_none(),
        supply: supply_none(),
    }
}

/// A belt cell at (x, y) with the ports of `meta`. Its links are filled in later.
pub fn belt_cell(x: usize, y: usize, meta: BeltMeta) -> (c: Cell)
    requires
        spec_is_middle(x as int, y as int),
    ensures
        spec_fresh_cell(c, CellKind::Belt, x as int, y as int),
        c.wf_at(spec_to_coord(x as int, y as int)),
        c.ins@.len() == 0,
        c.outs@.len() == 0,
        c.port_u == meta.port_u && c.port_r == meta.port_r && c.port_d == meta.port_d && c.port_l == meta.port_l,
        c.belt == spec_belt_new(meta),
        c.machine.kind == MachineKind::Absent,
        spec_new_belt(c, x as int, y as int, meta),
{
    let coord = x + y * FLOOR_CELLS_W;
    Cell {
        kind: CellKind::Belt,
        ticks: 0,
        auto_counter: 0,
        x,
        y,
        is_edge: false,
        is_side: false,
        is_zero: false,
        coord,
        coord_u: Some(to_coord_up(coord)),
        coord_r: Some(to_coord_right(coord)),
        coord_d: Some(to_coord_down(coord)),
        coord_l: Some(to_coord_left(coord)),
        ins: Vec::new(),
        outs: Vec::new(),
        port_u: meta.port_u,
        port_r: meta.port_r,
        port_d: meta.port_d,
        port_l: meta.port_l,
        marked: false,
        belt: belt_new(meta),
        machine: machine_none(coord),
        demand: demand_none(),
        supply: supply_none(),
    }
}

/// A machine cell of the given kind at (x, y), with all four ports to be discovered.
pub fn machine_any_cell(id: char, x: usize, y: usize, cell_width: usize, cell_height: usize, kind: MachineKind, wants: Vec<Part>, output: Part, speed: u64, machine_production_price: i32, machine_trash_price: i32) -> (c: Cell)
    requires
        spec_is_middle(x as int, y as int),
    ensures
        spec_fresh_cell(c, CellKind::Machine, x as int, y as int),
        c.wf_at(spec_to_coord(x as int, y as int)),
        c.ins@.len() == 0,
        c.outs@.len() == 0,
        c.port_u == Port::Unknown && c.port_r == Port::Unknown && c.port_d == Port::Unknown && c.port_l == Port::Unknown,
        c.belt == spec_belt_none(),
        c.machine.kind == kind,
        c.machine.main_coord == spec_to_coord(x as int, y as int),
        c.machine.id == id,
        c.machine.cell_width == cell_width,
        c.machine.cell_height == cell_height,
        c.machine.wants@ == wants@,
        c.machine.haves@ == Seq::new(wants@.len(), |i: int| spec_part_none()),
        c.machine.output_want == output,
        c.machine.speed == speed,
        c.machine.coords@.len() == 0,
        c.machine.start_at == 0,
{
    let coord = x + y * FLOOR_CELLS_W;
    Cell {
        kind: CellKind::Machine,
        ticks: 0,
        auto_counter: 0,
        x,
        y,
        is_edge: false,
        is_side: false,
        is_zero: false,
        coord,
        coord_u: Some(to_coord_up(coord)),
        coord_r: Some(to_coord_right(coord)),
        coord_d: Some(to_coord_down(coord)),
        coord_l: Some(to_coord_left(coord)),
        ins: Vec::new(),
        outs: Vec::new(),
        port_u: Port::Unknown,
        port_r: Port::Unknown,
        port_d: Port::Unknown,
        port_l: Port::Unknown,
        marked: false,
        belt: belt_none(),
        machine: machine_new(kind, cell_width, cell_height, id, coord, wants, output, speed),
        demand: demand_none(),
        supply: supply_none(),
    }
}

/// The main (top-left) cell of a machine at (x, y).
pub fn machine_main_cell(id: char, x: usize, y: usize, cell_width: usize, cell_height: usize, wants: Vec<Part>, output: Part, speed: u64, machine_production_price: i32, machine_trash_price: i32) -> (c: Cell)
    requires
        spec_is_middle(x as int, y as int),
    ensures
        spec_fresh_cell(c, CellKind::Machine, x as int, y as int),
        c.wf_at(spec_to_coord(x as int, y as int)),
        c.ins@.len() == 0,
        c.outs@.len() == 0,
        c.port_u == Port::Unknown && c.port_r == Port::Unknown && c.port_d == Port::Unknown && c.port_l == Port::Unknown,
        c.belt == spec_belt_none(),
        c.machine.kind == MachineKind::Main,
        c.machine.main_coord == spec_to_coord(x as int, y as int),
        c.machine.id == id,
        c.machine.cell_width == cell_width,
        c.machine.cell_height == cell_height,
        c.machine.wants@ == wants@,
        c.machine.haves@ == Seq::new(wants@.len(), |i: int| spec_part_none()),
        c.machine.output_want == output,
        c.machine.speed == speed,
        c.machine.coords@.len() == 0,
        c.machine.start_at == 0,
{
    machine_any_cell(id, x, y, cell_width, cell_height, MachineKind::Main, wants, output, speed, machine_production_price, machine_trash_price)
}

/// A secondary cell of the machine whose main cell is at `main_coord`.
pub fn machine_sub_cell(id: char, x: usize, y: usize, main_coord: usize, ocw: usize, och: usize) -> (c: Cell)
    requires
        spec_is_middle(x as int, y as int),
    ensures
        spec_fresh_cell(c, CellKind::Machine, x as int, y as int),
        main_coord < FLOOR_CELLS_WH ==> c.wf_at(spec_to_coord(x as int, y as int)),
        c.ins@.len() == 0,
        c.outs@.len() == 0,
        c.port_u == Port::Unknown && c.port_r == Port::Unknown && c.port_d == Port::Unknown && c.port_l == Port::Unknown,
        c.belt == spec_belt_none(),
        c.machine.kind == MachineKind::SubBuilding,
        c.machine.main_coord == main_coord,
        c.machine.id == id,
        c.machine.cell_width == ocw,
        c.machine.cell_height == och,
        c.machine.wants@.len() == 0,
        c.machine.haves@.len() == 0,
        c.machine.output_want == spec_part_none(),
        c.machine.speed == 666,
        c.machine.coords@.len() == 0,
        c.machine.start_at == 0,
{
    let coord = x + y * FLOOR_CELLS_W;
    Cell {
        kind: CellKind::Machine,
        ticks: 0,
        auto_counter: 0,
        x,
        y,
        is_edge: false,
        is_side: false,
        is_zero: false,
        coord,
        coord_u: Some(to_coord_up(coord)),
        coord_r: Some(to_coord_right(coord)),
        coord_d: Some(to_coord_down(coord)),
        coord_l: Some(to_coord_left(coord)),
        ins: Vec::new(),
        outs: Vec::new(),
        port_u: Port::Unknown,
        port_r: Port::Unknown,
        port_d: Port::Unknown,
        port_l: Port::Unknown,
        marked: false,
        belt: belt_none(),
        machine: machine_new(MachineKind::SubBuilding, ocw, och, id, main_coord, Vec::new(), part_none(), 666),
        demand: demand_none(),
        supply: supply_none(),
    }
}

/// The side of the edge cell (x, y) that faces the floor.
pub open spec fn spec_edge_port(x: int, y: int, dir: Direction) -> bool {
    match dir {
        Direction::Up => y == FLOOR_CELLS_H - 1,
        Direction::Right => x == 0,
        Direction::Down => y == 0,
        Direction::Left => x == FLOOR_CELLS_W - 1,
    }
}

/// `c` is the supplier cell that `supply_cell(x, y, part, speed, cooldown, price)` builds.
pub open spec fn spec_new_supply(c: Cell, x: int, y: int, part: Part, speed: u64, cooldown: u64, price: i32) -> bool {
    let n = spec_edge_neighbor(x, y, spec_to_coord(x, y));
    &&& spec_fresh_cell(c, CellKind::Supply, x, y)
    &&& c.ins@.len() == 0
    &&& c.outs@ == seq![(n.1, spec_to_coord(x, y) as usize, n.0 as usize, n.2)]
    &&& c.port_u == (if spec_edge_port(x, y, Direction::Up) { Port::Outbound } else { Port::Absent })
    &&& c.port_r == (if spec_edge_port(x, y, Direction::Right) { Port::Outbound } else { Port::Absent })
    &&& c.port_d == (if spec_edge_port(x, y, Direction::Down) { Port::Outbound } else { Port::Absent })
    &&& c.port_l == (if spec_edge_port(x, y, Direction::Left) { Port::Outbound } else { Port::Absent })
    &&& c.belt == spec_belt_none()
    &&& c.machine.kind == MachineKind::Absent
    &&& c.supply == supply_new_spec(part, n.0 as usize, n.1, n.2, speed, cooldown, price)
}

/// `c` is the demander cell that `demand_cell(x, y, speed, cooldown)` builds.
pub open spec fn spec_new_demand(c: Cell, x: int, y: int, speed: u64, cooldown: u64) -> bool {
    let n = spec_edge_neighbor(x, y, spec_to_coord(x, y));
    &&& spec_fresh_cell(c, CellKind::Demand, x, y)
    &&& c.outs@.len() == 0
    &&& c.ins@ == seq![(n.1, spec_to_coord(x, y) as usize, n.0 as usize, n.2)]
    &&& c.port_u == (if spec_edge_port(x, y, Direction::Up) { Port::Inbound } else { Port::Absent })
    &&& c.port_r == (if spec_edge_port(x, y, Direction::Right) { Port::Inbound } else { Port::Absent })
    &&& c.port_d == (if spec_edge_port(x, y, Direction::Down) { Port::Inbound } else { Port::Absent })
    &&& c.port_l == (if spec_edge_port(x, y, Direction::Left) { Port::Inbound } else { Port::Absent })
    &&& c.belt == spec_belt_none()
    &&& c.machine.kind == MachineKind::Absent
    &&& c.demand.speed == speed
    &&& c.demand.cooldown == cooldown
    &&& c.demand.received == 0
    &&& c.demand.neighbor_coord == n.0
}

/// A supplier of `part` on the edge cell (x, y). It has one outbound link, towards the floor.
pub fn supply_cell(x: usize, y: usize, part: Part, speed: u64, cooldown: u64, price: i32) -> (c: Cell)
    requires
        x < FLOOR_CELLS_W,
        y < FLOOR_CELLS_H,
        spec_is_edge(x as int, y as int),
    ensures
        spec_fresh_cell(c, CellKind::Supply, x as int, y as int),
        c.wf_at(spec_to_coord(x as int, y as int)),
        c.ins@.len() == 0,
        c.outs@ == seq![({
            let n = spec_edge_neighbor(x as int, y as int, spec_to_coord(x as int, y as int));
            (n.1, spec_to_coord(x as int, y as int) as usize, n.0 as usize, n.2)
        })],
        c.port_u == (if spec_edge_port(x as int, y as int, Direction::Up) { Port::Outbound } else { Port::Absent }),
        c.port_r == (if spec_edge_port(x as int, y as int, Direction::Right) { Port::Outbound } else { Port::Absent }),
        c.port_d == (if spec_edge_port(x as int, y as int, Direction::Down) { Port::Outbound } else { Port::Absent }),
        c.port_l == (if spec_edge_port(x as int, y as int, Direction::Left) { Port::Outbound } else { Port::Absent }),
        c.belt == spec_belt_none(),
        c.machine.kind == MachineKind::Absent,
        ({
            let n = spec_edge_neighbor(x as int, y as int, spec_to_coord(x as int, y as int));
            c.supply == supply_new_spec(part, n.0 as usize, n.1, n.2, speed, cooldown, price)
        }),
        spec_new_supply(c, x as int, y as int, part, speed, cooldown, price),
{
    let coord = x + y * FLOOR_CELLS_W;
    let coord_u = if y == 0 { None } else { Some(to_coord_up(coord)) };
    let coord_r = if x == FLOOR_CELLS_W - 1 { None } else { Some(to_coord_right(coord)) };
    let coord_d = if y == FLOOR_CELLS_H - 1 { None } else { Some(to_coord_down(coord)) };
    let coord_l = if x == 0 { None } else { Some(to_coord_left(coord)) };
    let (neighbor_coord, outgoing_dir, neighbor_incoming_dir) = get_edge_neighbor(x, y, coord);
    let mut outs: Vec<Link> = Vec::new();
    outs.push((outgoing_dir, coord, neighbor_coord, neighbor_incoming_dir));
    Cell {
        kind: CellKind::Supply,
        ticks: 0,
        auto_counter: 0,
        x,
        y,
        is_edge: x == 0 || y == 0 || x == FLOOR_CELLS_W - 1 || y == FLOOR_CELLS_H - 1,
        is_side: x == 0 || x == FLOOR_CELLS_W - 1,
        is_zero: x == 0 || y == 0,
        coord,
        coord_u,
        coord_r,
        coord_d,
        coord_l,
        ins: Vec::new(),
        outs,
        port_u: if y == FLOOR_CELLS_H - 1 { Port::Outbound } else { Port::Absent },
        port_r: if x == 0 { Port::Outbound } else { Port::Absent },
        port_d: if y == 0 { Port::Outbound } else { Port::Absent },
        port_l: if x == FLOOR_CELLS_W - 1 { Port::Outbound } else { Port::Absent },
        marked: false,
        belt: belt_none(),
        machine: machine_none(coord),
        demand: demand_none(),
        supply: supply_new(part, neighbor_coord, outgoing_dir, neighbor_incoming_dir, speed, cooldown, price),
    }
}

pub open spec fn supply_new_spec(part: Part, neighbor_coord: usize, outgoing_dir: Direction, neighbor_incoming_dir: Direction, speed: u64, cooldown: u64, price: i32) -> Supply {
    Supply {
        gives: part,
        neighbor_coord,
        outgoing_dir,
        neighbor_incoming_dir,
        speed,
        cooldown,
        price,
        part_created_at: 0,
        part_tbd: true,
        part_progress: 0,
    }
}

/// A demander on the edge cell (x, y). It has one inbound link, from the floor.
pub fn demand_cell(x: usize, y: usize, speed: u64, cooldown: u64) -> (c: Cell)
    requires
        x < FLOOR_CELLS_W,
        y < FLOOR_CELLS_H,
        spec_is_edge(x as int, y as int),
    ensures
        spec_fresh_cell(c, CellKind::Demand, x as int, y as int),
        c.wf_at(spec_to_coord(x as int, y as int)),
        c.outs@.len() == 0,
        c.ins@ == seq![({
            let n = spec_edge_neighbor(x as int, y as int, spec_to_coord(x as int, y as int));
            (n.1, spec_to_coord(x as int, y as int) as usize, n.0 as usize, n.2)
        })],
        c.port_u == (if spec_edge_port(x as int, y as int, Direction::Up) { Port::Inbound } else { Port::Absent }),
        c.port_r == (if spec_edge_port(x as int, y as int, Direction::Right) { Port::Inbound } else { Port::Absent }),
        c.port_d == (if spec_edge_port(x as int, y as int, Direction::Down) { Port::Inbound } else { Port::Absent }),
        c.port_l == (if spec_edge_port(x as int, y as int, Direction::Left) { Port::Inbound } else { Port::Absent }),
        c.belt == spec_belt_none(),
        c.machine.kind == MachineKind::Absent,
        c.demand == ({
            let n = spec_edge_neighbor(x as int, y as int, spec_to_coord(x as int, y as int));
            Demand {
                neighbor_coord: n.0 as usize,
                incoming_dir: n.1,
                neighbor_outgoing_dir: n.2,
                speed,
                cooldown,
                part: spec_part_none(),
                last_part_at: 0,
                received: 0,
            }
        }),
        spec_new_demand(c, x as int, y as int, speed, cooldown),
{
    let coord = x + y * FLOOR_CELLS_W;
    let coord_u = if y == 0 { None } else { Some(to_coord_up(coord)) };
    let coord_r = if x == FLOOR_CELLS_W - 1 { None } else { Some(to_coord_right(coord)) };
    let coord_d = if y == FLOOR_CELLS_H - 1 { None } else { Some(to_coord_down(coord)) };
    let coord_l = if x == 0 { None } else { Some(to_coord_left(coord)) };
    let (neighbor_coord, incoming_dir, neighbor_outgoing_dir) = get_edge_neighbor(x, y, coord);
    let mut ins: Vec<Link> = Vec::new();
    ins.push((incoming_dir, coord, neighbor_coord, neighbor_outgoing_dir));
    Cell {
        kind: CellKind::Demand,
        ticks: 0,
        auto_counter: 0,
        x,
        y,
        is_edge: x == 0 || y == 0 || x == FLOOR_CELLS_W - 1 || y == FLOOR_CELLS_H - 1,
        is_side: x == 0 || x == FLOOR_CELLS_W - 1,
        is_zero: x == 0 || y == 0,
        coord,
        coord_u,
        coord_r,
        coord_d,
        coord_l,
        ins,
        outs: Vec::new(),
        port_u: if y == FLOOR_CELLS_H - 1 { Port::Inbound } else { Port::Absent },
        port_r: if x == 0 { Port::Inbound } else { Port::Absent },
        port_d: if y == 0 { Port::Inbound } else { Port::Absent },
        port_l: if x == FLOOR_CELLS_W - 1 { Port::Inbound } else { Port::Absent },
        marked: false,
        belt: belt_none(),
        machine: machine_none(coord),
        demand: demand_new(neighbor_coord, incoming_dir, neighbor_outgoing_dir, speed, cooldown),
        supply: supply_none(),
    }
}

/// Exchanges two elements of a list.
fn swap_links(v: &mut Vec<Link>, i: usize, j: usize)
    requires
        i < old(v).len(),
        j < old(v).len(),
    ensures
        final(v)@ == old(v)@.update(i as int, old(v)@[j as int]).update(j as int, old(v)@[i as int]),
{
    let a = v[i];
    let b = v[j];
    v[i] = b;
    v[j] = a;
}

/// The list with the element at `index` moved to the end, the others keeping their order.
pub open spec fn spec_back_of_the_line(s: Seq<Link>, index: int) -> Seq<Link> {
    if 0 <= index < s.len() {
        s.remove(index).push(s[index])
    } else {
        s
    }
}

/// Moving a link to the back of the list keeps the links valid.
pub proof fn lemma_links_ok_back_of_the_line(s: Seq<Link>, index: int)
    requires
        links_ok(s),
    ensures
        links_ok(spec_back_of_the_line(s, index)),
{
    if 0 <= index < s.len() {
        lemma_links_ok_remove(s, index);
        let r = s.remove(index);
        assert forall|j: int| 0 <= j < r.push(s[index]).len() implies #[trigger] r.push(s[index])[j].1 < FLOOR_CELLS_WH && r.push(s[index])[j].2 < FLOOR_CELLS_WH by {
            if j < r.len() {
                assert(r.push(s[index])[j] == r[j]);
            }
        }
    }
}

/// Moves the element at `index` to the end of the list, keeping the order of the others.
pub fn back_of_the_line(ins_or_outs: &mut Vec<Link>, index: usize)
    requires
        old(ins_or_outs).len() > 0,
    ensures
        final(ins_or_outs)@ == spec_back_of_the_line(old(ins_or_outs)@, index as int),
{
    let len = ins_or_outs.len();
    let ghost s = ins_or_outs@;
    if len == 1 {
        proof {
            if index == 0 {
                assert(s.remove(0).push(s[0]) =~= s);
            }
        }
        return;
    }
    if len == 2 {
        if index == 0 {
            swap_links(ins_or_outs, 0, 1);
            assert(ins_or_outs@ =~= s.remove(0).push(s[0]));
        } else if index == 1 {
            assert(s.remove(1).push(s[1]) =~= s);
        }
        return;
    }
    if len == 3 {
        if index == 0 {
            swap_links(ins_or_outs, 0, 1);
        }
        if index <= 1 {
            swap_links(ins_or_outs, 1, 2);
        }
        proof {
            if index < 3 {
                assert(ins_or_outs@ =~= s.remove(index as int).push(s[index as int]));
            } else {
                assert(ins_or_outs@ =~= s);
            }
        }
        return;
    }
    let mut i: usize = index;
    while i < len - 1
        invariant
            len == s.len(),
            len >= 4,
            ins_or_outs@.len() == len,
            index <= i || index >= len,
            index < len ==> i < len,
            index >= len ==> ins_or_outs@ == s && i == index,
            index < len ==> (forall|j: int| 0 <= j < index ==> ins_or_outs@[j] == s[j]),
            index < len ==> (forall|j: int| index <= j < i ==> ins_or_outs@[j] == s[j + 1]),
            index < len ==> ins_or_outs@[i as int] == s[index as int],
            index < len ==> (forall|j: int| i < j < len ==> ins_or_outs@[j] == s[j]),
        decreases len - i,
    {
        swap_links(ins_or_outs, i, i + 1);
        i = i + 1;
    }
    proof {
        if index < len {
            assert(ins_or_outs@ =~= s.remove(index as int).push(s[index as int]));
        }
    }
}

/// The four ports of a cell with the one on side `dir` replaced.
pub open spec fn spec_ports_with(c: Cell, dir: Direction, p: Port) -> (Port, Port, Port, Port) {
    (
        if dir == Direction::Up { p } else { c.port_u },
        if dir == Direction::Right { p } else { c.port_r },
        if dir == Direction::Down { p } else { c.port_d },
        if dir == Direction::Left { p } else { c.port_l },
    )
}

/// The belt description that matches the current ports of a cell.
pub open spec fn spec_meta_of_ports(c: Cell) -> BeltMeta {
    spec_belt_type_to_belt_meta(spec_belt_type_from_ports(c.port_u, c.port_r, c.port_d, c.port_l))
}

/// Two cells are equal in everything but the listed parts.
pub open spec fn same_but_ports_links_meta(a: Cell, b: Cell) -> bool {
    &&& a.kind == b.kind
    &&& a.ticks == b.ticks
    &&& a.auto_counter == b.auto_counter
    &&& a.x == b.x && a.y == b.y && a.coord == b.coord
    &&& a.is_edge == b.is_edge && a.is_side == b.is_side && a.is_zero == b.is_zero
    &&& a.coord_u == b.coord_u && a.coord_r == b.coord_r && a.coord_d == b.coord_d && a.coord_l == b.coord_l
    &&& a.marked == b.marked
    &&& a.belt.part == b.belt.part
    &&& a.belt.part_from == b.belt.part_from
    &&& a.belt.part_to == b.belt.part_to
    &&& a.belt.part_to_tbd == b.belt.part_to_tbd
    &&& a.belt.part_at == b.belt.part_at
    &&& a.belt.part_progress == b.belt.part_progress
    &&& a.belt.speed == b.belt.speed
    &&& a.belt.tick_price == b.belt.tick_price
    &&& a.belt.sprite_start_at == b.belt.sprite_start_at
    &&& a.machine == b.machine
    &&& a.supply == b.supply
    &&& a.demand == b.demand
}

/// Sets the belt description of a floor cell to the one that matches its ports.
pub fn fix_belt_meta_floor(floor: &mut Vec<Cell>, coord: usize)
    requires
        coord < old(floor).len(),
    ensures
        final(floor)@ == old(floor)@.update(coord as int, final(floor)@[coord as int]),
        same_but_ports_links_meta(final(floor)@[coord as int], old(floor)@[coord as int]),
        final(floor)@[coord as int].ins@ == old(floor)@[coord as int].ins@,
        final(floor)@[coord as int].outs@ == old(floor)@[coord as int].outs@,
        final(floor)@[coord as int].port_u == old(floor)@[coord as int].port_u,
        final(floor)@[coord as int].port_r == old(floor)@[coord as int].port_r,
        final(floor)@[coord as int].port_d == old(floor)@[coord as int].port_d,
        final(floor)@[coord as int].port_l == old(floor)@[coord as int].port_l,
        final(floor)@[coord as int].belt.meta == spec_meta_of_ports(old(floor)@[coord as int]),
        final(floor)@ == old(floor)@.update(coord as int, Cell {
            belt: Belt { meta: spec_meta_of_ports(old(floor)@[coord as int]), ..old(floor)@[coord as int].belt },
            ..old(floor)@[coord as int]
        }),
{
    let pu = floor[coord].port_u;
    let pr = floor[coord].port_r;
    let pd = floor[coord].port_d;
    let pl = floor[coord].port_l;
    let belt_type = belt_type_from_ports(pu, pr, pd, pl);
    let belt_meta = belt_type_to_belt_meta(belt_type);
    floor[coord].belt.meta = belt_meta;
}


pub open spec fn spec_link(coord_from: usize, dir: Direction, ocoord: usize) -> Link {
    (dir, coord_from, ocoord, spec_direction_reverse(dir))
}

/// `i` is the first position in the list whose link uses side `dir`.
pub open spec fn is_first_dir(s: Seq<Link>, dir: Direction, i: int) -> bool {
    &&& 0 <= i < s.len()
    &&& s[i].0 == dir
    &&& forall|j: int| 0 <= j < i ==> s[j].0 != dir
}

/// The list without its first link that uses side `dir`.
#[verifier::opaque]
pub open spec fn spec_remove_dir(s: Seq<Link>, dir: Direction) -> Seq<Link> {
    if exists|i: int| is_first_dir(s, dir, i) {
        s.remove(choose|i: int| is_first_dir(s, dir, i))
    } else {
        s
    }
}

proof fn lemma_first_dir_unique(s: Seq<Link>, dir: Direction, i: int, k: int)
    requires
        is_first_dir(s, dir, i),
        is_first_dir(s, dir, k),
    ensures
        i == k,
{
}

proof fn lemma_links_ok_remove(s: Seq<Link>, i: int)
    requires
        links_ok(s),
        0 <= i < s.len(),
    ensures
        links_ok(s.remove(i)),
{
    assert forall|j: int| 0 <= j < s.remove(i).len() implies #[trigger] s.remove(i)[j].1 < FLOOR_CELLS_WH && s.remove(i)[j].2 < FLOOR_CELLS_WH by {
        if j < i {
            assert(s.remove(i)[j] == s[j]);
        } else {
            assert(s.remove(i)[j] == s[j + 1]);
        }
    }
}

/// Removes the first link on side `needle_dir` from the inbound links of a cell.
fn remove_dir_from_cell_ins(factory: &mut Factory, coord: usize, needle_dir: Direction)
    requires
        old(factory).wf(),
        coord < FLOOR_CELLS_WH,
    ensures
        final(factory).wf(),
        same_but_floor(final(factory), old(factory)),
        final(factory).floor@ == old(factory).floor@.update(coord as int, final(factory).floor@[coord as int]),
        final(factory).floor@[coord as int].ins@ == spec_remove_dir(old(factory).floor@[coord as int].ins@, needle_dir),
        final(factory).floor@[coord as int].outs@ == old(factory).floor@[coord as int].outs@,
        same_but_ports_links_meta(final(factory).floor@[coord as int], old(factory).floor@[coord as int]),
        final(factory).floor@[coord as int].port_u == old(factory).floor@[coord as int].port_u,
        final(factory).floor@[coord as int].port_r == old(factory).floor@[coord as int].port_r,
        final(factory).floor@[coord as int].port_d == old(factory).floor@[coord as int].port_d,
        final(factory).floor@[coord as int].port_l == old(factory).floor@[coord as int].port_l,
        final(factory).floor@[coord as int].belt.meta == old(factory).floor@[coord as int].belt.meta,
{
    proof { lemma_floor_cell(factory.floor@, coord as int); reveal(spec_remove_dir); }
    let ghost s = factory.floor@[coord as int].ins@;
    let len = factory.floor[coord].ins.len();
    let mut i: usize = 0;
    while i < len
        invariant
            factory.wf(),
            coord < FLOOR_CELLS_WH,
            factory.floor@ == old(factory).floor@,
            same_but_floor(factory, old(factory)),
            links_ok(s),
            len == s.len(),
            s == factory.floor@[coord as int].ins@,
            i <= len,
            forall|j: int| 0 <= j < i ==> s[j].0 != needle_dir,
        decreases len - i,
    {
        if factory.floor[coord].ins[i].0 == needle_dir {
            proof {
                lemma_links_ok_remove(s, i as int);
                assert(is_first_dir(s, needle_dir, i as int));
                assert forall|k: int| is_first_dir(s, needle_dir, k) implies k == i by {
                    lemma_first_dir_unique(s, needle_dir, i as int, k);
                }
            }
            factory.floor[coord].ins.remove(i);
            proof {
                reveal(spec_remove_dir);
                lemma_floor_cell(old(factory).floor@, coord as int);
                assert(factory.floor@ == old(factory).floor@.update(coord as int, factory.floor@[coord as int]));
                lemma_floor_update(old(factory).floor@, coord as int, factory.floor@[coord as int]);
            }
            return;
        }
        i = i + 1;
    }
}

/// Removes the first link on side `needle_dir` from the outbound links of a cell.
fn remove_dir_from_cell_outs(factory: &mut Factory, coord: usize, needle_dir: Direction)
    requires
        old(factory).wf(),
        coord < FLOOR_CELLS_WH,
    ensures
        final(factory).wf(),
        same_but_floor(final(factory), old(factory)),
        final(factory).floor@ == old(factory).floor@.update(coord as int, final(factory).floor@[coord as int]),
        final(factory).floor@[coord as int].outs@ == spec_remove_dir(old(factory).floor@[coord as int].outs@, needle_dir),
        final(factory).floor@[coord as int].ins@ == old(factory).floor@[coord as int].ins@,
        same_but_ports_links_meta(final(factory).floor@[coord as int], old(factory).floor@[coord as int]),
        final(factory).floor@[coord as int].port_u == old(factory).floor@[coord as int].port_u,
        final(factory).floor@[coord as int].port_r == old(factory).floor@[coord as int].port_r,
        final(factory).floor@[coord as int].port_d == old(factory).floor@[coord as int].port_d,
        final(factory).floor@[coord as int].port_l == old(factory).floor@[coord as int].port_l,
        final(factory).floor@[coord as int].belt.meta == old(factory).floor@[coord as int].belt.meta,
{
    proof { lemma_floor_cell(factory.floor@, coord as int); reveal(spec_remove_dir); }
    let ghost s = factory.floor@[coord as int].outs@;
    let len = factory.floor[coord].outs.len();
    let mut i: usize = 0;
    while i < len
        invariant
            factory.wf(),
            coord < FLOOR_CELLS_WH,
            factory.floor@ == old(factory).floor@,
            same_but_floor(factory, old(factory)),
            links_ok(s),
            len == s.len(),
            s == factory.floor@[coord as int].outs@,
            i <= len,
            forall|j: int| 0 <= j < i ==> s[j].0 != needle_dir,
        decreases len - i,
    {
        if factory.floor[coord].outs[i].0 == needle_dir {
            proof {
                lemma_links_ok_remove(s, i as int);
                assert(is_first_dir(s, needle_dir, i as int));
                assert forall|k: int| is_first_dir(s, needle_dir, k) implies k == i by {
                    lemma_first_dir_unique(s, needle_dir, i as int, k);
                }
            }
            factory.floor[coord].outs.remove(i);
            proof {
                reveal(spec_remove_dir);
                lemma_floor_cell(old(factory).floor@, coord as int);
                assert(factory.floor@ == old(factory).floor@.update(coord as int, factory.floor@[coord as int]));
                lemma_floor_update(old(factory).floor@, coord as int, factory.floor@[coord as int]);
            }
            return;
        }
        i = i + 1;
    }
}

pub open spec fn spec_main_coord(floor: Seq<Cell>, coord: int) -> int {
    if floor[coord].kind == CellKind::Machine { floor[coord].machine.main_coord as int } else { coord }
}

/// The cell that holds the links of the given cell: the main cell of a machine, else itself.
pub fn get_main_coord(factory: &Factory, coord: usize) -> (r: usize)
    requires
        factory.wf(),
        coord < FLOOR_CELLS_WH,
    ensures
        r == spec_main_coord(factory.floor@, coord as int),
        r < FLOOR_CELLS_WH,
{
    proof { lemma_floor_cell(factory.floor@, coord as int); }
    if factory.floor[coord].kind == CellKind::Machine {
        return factory.floor[coord].machine.main_coord;
    }
    coord
}

/// The kind of the cell at `coord`; a missing neighbor counts as empty.
pub fn get_cell_kind_at(factory: &Factory, coord: Option<usize>) -> (k: CellKind)
    requires
        factory.floor.len() == FLOOR_CELLS_WH,
        coord matches Some(c) ==> c < FLOOR_CELLS_WH,
    ensures
        k == match coord {
            None => CellKind::Empty,
            Some(c) => factory.floor@[c as int].kind,
        },
{
    match coord {
        None => CellKind::Empty,
        Some(c) => factory.floor[c].kind,
    }
}

/// The links list after replacing a port of kind `old_port` by one of kind `new_port` on
/// side `dir`, for the list that holds links of kind `list_port`.
pub open spec fn spec_links_after_port_change(s: Seq<Link>, list_port: Port, old_port: Port, new_port: Port, link: Link) -> Seq<Link> {
    let removed = if old_port == list_port { spec_remove_dir(s, link.0) } else { s };
    if new_port == list_port { removed.push(link) } else { removed }
}

/// Sets the port on side `dir` of cell `coord_from` (whose neighbor on that side is `ocoord`)
/// and updates its belt description and the links of the cell that holds its links.
fn cell_set_port_to(factory: &mut Factory, coord_from: usize, dir: Direction, port: Port, ocoord: usize)
    requires
        old(factory).wf(),
        coord_from < FLOOR_CELLS_WH,
        ocoord < FLOOR_CELLS_WH,
    ensures
        final(factory).wf(),
        same_but_floor(final(factory), old(factory)),
        spec_port_set(old(factory).floor@, final(factory).floor@, coord_from as int, dir, port, ocoord),
{
    proof { lemma_floor_cell(factory.floor@, coord_from as int); }
    let old_port = get_port(&factory.floor[coord_from], dir);
    if old_port == port {
        proof { reveal(spec_port_set); }
        return;
    }
    let ghost f0 = factory.floor@;
    let machine_friendly_coord = get_main_coord(factory, coord_from);
    remove_port_link(factory, machine_friendly_coord, dir, old_port);
    let ghost f1 = factory.floor@;
    set_port_field(factory, coord_from, dir, port);
    let ghost f2 = factory.floor@;
    fix_belt_meta(factory, coord_from);
    let ghost f3 = factory.floor@;
    let link = (dir, coord_from, ocoord, crate::direction::direction_reverse(dir));
    add_port_link(factory, machine_friendly_coord, link, port);
    proof {
        lemma_port_set_steps(f0, f1, f2, f3, factory.floor@, coord_from as int, machine_friendly_coord as int, dir, old_port, port, ocoord);
    }
}

/// Drops the link on side `dir` from the list that holds links of kind `old_port`.
fn remove_port_link(factory: &mut Factory, m: usize, dir: Direction, old_port: Port)
    requires
        old(factory).wf(),
        m < FLOOR_CELLS_WH,
    ensures
        final(factory).wf(),
        same_but_floor(final(factory), old(factory)),
        final(factory).floor@ == old(factory).floor@.update(m as int, final(factory).floor@[m as int]),
        same_but_ports_links_meta(final(factory).floor@[m as int], old(factory).floor@[m as int]),
        final(factory).floor@[m as int].port_u == old(factory).floor@[m as int].port_u,
        final(factory).floor@[m as int].port_r == old(factory).floor@[m as int].port_r,
        final(factory).floor@[m as int].port_d == old(factory).floor@[m as int].port_d,
        final(factory).floor@[m as int].port_l == old(factory).floor@[m as int].port_l,
        final(factory).floor@[m as int].belt.meta == old(factory).floor@[m as int].belt.meta,
        final(factory).floor@[m as int].ins@ == (if old_port == Port::Inbound { spec_remove_dir(old(factory).floor@[m as int].ins@, dir) } else { old(factory).floor@[m as int].ins@ }),
        final(factory).floor@[m as int].outs@ == (if old_port == Port::Outbound { spec_remove_dir(old(factory).floor@[m as int].outs@, dir) } else { old(factory).floor@[m as int].outs@ }),
{
    if old_port == Port::Inbound {
        remove_dir_from_cell_ins(factory, m, dir);
    } else if old_port == Port::Outbound {
        remove_dir_from_cell_outs(factory, m, dir);
    } else {
        assert(factory.floor@.update(m as int, factory.floor@[m as int]) =~= factory.floor@);
    }
}

/// Appends `link` to the list that holds links of kind `port`, if any.
fn add_port_link(factory: &mut Factory, m: usize, link: Link, port: Port)
    requires
        old(factory).wf(),
        m < FLOOR_CELLS_WH,
        link.1 < FLOOR_CELLS_WH,
        link.2 < FLOOR_CELLS_WH,
    ensures
        final(factory).wf(),
        same_but_floor(final(factory), old(factory)),
        final(factory).floor@ == old(factory).floor@.update(m as int, final(factory).floor@[m as int]),
        same_but_ports_links_meta(final(factory).floor@[m as int], old(factory).floor@[m as int]),
        final(factory).floor@[m as int].port_u == old(factory).floor@[m as int].port_u,
        final(factory).floor@[m as int].port_r == old(factory).floor@[m as int].port_r,
        final(factory).floor@[m as int].port_d == old(factory).floor@[m as int].port_d,
        final(factory).floor@[m as int].port_l == old(factory).floor@[m as int].port_l,
        final(factory).floor@[m as int].belt.meta == old(factory).floor@[m as int].belt.meta,
        final(factory).floor@[m as int].ins@ == (if port == Port::Inbound { old(factory).floor@[m as int].ins@.push(link) } else { old(factory).floor@[m as int].ins@ }),
        final(factory).floor@[m as int].outs@ == (if port == Port::Outbound { old(factory).floor@[m as int].outs@.push(link) } else { old(factory).floor@[m as int].outs@ }),
{
    if port == Port::Inbound {
        push_link(factory, m, link, true);
    } else if port == Port::Outbound {
        push_link(factory, m, link, false);
    } else {
        assert(factory.floor@.update(m as int, factory.floor@[m as int]) =~= factory.floor@);
    }
}

#[verifier::spinoff_prover]
#[verifier::rlimit(100)]
proof fn lemma_port_set_steps(f0: Seq<Cell>, f1: Seq<Cell>, f2: Seq<Cell>, f3: Seq<Cell>, f4: Seq<Cell>, from: int, m: int, dir: Direction, old_port: Port, port: Port, ocoord: usize)
    requires
        0 <= from < f0.len(),
        0 <= m < f0.len(),
        m == spec_main_coord(f0, from),
        old_port == f0[from].port(dir),
        old_port != port,
        // removal
        f1 == f0.update(m, f1[m]),
        same_but_ports_links_meta(f1[m], f0[m]),
        f1[m].port_u == f0[m].port_u && f1[m].port_r == f0[m].port_r && f1[m].port_d == f0[m].port_d && f1[m].port_l == f0[m].port_l,
        f1[m].belt.meta == f0[m].belt.meta,
        f1[m].ins@ == (if old_port == Port::Inbound { spec_remove_dir(f0[m].ins@, dir) } else { f0[m].ins@ }),
        f1[m].outs@ == (if old_port == Port::Outbound { spec_remove_dir(f0[m].outs@, dir) } else { f0[m].outs@ }),
        // port field
        f2 == f1.update(from, f2[from]),
        same_but_ports_links_meta(f2[from], f1[from]),
        f2[from].ins@ == f1[from].ins@ && f2[from].outs@ == f1[from].outs@,
        (f2[from].port_u, f2[from].port_r, f2[from].port_d, f2[from].port_l) == spec_ports_with(f1[from], dir, port),
        // meta
        f3 == f2.update(from, f3[from]),
        same_but_ports_links_meta(f3[from], f2[from]),
        f3[from].ins@ == f2[from].ins@ && f3[from].outs@ == f2[from].outs@,
        f3[from].port_u == f2[from].port_u && f3[from].port_r == f2[from].port_r && f3[from].port_d == f2[from].port_d && f3[from].port_l == f2[from].port_l,
        f3[from].belt.meta == spec_meta_of_ports(f2[from]),
        // push
        f4 == f3.update(m, f4[m]),
        same_but_ports_links_meta(f4[m], f3[m]),
        f4[m].port_u == f3[m].port_u && f4[m].port_r == f3[m].port_r && f4[m].port_d == f3[m].port_d && f4[m].port_l == f3[m].port_l,
        f4[m].belt.meta == f3[m].belt.meta,
        f4[m].ins@ == (if port == Port::Inbound { f3[m].ins@.push(spec_link(from as usize, dir, ocoord)) } else { f3[m].ins@ }),
        f4[m].outs@ == (if port == Port::Outbound { f3[m].outs@.push(spec_link(from as usize, dir, ocoord)) } else { f3[m].outs@ }),
    ensures
        spec_port_set(f0, f4, from, dir, port, ocoord),
{
    reveal(spec_port_set);
    assert(f1[from].port_u == f0[from].port_u && f1[from].port_r == f0[from].port_r && f1[from].port_d == f0[from].port_d && f1[from].port_l == f0[from].port_l);
    assert(f4.len() == f0.len());
    assert forall|i: int| 0 <= i < f0.len() && i != from && i != m implies f4[i] == f0[i] by {
        assert(f4[i] == f3[i]);
        assert(f3[i] == f2[i]);
        assert(f2[i] == f1[i]);
        assert(f1[i] == f0[i]);
    }
    if m == from {
        assert(f4[from].ins@ == (if port == Port::Inbound { f1[m].ins@.push(spec_link(from as usize, dir, ocoord)) } else { f1[m].ins@ }));
        assert(f4[from].outs@ == (if port == Port::Outbound { f1[m].outs@.push(spec_link(from as usize, dir, ocoord)) } else { f1[m].outs@ }));
    } else {
        assert(f4[from] == f3[from]);
        assert(f3[m] == f2[m]);
        assert(f2[m] == f1[m]);
        assert(f2[from].ins@ == f1[from].ins@);
        assert(f1[from] == f0[from]);
    }
}

/// The port on side `dir` of a cell.
pub fn get_port(cell: &Cell, dir: Direction) -> (p: Port)
    ensures
        p == cell.port(dir),
{
    match dir {
        Direction::Up => cell.port_u,
        Direction::Right => cell.port_r,
        Direction::Down => cell.port_d,
        Direction::Left => cell.port_l,
    }
}

/// Sets the port field on side `dir` of a cell.
fn set_port_field(factory: &mut Factory, coord: usize, dir: Direction, port: Port)
    requires
        old(factory).wf(),
        coord < FLOOR_CELLS_WH,
    ensures
        final(factory).wf(),
        same_but_floor(final(factory), old(factory)),
        final(factory).floor@ == old(factory).floor@.update(coord as int, final(factory).floor@[coord as int]),
        same_but_ports_links_meta(final(factory).floor@[coord as int], old(factory).floor@[coord as int]),
        final(factory).floor@[coord as int].ins@ == old(factory).floor@[coord as int].ins@,
        final(factory).floor@[coord as int].outs@ == old(factory).floor@[coord as int].outs@,
        final(factory).floor@[coord as int].belt.meta == old(factory).floor@[coord as int].belt.meta,
        (final(factory).floor@[coord as int].port_u, final(factory).floor@[coord as int].port_r,
         final(factory).floor@[coord as int].port_d, final(factory).floor@[coord as int].port_l)
            == spec_ports_with(old(factory).floor@[coord as int], dir, port),
{
    match dir {
        Direction::Up => factory.floor[coord].port_u = port,
        Direction::Right => factory.floor[coord].port_r = port,
        Direction::Down => factory.floor[coord].port_d = port,
        Direction::Left => factory.floor[coord].port_l = port,
    }
    proof {
        lemma_floor_cell(old(factory).floor@, coord as int);
        assert(factory.floor@ == old(factory).floor@.update(coord as int, factory.floor@[coord as int]));
        lemma_floor_update(old(factory).floor@, coord as int, factory.floor@[coord as int]);
    }
}

/// Appends a link to the inbound (when `inbound`) or outbound links of a cell.
fn push_link(factory: &mut Factory, coord: usize, link: Link, inbound: bool)
    requires
        old(factory).wf(),
        coord < FLOOR_CELLS_WH,
        link.1 < FLOOR_CELLS_WH,
        link.2 < FLOOR_CELLS_WH,
    ensures
        final(factory).wf(),
        same_but_floor(final(factory), old(factory)),
        final(factory).floor@ == old(factory).floor@.update(coord as int, final(factory).floor@[coord as int]),
        same_but_ports_links_meta(final(factory).floor@[coord as int], old(factory).floor@[coord as int]),
        final(factory).floor@[coord as int].port_u == old(factory).floor@[coord as int].port_u,
        final(factory).floor@[coord as int].port_r == old(factory).floor@[coord as int].port_r,
        final(factory).floor@[coord as int].port_d == old(factory).floor@[coord as int].port_d,
        final(factory).floor@[coord as int].port_l == old(factory).floor@[coord as int].port_l,
        final(factory).floor@[coord as int].belt.meta == old(factory).floor@[coord as int].belt.meta,
        final(factory).floor@[coord as int].ins@ == (if inbound { old(factory).floor@[coord as int].ins@.push(link) } else { old(factory).floor@[coord as int].ins@ }),
        final(factory).floor@[coord as int].outs@ == (if inbound { old(factory).floor@[coord as int].outs@ } else { old(factory).floor@[coord as int].outs@.push(link) }),
{
    if inbound {
        factory.floor[coord].ins.push(link);
    } else {
        factory.floor[coord].outs.push(link);
    }
    proof {
        lemma_floor_cell(old(factory).floor@, coord as int);
        assert(factory.floor@ == old(factory).floor@.update(coord as int, factory.floor@[coord as int]));
        lemma_floor_update(old(factory).floor@, coord as int, factory.floor@[coord as int]);
    }
}

/// The relation between the floor before and after `cell_set_port_to`.
#[verifier::opaque]
pub open spec fn spec_port_set(f0: Seq<Cell>, f1: Seq<Cell>, from: int, dir: Direction, port: Port, ocoord: usize) -> bool {
    let old_port = f0[from].port(dir);
    let m = spec_main_coord(f0, from);
    let link = spec_link(from as usize, dir, ocoord);
    let ports = spec_ports_with(f0[from], dir, port);
    if old_port == port {
        f1 == f0
    } else {
        &&& f1.len() == f0.len()
        &&& forall|i: int| 0 <= i < f0.len() && i != from && i != m ==> f1[i] == f0[i]
        &&& same_but_ports_links_meta(f1[from], f0[from])
        &&& (f1[from].port_u, f1[from].port_r, f1[from].port_d, f1[from].port_l) == ports
        &&& f1[from].belt.meta == spec_belt_type_to_belt_meta(spec_belt_type_from_ports(ports.0, ports.1, ports.2, ports.3))
        &&& m != from ==> {
            &&& same_but_ports_links_meta(f1[m], f0[m])
            &&& f1[m].port_u == f0[m].port_u && f1[m].port_r == f0[m].port_r
            &&& f1[m].port_d == f0[m].port_d && f1[m].port_l == f0[m].port_l
            &&& f1[m].belt.meta == f0[m].belt.meta
            &&& f1[from].ins@ == f0[from].ins@
            &&& f1[from].outs@ == f0[from].outs@
        }
        &&& f1[m].ins@ == spec_links_after_port_change(f0[m].ins@, Port::Inbound, old_port, port, link)
        &&& f1[m].outs@ == spec_links_after_port_change(f0[m].outs@, Port::Outbound, old_port, port, link)
    }
}

/// Sets the up port of a cell; see `spec_port_set`.
pub fn cell_set_port_u_to(factory: &mut Factory, coord_from: usize, port: Port, ocoord: usize)
    requires
        old(factory).wf(),
        coord_from < FLOOR_CELLS_WH,
        ocoord < FLOOR_CELLS_WH,
    ensures
        final(factory).wf(),
        same_but_floor(final(factory), old(factory)),
        spec_port_set(old(factory).floor@, final(factory).floor@, coord_from as int, Direction::Up, port, ocoord),
{
    cell_set_port_to(factory, coord_from, Direction::Up, port, ocoord)
}

/// Sets the right port of a cell; see `spec_port_set`.
pub fn cell_set_port_r_to(factory: &mut Factory, coord_from: usize, port: Port, ocoord: usize)
    requires
        old(factory).wf(),
        coord_from < FLOOR_CELLS_WH,
        ocoord < FLOOR_CELLS_WH,
    ensures
        final(factory).wf(),
        same_but_floor(final(factory), old(factory)),
        spec_port_set(old(factory).floor@, final(factory).floor@, coord_from as int, Direction::Right, port, ocoord),
{
    cell_set_port_to(factory, coord_from, Direction::Right, port, ocoord)
}

/// Sets the down port of a cell; see `spec_port_set`.
pub fn cell_set_port_d_to(factory: &mut Factory, coord_from: usize, port: Port, ocoord: usize)
    requires
        old(factory).wf(),
        coord_from < FLOOR_CELLS_WH,
        ocoord < FLOOR_CELLS_WH,
    ensures
        final(factory).wf(),
        same_but_floor(final(factory), old(factory)),
        spec_port_set(old(factory).floor@, final(factory).floor@, coord_from as int, Direction::Down, port, ocoord),
{
    cell_set_port_to(factory, coord_from, Direction::Down, port, ocoord)
}

/// Sets the left port of a cell; see `spec_port_set`.
pub fn cell_set_port_l_to(factory: &mut Factory, coord_from: usize, port: Port, ocoord: usize)
    requires
        old(factory).wf(),
        coord_from < FLOOR_CELLS_WH,
        ocoord < FLOOR_CELLS_WH,
    ensures
        final(factory).wf(),
        same_but_floor(final(factory), old(factory)),
        spec_port_set(old(factory).floor@, final(factory).floor@, coord_from as int, Direction::Left, port, ocoord),
{
    cell_set_port_to(factory, coord_from, Direction::Left, port, ocoord)
}

/// Sets the belt description of a cell to the one that matches its ports.
pub fn fix_belt_meta(factory: &mut Factory, coord: usize)
    requires
        old(factory).wf(),
        coord < FLOOR_CELLS_WH,
    ensures
        final(factory).wf(),
        same_but_floor(final(factory), old(factory)),
        final(factory).floor@ == old(factory).floor@.update(coord as int, final(factory).floor@[coord as int]),
        same_but_ports_links_meta(final(factory).floor@[coord as int], old(factory).floor@[coord as int]),
        final(factory).floor@[coord as int].ins@ == old(factory).floor@[coord as int].ins@,
        final(factory).floor@[coord as int].outs@ == old(factory).floor@[coord as int].outs@,
        final(factory).floor@[coord as int].port_u == old(factory).floor@[coord as int].port_u,
        final(factory).floor@[coord as int].port_r == old(factory).floor@[coord as int].port_r,
        final(factory).floor@[coord as int].port_d == old(factory).floor@[coord as int].port_d,
        final(factory).floor@[coord as int].port_l == old(factory).floor@[coord as int].port_l,
        final(factory).floor@[coord as int].belt.meta == spec_meta_of_ports(old(factory).floor@[coord as int]),
        final(factory).floor@ == old(factory).floor@.update(coord as int, Cell {
            belt: Belt { meta: spec_meta_of_ports(old(factory).floor@[coord as int]), ..old(factory).floor@[coord as int].belt },
            ..old(factory).floor@[coord as int]
        }),
{
    fix_belt_meta_floor(&mut factory.floor, coord);
    proof {
        lemma_floor_cell(old(factory).floor@, coord as int);
        assert(factory.floor@ == old(factory).floor@.update(coord as int, factory.floor@[coord as int]));
        lemma_floor_update(old(factory).floor@, coord as int, factory.floor@[coord as int]);
    }
}

} // verus!
