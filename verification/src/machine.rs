use vstd::prelude::*;
use crate::part::{Part, part_none, spec_part_none};

verus! {

/// The role of a machine cell.
#[derive(Clone, Copy, Debug, PartialEq, Eq, Structural)]
pub enum MachineKind {
    /// The cell is not a machine.
    Absent,
    /// A machine cell whose role is not settled yet (while a map is being read).
    Unknown,
    /// The top-left cell of a machine; it holds the state of the whole machine.
    Main,
    /// Any other cell of a machine.
    SubBuilding,
}

/// The machine specific state of a cell.
pub struct Machine {
    pub kind: MachineKind,
    pub main_coord: usize,
    pub id: char,
    pub cell_width: usize,
    pub cell_height: usize,
    /// All cells of the machine.
    pub coords: Vec<usize>,
    pub wants: Vec<Part>,
    pub haves: Vec<Part>,
    pub output_want: Part,
    pub speed: u64,
    pub start_at: u64,
}

/// The state of a cell that is not a machine.
pub fn machine_none(coord: usize) -> (m: Machine)
    ensures
        m.kind == MachineKind::Absent,
        m.main_coord == coord,
        m.id == ' ',
        m.cell_width == 0,
        m.cell_height == 0,
        m.coords@.len() == 0,
        m.wants@.len() == 0,
        m.haves@.len() == 0,
        m.output_want == spec_part_none(),
        m.speed == 0,
        m.start_at == 0,
{
    Machine {
        kind: MachineKind::Absent,
        main_coord: coord,
        id: ' ',
        cell_width: 0,
        cell_height: 0,
        coords: Vec::new(),
        wants: Vec::new(),
        haves: Vec::new(),
        output_want: part_none(),
        speed: 0,
        start_at: 0,
    }
}

/// A machine cell. `haves` starts with one empty slot per wanted part.
pub fn machine_new(kind: MachineKind, cell_width: usize, cell_height: usize, id: char, main_coord: usize, wants: Vec<Part>, output: Part, speed: u64) -> (m: Machine)
    ensures
        m.kind == kind,
        m.main_coord == main_coord,
        m.id == id,
        m.cell_width == cell_width,
        m.cell_height == cell_height,
        m.coords@.len() == 0,
        m.wants@ == wants@,
        m.haves@ == Seq::new(wants@.len(), |i: int| spec_part_none()),
        m.output_want == output,
        m.speed == speed,
        m.start_at == 0,
{
    let mut haves: Vec<Part> = Vec::new();
    let mut i: usize = 0;
    while i < wants.len()
        invariant
            i <= wants.len(),
            haves@ == Seq::new(i as nat, |j: int| spec_part_none()),
        decreases wants.len() - i,
    {
        haves.push(part_none());
        i = i + 1;
        assert(haves@ =~= Seq::new(i as nat, |j: int| spec_part_none()));
    }
    Machine {
        kind,
        main_coord,
        id,
        cell_width,
        cell_height,
        coords: Vec::new(),
        wants,
        haves,
        output_want: output,
        speed,
        start_at: 0,
    }
}

} // verus!
