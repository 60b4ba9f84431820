use vstd::prelude::*;
use crate::direction::Direction;
use crate::part::{Part, part_none, spec_part_none};

verus! {

/// The supplier specific state of a cell. A supplier sits on the edge and hands out parts.
#[derive(Clone, Copy, Debug, PartialEq, Eq, Structural)]
pub struct Supply {
    pub gives: Part,
    pub neighbor_coord: usize,
    pub outgoing_dir: Direction,
    pub neighbor_incoming_dir: Direction,
    pub speed: u64,
    pub cooldown: u64,
    pub price: i32,
    /// Tick at which the current part was created; zero when there is none.
    pub part_created_at: u64,
    /// When set, the part has not been handed to the neighbor yet.
    pub part_tbd: bool,
    pub part_progress: u64,
}

/// The state of a cell that is not a supplier.
pub fn supply_none() -> (s: Supply)
    ensures
        s.gives == spec_part_none(),
        s.neighbor_coord == 0,
        s.speed == 0,
        s.cooldown == 0,
        s.price == 0,
        s.part_created_at == 0,
        s.part_tbd,
        s.part_progress == 0,
{
    Supply {
        gives: part_none(),
        neighbor_coord: 0,
        outgoing_dir: Direction::Up,
        neighbor_incoming_dir: Direction::Up,
        speed: 0,
        cooldown: 0,
        price: 0,
        part_created_at: 0,
        part_tbd: true,
        part_progress: 0,
    }
}

/// A supplier of `part` that hands its parts to the given neighbor.
pub fn supply_new(part: Part, neighbor_coord: usize, outgoing_dir: Direction, neighbor_incoming_dir: Direction, speed: u64, cooldown: u64, price: i32) -> (s: Supply)
    ensures
        s == (Supply {
            gives: part,
            neighbor_coord,
            outgoing_dir,
            neighbor_incoming_dir,
            speed,
            cooldown,
            price,
            part_created_at: 0,
            part_tbd: true,
            part_progress: 0,
        }),
{
    Supply {
        gives: part,
        neighbor_coord,
        outgoing_dir,
        neighbor_incoming_dir,
        speed,
        cooldown,
        price,
        part_created_at: 0,
        part_tbd: true,
        part_progress: 0,
    }
}

pub open spec fn spec_supply_cleared(s: Supply) -> Supply {
    Supply { part_created_at: 0, part_tbd: true, part_progress: 0, ..s }
}

} // verus!
