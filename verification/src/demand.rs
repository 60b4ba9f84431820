use vstd::prelude::*;
use crate::direction::Direction;
use crate::part::{Part, part_none, spec_part_none};

verus! {

/// The demander specific state of a cell. A demander sits on the edge and consumes parts.
#[derive(Clone, Copy, Debug, PartialEq, Eq, Structural)]
pub struct Demand {
    pub neighbor_coord: usize,
    pub incoming_dir: Direction,
    pub neighbor_outgoing_dir: Direction,
    pub speed: u64,
    pub cooldown: u64,
    /// The last part received.
    pub part: Part,
    /// Tick at which the last part was received.
    pub last_part_at: u64,
    /// Number of parts received.
    pub received: u64,
}

/// The state of a cell that is not a demander.
pub fn demand_none() -> (d: Demand)
    ensures
        d.neighbor_coord == 0,
        d.speed == 0,
        d.cooldown == 0,
        d.part == spec_part_none(),
        d.last_part_at == 0,
        d.received == 0,
{
    Demand {
        neighbor_coord: 0,
        incoming_dir: Direction::Up,
        neighbor_outgoing_dir: Direction::Up,
        speed: 0,
        cooldown: 0,
        part: part_none(),
        last_part_at: 0,
        received: 0,
    }
}

/// A demander that receives parts from the given neighbor.
pub fn demand_new(neighbor_coord: usize, incoming_dir: Direction, neighbor_outgoing_dir: Direction, speed: u64, cooldown: u64) -> (d: Demand)
    ensures
        d == (Demand {
            neighbor_coord,
            incoming_dir,
            neighbor_outgoing_dir,
            speed,
            cooldown,
            part: spec_part_none(),
            last_part_at: 0,
            received: 0,
        }),
{
    Demand {
        neighbor_coord,
        incoming_dir,
        neighbor_outgoing_dir,
        speed,
        cooldown,
        part: part_none(),
        last_part_at: 0,
        received: 0,
    }
}

/// A demander takes a part once its cooldown since the previous part has passed.
pub open spec fn spec_demand_ready(d: Demand, ticks: u64) -> bool {
    d.received == 0 || ticks >= d.last_part_at + d.cooldown
}

/// See `spec_demand_ready`.
pub fn demand_ready(d: &Demand, ticks: u64) -> (r: bool)
    ensures
        r == spec_demand_ready(*d, ticks),
{
    d.received == 0 || ticks as u128 >= d.last_part_at as u128 + d.cooldown as u128
}

pub open spec fn spec_demand_received(d: Demand, part: Part, ticks: u64) -> Demand {
    Demand {
        part,
        last_part_at: ticks,
        received: if d.received < u64::MAX { (d.received + 1) as u64 } else { d.received },
        ..d
    }
}

} // verus!
