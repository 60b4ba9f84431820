use vstd::prelude::*;
use crate::auto::{AutoBuildPhase, AutoBuildTarget};
use crate::cell::{Cell, CellKind, floor_wf};
use crate::part::PartKind;
use crate::floor::FLOOR_CELLS_WH;

verus! {

/// A quest asks the player to produce parts of one kind.
pub struct Quest {
    pub production_part_kind: PartKind,
    /// Whether the quest is shown in the quest list.
    pub visible: bool,
}

/// Something the player can drag onto the floor: a machine, a supplier or a demander.
#[derive(Clone, Copy, Debug, PartialEq, Eq, Structural)]
pub struct Offer {
    pub kind: CellKind,
    pub machine_input1: char,
    pub machine_input2: char,
    pub machine_input3: char,
    pub machine_output: char,
    pub speed: u64,
    pub cell_width: usize,
    pub cell_height: usize,
    pub supply_icon: char,
    pub cooldown: u64,
    pub demand_icon: char,
}

/// The whole game world.
pub struct Factory {
    pub floor: Vec<Cell>,
    pub ticks: u64,
    /// Set whenever the floor layout changed.
    pub changed: bool,
    pub quests: Vec<Quest>,
    pub offers: Vec<Offer>,
    /// Base parts and whether each is shown.
    pub available_atoms: Vec<(PartKind, bool)>,
    pub auto_build_phase: AutoBuildPhase,
    pub auto_build_phase_at: u64,
    pub auto_build_phase_pause: u64,
    pub auto_build_phase_duration: u64,
    pub auto_build_mouse_offset: AutoBuildTarget,
    pub auto_build_mouse_target: AutoBuildTarget,
    pub auto_build_seed: u64,
    pub auto_build_quest_visible_index: usize,
    pub auto_build_quest_index: usize,
    pub auto_build_machine_x: usize,
    pub auto_build_machine_y: usize,
    pub auto_build_machine_w: usize,
    pub auto_build_machine_h: usize,
    pub auto_build_step_counter: usize,
    pub auto_build_current_path: Vec<(usize, usize)>,
    pub auto_build_target_edge_x: usize,
    pub auto_build_target_edge_y: usize,
}

impl Factory {
    pub open spec fn wf(&self) -> bool {
        &&& self.floor.len() == FLOOR_CELLS_WH
        &&& floor_wf(self.floor@)
    }
}

/// The factories are equal in everything but the floor.
pub open spec fn same_but_floor(a: &Factory, b: &Factory) -> bool {
    &&& a.ticks == b.ticks
    &&& a.changed == b.changed
    &&& a.quests@ == b.quests@
    &&& a.offers@ == b.offers@
    &&& a.available_atoms@ == b.available_atoms@
    &&& same_auto_build(a, b)
}

/// The factories are equal in everything but the floor and the `changed` flag.
pub open spec fn same_but_floor_changed(a: &Factory, b: &Factory) -> bool {
    &&& a.ticks == b.ticks
    &&& a.quests@ == b.quests@
    &&& a.offers@ == b.offers@
    &&& a.available_atoms@ == b.available_atoms@
    &&& same_auto_build(a, b)
}

/// The auto build state of the two factories is equal.
pub open spec fn same_auto_build(a: &Factory, b: &Factory) -> bool {
    &&& a.auto_build_phase == b.auto_build_phase
    &&& a.auto_build_phase_at == b.auto_build_phase_at
    &&& a.auto_build_phase_pause == b.auto_build_phase_pause
    &&& a.auto_build_phase_duration == b.auto_build_phase_duration
    &&& a.auto_build_mouse_offset == b.auto_build_mouse_offset
    &&& a.auto_build_mouse_target == b.auto_build_mouse_target
    &&& a.auto_build_seed == b.auto_build_seed
    &&& a.auto_build_quest_visible_index == b.auto_build_quest_visible_index
    &&& a.auto_build_quest_index == b.auto_build_quest_index
    &&& a.auto_build_machine_x == b.auto_build_machine_x
    &&& a.auto_build_machine_y == b.auto_build_machine_y
    &&& a.auto_build_machine_w == b.auto_build_machine_w
    &&& a.auto_build_machine_h == b.auto_build_machine_h
    &&& a.auto_build_step_counter == b.auto_build_step_counter
    &&& a.auto_build_current_path@ == b.auto_build_current_path@
    &&& a.auto_build_target_edge_x == b.auto_build_target_edge_x
    &&& a.auto_build_target_edge_y == b.auto_build_target_edge_y
}

} // verus!
