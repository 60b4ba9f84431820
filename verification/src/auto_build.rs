use vstd::prelude::*;
use crate::auto::{AutoBuildPhase, AutoBuildTarget, spec_machine_inside, flood_fill_get_flooded_floor, spec_col, spec_row, flood_fill_find_reachable_edge_from_machine,
    flood_fill_next_step_to_connect_machine, spec_best_edge, spec_flood, spec_within, spec_connect_step, FLOOD_FILL_EMPTY_FRESH};
use crate::apply::{belt_connect_cells_expensive, spec_track_laid};
use crate::factory::{Factory, Quest, same_but_floor_changed};
use crate::cell::{CellKind, Cell, lemma_floor_cell};
use crate::floor::{FLOOR_CELLS_W, FLOOR_CELLS_H, FLOOR_CELLS_WH, spec_is_middle, spec_is_edge, is_edge, to_coord, spec_to_coord, to_xy};
use crate::part::{Config, PartKind};
use crate::track::{spec_abs_diff, spec_track_of, lemma_covered_neighbors};

verus! {

/// What the automatic builder asks its caller to do with the factory, besides what it did
/// itself.
#[derive(Clone, Copy, Debug, PartialEq, Eq, Structural)]
pub enum AutoBuildAction {
    Nothing,
    /// Put a machine of `w` by `h` cells with its top left cell at (x, y) on the floor.
    AddMachine { x: usize, y: usize, w: usize, h: usize },
    /// Make the machine whose main cell is `main_coord` produce parts of `kind`.
    SetMachineTarget { main_coord: usize, kind: PartKind },
    /// Turn the edge cell at (x, y) into a supplier of parts of `kind`.
    SetEdgeToPart { x: usize, y: usize, kind: PartKind },
}

/// Timing and defaults the automatic builder works with, in ticks.
#[derive(Clone, Copy, Debug, PartialEq, Eq, Structural)]
pub struct AutoBuildSettings {
    /// The pause after each step.
    pub step_pause: u64,
    /// The pause before each piece of track.
    pub track_pause: u64,
    /// Speed of demanders that laying a track creates.
    pub demand_speed: u64,
    /// Cooldown of demanders that laying a track creates.
    pub demand_cooldown: u64,
}

/// The phase that follows `p`; the two track phases alternate with their steps, and the
/// builder goes idle after it finished.
pub open spec fn spec_next_phase(p: AutoBuildPhase) -> AutoBuildPhase {
    match p {
        AutoBuildPhase::Idle => AutoBuildPhase::Idle,
        AutoBuildPhase::Startup => AutoBuildPhase::PickQuest,
        AutoBuildPhase::PickQuest => AutoBuildPhase::PickMachine,
        AutoBuildPhase::PickMachine => AutoBuildPhase::DragMachine,
        AutoBuildPhase::DragMachine => AutoBuildPhase::PlaceMachine,
        AutoBuildPhase::PlaceMachine => AutoBuildPhase::MoveToTargetPart,
        AutoBuildPhase::MoveToTargetPart => AutoBuildPhase::DragTargetPart,
        AutoBuildPhase::DragTargetPart => AutoBuildPhase::ReleaseTargetPart,
        AutoBuildPhase::ReleaseTargetPart => AutoBuildPhase::MoveToInputPart,
        AutoBuildPhase::MoveToInputPart => AutoBuildPhase::MoveToEdge,
        AutoBuildPhase::MoveToEdge => AutoBuildPhase::CreateSupplier,
        AutoBuildPhase::CreateSupplier => AutoBuildPhase::TrackToMachineStart,
        AutoBuildPhase::TrackToMachineStart => AutoBuildPhase::TrackToMachine,
        AutoBuildPhase::TrackToMachine => AutoBuildPhase::TrackToMachineStep,
        AutoBuildPhase::TrackToMachineStep => AutoBuildPhase::TrackToMachine,
        AutoBuildPhase::TrackFromMachineStart => AutoBuildPhase::TrackFromMachine,
        AutoBuildPhase::TrackFromMachine => AutoBuildPhase::TrackFromMachineStep,
        AutoBuildPhase::TrackFromMachineStep => AutoBuildPhase::TrackFromMachine,
        AutoBuildPhase::Finishing => AutoBuildPhase::Finished,
        AutoBuildPhase::Finished => AutoBuildPhase::Idle,
    }
}

/// The phase that follows `p`; see `spec_next_phase`.
pub fn next_phase(p: AutoBuildPhase) -> (r: AutoBuildPhase)
    ensures
        r == spec_next_phase(p),
{
    match p {
        AutoBuildPhase::Idle => AutoBuildPhase::Idle,
        AutoBuildPhase::Startup => AutoBuildPhase::PickQuest,
        AutoBuildPhase::PickQuest => AutoBuildPhase::PickMachine,
        AutoBuildPhase::PickMachine => AutoBuildPhase::DragMachine,
        AutoBuildPhase::DragMachine => AutoBuildPhase::PlaceMachine,
        AutoBuildPhase::PlaceMachine => AutoBuildPhase::MoveToTargetPart,
        AutoBuildPhase::MoveToTargetPart => AutoBuildPhase::DragTargetPart,
        AutoBuildPhase::DragTargetPart => AutoBuildPhase::ReleaseTargetPart,
        AutoBuildPhase::ReleaseTargetPart => AutoBuildPhase::MoveToInputPart,
        AutoBuildPhase::MoveToInputPart => AutoBuildPhase::MoveToEdge,
        AutoBuildPhase::MoveToEdge => AutoBuildPhase::CreateSupplier,
        AutoBuildPhase::CreateSupplier => AutoBuildPhase::TrackToMachineStart,
        AutoBuildPhase::TrackToMachineStart => AutoBuildPhase::TrackToMachine,
        AutoBuildPhase::TrackToMachine => AutoBuildPhase::TrackToMachineStep,
        AutoBuildPhase::TrackToMachineStep => AutoBuildPhase::TrackToMachine,
        AutoBuildPhase::TrackFromMachineStart => AutoBuildPhase::TrackFromMachine,
        AutoBuildPhase::TrackFromMachine => AutoBuildPhase::TrackFromMachineStep,
        AutoBuildPhase::TrackFromMachineStep => AutoBuildPhase::TrackFromMachine,
        AutoBuildPhase::Finishing => AutoBuildPhase::Finished,
        AutoBuildPhase::Finished => AutoBuildPhase::Idle,
    }
}

/// Every quest produces a part of the configuration, and there is at least one quest.
pub open spec fn spec_quests_ok(config: &Config, f: &Factory) -> bool {
    &&& f.quests@.len() > 0
    &&& forall|q: int| 0 <= q < f.quests@.len() ==> #[trigger] f.quests@[q].production_part_kind < config.nodes.len()
}

/// The quest the automatic builder works on (the last one when its index is too large).
pub open spec fn spec_quest_index(f: &Factory) -> int {
    if f.auto_build_quest_index < f.quests@.len() { f.auto_build_quest_index as int } else { f.quests@.len() - 1 }
}

/// The kind of part the automatic builder's quest asks for.
pub open spec fn spec_quest_kind(f: &Factory) -> PartKind {
    f.quests@[spec_quest_index(f)].production_part_kind
}

/// The distinct kinds of part a machine needs for the quest's part.
pub open spec fn spec_inputs(config: &Config, f: &Factory) -> Seq<PartKind> {
    config.nodes[spec_quest_kind(f) as int].pattern_unique_kinds@
}

fn quest_kind(config: &Config, factory: &Factory) -> (r: PartKind)
    requires
        spec_quests_ok(config, factory),
    ensures
        r == spec_quest_kind(factory),
        r < config.nodes.len(),
{
    let n = factory.quests.len();
    let i = if factory.auto_build_quest_index < n { factory.auto_build_quest_index } else { n - 1 };
    factory.quests[i].production_part_kind
}

/// The number of visible quests among the first `k`.
pub open spec fn spec_visible_count(quests: Seq<Quest>, k: nat) -> nat
    decreases k,
{
    if k == 0 { 0 } else { spec_visible_count(quests, (k - 1) as nat) + (if quests[k - 1].visible { 1nat } else { 0 }) }
}

/// The index of the quest shown at position `visible_index` of the quest list, if any.
pub fn quest_visible_index_to_quest_index(factory: &Factory, visible_index: usize) -> (r: Option<usize>)
    ensures
        r matches Some(i) ==> i < factory.quests@.len() && factory.quests@[i as int].visible
            && spec_visible_count(factory.quests@, i as nat) == visible_index,
        r is None ==> forall|i: int| 0 <= i < factory.quests@.len() && #[trigger] factory.quests@[i].visible
            ==> spec_visible_count(factory.quests@, i as nat) != visible_index,
{
    let mut seen: usize = 0;
    let mut i: usize = 0;
    while i < factory.quests.len()
        invariant
            i <= factory.quests@.len(),
            seen == spec_visible_count(factory.quests@, i as nat),
            seen <= i,
            forall|j: int| 0 <= j < i && #[trigger] factory.quests@[j].visible
                ==> spec_visible_count(factory.quests@, j as nat) != visible_index,
            seen <= visible_index,
        decreases factory.quests.len() - i,
    {
        if factory.quests[i].visible {
            if seen == visible_index {
                return Some(i);
            }
            seen = seen + 1;
        }
        i = i + 1;
    }
    None
}

/// Phases in which the automatic builder works with a chosen machine and quest.
pub open spec fn spec_active(p: AutoBuildPhase) -> bool {
    !(p is Idle || p is Finishing || p is Finished)
}

/// All cells of the path lie on the floor.
pub open spec fn spec_path_on_floor(path: Seq<(usize, usize)>) -> bool {
    forall|i: int| 0 <= i < path.len() ==> (#[trigger] path[i]).0 < FLOOR_CELLS_W && path[i].1 < FLOOR_CELLS_H
}

/// The two cells are side by side.
pub open spec fn spec_side_by_side(a: (usize, usize), b: (usize, usize)) -> bool {
    spec_abs_diff(a.0 as int, b.0 as int) + spec_abs_diff(a.1 as int, b.1 as int) == 1
}

pub open spec fn spec_inner(c: (usize, usize)) -> bool {
    spec_is_middle(c.0 as int, c.1 as int)
}

/// The last two cells of the path are side by side; `inner_last` says which of them lies
/// inside the edge: the last one, or else the one before it.
pub open spec fn spec_path_tail(path: Seq<(usize, usize)>, inner_last: bool) -> bool {
    &&& path.len() >= 2
    &&& spec_side_by_side(path[path.len() - 2], path[path.len() - 1])
    &&& if inner_last { spec_inner(path[path.len() - 1]) } else { spec_inner(path[path.len() - 2]) }
}

/// The state of the automatic builder between two steps, which the next step relies on.
pub open spec fn spec_auto_ok(config: &Config, f: &Factory) -> bool {
    let p = f.auto_build_phase;
    let path = f.auto_build_current_path@;
    let step_ok = f.auto_build_step_counter < spec_inputs(config, f).len();
    &&& f.wf()
    &&& spec_active(p) ==> spec_quests_ok(config, f) && spec_machine_inside(f)
    &&& (p is MoveToInputPart || p is MoveToEdge || p is CreateSupplier) ==> step_ok
    &&& p is MoveToEdge ==> f.auto_build_target_edge_x < FLOOR_CELLS_W && f.auto_build_target_edge_y < FLOOR_CELLS_H
    &&& p is CreateSupplier ==> spec_path_on_floor(path)
    &&& p is TrackToMachineStart ==> step_ok && spec_path_on_floor(path)
    &&& (p is TrackToMachine || p is TrackToMachineStep) ==> step_ok && spec_path_on_floor(path) && spec_path_tail(path, true)
    &&& p is TrackFromMachineStart ==> path.len() == 0
    &&& p is TrackFromMachine ==> spec_path_on_floor(path) && spec_path_tail(path, false)
    &&& p is TrackFromMachineStep ==> spec_path_on_floor(path) && spec_path_tail(path, true)
}

/// Only the mouse target changed.
pub open spec fn spec_moved_to(o: &Factory, n: &Factory, t: AutoBuildTarget) -> bool {
    *n == Factory { auto_build_mouse_target: t, ..*o }
}

/// Moves the mouse to `t`.
fn set_target(factory: &mut Factory, t: AutoBuildTarget)
    ensures
        spec_moved_to(old(factory), final(factory), t),
{
    factory.auto_build_mouse_target = t;
}

/// The builder gives up: it goes to the last phase.
pub open spec fn spec_bailed(o: &Factory, n: &Factory) -> bool {
    *n == Factory { auto_build_phase: AutoBuildPhase::Finishing, ..*o }
}

/// What moving to the next input part does: with all inputs handled, it clears the path and
/// starts the track away from the machine; else it moves to the offer of the next input.
pub open spec fn spec_move_to_input_effect(config: &Config, s: AutoBuildSettings, o: &Factory, n: &Factory) -> bool {
    let inputs = spec_inputs(config, o);
    if o.auto_build_step_counter >= inputs.len() {
        &&& *n == Factory { auto_build_current_path: n.auto_build_current_path, auto_build_phase: AutoBuildPhase::TrackFromMachineStart,
            auto_build_phase_pause: s.track_pause, ..*o }
        &&& n.auto_build_current_path@.len() == 0
    } else {
        spec_moved_to(o, n, AutoBuildTarget::Offer(inputs[o.auto_build_step_counter as int]))
    }
}

fn auto_build_init_move_to_input_part(config: &Config, factory: &mut Factory, s: AutoBuildSettings)
    requires
        old(factory).wf(),
        spec_quests_ok(config, old(factory)),
        spec_machine_inside(old(factory)),
        old(factory).auto_build_phase is MoveToInputPart,
    ensures
        spec_move_to_input_effect(config, s, old(factory), final(factory)),
        spec_auto_ok(config, final(factory)),
{
    let kind = quest_kind(config, factory);
    let n = config.nodes[kind].pattern_unique_kinds.len();
    if factory.auto_build_step_counter >= n {
        factory.auto_build_current_path = Vec::new();
        factory.auto_build_phase = AutoBuildPhase::TrackFromMachineStart;
        factory.auto_build_phase_pause = s.track_pause;
        return;
    }
    let input = config.nodes[kind].pattern_unique_kinds[factory.auto_build_step_counter];
    set_target(factory, AutoBuildTarget::Offer(input));
}

/// The edge cell found for the next supplier, or giving up when there is none.
pub open spec fn spec_move_to_edge_effect(o: &Factory, n: &Factory) -> bool {
    exists|fake: Seq<i32>| #![trigger spec_best_edge(fake, 60)] {
        &&& spec_flood(o.floor@, fake, o.auto_build_machine_x as int, o.auto_build_machine_y as int,
            o.auto_build_machine_w as int, o.auto_build_machine_h as int, false)
        &&& {
            let b = spec_best_edge(fake, 60);
            if b.0 == FLOOD_FILL_EMPTY_FRESH {
                spec_bailed(o, n)
            } else {
                *n == Factory { auto_build_target_edge_x: b.1, auto_build_target_edge_y: b.2,
                    auto_build_mouse_target: AutoBuildTarget::FloorCell(b.1, b.2), ..*o }
            }
        }
    }
}

proof fn lemma_best_edge_bounds(fake: Seq<i32>, k: nat)
    requires
        k <= 60,
    ensures
        spec_best_edge(fake, k).0 == FLOOD_FILL_EMPTY_FRESH
            || (spec_best_edge(fake, k).1 < FLOOR_CELLS_W && spec_best_edge(fake, k).2 < FLOOR_CELLS_H),
        spec_best_edge(fake, k).0 <= FLOOD_FILL_EMPTY_FRESH,
    decreases k,
{
    if k > 0 {
        lemma_best_edge_bounds(fake, (k - 1) as nat);
    }
}

fn auto_build_init_move_to_edge(config: &Config, factory: &mut Factory)
    requires
        old(factory).wf(),
        spec_quests_ok(config, old(factory)),
        spec_machine_inside(old(factory)),
        old(factory).auto_build_step_counter < spec_inputs(config, old(factory)).len(),
        old(factory).auto_build_phase is MoveToEdge,
    ensures
        spec_move_to_edge_effect(old(factory), final(factory)),
        spec_auto_ok(config, final(factory)),
{
    let nearest = flood_fill_find_reachable_edge_from_machine(factory);
    proof {
        let fake = choose|fake: Seq<i32>| #![trigger spec_best_edge(fake, 60)] {
            &&& spec_flood(factory.floor@, fake, factory.auto_build_machine_x as int, factory.auto_build_machine_y as int,
                factory.auto_build_machine_w as int, factory.auto_build_machine_h as int, false)
            &&& nearest == (if spec_best_edge(fake, 60).0 == FLOOD_FILL_EMPTY_FRESH { None } else {
                Some((spec_best_edge(fake, 60).1, spec_best_edge(fake, 60).2)) })
        };
        lemma_best_edge_bounds(fake, 60);
    }
    match nearest {
        None => {
            factory.auto_build_phase = AutoBuildPhase::Finishing;
        },
        Some((x, y)) => {
            factory.auto_build_target_edge_x = x;
            factory.auto_build_target_edge_y = y;
            factory.auto_build_mouse_target = AutoBuildTarget::FloorCell(x, y);
        },
    }
}

/// The supplier is made on the edge cell found before, and the track starts there.
pub open spec fn spec_create_supplier_effect(config: &Config, o: &Factory, n: &Factory, a: AutoBuildAction) -> bool {
    &&& *n == Factory { auto_build_phase_pause: 0, auto_build_current_path: n.auto_build_current_path, ..*o }
    &&& n.auto_build_current_path@ == seq![(o.auto_build_target_edge_x, o.auto_build_target_edge_y)]
    &&& a == AutoBuildAction::SetEdgeToPart { x: o.auto_build_target_edge_x, y: o.auto_build_target_edge_y,
        kind: spec_inputs(config, o)[o.auto_build_step_counter as int] }
}

fn auto_build_init_create_supplier(config: &Config, factory: &mut Factory) -> (a: AutoBuildAction)
    requires
        old(factory).wf(),
        spec_quests_ok(config, old(factory)),
        spec_machine_inside(old(factory)),
        old(factory).auto_build_step_counter < spec_inputs(config, old(factory)).len(),
        old(factory).auto_build_phase is CreateSupplier,
        old(factory).auto_build_target_edge_x < FLOOR_CELLS_W,
        old(factory).auto_build_target_edge_y < FLOOR_CELLS_H,
    ensures
        spec_create_supplier_effect(config, old(factory), final(factory), a),
        spec_auto_ok(config, final(factory)),
{
    factory.auto_build_phase_pause = 0;
    let kind = quest_kind(config, factory);
    let input = config.nodes[kind].pattern_unique_kinds[factory.auto_build_step_counter];
    let mut path: Vec<(usize, usize)> = Vec::new();
    path.push((factory.auto_build_target_edge_x, factory.auto_build_target_edge_y));
    factory.auto_build_current_path = path;
    AutoBuildAction::SetEdgeToPart { x: factory.auto_build_target_edge_x, y: factory.auto_build_target_edge_y, kind: input }
}

/// The cell (x, y) is one of the machine's.
pub open spec fn spec_in_machine(f: &Factory, x: int, y: int) -> bool {
    &&& f.auto_build_machine_x <= x <= f.auto_build_machine_x + f.auto_build_machine_w - 1
    &&& f.auto_build_machine_y <= y <= f.auto_build_machine_y + f.auto_build_machine_h - 1
}

/// One step of the track towards the machine: with the track's end on the machine, go on
/// with the next input; else extend the track by the cell the flood from the machine points
/// to, or give up.
pub open spec fn spec_track_to_machine_effect(config: &Config, s: AutoBuildSettings, o: &Factory, n: &Factory) -> bool {
    let o1 = Factory { auto_build_phase_pause: s.track_pause, ..*o };
    let path = o.auto_build_current_path@;
    if path.len() == 0 {
        spec_bailed(&o1, n)
    } else if spec_in_machine(o, path.last().0 as int, path.last().1 as int) {
        spec_move_to_input_effect(config, s, &Factory { auto_build_step_counter: (o.auto_build_step_counter + 1) as usize,
            auto_build_phase: AutoBuildPhase::MoveToInputPart, ..o1 }, n)
    } else {
        exists|fake: Seq<i32>| #![trigger spec_connect_step(o.floor@, fake, path.last().0 as int, path.last().1 as int)] {
            &&& spec_flood(o.floor@, fake, o.auto_build_machine_x as int, o.auto_build_machine_y as int,
                o.auto_build_machine_w as int, o.auto_build_machine_h as int, false)
            &&& match spec_connect_step(o.floor@, fake, path.last().0 as int, path.last().1 as int) {
                None => spec_bailed(&o1, n),
                Some(p) => {
                    &&& *n == Factory { auto_build_mouse_target: AutoBuildTarget::FloorCell(p.0, p.1),
                        auto_build_current_path: n.auto_build_current_path, ..o1 }
                    &&& n.auto_build_current_path@ == path.push(p)
                },
            }
        }
    }
}

#[verifier::spinoff_prover]
#[verifier::rlimit(50)]
fn auto_build_init_track_to_machine(config: &Config, factory: &mut Factory, s: AutoBuildSettings)
    requires
        old(factory).wf(),
        spec_quests_ok(config, old(factory)),
        spec_machine_inside(old(factory)),
        old(factory).auto_build_step_counter < spec_inputs(config, old(factory)).len(),
        spec_path_on_floor(old(factory).auto_build_current_path@),
        old(factory).auto_build_phase is TrackToMachine,
    ensures
        spec_track_to_machine_effect(config, s, old(factory), final(factory)),
        spec_auto_ok(config, final(factory)),
{
    factory.auto_build_phase_pause = s.track_pause;
    let n = factory.auto_build_current_path.len();
    if n == 0 {
        factory.auto_build_phase = AutoBuildPhase::Finishing;
        return;
    }
    let (x, y) = factory.auto_build_current_path[n - 1];
    if x >= factory.auto_build_machine_x && x <= factory.auto_build_machine_x + factory.auto_build_machine_w - 1
        && y >= factory.auto_build_machine_y && y <= factory.auto_build_machine_y + factory.auto_build_machine_h - 1 {
        let kind = quest_kind(config, factory);
        let n_inputs = config.nodes[kind].pattern_unique_kinds.len();
        assert(factory.auto_build_step_counter < n_inputs);
        factory.auto_build_step_counter = factory.auto_build_step_counter + 1;
        factory.auto_build_phase = AutoBuildPhase::MoveToInputPart;
        auto_build_init_move_to_input_part(config, factory, s);
        return;
    }
    let next = flood_fill_next_step_to_connect_machine(factory, x, y);
    match next {
        None => {
            factory.auto_build_phase = AutoBuildPhase::Finishing;
        },
        Some((nx, ny)) => {
            factory.auto_build_mouse_target = AutoBuildTarget::FloorCell(nx, ny);
            factory.auto_build_current_path.push((nx, ny));
        },
    }
}

/// The `k`th place next to the machine that is checked for a way out, as (outside x,
/// outside y, machine x, machine y): above and below the machine column by column, then left
/// and right of it row by row.
pub open spec fn spec_side_cand(mx: int, my: int, w: int, h: int, k: int) -> (int, int, int, int) {
    if k < 2 * w {
        let x = mx + k / 2;
        if k % 2 == 0 { (x, my - 1, x, my) } else { (x, my + h, x, my + h - 1) }
    } else {
        let y = my + (k - 2 * w) / 2;
        if k % 2 == 0 { (mx - 1, y, mx, y) } else { (mx + w, y, mx + w - 1, y) }
    }
}

/// The best of the first `k` places next to the machine: the one outside cell reached from
/// the edge with the smallest mark above 1, the first on a tie; with its mark, the outside cell
/// and the machine cell next to it (900 and two zero cells before any is found).
pub open spec fn spec_best_side(fake: Seq<i32>, mx: int, my: int, w: int, h: int, k: nat) -> (i32, (usize, usize), (usize, usize))
    decreases k,
{
    if k == 0 {
        (FLOOD_FILL_EMPTY_FRESH, (0usize, 0usize), (0usize, 0usize))
    } else {
        let prev = spec_best_side(fake, mx, my, w, h, (k - 1) as nat);
        let (ox, oy, fx, fy) = spec_side_cand(mx, my, w, h, k - 1);
        let p = fake[ox + oy * FLOOR_CELLS_W];
        if p > 1 && p < prev.0 { (p, (ox as usize, oy as usize), (fx as usize, fy as usize)) } else { prev }
    }
}

fn side_cand(f: &Factory, k: usize) -> (r: (usize, usize, usize, usize))
    requires
        spec_machine_inside(f),
        k < 2 * f.auto_build_machine_w + 2 * f.auto_build_machine_h,
    ensures
        r.0 == spec_side_cand(f.auto_build_machine_x as int, f.auto_build_machine_y as int, f.auto_build_machine_w as int, f.auto_build_machine_h as int, k as int).0,
        r.1 == spec_side_cand(f.auto_build_machine_x as int, f.auto_build_machine_y as int, f.auto_build_machine_w as int, f.auto_build_machine_h as int, k as int).1,
        r.2 == spec_side_cand(f.auto_build_machine_x as int, f.auto_build_machine_y as int, f.auto_build_machine_w as int, f.auto_build_machine_h as int, k as int).2,
        r.3 == spec_side_cand(f.auto_build_machine_x as int, f.auto_build_machine_y as int, f.auto_build_machine_w as int, f.auto_build_machine_h as int, k as int).3,
        r.0 < FLOOR_CELLS_W && r.1 < FLOOR_CELLS_H,
        spec_is_middle(r.2 as int, r.3 as int),
        spec_abs_diff(r.0 as int, r.2 as int) + spec_abs_diff(r.1 as int, r.3 as int) == 1,
{
    let mx = f.auto_build_machine_x;
    let my = f.auto_build_machine_y;
    let w = f.auto_build_machine_w;
    let h = f.auto_build_machine_h;
    if k < 2 * w {
        let x = mx + k / 2;
        if k % 2 == 0 { (x, my - 1, x, my) } else { (x, my + h, x, my + h - 1) }
    } else {
        let y = my + (k - 2 * w) / 2;
        if k % 2 == 0 { (mx - 1, y, mx, y) } else { (mx + w, y, mx + w - 1, y) }
    }
}

/// The first piece of the track away from the machine; see `spec_best_side`.
fn pick_side(f: &Factory, fake: &Vec<i32>) -> (r: Option<((usize, usize), (usize, usize))>)
    requires
        spec_machine_inside(f),
        fake@.len() == FLOOR_CELLS_WH,
    ensures
        ({
            let b = spec_best_side(fake@, f.auto_build_machine_x as int, f.auto_build_machine_y as int, f.auto_build_machine_w as int, f.auto_build_machine_h as int, (2 * f.auto_build_machine_w + 2 * f.auto_build_machine_h) as nat);
            r == (if b.0 == FLOOD_FILL_EMPTY_FRESH { None } else { Some((b.2, b.1)) })
        }),
        r matches Some((from, next)) ==> spec_inner(from) && spec_path_on_floor(seq![from, next]) && spec_side_by_side(from, next),
{
    let n = 2 * f.auto_build_machine_w + 2 * f.auto_build_machine_h;
    let mut best: i32 = FLOOD_FILL_EMPTY_FRESH;
    let mut best_out: (usize, usize) = (0, 0);
    let mut best_from: (usize, usize) = (0, 0);
    let mut k: usize = 0;
    while k < n
        invariant
            spec_machine_inside(f),
            n == 2 * f.auto_build_machine_w + 2 * f.auto_build_machine_h,
            fake@.len() == FLOOR_CELLS_WH,
            k <= n,
            (best, best_out, best_from) == spec_best_side(fake@, f.auto_build_machine_x as int, f.auto_build_machine_y as int, f.auto_build_machine_w as int, f.auto_build_machine_h as int, k as nat),
            best != FLOOD_FILL_EMPTY_FRESH ==> spec_inner(best_from) && best_out.0 < FLOOR_CELLS_W && best_out.1 < FLOOR_CELLS_H
                && spec_side_by_side(best_from, best_out),
            best <= FLOOD_FILL_EMPTY_FRESH,
        decreases n - k,
    {
        let (ox, oy, fx, fy) = side_cand(f, k);
        let p = fake[ox + oy * FLOOR_CELLS_W];
        if p > 1 && p < best {
            best = p;
            best_out = (ox, oy);
            best_from = (fx, fy);
        }
        k = k + 1;
    }
    if best == FLOOD_FILL_EMPTY_FRESH {
        return None;
    }
    proof {
        let sq = seq![best_from, best_out];
        assert forall|i: int| 0 <= i < sq.len() implies (#[trigger] sq[i]).0 < FLOOR_CELLS_W && sq[i].1 < FLOOR_CELLS_H by {}
    }
    Some((best_from, best_out))
}

/// The first empty edge cell beside the inner cell (x, y): up, right, down, then left.
pub open spec fn spec_edge_neighbor(floor: Seq<Cell>, x: int, y: int) -> Option<(usize, usize)> {
    let c = x + y * FLOOR_CELLS_W;
    if spec_is_edge(x, y - 1) && floor[c - FLOOR_CELLS_W].kind == CellKind::Empty {
        Some((x as usize, (y - 1) as usize))
    } else if spec_is_edge(x + 1, y) && floor[c + 1].kind == CellKind::Empty {
        Some(((x + 1) as usize, y as usize))
    } else if spec_is_edge(x, y + 1) && floor[c + FLOOR_CELLS_W].kind == CellKind::Empty {
        Some((x as usize, (y + 1) as usize))
    } else if spec_is_edge(x - 1, y) && floor[c - 1].kind == CellKind::Empty {
        Some(((x - 1) as usize, y as usize))
    } else {
        None
    }
}

/// The next piece of the track away from the machine from the inner cell (x, y), by the marks
/// of a flood from the edge: the neighbor with the smallest mark, up and left only when above 1,
/// then down and right, a later one winning only with a smaller mark.
pub open spec fn spec_out_step(fake: Seq<i32>, x: int, y: int) -> Option<(usize, usize)> {
    let c = x + y * FLOOR_CELLS_W;
    let s0 = (FLOOD_FILL_EMPTY_FRESH, (0usize, 0usize));
    let p1 = fake[c - FLOOR_CELLS_W];
    let s1 = if p1 > 1 && p1 < s0.0 { (p1, (x as usize, (y - 1) as usize)) } else { s0 };
    let p2 = fake[c - 1];
    let s2 = if p2 > 1 && p2 < s1.0 { (p2, ((x - 1) as usize, y as usize)) } else { s1 };
    let p3 = fake[c + FLOOR_CELLS_W];
    let s3 = if p3 < s2.0 { (p3, (x as usize, (y + 1) as usize)) } else { s2 };
    let p4 = fake[c + 1];
    let s4 = if p4 < s3.0 { (p4, ((x + 1) as usize, y as usize)) } else { s3 };
    if s4.0 == FLOOD_FILL_EMPTY_FRESH { None } else { Some(s4.1) }
}

fn edge_neighbor(factory: &Factory, x: usize, y: usize) -> (r: Option<(usize, usize)>)
    requires
        factory.wf(),
        spec_is_middle(x as int, y as int),
    ensures
        r == spec_edge_neighbor(factory.floor@, x as int, y as int),
{
    let c = x + y * FLOOR_CELLS_W;
    if is_edge(x, y - 1) && factory.floor[c - FLOOR_CELLS_W].kind == CellKind::Empty {
        Some((x, y - 1))
    } else if is_edge(x + 1, y) && factory.floor[c + 1].kind == CellKind::Empty {
        Some((x + 1, y))
    } else if is_edge(x, y + 1) && factory.floor[c + FLOOR_CELLS_W].kind == CellKind::Empty {
        Some((x, y + 1))
    } else if is_edge(x - 1, y) && factory.floor[c - 1].kind == CellKind::Empty {
        Some((x - 1, y))
    } else {
        None
    }
}

fn out_step(fake: &Vec<i32>, x: usize, y: usize) -> (r: Option<(usize, usize)>)
    requires
        fake@.len() == FLOOR_CELLS_WH,
        spec_is_middle(x as int, y as int),
    ensures
        r == spec_out_step(fake@, x as int, y as int),
{
    let c = x + y * FLOOR_CELLS_W;
    let mut best: i32 = FLOOD_FILL_EMPTY_FRESH;
    let mut at: (usize, usize) = (0, 0);
    let p = fake[c - FLOOR_CELLS_W];
    if p > 1 && p < best {
        best = p;
        at = (x, y - 1);
    }
    let p = fake[c - 1];
    if p > 1 && p < best {
        best = p;
        at = (x - 1, y);
    }
    let p = fake[c + FLOOR_CELLS_W];
    if p < best {
        best = p;
        at = (x, y + 1);
    }
    let p = fake[c + 1];
    if p < best {
        best = p;
        at = (x + 1, y);
    }
    if best == FLOOD_FILL_EMPTY_FRESH {
        return None;
    }
    Some(at)
}

/// One piece of the track away from the machine. With no track yet it starts next to the
/// machine, where the flood from the edge comes closest; else it goes to an empty edge cell
/// beside the track's end, or else down the flood from the edge. With no way on, it gives up.
pub open spec fn spec_track_from_machine_effect(s: AutoBuildSettings, o: &Factory, n: &Factory) -> bool {
    let o1 = Factory { auto_build_phase_pause: s.track_pause, ..*o };
    let path = o.auto_build_current_path@;
    let moved = |p: (usize, usize), path1: Seq<(usize, usize)>| {
        &&& *n == Factory { auto_build_mouse_target: AutoBuildTarget::FloorCell(p.0, p.1),
            auto_build_current_path: n.auto_build_current_path, ..o1 }
        &&& n.auto_build_current_path@ == path1
    };
    if path.len() == 0 {
        exists|fake: Seq<i32>| #![trigger spec_best_side(fake, o.auto_build_machine_x as int, o.auto_build_machine_y as int, o.auto_build_machine_w as int, o.auto_build_machine_h as int, (2 * o.auto_build_machine_w + 2 * o.auto_build_machine_h) as nat)] {
            &&& spec_flood(o.floor@, fake, o.auto_build_machine_x as int, o.auto_build_machine_y as int,
                o.auto_build_machine_w as int, o.auto_build_machine_h as int, true)
            &&& {
                let b = spec_best_side(fake, o.auto_build_machine_x as int, o.auto_build_machine_y as int, o.auto_build_machine_w as int, o.auto_build_machine_h as int, (2 * o.auto_build_machine_w + 2 * o.auto_build_machine_h) as nat);
                if b.0 == FLOOD_FILL_EMPTY_FRESH { spec_bailed(&o1, n) } else { moved(b.1, seq![b.2, b.1]) }
            }
        }
    } else {
        let last = path.last();
        match spec_edge_neighbor(o.floor@, last.0 as int, last.1 as int) {
            Some(e) => moved(e, path.push(e)),
            None => exists|fake: Seq<i32>| #![trigger spec_out_step(fake, last.0 as int, last.1 as int)] {
                &&& spec_flood(o.floor@, fake, last.0 as int, last.1 as int, 1, 1, true)
                &&& match spec_out_step(fake, last.0 as int, last.1 as int) {
                    None => spec_bailed(&o1, n),
                    Some(p) => moved(p, path.push(p)),
                }
            },
        }
    }
}

proof fn lemma_path_push(path: Seq<(usize, usize)>, p: (usize, usize))
    requires
        path.len() >= 1,
        spec_path_on_floor(path),
        p.0 < FLOOR_CELLS_W && p.1 < FLOOR_CELLS_H,
    ensures
        spec_path_on_floor(path.push(p)),
        path.push(p)[path.len() - 1] == path.last(),
        path.push(p)[path.len() as int] == p,
{
    let q = path.push(p);
    assert forall|i: int| 0 <= i < q.len() implies (#[trigger] q[i]).0 < FLOOR_CELLS_W && q[i].1 < FLOOR_CELLS_H by {
        if i < path.len() {
            assert(q[i] == path[i]);
        }
    }
}

#[verifier::spinoff_prover]
#[verifier::rlimit(60)]
fn auto_build_init_track_from_machine(factory: &mut Factory, s: AutoBuildSettings)
    requires
        old(factory).wf(),
        spec_machine_inside(old(factory)),
        spec_path_on_floor(old(factory).auto_build_current_path@),
        old(factory).auto_build_current_path@.len() > 0 ==> spec_inner(old(factory).auto_build_current_path@.last()),
        old(factory).auto_build_phase is TrackFromMachine,
    ensures
        spec_track_from_machine_effect(s, old(factory), final(factory)),
        final(factory).wf(),
        final(factory).auto_build_phase is TrackFromMachine ==> spec_path_on_floor(final(factory).auto_build_current_path@)
            && spec_path_tail(final(factory).auto_build_current_path@, false),
        final(factory).auto_build_phase is TrackFromMachine || final(factory).auto_build_phase is Finishing,
{
    factory.auto_build_phase_pause = s.track_pause;
    let n = factory.auto_build_current_path.len();
    if n == 0 {
        let fake = flood_fill_get_flooded_floor(factory, factory.auto_build_machine_x, factory.auto_build_machine_y,
            factory.auto_build_machine_w, factory.auto_build_machine_h, true);
        match pick_side(factory, &fake) {
            None => {
                factory.auto_build_phase = AutoBuildPhase::Finishing;
            },
            Some((from, next)) => {
                let mut path: Vec<(usize, usize)> = Vec::new();
                path.push(from);
                path.push(next);
                factory.auto_build_current_path = path;
                factory.auto_build_mouse_target = AutoBuildTarget::FloorCell(next.0, next.1);
                proof {
                    assert(factory.auto_build_current_path@ =~= seq![from, next]);
                }
            },
        }
        return;
    }
    let (x, y) = factory.auto_build_current_path[n - 1];
    let ghost path = factory.auto_build_current_path@;
    match edge_neighbor(factory, x, y) {
        Some(e) => {
            factory.auto_build_mouse_target = AutoBuildTarget::FloorCell(e.0, e.1);
            factory.auto_build_current_path.push(e);
            proof { lemma_path_push(path, e); }
            return;
        },
        None => {},
    }
    let fake = flood_fill_get_flooded_floor(factory, x, y, 1, 1, true);
    match out_step(&fake, x, y) {
        None => {
            factory.auto_build_phase = AutoBuildPhase::Finishing;
        },
        Some(p) => {
            factory.auto_build_mouse_target = AutoBuildTarget::FloorCell(p.0, p.1);
            factory.auto_build_current_path.push(p);
            proof { lemma_path_push(path, p); }
        },
    }
}

/// The xorshift step (shifts 13, 7 and 17) of the builder's random numbers.
pub open spec fn spec_xorshift(x: u64) -> u64 {
    let a = x ^ (x << 13u64);
    let b = a ^ (a >> 7u64);
    b ^ (b << 17u64)
}

/// The next random number after `x`; see `spec_xorshift`.
pub fn xorshift(x: u64) -> (r: u64)
    ensures
        r == spec_xorshift(x),
{
    let a = x ^ (x << 13u64);
    let b = a ^ (a >> 7u64);
    b ^ (b << 17u64)
}

/// The cells of the floor in the random order that the first `k` swaps from `seed` make:
/// swap `i` exchanges place `i` with the place the next random number picks (modulo 289);
/// with the random number reached.
pub open spec fn spec_shuffle(seed: u64, k: nat) -> (Seq<usize>, u64)
    decreases k,
{
    if k == 0 {
        (Seq::new(FLOOR_CELLS_WH as nat, |i: int| i as usize), seed)
    } else {
        let (v, r) = spec_shuffle(seed, (k - 1) as nat);
        let r2 = spec_xorshift(r);
        let n = (r2 % (FLOOR_CELLS_WH as u64)) as int;
        let i = k - 1;
        (v.update(i, v[n]).update(n, v[i]), r2)
    }
}

fn shuffled_cells(seed: u64) -> (v: Vec<usize>)
    ensures
        v@ == spec_shuffle(seed, FLOOR_CELLS_WH as nat).0,
        v@.len() == FLOOR_CELLS_WH,
        forall|i: int| 0 <= i < v@.len() ==> #[trigger] v@[i] < FLOOR_CELLS_WH,
{
    let mut v: Vec<usize> = Vec::new();
    let mut i: usize = 0;
    while i < FLOOR_CELLS_WH
        invariant
            i <= FLOOR_CELLS_WH,
            v@ == Seq::new(i as nat, |j: int| j as usize),
        decreases FLOOR_CELLS_WH - i,
    {
        v.push(i);
        i = i + 1;
        assert(v@ =~= Seq::new(i as nat, |j: int| j as usize));
    }
    let mut rng: u64 = seed;
    let mut i: usize = 0;
    while i < FLOOR_CELLS_WH
        invariant
            i <= FLOOR_CELLS_WH,
            (v@, rng) == spec_shuffle(seed, i as nat),
            v@.len() == FLOOR_CELLS_WH,
            forall|j: int| 0 <= j < v@.len() ==> #[trigger] v@[j] < FLOOR_CELLS_WH,
        decreases FLOOR_CELLS_WH - i,
    {
        rng = xorshift(rng);
        let n = (rng % (FLOOR_CELLS_WH as u64)) as usize;
        let t = v[i];
        let u = v[n];
        v.set(i, u);
        v.set(n, t);
        i = i + 1;
    }
    v
}

/// A 2x2 machine with its top left cell at (mx, my) fits: its cells are empty and inside the
/// edge.
pub open spec fn spec_spot_free(floor: Seq<Cell>, mx: int, my: int) -> bool {
    &&& 1 <= mx <= FLOOR_CELLS_W - 3
    &&& 1 <= my <= FLOOR_CELLS_H - 3
    &&& floor[mx + my * FLOOR_CELLS_W].kind == CellKind::Empty
    &&& floor[mx + (my + 1) * FLOOR_CELLS_W].kind == CellKind::Empty
    &&& floor[mx + 1 + my * FLOOR_CELLS_W].kind == CellKind::Empty
    &&& floor[mx + 1 + (my + 1) * FLOOR_CELLS_W].kind == CellKind::Empty
}

/// A free spot for the 2x2 machine at (mx, my) covers four empty cells, all inside the edge:
/// every cell (mx + dx, my + dy) with dx and dy 0 or 1 is empty and inside the edge.
pub proof fn lemma_spot_free_cells(floor: Seq<Cell>, mx: int, my: int)
    requires
        spec_spot_free(floor, mx, my),
    ensures
        forall|dx: int, dy: int| 0 <= dx < 2 && 0 <= dy < 2
            ==> #[trigger] floor[(mx + dx) + (my + dy) * FLOOR_CELLS_W].kind == CellKind::Empty
                && spec_is_middle(mx + dx, my + dy),
{
    assert forall|dx: int, dy: int| 0 <= dx < 2 && 0 <= dy < 2
        implies #[trigger] floor[(mx + dx) + (my + dy) * FLOOR_CELLS_W].kind == CellKind::Empty
            && spec_is_middle(mx + dx, my + dy) by {
        if dx == 0 && dy == 0 {
            assert((mx + dx) + (my + dy) * FLOOR_CELLS_W == mx + my * FLOOR_CELLS_W);
        } else if dx == 0 {
            assert((mx + dx) + (my + dy) * FLOOR_CELLS_W == mx + (my + 1) * FLOOR_CELLS_W);
        } else if dy == 0 {
            assert((mx + dx) + (my + dy) * FLOOR_CELLS_W == mx + 1 + my * FLOOR_CELLS_W);
        } else {
            assert((mx + dx) + (my + dy) * FLOOR_CELLS_W == mx + 1 + (my + 1) * FLOOR_CELLS_W);
        }
    }
}

/// Cell `n` is empty and joined to the edge of the floor by empty cells inside the edge (an
/// empty cell on the edge is joined to it by itself).
pub open spec fn spec_edge_joined(floor: Seq<Cell>, n: int) -> bool {
    floor[n].kind == CellKind::Empty && exists|k: nat| #[trigger] spec_within(floor, n, k, 0, 0, 0, 0, true)
}

pub open spec fn spec_joined(floor: Seq<Cell>, n: int) -> int {
    if spec_edge_joined(floor, n) { 1 } else { 0 }
}

/// How many of the eight cells beside a 2x2 machine at (mx, my) are empty and joined to the
/// edge of the floor (see `spec_edge_joined`).
pub open spec fn spec_joined_count(floor: Seq<Cell>, mx: int, my: int) -> int {
    let w = FLOOR_CELLS_W as int;
    spec_joined(floor, mx + (my - 1) * w) + spec_joined(floor, mx + (my + 2) * w)
        + spec_joined(floor, mx + 1 + (my - 1) * w) + spec_joined(floor, mx + 1 + (my + 2) * w)
        + spec_joined(floor, mx - 1 + my * w) + spec_joined(floor, mx + 2 + my * w)
        + spec_joined(floor, mx - 1 + (my + 1) * w) + spec_joined(floor, mx + 2 + (my + 1) * w)
}

/// Cell `c` is empty and the flood `fake` from the edge reached it.
pub open spec fn spec_reached(floor: Seq<Cell>, fake: Seq<i32>, c: int) -> int {
    if floor[c].kind == CellKind::Empty && fake[c] < FLOOD_FILL_EMPTY_FRESH { 1 } else { 0 }
}

/// How many of the eight cells beside a 2x2 machine at (mx, my) are empty and reached by the
/// flood `fake` from the edge.
pub open spec fn spec_side_count(floor: Seq<Cell>, fake: Seq<i32>, mx: int, my: int) -> int {
    let w = FLOOR_CELLS_W as int;
    spec_reached(floor, fake, mx + (my - 1) * w) + spec_reached(floor, fake, mx + (my + 2) * w)
        + spec_reached(floor, fake, mx + 1 + (my - 1) * w) + spec_reached(floor, fake, mx + 1 + (my + 2) * w)
        + spec_reached(floor, fake, mx - 1 + my * w) + spec_reached(floor, fake, mx + 2 + my * w)
        + spec_reached(floor, fake, mx - 1 + (my + 1) * w) + spec_reached(floor, fake, mx + 2 + (my + 1) * w)
}

fn spot_free(factory: &Factory, mx: usize, my: usize) -> (r: bool)
    requires
        factory.wf(),
        mx < FLOOR_CELLS_W,
        my < FLOOR_CELLS_H,
    ensures
        r == spec_spot_free(factory.floor@, mx as int, my as int),
{
    if mx < 1 || mx > FLOOR_CELLS_W - 3 || my < 1 || my > FLOOR_CELLS_H - 3 {
        return false;
    }
    factory.floor[mx + my * FLOOR_CELLS_W].kind == CellKind::Empty
        && factory.floor[mx + (my + 1) * FLOOR_CELLS_W].kind == CellKind::Empty
        && factory.floor[mx + 1 + my * FLOOR_CELLS_W].kind == CellKind::Empty
        && factory.floor[mx + 1 + (my + 1) * FLOOR_CELLS_W].kind == CellKind::Empty
}

fn reached(factory: &Factory, fake: &Vec<i32>, c: usize) -> (r: usize)
    requires
        factory.wf(),
        c < fake@.len(),
        c < FLOOR_CELLS_WH,
    ensures
        r == spec_reached(factory.floor@, fake@, c as int),
{
    if factory.floor[c].kind == CellKind::Empty && fake[c] < FLOOD_FILL_EMPTY_FRESH { 1 } else { 0 }
}

fn side_count(factory: &Factory, fake: &Vec<i32>, mx: usize, my: usize) -> (r: usize)
    requires
        factory.wf(),
        fake@.len() == FLOOR_CELLS_WH,
        1 <= mx <= FLOOR_CELLS_W - 3,
        1 <= my <= FLOOR_CELLS_H - 3,
    ensures
        r == spec_side_count(factory.floor@, fake@, mx as int, my as int),
{
    let w = FLOOR_CELLS_W;
    reached(factory, fake, mx + (my - 1) * w) + reached(factory, fake, mx + (my + 2) * w)
        + reached(factory, fake, mx + 1 + (my - 1) * w) + reached(factory, fake, mx + 1 + (my + 2) * w)
        + reached(factory, fake, mx - 1 + my * w) + reached(factory, fake, mx + 2 + my * w)
        + reached(factory, fake, mx - 1 + (my + 1) * w) + reached(factory, fake, mx + 2 + (my + 1) * w)
}

/// The place at position `i` of the random order suits the machine: it is free and at least
/// three cells beside it are empty and reached by the flood `fake` from the edge.
pub open spec fn spec_spot_good(floor: Seq<Cell>, order: Seq<usize>, fake: Seq<i32>, i: int) -> bool {
    let c = order[i] as int;
    spec_spot_free(floor, spec_col(c), spec_row(c)) && spec_side_count(floor, fake, spec_col(c), spec_row(c)) >= 3
}

/// `i` is the position of the first good place in the random order.
pub open spec fn spec_first_good(floor: Seq<Cell>, order: Seq<usize>, fake: Seq<i32>, i: int) -> bool {
    &&& 0 <= i < FLOOR_CELLS_WH
    &&& spec_spot_good(floor, order, fake, i)
    &&& forall|j: int| 0 <= j < i ==> !#[trigger] spec_spot_good(floor, order, fake, j)
}

/// The first steps of the automatic builder: pick the first visible quest and a place for a
/// 2x2 machine, flooding the floor from its edge and trying the cells in the random order from
/// the current tick, taking the first good one (see `spec_spot_good`). Having found a place, it
/// moves to the quest; when none is good, it gives up. Either way, a machine placed stands on
/// empty cells inside the edge with at least three cells beside it that are joined to the edge.
pub open spec fn spec_startup_effect(o: &Factory, n: &Factory) -> bool {
    let order = spec_shuffle(o.ticks, FLOOR_CELLS_WH as nat).0;
    let floor = o.floor@;
    let o1 = Factory {
        auto_build_phase: AutoBuildPhase::Startup,
        auto_build_phase_at: o.ticks,
        auto_build_seed: o.ticks,
        auto_build_quest_visible_index: 0,
        auto_build_machine_w: 2,
        auto_build_machine_h: 2,
        auto_build_step_counter: 0,
        auto_build_quest_index: n.auto_build_quest_index,
        ..*o
    };
    &&& n.auto_build_quest_index < o.quests@.len()
    &&& o.quests@[n.auto_build_quest_index as int].visible
    &&& spec_visible_count(o.quests@, n.auto_build_quest_index as nat) == 0
    &&& exists|fake: Seq<i32>| {
        &&& #[trigger] spec_flood(floor, fake, 0, 0, 0, 0, true)
        &&& if exists|i: int| #[trigger] spec_first_good(floor, order, fake, i) {
            let i0 = choose|i: int| #[trigger] spec_first_good(floor, order, fake, i);
            *n == Factory { auto_build_machine_x: spec_col(order[i0] as int) as usize, auto_build_machine_y: spec_row(order[i0] as int) as usize,
                auto_build_mouse_target: AutoBuildTarget::Quest(0), ..o1 }
        } else {
            &&& forall|i: int| 0 <= i < FLOOR_CELLS_WH ==> !#[trigger] spec_spot_good(floor, order, fake, i)
            &&& spec_bailed(&o1, n)
        }
    }
    &&& n.auto_build_phase is Finishing || (spec_spot_free(floor, n.auto_build_machine_x as int, n.auto_build_machine_y as int)
        && spec_joined_count(floor, n.auto_build_machine_x as int, n.auto_build_machine_y as int) >= 3)
    &&& n.auto_build_phase is Finishing || forall|dx: int, dy: int| 0 <= dx < 2 && 0 <= dy < 2
        ==> #[trigger] floor[(n.auto_build_machine_x + dx) + (n.auto_build_machine_y + dy) * FLOOR_CELLS_W].kind == CellKind::Empty
            && spec_is_middle(n.auto_build_machine_x + dx, n.auto_build_machine_y + dy)
}

proof fn lemma_reached_joined(floor: Seq<Cell>, fake: Seq<i32>, c: int)
    requires
        spec_flood(floor, fake, 0, 0, 0, 0, true),
        0 <= c < FLOOR_CELLS_WH,
    ensures
        spec_reached(floor, fake, c) <= spec_joined(floor, c),
{
    reveal(crate::auto::spec_flood_ok);
    if spec_reached(floor, fake, c) == 1 {
        if crate::auto::spec_seed(c, 0, 0, 0, 0, true) {
            assert(spec_within(floor, c, 0, 0, 0, 0, 0, true));
        } else {
            assert(spec_within(floor, c, (fake[c] - 1) as nat, 0, 0, 0, 0, true));
        }
    }
}

/// A place counted as good has at least three cells beside it joined to the edge.
proof fn lemma_good_joined(floor: Seq<Cell>, fake: Seq<i32>, mx: int, my: int)
    requires
        spec_flood(floor, fake, 0, 0, 0, 0, true),
        spec_spot_free(floor, mx, my),
        spec_side_count(floor, fake, mx, my) >= 3,
    ensures
        spec_joined_count(floor, mx, my) >= 3,
{
    let w = FLOOR_CELLS_W as int;
    lemma_reached_joined(floor, fake, mx + (my - 1) * w);
    lemma_reached_joined(floor, fake, mx + (my + 2) * w);
    lemma_reached_joined(floor, fake, mx + 1 + (my - 1) * w);
    lemma_reached_joined(floor, fake, mx + 1 + (my + 2) * w);
    lemma_reached_joined(floor, fake, mx - 1 + my * w);
    lemma_reached_joined(floor, fake, mx + 2 + my * w);
    lemma_reached_joined(floor, fake, mx - 1 + (my + 1) * w);
    lemma_reached_joined(floor, fake, mx + 2 + (my + 1) * w);
}

/// Tries the places in `order` for a 2x2 machine: whether a good one was found, the place
/// found (0 when none), and its position in the order.
fn find_spot(factory: &Factory, order: &Vec<usize>, fake: &Vec<i32>) -> (r: (bool, usize, Ghost<int>))
    requires
        factory.wf(),
        fake@.len() == FLOOR_CELLS_WH,
        order@.len() == FLOOR_CELLS_WH,
        forall|j: int| 0 <= j < order@.len() ==> #[trigger] order@[j] < FLOOR_CELLS_WH,
    ensures
        r.0 ==> spec_first_good(factory.floor@, order@, fake@, r.2@) && r.1 == order@[r.2@],
        !r.0 ==> forall|j: int| 0 <= j < FLOOR_CELLS_WH ==> !#[trigger] spec_spot_good(factory.floor@, order@, fake@, j),
{
    let ghost floor = factory.floor@;
    let mut i: usize = 0;
    while i < FLOOR_CELLS_WH
        invariant
            factory.wf(),
            floor == factory.floor@,
            fake@.len() == FLOOR_CELLS_WH,
            forall|j: int| 0 <= j < order@.len() ==> #[trigger] order@[j] < FLOOR_CELLS_WH,
            order@.len() == FLOOR_CELLS_WH,
            i <= FLOOR_CELLS_WH,
            forall|j: int| 0 <= j < i ==> !#[trigger] spec_spot_good(floor, order@, fake@, j),
        decreases FLOOR_CELLS_WH - i,
    {
        let coord = order[i];
        let (mx, my) = to_xy(coord);
        if spot_free(factory, mx, my) {
            if side_count(factory, fake, mx, my) >= 3 {
                return (true, coord, Ghost(i as int));
            }
        }
        i = i + 1;
    }
    (false, 0, Ghost(0))
}

#[verifier::spinoff_prover]
#[verifier::rlimit(60)]
fn auto_build_init_startup(config: &Config, factory: &mut Factory)
    requires
        old(factory).wf(),
        spec_quests_ok(config, old(factory)),
        exists|i: int| 0 <= i < old(factory).quests@.len() && #[trigger] old(factory).quests@[i].visible,
    ensures
        spec_startup_effect(old(factory), final(factory)),
        spec_auto_ok(config, final(factory)),
        final(factory).wf(),
{
    factory.auto_build_phase = AutoBuildPhase::Startup;
    factory.auto_build_phase_at = factory.ticks;
    factory.auto_build_seed = factory.ticks;
    factory.auto_build_quest_visible_index = 0;
    factory.auto_build_machine_w = 2;
    factory.auto_build_machine_h = 2;
    factory.auto_build_step_counter = 0;
    let qi = quest_visible_index_to_quest_index(factory, 0);
    let qi = match qi {
        Some(q) => q,
        None => {
            proof {
                let i = choose|i: int| 0 <= i < factory.quests@.len() && #[trigger] factory.quests@[i].visible;
                lemma_first_visible(factory.quests@, i);
            }
            0
        },
    };
    factory.auto_build_quest_index = qi;
    let order = shuffled_cells(factory.ticks);
    let ghost floor = factory.floor@;
    let fake = flood_fill_get_flooded_floor(factory, 0, 0, 0, 0, true);
    let (found, target, Ghost(i)) = find_spot(factory, &order, &fake);
    if found {
        let (x, y) = to_xy(target);
        factory.auto_build_machine_x = x;
        factory.auto_build_machine_y = y;
        factory.auto_build_mouse_target = AutoBuildTarget::Quest(0);
    } else {
        factory.auto_build_phase = AutoBuildPhase::Finishing;
    }
    proof {
        let ord = order@;
        if found {
            let i0 = choose|k: int| #[trigger] spec_first_good(floor, ord, fake@, k);
            assert(spec_first_good(floor, ord, fake@, i));
            if i0 < i {
                assert(!spec_spot_good(floor, ord, fake@, i0));
            }
            if i0 > i {
                assert(!spec_spot_good(floor, ord, fake@, i));
            }
            assert(i0 == i);
            lemma_good_joined(floor, fake@, spec_col(target as int), spec_row(target as int));
            lemma_spot_free_cells(floor, spec_col(target as int), spec_row(target as int));
        } else {
            assert(!exists|k: int| #[trigger] spec_first_good(floor, ord, fake@, k));
        }
        assert(spec_flood(floor, fake@, 0, 0, 0, 0, true));
    }
}

proof fn lemma_count_pos(quests: Seq<Quest>, i: int)
    requires
        0 <= i <= quests.len(),
        spec_visible_count(quests, i as nat) > 0,
    ensures
        exists|k: int| 0 <= k < i && #[trigger] quests[k].visible,
    decreases i,
{
    if i > 0 && !quests[i - 1].visible {
        lemma_count_pos(quests, i - 1);
    }
}

proof fn lemma_first_visible(quests: Seq<Quest>, i: int)
    requires
        0 <= i < quests.len(),
        quests[i].visible,
    ensures
        exists|j: int| 0 <= j < quests.len() && #[trigger] quests[j].visible && spec_visible_count(quests, j as nat) == 0,
    decreases i,
{
    if spec_visible_count(quests, i as nat) != 0 {
        lemma_count_pos(quests, i);
        let k = choose|k: int| 0 <= k < i && #[trigger] quests[k].visible;
        lemma_first_visible(quests, k);
    }
}

/// What each step needs when it starts.
pub open spec fn spec_init_ready(config: &Config, f: &Factory) -> bool {
    let p = f.auto_build_phase;
    let path = f.auto_build_current_path@;
    let step_ok = f.auto_build_step_counter < spec_inputs(config, f).len();
    &&& f.wf()
    &&& p is Startup ==> spec_quests_ok(config, f) && exists|i: int| 0 <= i < f.quests@.len() && #[trigger] f.quests@[i].visible
    &&& spec_active(p) && !(p is Startup) ==> spec_quests_ok(config, f) && spec_machine_inside(f)
    &&& (p is MoveToEdge || p is CreateSupplier || p is TrackToMachineStart || p is TrackToMachine || p is TrackToMachineStep) ==> step_ok
    &&& p is CreateSupplier ==> f.auto_build_target_edge_x < FLOOR_CELLS_W && f.auto_build_target_edge_y < FLOOR_CELLS_H
    &&& (p is TrackToMachineStart || p is TrackToMachine) ==> spec_path_on_floor(path)
    &&& p is TrackToMachineStep ==> spec_path_on_floor(path) && spec_path_tail(path, true)
    &&& p is TrackFromMachineStart ==> path.len() == 0
    &&& p is TrackFromMachine ==> spec_path_on_floor(path) && (path.len() > 0 ==> spec_inner(path.last()))
    &&& p is TrackFromMachineStep ==> spec_path_on_floor(path) && spec_path_tail(path, false)
}

/// A piece of belt is laid from the second last to the last cell of the track (see
/// `belt_connect_cells_expensive`); after the track away from the machine reached the edge,
/// the builder finishes.
pub open spec fn spec_laid_step(s: AutoBuildSettings, o: &Factory, n: &Factory, outward: bool) -> bool {
    let path = o.auto_build_current_path@;
    let prev = path[path.len() - 2];
    let next = path[path.len() - 1];
    let phase = if outward && spec_is_edge(next.0 as int, next.1 as int) { AutoBuildPhase::Finishing } else { o.auto_build_phase };
    let track = spec_track_of(o.floor@, prev.0 as int, prev.1 as int, next.0 as int, next.1 as int);
    &&& same_but_floor_changed(n, &Factory { auto_build_phase_pause: 0, auto_build_phase: phase, ..*o })
    &&& n.changed == (o.changed || track.len() >= 2)
    &&& spec_track_laid(o.floor@, n.floor@, track, track.len(), s.demand_speed, s.demand_cooldown)
}

#[verifier::spinoff_prover]
#[verifier::rlimit(80)]
fn auto_build_init_track_step_common(config: &Config, factory: &mut Factory, s: AutoBuildSettings, outward: bool)
    requires
        old(factory).wf(),
        config.wf(),
        spec_path_on_floor(old(factory).auto_build_current_path@),
        spec_path_tail(old(factory).auto_build_current_path@, !outward),
    ensures
        spec_laid_step(s, old(factory), final(factory), outward),
        final(factory).wf(),
{
    factory.auto_build_phase_pause = 0;
    let n = factory.auto_build_current_path.len();
    let (px, py) = factory.auto_build_current_path[n - 2];
    let (nx, ny) = factory.auto_build_current_path[n - 1];
    proof {
        let path = factory.auto_build_current_path@;
        assert(path[n - 2].0 < FLOOR_CELLS_W && path[n - 1].0 < FLOOR_CELLS_W);
        lemma_covered_neighbors(px as int, py as int, nx as int, ny as int);
        let cov = crate::track::spec_covered(px as int, py as int, nx as int, ny as int);
        assert(crate::apply::spec_adjacent(cov[0], cov[1]));
    }
    belt_connect_cells_expensive(factory, config, px, py, nx, ny, s.demand_speed, s.demand_cooldown);
    if outward && is_edge(nx, ny) {
        factory.auto_build_phase = AutoBuildPhase::Finishing;
    }
}


fn auto_build_init_pick_machine(factory: &mut Factory)
    ensures
        spec_moved_to(old(factory), final(factory), AutoBuildTarget::MachineButton),
{
    set_target(factory, AutoBuildTarget::MachineButton);
}

fn auto_build_init_drag_machine(factory: &mut Factory)
    ensures
        spec_moved_to(old(factory), final(factory), AutoBuildTarget::FloorCell(old(factory).auto_build_machine_x, old(factory).auto_build_machine_y)),
{
    let t = AutoBuildTarget::FloorCell(factory.auto_build_machine_x, factory.auto_build_machine_y);
    set_target(factory, t);
}

fn auto_build_init_drag_target_part(factory: &mut Factory)
    ensures
        spec_moved_to(old(factory), final(factory), AutoBuildTarget::FloorCell(old(factory).auto_build_machine_x, old(factory).auto_build_machine_y)),
{
    let t = AutoBuildTarget::FloorCell(factory.auto_build_machine_x, factory.auto_build_machine_y);
    set_target(factory, t);
}

fn auto_build_init_place_machine(factory: &mut Factory) -> (a: AutoBuildAction)
    ensures
        *final(factory) == (Factory { auto_build_phase_pause: 0, ..*old(factory) }),
        a == (AutoBuildAction::AddMachine { x: old(factory).auto_build_machine_x, y: old(factory).auto_build_machine_y,
            w: old(factory).auto_build_machine_w, h: old(factory).auto_build_machine_h }),
{
    factory.auto_build_phase_pause = 0;
    AutoBuildAction::AddMachine { x: factory.auto_build_machine_x, y: factory.auto_build_machine_y,
        w: factory.auto_build_machine_w, h: factory.auto_build_machine_h }
}

fn auto_build_init_move_to_target_part(config: &Config, factory: &mut Factory)
    requires
        spec_quests_ok(config, old(factory)),
    ensures
        spec_moved_to(old(factory), final(factory), AutoBuildTarget::Offer(spec_quest_kind(old(factory)))),
{
    let kind = quest_kind(config, factory);
    set_target(factory, AutoBuildTarget::Offer(kind));
}

fn auto_build_init_release_target_part(config: &Config, factory: &mut Factory) -> (a: AutoBuildAction)
    requires
        spec_quests_ok(config, old(factory)),
        spec_machine_inside(old(factory)),
    ensures
        *final(factory) == (Factory { auto_build_phase_pause: 0, auto_build_step_counter: 0, ..*old(factory) }),
        a == (AutoBuildAction::SetMachineTarget {
            main_coord: spec_to_coord(old(factory).auto_build_machine_x as int, old(factory).auto_build_machine_y as int) as usize,
            kind: spec_quest_kind(old(factory)) }),
{
    factory.auto_build_phase_pause = 0;
    let kind = quest_kind(config, factory);
    let main_coord = to_coord(factory.auto_build_machine_x, factory.auto_build_machine_y);
    factory.auto_build_step_counter = 0;
    AutoBuildAction::SetMachineTarget { main_coord, kind }
}

/// The short pause before a track is started.
fn auto_build_init_track_start(factory: &mut Factory, s: AutoBuildSettings)
    ensures
        *final(factory) == (Factory { auto_build_phase_pause: s.track_pause, ..*old(factory) }),
{
    factory.auto_build_phase_pause = s.track_pause;
}


fn auto_build_init_track_to_machine_step(config: &Config, factory: &mut Factory, s: AutoBuildSettings)
    requires
        old(factory).wf(),
        config.wf(),
        spec_path_on_floor(old(factory).auto_build_current_path@),
        spec_path_tail(old(factory).auto_build_current_path@, true),
    ensures
        spec_laid_step(s, old(factory), final(factory), false),
        final(factory).wf(),
{
    auto_build_init_track_step_common(config, factory, s, false);
}

fn auto_build_init_track_from_machine_step(config: &Config, factory: &mut Factory, s: AutoBuildSettings)
    requires
        old(factory).wf(),
        config.wf(),
        spec_path_on_floor(old(factory).auto_build_current_path@),
        spec_path_tail(old(factory).auto_build_current_path@, false),
    ensures
        spec_laid_step(s, old(factory), final(factory), true),
        final(factory).wf(),
{
    auto_build_init_track_step_common(config, factory, s, true);
}

/// What the step in the builder's current phase does (see `auto_build_init`).
pub open spec fn spec_init_effect(config: &Config, s: AutoBuildSettings, o: &Factory, n: &Factory, a: AutoBuildAction) -> bool {
    let here = AutoBuildTarget::FloorCell(o.auto_build_machine_x, o.auto_build_machine_y);
    match o.auto_build_phase {
        AutoBuildPhase::Idle | AutoBuildPhase::PickQuest | AutoBuildPhase::Finishing | AutoBuildPhase::Finished =>
            *n == *o && a is Nothing,
        AutoBuildPhase::Startup => spec_startup_effect(o, n) && a is Nothing,
        AutoBuildPhase::PickMachine => spec_moved_to(o, n, AutoBuildTarget::MachineButton) && a is Nothing,
        AutoBuildPhase::DragMachine | AutoBuildPhase::DragTargetPart => spec_moved_to(o, n, here) && a is Nothing,
        AutoBuildPhase::PlaceMachine => *n == Factory { auto_build_phase_pause: 0, ..*o }
            && a == (AutoBuildAction::AddMachine { x: o.auto_build_machine_x, y: o.auto_build_machine_y,
                w: o.auto_build_machine_w, h: o.auto_build_machine_h }),
        AutoBuildPhase::MoveToTargetPart => spec_moved_to(o, n, AutoBuildTarget::Offer(spec_quest_kind(o))) && a is Nothing,
        AutoBuildPhase::ReleaseTargetPart => *n == Factory { auto_build_phase_pause: 0, auto_build_step_counter: 0, ..*o }
            && a == (AutoBuildAction::SetMachineTarget {
                main_coord: spec_to_coord(o.auto_build_machine_x as int, o.auto_build_machine_y as int) as usize,
                kind: spec_quest_kind(o) }),
        AutoBuildPhase::MoveToInputPart => spec_move_to_input_effect(config, s, o, n) && a is Nothing,
        AutoBuildPhase::MoveToEdge => spec_move_to_edge_effect(o, n) && a is Nothing,
        AutoBuildPhase::CreateSupplier => spec_create_supplier_effect(config, o, n, a),
        AutoBuildPhase::TrackToMachineStart | AutoBuildPhase::TrackFromMachineStart =>
            *n == Factory { auto_build_phase_pause: s.track_pause, ..*o } && a is Nothing,
        AutoBuildPhase::TrackToMachine => spec_track_to_machine_effect(config, s, o, n) && a is Nothing,
        AutoBuildPhase::TrackToMachineStep => spec_laid_step(s, o, n, false) && a is Nothing,
        AutoBuildPhase::TrackFromMachine => spec_track_from_machine_effect(s, o, n) && a is Nothing,
        AutoBuildPhase::TrackFromMachineStep => spec_laid_step(s, o, n, true) && a is Nothing,
    }
}

/// Runs the step of the builder's current phase: picks where to go, lays track, and tells the
/// caller what to add to the factory; see `spec_init_effect`. The mouse moves the caller
/// animates; a step that gives up goes to `Finishing`. Afterwards the builder is ready for
/// the next step.
#[verifier::spinoff_prover]
#[verifier::rlimit(60)]
pub fn auto_build_init(config: &Config, factory: &mut Factory, s: AutoBuildSettings) -> (a: AutoBuildAction)
    requires
        config.wf(),
        spec_init_ready(config, old(factory)),
    ensures
        spec_init_effect(config, s, old(factory), final(factory), a),
        final(factory).wf(),
        spec_auto_ok(config, final(factory)),
{
    match factory.auto_build_phase {
        AutoBuildPhase::Idle | AutoBuildPhase::PickQuest | AutoBuildPhase::Finishing | AutoBuildPhase::Finished => {
            AutoBuildAction::Nothing
        },
        AutoBuildPhase::Startup => {
            auto_build_init_startup(config, factory);
            AutoBuildAction::Nothing
        },
        AutoBuildPhase::PickMachine => {
            auto_build_init_pick_machine(factory);
            AutoBuildAction::Nothing
        },
        AutoBuildPhase::DragMachine => {
            auto_build_init_drag_machine(factory);
            AutoBuildAction::Nothing
        },
        AutoBuildPhase::DragTargetPart => {
            auto_build_init_drag_target_part(factory);
            AutoBuildAction::Nothing
        },
        AutoBuildPhase::PlaceMachine => {
            auto_build_init_place_machine(factory)
        },
        AutoBuildPhase::MoveToTargetPart => {
            auto_build_init_move_to_target_part(config, factory);
            AutoBuildAction::Nothing
        },
        AutoBuildPhase::ReleaseTargetPart => {
            auto_build_init_release_target_part(config, factory)
        },
        AutoBuildPhase::MoveToInputPart => {
            auto_build_init_move_to_input_part(config, factory, s);
            AutoBuildAction::Nothing
        },
        AutoBuildPhase::MoveToEdge => {
            auto_build_init_move_to_edge(config, factory);
            AutoBuildAction::Nothing
        },
        AutoBuildPhase::CreateSupplier => {
            auto_build_init_create_supplier(config, factory)
        },
        AutoBuildPhase::TrackToMachineStart | AutoBuildPhase::TrackFromMachineStart => {
            auto_build_init_track_start(factory, s);
            AutoBuildAction::Nothing
        },
        AutoBuildPhase::TrackToMachine => {
            auto_build_init_track_to_machine(config, factory, s);
            AutoBuildAction::Nothing
        },
        AutoBuildPhase::TrackToMachineStep => {
            auto_build_init_track_to_machine_step(config, factory, s);
            AutoBuildAction::Nothing
        },
        AutoBuildPhase::TrackFromMachine => {
            auto_build_init_track_from_machine(factory, s);
            AutoBuildAction::Nothing
        },
        AutoBuildPhase::TrackFromMachineStep => {
            auto_build_init_track_from_machine_step(config, factory, s);
            AutoBuildAction::Nothing
        },
    }
}

/// The builder after it moved on to the next phase, before that phase's step ran: the pause is
/// the default one, the duration is left to the caller, and the mouse starts where it went.
pub open spec fn spec_advanced(s: AutoBuildSettings, o: &Factory) -> Factory {
    Factory {
        auto_build_phase: spec_next_phase(o.auto_build_phase),
        auto_build_phase_pause: s.step_pause,
        auto_build_phase_duration: 0,
        auto_build_phase_at: o.ticks,
        auto_build_mouse_offset: o.auto_build_mouse_target,
        ..*o
    }
}

proof fn lemma_ready_after_advance(config: &Config, s: AutoBuildSettings, o: &Factory)
    requires
        spec_auto_ok(config, o),
    ensures
        spec_init_ready(config, &spec_advanced(s, o)),
        !(spec_advanced(s, o).auto_build_phase is Startup),
{
    let a = spec_advanced(s, o);
    assert(spec_inputs(config, &a) == spec_inputs(config, o));
}

/// Moves the builder to its next phase (see `spec_next_phase`) and runs that phase's step.
#[verifier::spinoff_prover]
#[verifier::rlimit(60)]
pub fn auto_build_next_step(config: &Config, factory: &mut Factory, s: AutoBuildSettings) -> (a: AutoBuildAction)
    requires
        config.wf(),
        spec_auto_ok(config, old(factory)),
    ensures
        spec_init_effect(config, s, &spec_advanced(s, old(factory)), final(factory), a),
        spec_auto_ok(config, final(factory)),
{
    factory.auto_build_phase = next_phase(factory.auto_build_phase);
    factory.auto_build_phase_pause = s.step_pause;
    factory.auto_build_phase_duration = 0;
    factory.auto_build_phase_at = factory.ticks;
    factory.auto_build_mouse_offset = factory.auto_build_mouse_target;
    proof {
        assert(*factory == spec_advanced(s, old(factory)));
        lemma_ready_after_advance(config, s, old(factory));
    }
    auto_build_init(config, factory, s)
}

/// Whether the current phase is over: the pause has passed, and then the duration too (with
/// no duration, any tick after the pause).
pub open spec fn spec_phase_due(f: &Factory) -> bool {
    let since = f.ticks - f.auto_build_phase_at;
    if since < f.auto_build_phase_pause {
        false
    } else if f.auto_build_phase_duration == 0 {
        since > f.auto_build_phase_pause
    } else {
        since - f.auto_build_phase_pause >= f.auto_build_phase_duration
    }
}

/// One tick of the automatic builder: when it is busy and its phase is over, it takes the
/// next step; else nothing changes.
pub fn auto_build_tick(config: &Config, factory: &mut Factory, s: AutoBuildSettings) -> (a: AutoBuildAction)
    requires
        config.wf(),
        spec_auto_ok(config, old(factory)),
        old(factory).ticks >= old(factory).auto_build_phase_at,
    ensures
        if !(old(factory).auto_build_phase is Idle) && spec_phase_due(old(factory)) {
            spec_init_effect(config, s, &spec_advanced(s, old(factory)), final(factory), a)
        } else {
            *final(factory) == *old(factory) && a is Nothing
        },
        spec_auto_ok(config, final(factory)),
{
    if factory.auto_build_phase == AutoBuildPhase::Idle {
        return AutoBuildAction::Nothing;
    }
    let since = factory.ticks - factory.auto_build_phase_at;
    let due = if since < factory.auto_build_phase_pause {
        false
    } else if factory.auto_build_phase_duration == 0 {
        since > factory.auto_build_phase_pause
    } else {
        since - factory.auto_build_phase_pause >= factory.auto_build_phase_duration
    };
    if due {
        auto_build_next_step(config, factory, s)
    } else {
        AutoBuildAction::Nothing
    }
}

} // verus!
