use factini::auto::{AutoBuildPhase, AutoBuildTarget};
use factini::belt::{tick_belt, belt_discover_ins_and_outs};
use factini::connect::cell_connect_if_possible;
use factini::apply::belt_connect_cells_expensive;
use factini::belt_meta::{belt_type_from_ports, belt_type_to_belt_meta};
use factini::cell::{belt_cell, demand_cell, machine_main_cell, machine_sub_cell, CellKind};
use factini::direction::Direction;
use factini::edit::{factory_unbelt, factory_undir};
use factini::factory::Factory;
use factini::parse_floor::floor_from_str;
use factini::part::{Config, ConfigNode, Part};
use factini::port::Port;

fn tick_config() -> Config {
    let node = |name: &str, icon: char| ConfigNode { name: name.chars().collect(), icon, pattern_unique_kinds: vec![] };
    Config { nodes: vec![node("none", ' '), node("trash", 't'), node("wood", 'w')] }
}

fn factory_at(ticks: u64) -> Factory {
    let (floor, _) = floor_from_str(&tick_config(), &vec![], &vec![], 1, 1).unwrap();
    Factory {
        floor,
        ticks,
        changed: false,
        quests: vec![],
        offers: vec![],
        available_atoms: vec![],
        auto_build_phase: AutoBuildPhase::Idle,
        auto_build_phase_at: 0,
        auto_build_phase_pause: 0,
        auto_build_phase_duration: 0,
        auto_build_mouse_offset: AutoBuildTarget::Stay,
        auto_build_mouse_target: AutoBuildTarget::Stay,
        auto_build_seed: 0,
        auto_build_quest_visible_index: 0,
        auto_build_quest_index: 0,
        auto_build_machine_x: 0,
        auto_build_machine_y: 0,
        auto_build_machine_w: 0,
        auto_build_machine_h: 0,
        auto_build_step_counter: 0,
        auto_build_current_path: vec![],
        auto_build_target_edge_x: 0,
        auto_build_target_edge_y: 0,
    }
}

fn down_belt(f: &mut Factory, x: usize, y: usize) -> usize {
    let meta = belt_type_to_belt_meta(belt_type_from_ports(Port::Inbound, Port::Absent, Port::Outbound, Port::Absent));
    let coord = x + y * 17;
    f.floor[coord] = belt_cell(x, y, meta);
    coord
}

fn load_ready_part(f: &mut Factory, coord: usize) {
    let b = &mut f.floor[coord].belt;
    b.part = Part { kind: 2, icon: 'w' };
    b.part_to = Direction::Down;
    b.part_to_tbd = false;
    b.part_at = 1;
    b.part_progress = b.speed;
}

#[test]
fn test_ready_part_goes_to_demander() {
    let mut f = factory_at(10);
    let b = down_belt(&mut f, 1, 15);
    let d = 16 * 17 + 1;
    f.floor[d] = demand_cell(1, 16, 1, 1);
    f.floor[b].outs = vec![(Direction::Down, b, d, Direction::Up)];
    load_ready_part(&mut f, b);
    tick_belt(&mut f, b);
    assert_eq!(f.floor[d].kind, CellKind::Demand);
    assert_eq!(f.floor[d].demand.received, 1);
    assert_eq!(f.floor[d].demand.part, Part { kind: 2, icon: 'w' });
    assert_eq!(f.floor[d].demand.last_part_at, 10);
    assert_eq!(f.floor[b].belt.part.kind, 0);
}

#[test]
fn test_part_not_ready_stays_on_belt() {
    let mut f = factory_at(10);
    let b = down_belt(&mut f, 1, 15);
    let d = 16 * 17 + 1;
    f.floor[d] = demand_cell(1, 16, 1, 1);
    f.floor[b].outs = vec![(Direction::Down, b, d, Direction::Up)];
    load_ready_part(&mut f, b);
    f.floor[b].belt.part_progress = 0;
    tick_belt(&mut f, b);
    assert_eq!(f.floor[d].demand.received, 0);
    assert_eq!(f.floor[b].belt.part, Part { kind: 2, icon: 'w' });
    assert_eq!(f.floor[b].belt.part_progress, 1);
}

#[test]
fn test_empty_belt_takes_part_from_neighbor_belt() {
    let mut f = factory_at(7);
    let a = down_belt(&mut f, 4, 4);
    let b = down_belt(&mut f, 4, 5);
    f.floor[a].outs = vec![(Direction::Down, a, b, Direction::Up)];
    f.floor[b].ins = vec![(Direction::Up, b, a, Direction::Down)];
    load_ready_part(&mut f, a);
    tick_belt(&mut f, b);
    assert_eq!(f.floor[b].belt.part, Part { kind: 2, icon: 'w' });
    assert_eq!(f.floor[b].belt.part_from, Direction::Up);
    assert_eq!(f.floor[b].belt.part_at, 7);
    assert_eq!(f.floor[a].belt.part.kind, 0);
}

#[test]
fn test_connect_next_to_empty_changes_no_port() {
    let mut f = factory_at(0);
    let b = down_belt(&mut f, 5, 5);
    f.floor[b].port_r = Port::Unknown;
    let e = b + 1;
    assert_eq!(f.floor[e].kind, CellKind::Empty);
    cell_connect_if_possible(&mut f, b, e, 1, 0);
    assert_eq!(f.floor[b].port_r, Port::Unknown);
    assert_eq!(f.floor[b].port_u, Port::Inbound);
    assert_eq!(f.floor[b].port_d, Port::Outbound);
    assert_eq!(f.floor[e].port_l, Port::Absent);
    assert_eq!(f.floor[e].kind, CellKind::Empty);
}

#[test]
fn test_connect_two_belts() {
    let mut f = factory_at(0);
    let a = down_belt(&mut f, 5, 5);
    let b = down_belt(&mut f, 6, 5);
    cell_connect_if_possible(&mut f, a, b, 1, 0);
    assert_eq!(f.floor[a].port_r, Port::Outbound);
    assert_eq!(f.floor[b].port_l, Port::Inbound);
    assert!(f.floor[a].outs.contains(&(Direction::Right, a, b, Direction::Left)));
    assert!(f.floor[b].ins.contains(&(Direction::Left, b, a, Direction::Right)));
}

#[test]
fn test_discover_links_of_a_demander() {
    let mut f = factory_at(0);
    let d = 16 * 17 + 1;
    f.floor[d] = demand_cell(1, 16, 1, 1);
    f.floor[d].ins = vec![];
    belt_discover_ins_and_outs(&mut f, d);
    assert_eq!(f.floor[d].ins, vec![(Direction::Up, d, d - 17, Direction::Down)]);
    assert!(f.floor[d].outs.is_empty());
}

#[test]
fn test_machine_cells_start_idle() {
    let main = machine_main_cell('1', 3, 3, 2, 2, vec![Part { kind: 2, icon: 'w' }], Part { kind: 2, icon: 'w' }, 4, 0, 0);
    assert_eq!(main.machine.start_at, 0);
    assert!(main.machine.coords.is_empty());
    assert_eq!(main.machine.speed, 4);
    let sub = machine_sub_cell('1', 4, 3, 3 * 17 + 3, 2, 2);
    assert_eq!(sub.machine.speed, 666);
    assert_eq!(sub.machine.start_at, 0);
    assert!(sub.machine.haves.is_empty());
    assert!(sub.machine.coords.is_empty());
    assert_eq!(sub.machine.main_coord, 3 * 17 + 3);
}

#[test]
fn test_unbelt_clears_belts_and_machine_ports() {
    let mut f = factory_at(0);
    let b = down_belt(&mut f, 5, 5);
    let m = 8 * 17 + 8;
    f.floor[m] = machine_main_cell('1', 8, 8, 1, 1, vec![], Part { kind: 2, icon: 'w' }, 1, 0, 0);
    let d = 16 * 17 + 1;
    f.floor[d] = demand_cell(1, 16, 1, 1);
    factory_unbelt(&mut f);
    assert!(f.changed);
    assert_eq!(f.floor[b].kind, CellKind::Empty);
    assert_eq!(f.floor[b].port_u, Port::Absent);
    assert_eq!(f.floor[m].kind, CellKind::Machine);
    assert_eq!(f.floor[m].port_u, Port::Absent);
    assert_eq!(f.floor[m].port_l, Port::Absent);
    assert_eq!(f.floor[d].kind, CellKind::Demand);
    assert_eq!(f.floor[d].port_u, Port::Inbound);
}

#[test]
fn test_undir_makes_ports_unknown() {
    let mut f = factory_at(0);
    let b = down_belt(&mut f, 5, 5);
    let d = 16 * 17 + 1;
    f.floor[d] = demand_cell(1, 16, 1, 1);
    factory_undir(&mut f);
    assert!(f.changed);
    assert_eq!(f.floor[b].kind, CellKind::Belt);
    assert_eq!(f.floor[b].port_u, Port::Unknown);
    assert_eq!(f.floor[b].port_r, Port::Absent);
    assert_eq!(f.floor[b].port_d, Port::Unknown);
    assert_eq!(f.floor[b].port_l, Port::Absent);
    assert_eq!(f.floor[d].port_u, Port::Inbound);
}

#[test]
fn test_demand_cell_directions() {
    let c = demand_cell(1, 16, 3, 4);
    assert_eq!(c.demand.neighbor_coord, 15 * 17 + 1);
    assert_eq!(c.demand.incoming_dir, Direction::Up);
    assert_eq!(c.demand.neighbor_outgoing_dir, Direction::Down);
    assert_eq!(c.demand.part, Part { kind: 0, icon: ' ' });
    assert_eq!(c.demand.last_part_at, 0);
    assert_eq!(c.demand.speed, 3);
    assert_eq!(c.demand.cooldown, 4);
    let l = demand_cell(0, 7, 1, 1);
    assert_eq!(l.demand.incoming_dir, Direction::Right);
    assert_eq!(l.demand.neighbor_outgoing_dir, Direction::Left);
}

#[test]
fn test_drag_from_edge_lays_connected_belts() {
    let mut f = factory_at(0);
    belt_connect_cells_expensive(&mut f, &tick_config(), 0, 5, 4, 5, 1, 1);
    assert!(f.changed);
    assert_eq!(f.floor[5 * 17].kind, CellKind::Supply);
    for x in 1..5 {
        assert_eq!(f.floor[5 * 17 + x].kind, CellKind::Belt);
    }
    assert_eq!(f.floor[5 * 17 + 1].port_l, Port::Inbound);
    assert_eq!(f.floor[5 * 17 + 1].port_r, Port::Outbound);
    assert_eq!(f.floor[5 * 17 + 4].port_l, Port::Inbound);
}
