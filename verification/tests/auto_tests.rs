use factini::auto::{AutoBuildPhase, AutoBuildTarget, flood_fill_get_flooded_floor, flood_fill_find_reachable_edge_from,
    flood_fill_next_step_to_connect_machine, b62, fake_text};
use factini::auto_build::{AutoBuildAction, AutoBuildSettings, auto_build_init, auto_build_next_step, auto_build_tick,
    next_phase, quest_visible_index_to_quest_index, xorshift};
use factini::atom::atom_is_visible;
use factini::cell::CellKind;
use factini::factory::{Factory, Quest};
use factini::parse_floor::floor_from_str;
use factini::part::{Config, ConfigNode};

fn auto_node(name: &str, icon: char, pattern: Vec<usize>) -> ConfigNode {
    ConfigNode { name: name.chars().collect(), icon, pattern_unique_kinds: pattern }
}

fn auto_config() -> Config {
    Config {
        nodes: vec![
            auto_node("none", ' ', vec![]),
            auto_node("trash", 't', vec![]),
            auto_node("wood", 'w', vec![]),
            auto_node("plank", 'p', vec![2]),
        ],
    }
}

fn empty_factory(ticks: u64) -> Factory {
    let (floor, _) = floor_from_str(&auto_config(), &vec![], &vec![], 1, 1).unwrap();
    Factory {
        floor,
        ticks,
        changed: false,
        quests: vec![Quest { production_part_kind: 3, visible: false }, Quest { production_part_kind: 3, visible: true }],
        offers: vec![],
        available_atoms: vec![(2, true), (3, false)],
        auto_build_phase: AutoBuildPhase::Idle,
        auto_build_phase_at: 0,
        auto_build_phase_pause: 0,
        auto_build_phase_duration: 0,
        auto_build_mouse_offset: AutoBuildTarget::Stay,
        auto_build_mouse_target: AutoBuildTarget::Stay,
        auto_build_seed: 0,
        auto_build_quest_visible_index: 0,
        auto_build_quest_index: 0,
        auto_build_machine_x: 5,
        auto_build_machine_y: 5,
        auto_build_machine_w: 2,
        auto_build_machine_h: 2,
        auto_build_step_counter: 0,
        auto_build_current_path: vec![],
        auto_build_target_edge_x: 0,
        auto_build_target_edge_y: 0,
    }
}

fn settings() -> AutoBuildSettings {
    AutoBuildSettings { step_pause: 20, track_pause: 10, demand_speed: 1, demand_cooldown: 1 }
}

#[test]
fn test_flood_on_empty_floor_counts_steps() {
    let f = empty_factory(0);
    let fake = flood_fill_get_flooded_floor(&f, 8, 8, 1, 1, false);
    assert_eq!(fake[8 + 8 * 17], 1);
    assert_eq!(fake[9 + 8 * 17], 2);
    assert_eq!(fake[8 + 7 * 17], 2);
    assert_eq!(fake[1 + 1 * 17], 15);
    assert_eq!(fake[0], 950);
    assert_eq!(fake[8], 950);
}

#[test]
fn test_flood_from_edge() {
    let f = empty_factory(0);
    let fake = flood_fill_get_flooded_floor(&f, 0, 0, 0, 0, true);
    assert_eq!(fake[0], 950);
    assert_eq!(fake[5], 1);
    assert_eq!(fake[5 + 17], 2);
    assert_eq!(fake[8 + 8 * 17], 9);
}

#[test]
fn test_flood_marks_taken_cells() {
    let mut f = empty_factory(0);
    f.floor[3 + 3 * 17].kind = CellKind::Belt;
    let fake = flood_fill_get_flooded_floor(&f, 8, 8, 1, 1, false);
    assert_eq!(fake[3 + 3 * 17], 999);
}

#[test]
fn test_reachable_edge_is_nearest() {
    let f = empty_factory(0);
    assert_eq!(flood_fill_find_reachable_edge_from(&f, 2, 5, 1, 1), Some((0, 5)));
}

#[test]
fn test_next_step_towards_machine() {
    let f = empty_factory(0);
    assert_eq!(flood_fill_next_step_to_connect_machine(&f, 5, 1), Some((5, 2)));
    assert_eq!(flood_fill_next_step_to_connect_machine(&f, 4, 5), Some((5, 5)));
}

#[test]
fn test_b62_and_fake_text() {
    assert_eq!(b62(900), ' ');
    assert_eq!(b62(999), '#');
    assert_eq!(b62(950), '%');
    assert_eq!(b62(7), '7');
    assert_eq!(b62(10), 'a');
    assert_eq!(b62(36), 'A');
    assert_eq!(b62(70), '?');
    let f = empty_factory(0);
    let fake = flood_fill_get_flooded_floor(&f, 8, 8, 1, 1, false);
    let t = fake_text(&fake);
    assert_eq!(t.len(), 1 + 17 * 18);
    assert_eq!(t[0], '\n');
    assert_eq!(t[1], '%');
    assert_eq!(t[18], '\n');
}

#[test]
fn test_next_phase_cycle() {
    assert_eq!(next_phase(AutoBuildPhase::Startup), AutoBuildPhase::PickQuest);
    assert_eq!(next_phase(AutoBuildPhase::TrackToMachineStep), AutoBuildPhase::TrackToMachine);
    assert_eq!(next_phase(AutoBuildPhase::Finished), AutoBuildPhase::Idle);
    assert_eq!(next_phase(AutoBuildPhase::Idle), AutoBuildPhase::Idle);
}

#[test]
fn test_visible_quest_index() {
    let f = empty_factory(0);
    assert_eq!(quest_visible_index_to_quest_index(&f, 0), Some(1));
    assert_eq!(quest_visible_index_to_quest_index(&f, 1), None);
}

#[test]
fn test_xorshift_value() {
    assert_eq!(xorshift(1), 1082269761);
    assert_ne!(xorshift(42), 42);
}

#[test]
fn test_atom_visibility() {
    let f = empty_factory(0);
    assert!(atom_is_visible(&f, 0));
    assert!(!atom_is_visible(&f, 1));
}

#[test]
fn test_startup_picks_free_spot() {
    let mut f = empty_factory(12345);
    f.auto_build_phase = AutoBuildPhase::Startup;
    let a = auto_build_init(&auto_config(), &mut f, settings());
    assert_eq!(a, AutoBuildAction::Nothing);
    assert_eq!(f.auto_build_phase, AutoBuildPhase::Startup);
    assert_eq!(f.auto_build_quest_index, 1);
    assert_eq!(f.auto_build_machine_w, 2);
    assert!(f.auto_build_machine_x >= 1 && f.auto_build_machine_x <= 14);
    assert!(f.auto_build_machine_y >= 1 && f.auto_build_machine_y <= 14);
    assert_eq!(f.auto_build_mouse_target, AutoBuildTarget::Quest(0));
    assert_eq!(f.auto_build_seed, 12345);
}

#[test]
fn test_steps_through_machine_placement() {
    let cfg = auto_config();
    let mut f = empty_factory(100);
    f.auto_build_phase = AutoBuildPhase::PickQuest;
    let a = auto_build_next_step(&cfg, &mut f, settings());
    assert_eq!(f.auto_build_phase, AutoBuildPhase::PickMachine);
    assert_eq!(f.auto_build_mouse_target, AutoBuildTarget::MachineButton);
    assert_eq!(f.auto_build_phase_pause, 20);
    assert_eq!(f.auto_build_phase_at, 100);
    assert_eq!(a, AutoBuildAction::Nothing);
    auto_build_next_step(&cfg, &mut f, settings());
    assert_eq!(f.auto_build_mouse_target, AutoBuildTarget::FloorCell(5, 5));
    let a = auto_build_next_step(&cfg, &mut f, settings());
    assert_eq!(f.auto_build_phase, AutoBuildPhase::PlaceMachine);
    assert_eq!(f.auto_build_phase_pause, 0);
    assert_eq!(a, AutoBuildAction::AddMachine { x: 5, y: 5, w: 2, h: 2 });
    auto_build_next_step(&cfg, &mut f, settings());
    assert_eq!(f.auto_build_mouse_target, AutoBuildTarget::Offer(3));
    auto_build_next_step(&cfg, &mut f, settings());
    let a = auto_build_next_step(&cfg, &mut f, settings());
    assert_eq!(f.auto_build_phase, AutoBuildPhase::ReleaseTargetPart);
    assert_eq!(a, AutoBuildAction::SetMachineTarget { main_coord: 5 + 5 * 17, kind: 3 });
    auto_build_next_step(&cfg, &mut f, settings());
    assert_eq!(f.auto_build_phase, AutoBuildPhase::MoveToInputPart);
    assert_eq!(f.auto_build_mouse_target, AutoBuildTarget::Offer(2));
    auto_build_next_step(&cfg, &mut f, settings());
    assert_eq!(f.auto_build_phase, AutoBuildPhase::MoveToEdge);
    assert_eq!(f.auto_build_mouse_target, AutoBuildTarget::FloorCell(f.auto_build_target_edge_x, f.auto_build_target_edge_y));
    let a = auto_build_next_step(&cfg, &mut f, settings());
    assert_eq!(f.auto_build_phase, AutoBuildPhase::CreateSupplier);
    assert_eq!(a, AutoBuildAction::SetEdgeToPart { x: f.auto_build_target_edge_x, y: f.auto_build_target_edge_y, kind: 2 });
    assert_eq!(f.auto_build_current_path, vec![(f.auto_build_target_edge_x, f.auto_build_target_edge_y)]);
}

#[test]
fn test_track_to_machine_reaches_it() {
    let cfg = auto_config();
    let mut f = empty_factory(0);
    f.auto_build_phase = AutoBuildPhase::TrackToMachine;
    f.auto_build_current_path = vec![(0, 5), (1, 5), (2, 5), (3, 5), (4, 5)];
    auto_build_init(&cfg, &mut f, settings());
    assert_eq!(f.auto_build_current_path.last(), Some(&(5, 5)));
    assert_eq!(f.auto_build_phase, AutoBuildPhase::TrackToMachine);
    auto_build_next_step(&cfg, &mut f, settings());
    assert_eq!(f.auto_build_phase, AutoBuildPhase::TrackToMachineStep);
    assert_eq!(f.floor[4 + 5 * 17].kind, CellKind::Belt);
    auto_build_next_step(&cfg, &mut f, settings());
    // The track reached the machine: all inputs are done, so the track away from it starts.
    assert_eq!(f.auto_build_step_counter, 1);
    assert_eq!(f.auto_build_phase, AutoBuildPhase::TrackFromMachineStart);
    assert_eq!(f.auto_build_phase_pause, 10);
    assert!(f.auto_build_current_path.is_empty());
}

#[test]
fn test_track_from_machine_first_piece() {
    let cfg = auto_config();
    let mut f = empty_factory(0);
    f.auto_build_phase = AutoBuildPhase::TrackFromMachine;
    auto_build_init(&cfg, &mut f, settings());
    assert_eq!(f.auto_build_phase, AutoBuildPhase::TrackFromMachine);
    assert_eq!(f.auto_build_current_path.len(), 2);
    let from = f.auto_build_current_path[0];
    assert!(from.0 >= 5 && from.0 <= 6 && from.1 >= 5 && from.1 <= 6);
}

#[test]
fn test_tick_waits_for_pause() {
    let cfg = auto_config();
    let mut f = empty_factory(10);
    f.auto_build_phase = AutoBuildPhase::PickQuest;
    f.auto_build_phase_at = 5;
    f.auto_build_phase_pause = 5;
    let a = auto_build_tick(&cfg, &mut f, settings());
    assert_eq!(a, AutoBuildAction::Nothing);
    assert_eq!(f.auto_build_phase, AutoBuildPhase::PickQuest);
    f.ticks = 11;
    auto_build_tick(&cfg, &mut f, settings());
    assert_eq!(f.auto_build_phase, AutoBuildPhase::PickMachine);
}

#[test]
fn test_tick_idle_does_nothing() {
    let cfg = auto_config();
    let mut f = empty_factory(1000);
    let a = auto_build_tick(&cfg, &mut f, settings());
    assert_eq!(a, AutoBuildAction::Nothing);
    assert_eq!(f.auto_build_phase, AutoBuildPhase::Idle);
}

#[test]
fn test_startup_gives_up_without_a_spot_joined_to_the_edge() {
    // Every inner cell is a belt but for one 2x2 hole: the hole is free, yet nothing beside
    // it is an empty cell joined to the edge.
    let mut s = String::from("d=17x17\n");
    for y in 0..17 {
        let mut l = [String::new(), String::new(), String::new()];
        for x in 0..17 {
            let inner = x > 0 && y > 0 && x < 16 && y < 16;
            let hole = (x == 5 || x == 6) && (y == 5 || y == 6);
            let e = if inner && !hole { '%' } else { '.' };
            l[0].push_str("x─x");
            l[1].push('│'); l[1].push(e); l[1].push('│');
            l[2].push_str("x─x");
        }
        for line in l.iter() { s.push_str(line); s.push('\n'); }
    }
    let text: Vec<char> = s.chars().collect();
    let (floor, _) = floor_from_str(&auto_config(), &text, &vec![], 1, 1).unwrap();
    let mut f = empty_factory(777);
    f.floor = floor;
    f.auto_build_phase = AutoBuildPhase::Startup;
    let a = auto_build_init(&auto_config(), &mut f, settings());
    assert_eq!(a, AutoBuildAction::Nothing);
    assert_eq!(f.auto_build_phase, AutoBuildPhase::Finishing);
    assert_eq!(f.auto_build_seed, 777);
}
