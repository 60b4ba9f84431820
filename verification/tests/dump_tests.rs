use factini::auto::{AutoBuildPhase, AutoBuildTarget};
use factini::cell::{CellKind, empty_cell, supply_cell};
use factini::direction::{Direction, direction_reverse};
use factini::edit::cell_ports_to_str;
use factini::factory::{Factory, Offer};
use factini::floor::{to_coord, to_xy};
use factini::dump::{serialize2, serialize_offer, generate_floor_dump};
use factini::parse_floor::{floor_from_str, str_to_floor2};
use factini::part::{Config, ConfigNode, Part};
use factini::serialize::{serialize, serialize_cb, u64_to_decimal, generate_floor_with_views, generate_floor_without_views};
use factini::track::get_cells_from_a_to_b;

fn dump_node(name: &str, icon: char) -> ConfigNode {
    ConfigNode { name: name.chars().collect(), icon, pattern_unique_kinds: vec![] }
}

fn dump_config() -> Config {
    Config { nodes: vec![dump_node("none", ' '), dump_node("trash", 't'), dump_node("wood", 'w')] }
}

fn factory_of(text: &str) -> Factory {
    let chars: Vec<char> = text.chars().collect();
    let (floor, _) = floor_from_str(&dump_config(), &chars, &vec![], 1, 1).unwrap();
    Factory {
        floor,
        ticks: 0,
        changed: false,
        quests: vec![],
        offers: vec![],
        available_atoms: vec![],
        auto_build_phase: AutoBuildPhase::Idle,
        auto_build_phase_at: 0,
        auto_build_phase_pause: 0,
        auto_build_phase_duration: 0,
        auto_build_mouse_offset: AutoBuildTarget::Stay,
        auto_build_mouse_target: AutoBuildTarget::Stay,
        auto_build_seed: 0,
        auto_build_quest_visible_index: 0,
        auto_build_quest_index: 0,
        auto_build_machine_x: 1,
        auto_build_machine_y: 1,
        auto_build_machine_w: 1,
        auto_build_machine_h: 1,
        auto_build_step_counter: 0,
        auto_build_current_path: vec![],
        auto_build_target_edge_x: 0,
        auto_build_target_edge_y: 0,
    }
}

fn grid_with(special: &dyn Fn(usize, usize) -> Option<[char; 5]>) -> String {
    let mut s = String::from("d=17x17\n");
    for y in 0..17 {
        let mut l = [String::new(), String::new(), String::new()];
        for x in 0..17 {
            let [u, e, r, d, lp] = special(x, y).unwrap_or(['─', '.', '│', '─', '│']);
            l[0].push('x'); l[0].push(u); l[0].push('x');
            l[1].push(lp); l[1].push(e); l[1].push(r);
            l[2].push('x'); l[2].push(d); l[2].push('x');
        }
        for line in l.iter() {
            s.push_str(line);
            s.push('\n');
        }
    }
    s
}

#[test]
fn test_dump_reads_back() {
    let text = grid_with(&|x, y| {
        if x == 4 && y == 4 { Some(['v', '╚', '>', ' ', ' ']) }
        else if x == 5 && y == 4 { Some([' ', '═', '>', ' ', '>']) }
        else if (x == 8 || x == 9) && y == 8 { Some(['─', '3', '│', '─', '│']) }
        else { None }
    });
    let f = factory_of(&text);
    // The dump is written as the body of a multi-line string literal: each line ends in an
    // escaped line break and a line continuation.
    // Only the header and the grid are read back; the parameter lines below it are in an
    // older form.
    let unescaped = serialize2(&f, true).replace("\\n\\\n", "\n");
    let grid: Vec<&str> = unescaped.lines().take(1 + 17 * 3).collect();
    let dumped: Vec<char> = grid.join("\n").chars().collect();
    let (again, _) = str_to_floor2(&dump_config(), &dumped, &vec![], 1, 1).unwrap();
    for c in 0..289 {
        assert_eq!(again[c].kind, f.floor[c].kind);
        assert_eq!(again[c].port_u, f.floor[c].port_u);
        assert_eq!(again[c].port_r, f.floor[c].port_r);
        assert_eq!(again[c].port_d, f.floor[c].port_d);
        assert_eq!(again[c].port_l, f.floor[c].port_l);
    }
    assert_eq!(again[8 * 17 + 9].machine.main_coord, 8 * 17 + 8);
}

#[test]
fn test_dump_lines_match_serialize2() {
    let f = factory_of("");
    let whole = serialize2(&f, true);
    let lines = generate_floor_dump(&f);
    assert_eq!(lines.join("\n"), whole);
    assert_eq!(lines[0], "d=17x17\\n\\");
}

#[test]
fn test_serialize_frame_size() {
    let f = factory_of("");
    let s = serialize(&f, false);
    assert_eq!(s.lines().count(), 21);
    assert!(s.contains('┌'));
}

#[test]
fn test_views_have_header_and_ruler() {
    let f = factory_of("");
    let with = generate_floor_with_views(&f);
    let without = generate_floor_without_views(&f);
    assert_eq!(with.len(), 23);
    assert_eq!(without.len(), 23);
    assert_eq!(without[0], without[22]);
    assert!(with[0].contains('"'));
}

#[test]
fn test_offer_line() {
    let offer = Offer {
        kind: CellKind::Supply,
        machine_input1: ' ',
        machine_input2: ' ',
        machine_input3: ' ',
        machine_output: ' ',
        speed: 10,
        cell_width: 1,
        cell_height: 1,
        supply_icon: 'w',
        cooldown: 5,
        demand_icon: ' ',
    };
    let line: String = serialize_offer(&offer).iter().collect();
    assert!(line.starts_with("os"));
    assert!(line.contains('w'));
}

#[test]
fn test_decimal() {
    assert_eq!(u64_to_decimal(0), vec!['0']);
    assert_eq!(u64_to_decimal(907), vec!['9', '0', '7']);
    assert_eq!(u64_to_decimal(u64::MAX).len(), 20);
}

#[test]
fn test_ports_text() {
    let c = empty_cell(3, 3);
    assert_eq!(cell_ports_to_str(&c), "up:  right:  down:  left: ");
}

#[test]
fn test_coords_roundtrip() {
    assert_eq!(to_coord(3, 2), 37);
    assert_eq!(to_xy(37), (3, 2));
    for c in 0..289 {
        let (x, y) = to_xy(c);
        assert_eq!(to_coord(x, y), c);
    }
}

#[test]
fn test_direction_reverse_twice() {
    for d in [Direction::Up, Direction::Right, Direction::Down, Direction::Left] {
        assert_eq!(direction_reverse(direction_reverse(d)), d);
    }
    assert_eq!(direction_reverse(Direction::Up), Direction::Down);
}

#[test]
fn test_line_cells() {
    let cells = get_cells_from_a_to_b(0, 0, 2, 1);
    assert_eq!(cells.len(), 4);
    assert_eq!(cells[0], (0, 0));
    assert_eq!(cells[3], (2, 1));
    assert_eq!(get_cells_from_a_to_b(5, 5, 5, 5), vec![(5, 5)]);
}

#[test]
fn test_supply_cell_faces_inward() {
    let c = supply_cell(0, 5, Part { kind: 2, icon: 'w' }, 3, 4, 0);
    assert_eq!(c.kind, CellKind::Supply);
    assert_eq!(c.supply.speed, 3);
    assert_eq!(c.supply.cooldown, 4);
}

#[test]
fn test_supplier_line_writes_supplier_speed() {
    let text = grid_with(&|x, y| {
        if x == 0 && y == 5 { Some(['─', 's', '>', 'w', '│']) } else { None }
    }) + "s1 = w s:7 c:4\n";
    let f = factory_of(&text);
    assert_eq!(f.floor[5 * 17].supply.speed, 7);
    let dump = serialize2(&f, true);
    assert!(dump.contains("s1 = w s:7 c:4\\n\\\n"));
}

#[test]
fn test_dump_keeps_supplier_part() {
    let text = grid_with(&|x, y| {
        if x == 0 && y == 5 { Some(['─', 's', '>', 'w', '│']) } else { None }
    });
    let f = factory_of(&text);
    assert_eq!(f.floor[5 * 17].supply.gives, Part { kind: 2, icon: 'w' });
    let unescaped = serialize2(&f, true).replace("\\n\\\n", "\n");
    let grid: Vec<&str> = unescaped.lines().take(1 + 17 * 3).collect();
    let dumped: Vec<char> = grid.join("\n").chars().collect();
    let (again, _) = str_to_floor2(&dump_config(), &dumped, &vec![], 1, 1).unwrap();
    assert_eq!(again[5 * 17].kind, CellKind::Supply);
    assert_eq!(again[5 * 17].supply.gives, Part { kind: 2, icon: 'w' });
}

#[test]
fn test_serialize_cb_uses_callback_per_cell() {
    let f = factory_of("");
    let plain = serialize(&f, false);
    let marked = serialize_cb(&f, |c: &factini::cell::Cell| { let _ = c; 'q' });
    assert_eq!(marked.chars().filter(|&c| c == 'q').count(), 289);
    assert_eq!(marked.lines().count(), plain.lines().count());
    let same = serialize_cb(&f, |c: &factini::cell::Cell| if c.kind == CellKind::Empty { ' ' } else { '#' });
    assert_eq!(same, plain);
}
