use factini::cell::{Cell, CellKind};
use factini::deserialize::{ParseError, alnum_to_n, n_to_alnum, text_lines, header_ok};
use factini::machine::MachineKind;
use factini::parse_floor::{floor_from_str, str_to_floor2};
use factini::part::{Config, ConfigNode, Part};
use factini::port::Port;

fn cfg_node(name: &str, icon: char, pattern: Vec<usize>) -> ConfigNode {
    ConfigNode { name: name.chars().collect(), icon, pattern_unique_kinds: pattern }
}

fn parse_config() -> Config {
    Config {
        nodes: vec![
            cfg_node("none", ' ', vec![]),
            cfg_node("trash", 't', vec![]),
            cfg_node("wood", 'w', vec![]),
            cfg_node("plank", 'p', vec![2]),
            cfg_node("board", 'b', vec![2, 3]),
        ],
    }
}

/// The text of a map whose cells are given as 3x3 blocks; `cell(x, y)` gives
/// (up, center, right, down, left) for each cell.
fn map_text(header: &str, cell: &dyn Fn(usize, usize) -> (char, char, char, char, char), tail: &str) -> Vec<char> {
    let mut s = String::new();
    s.push_str(header);
    s.push('\n');
    for y in 0..17 {
        let mut l1 = String::new();
        let mut l2 = String::new();
        let mut l3 = String::new();
        for x in 0..17 {
            let (u, e, r, d, l) = cell(x, y);
            l1.push('x');
            l1.push(u);
            l1.push('x');
            l2.push(l);
            l2.push(e);
            l2.push(r);
            l3.push('x');
            l3.push(d);
            l3.push('x');
        }
        s.push_str(&l1);
        s.push('\n');
        s.push_str(&l2);
        s.push('\n');
        s.push_str(&l3);
        s.push('\n');
    }
    s.push_str(tail);
    s.chars().collect()
}

fn plain(_x: usize, _y: usize) -> (char, char, char, char, char) {
    ('─', '.', '│', '─', '│')
}

fn parse(text: &Vec<char>) -> Result<(Vec<Cell>, Vec<char>), ParseError> {
    str_to_floor2(&parse_config(), text, &vec!['w'], 7, 9)
}

#[test]
fn test_blank_text_gives_empty_floor() {
    let text: Vec<char> = " \n\t \n".chars().collect();
    let (floor, unlocks) = floor_from_str(&parse_config(), &text, &vec!['w'], 1, 1).unwrap();
    assert_eq!(floor.len(), 289);
    assert!(floor.iter().all(|c| c.kind == CellKind::Empty));
    assert_eq!(floor[20].x, 3);
    assert_eq!(floor[20].y, 1);
    assert!(unlocks.is_empty());
}

#[test]
fn test_empty_grid_parses() {
    let text = map_text("d=17x17", &plain, "");
    let (floor, unlocks) = parse(&text).unwrap();
    assert_eq!(floor.len(), 289);
    assert!(floor.iter().all(|c| c.kind == CellKind::Empty));
    assert_eq!(unlocks, vec!['w']);
}

#[test]
fn test_comment_lines_are_skipped() {
    let mut text: Vec<char> = "# first\n   \n  # second\n".chars().collect();
    text.extend(map_text("  d=17x17", &plain, "# done\n"));
    assert!(parse(&text).is_ok());
}

#[test]
fn test_supplier_demander_and_params() {
    let cell = |x: usize, y: usize| -> (char, char, char, char, char) {
        if x == 0 && y == 5 { ('─', 's', '│', '─', '│') }
        else if x == 16 && y == 8 { ('─', 'd', '│', '─', '│') }
        else if x == 0 && y == 9 { ('─', 's', '│', '─', '│') }
        else { plain(x, y) }
    };
    let text = map_text("d=17x17", &cell, "s2 = w s:10 c:5\nd1 c:3\n$ p b w\n");
    let (floor, unlocks) = parse(&text).unwrap();
    let s1 = &floor[5 * 17];
    let s2 = &floor[9 * 17];
    let d1 = &floor[8 * 17 + 16];
    assert_eq!(s1.kind, CellKind::Supply);
    assert_eq!(s1.supply.speed, 1);
    assert_eq!(s1.supply.gives, Part { kind: 1, icon: 't' });
    assert_eq!(s2.kind, CellKind::Supply);
    assert_eq!(s2.supply.speed, 10);
    assert_eq!(s2.supply.cooldown, 5);
    assert_eq!(s2.supply.gives, Part { kind: 2, icon: 'w' });
    assert_eq!(d1.kind, CellKind::Demand);
    assert_eq!(d1.demand.speed, 1);
    assert_eq!(d1.demand.cooldown, 3);
    assert_eq!(unlocks, vec!['w', 'p', 'b']);
}

#[test]
fn test_default_demand_parameters() {
    let cell = |x: usize, y: usize| -> (char, char, char, char, char) {
        if x == 16 && y == 8 { ('─', 'd', '│', '─', '│') } else { plain(x, y) }
    };
    let text = map_text("d=17x17", &cell, "");
    let (floor, _) = parse(&text).unwrap();
    assert_eq!(floor[8 * 17 + 16].demand.speed, 7);
    assert_eq!(floor[8 * 17 + 16].demand.cooldown, 9);
}

#[test]
fn test_belt_ports_are_read() {
    let cell = |x: usize, y: usize| -> (char, char, char, char, char) {
        if x == 4 && y == 4 { ('v', '╚', '>', ' ', ' ') } else { plain(x, y) }
    };
    let text = map_text("d=17x17", &cell, "");
    let (floor, _) = parse(&text).unwrap();
    let c = &floor[4 * 17 + 4];
    assert_eq!(c.kind, CellKind::Belt);
    assert_eq!(c.port_u, Port::Inbound);
    assert_eq!(c.port_r, Port::Outbound);
    assert_eq!(c.port_d, Port::Absent);
    assert_eq!(c.port_l, Port::Absent);
}

#[test]
fn test_machine_is_laid_as_rectangle() {
    let cell = |x: usize, y: usize| -> (char, char, char, char, char) {
        if (x == 3 || x == 4) && (y == 3 || y == 4) { ('─', '1', '│', '─', '│') } else { plain(x, y) }
    };
    let text = map_text("d=17x17", &cell, "m1 = wood plank -> board s:5\n");
    let (floor, _) = parse(&text).unwrap();
    let main = &floor[3 * 17 + 3];
    assert_eq!(main.kind, CellKind::Machine);
    assert_eq!(main.machine.kind, MachineKind::Main);
    assert_eq!(main.machine.id, '1');
    assert_eq!(main.machine.cell_width, 2);
    assert_eq!(main.machine.cell_height, 2);
    assert_eq!(main.machine.coords, vec![54, 71, 55, 72]);
    assert_eq!(main.machine.speed, 5);
    assert_eq!(main.machine.wants, vec![
        Part { kind: 2, icon: 'w' }, Part { kind: 3, icon: 'p' }, Part { kind: 0, icon: ' ' }, Part { kind: 0, icon: ' ' }]);
    assert_eq!(main.machine.haves.len(), 4);
    let sub = &floor[4 * 17 + 4];
    assert_eq!(sub.machine.kind, MachineKind::SubBuilding);
    assert_eq!(sub.machine.main_coord, 54);
}

#[test]
fn test_machine_without_line_has_defaults() {
    let cell = |x: usize, y: usize| -> (char, char, char, char, char) {
        if x == 6 && y == 6 { ('─', 'a', '│', '─', '│') } else { plain(x, y) }
    };
    let text = map_text("d=17x17", &cell, "");
    let (floor, _) = parse(&text).unwrap();
    let m = &floor[6 * 17 + 6];
    assert_eq!(m.machine.speed, 1);
    assert_eq!(m.machine.wants, vec![Part { kind: 0, icon: ' ' }]);
}

#[test]
fn test_error_missing_lines() {
    let text: Vec<char> = "d=17x17\n".chars().collect();
    assert_eq!(parse(&text).err(), Some(ParseError::MissingLines));
}

#[test]
fn test_error_bad_header() {
    let text = map_text("d=5x5", &plain, "");
    assert_eq!(parse(&text).err(), Some(ParseError::BadHeader));
}

#[test]
fn test_error_bad_center() {
    let cell = |x: usize, y: usize| -> (char, char, char, char, char) {
        if x == 2 && y == 2 { ('─', '@', '│', '─', '│') } else { plain(x, y) }
    };
    assert_eq!(parse(&map_text("d=17x17", &cell, "")).err(), Some(ParseError::BadCenter));
}

#[test]
fn test_error_bad_port() {
    let cell = |x: usize, y: usize| -> (char, char, char, char, char) {
        if x == 2 && y == 2 { ('Z', '═', '│', '─', '│') } else { plain(x, y) }
    };
    assert_eq!(parse(&map_text("d=17x17", &cell, "")).err(), Some(ParseError::BadPort));
}

#[test]
fn test_error_bad_augment() {
    assert_eq!(parse(&map_text("d=17x17", &plain, "q nothing\n")).err(), Some(ParseError::BadAugment));
}

#[test]
fn test_error_unknown_machine() {
    assert_eq!(parse(&map_text("d=17x17", &plain, "m9 = wood\n")).err(), Some(ParseError::UnknownMachine));
}

#[test]
fn test_error_unknown_part() {
    let cell = |x: usize, y: usize| -> (char, char, char, char, char) {
        if x == 0 && y == 5 { ('─', 's', '│', '─', '│') } else { plain(x, y) }
    };
    assert_eq!(parse(&map_text("d=17x17", &cell, "s1 = Q\n")).err(), Some(ParseError::UnknownPart));
}

#[test]
fn test_error_bad_machine_shape() {
    let cell = |x: usize, y: usize| -> (char, char, char, char, char) {
        if (x == 5 && y == 5) || (x == 4 && y == 6) { ('─', '2', '│', '─', '│') } else { plain(x, y) }
    };
    assert_eq!(parse(&map_text("d=17x17", &cell, "")).err(), Some(ParseError::BadMachineShape));
}

#[test]
fn test_error_number_too_large() {
    let cell = |x: usize, y: usize| -> (char, char, char, char, char) {
        if x == 0 && y == 5 { ('─', 's', '│', '─', '│') } else { plain(x, y) }
    };
    let text = map_text("d=17x17", &cell, "s1 = w s:99999999999999999999999\n");
    assert_eq!(parse(&text).err(), Some(ParseError::NumberTooLarge));
}

#[test]
fn test_alnum_roundtrip_values() {
    assert_eq!(alnum_to_n('0'), 0);
    assert_eq!(alnum_to_n('9'), 9);
    assert_eq!(alnum_to_n('a'), 10);
    assert_eq!(alnum_to_n('z'), 35);
    assert_eq!(alnum_to_n('A'), 36);
    assert_eq!(n_to_alnum(11), 'b');
    assert_eq!(n_to_alnum(37), 'B');
    for n in 0..62u8 {
        assert_eq!(alnum_to_n(n_to_alnum(n)), n);
    }
}

#[test]
fn test_text_lines_strip_carriage_returns() {
    let text: Vec<char> = "ab\r\ncd\n".chars().collect();
    let lines = text_lines(&text);
    assert_eq!(lines, vec![vec!['a', 'b'], vec!['c', 'd']]);
}

#[test]
fn test_header_modifier() {
    assert!(header_ok(&"d=17x17".chars().collect()));
    assert!(header_ok(&"# nothing".chars().collect()));
    assert!(!header_ok(&"d=17x16".chars().collect()));
    assert!(!header_ok(&"d17x17".chars().collect()));
}

#[test]
fn test_b_center_is_a_belt() {
    let cell = |x: usize, y: usize| -> (char, char, char, char, char) {
        if x == 4 && y == 4 { ('v', 'b', '>', ' ', ' ') } else { plain(x, y) }
    };
    let text = map_text("d=17x17", &cell, "");
    let (floor, _) = parse(&text).unwrap();
    let c = &floor[4 * 17 + 4];
    assert_eq!(c.kind, CellKind::Belt);
    assert_eq!(c.port_u, Port::Inbound);
    assert_eq!(c.port_r, Port::Outbound);
    assert_eq!(c.port_d, Port::Absent);
    assert_eq!(c.port_l, Port::Absent);
}

#[test]
fn test_b_center_on_the_edge_is_refused() {
    let cell = |x: usize, y: usize| -> (char, char, char, char, char) {
        if x == 0 && y == 4 { ('─', 'b', '│', '─', '│') } else { plain(x, y) }
    };
    assert_eq!(parse(&map_text("d=17x17", &cell, "")).err(), Some(ParseError::BadCenter));
}

#[test]
fn test_b_names_no_machine() {
    assert_eq!(parse(&map_text("d=17x17", &plain, "mb = wood\n")).err(), Some(ParseError::UnknownMachine));
}

#[test]
fn test_supplier_and_demander_parts_from_grid() {
    let cell = |x: usize, y: usize| -> (char, char, char, char, char) {
        if x == 0 && y == 5 { ('─', 's', '>', 'w', '│') }
        else if x == 7 && y == 0 { ('─', 's', 'p', 'v', ' ') }
        else if x == 7 && y == 16 { ('^', 'd', 'b', '─', ' ') }
        else if x == 16 && y == 9 { ('─', 'd', '│', 'p', '<') }
        else if x == 16 && y == 3 { ('─', 's', '│', '─', '<') }
        else { plain(x, y) }
    };
    let text = map_text("d=17x17", &cell, "");
    let (floor, _) = parse(&text).unwrap();
    assert_eq!(floor[5 * 17].kind, CellKind::Supply);
    assert_eq!(floor[5 * 17].supply.gives, Part { kind: 2, icon: 'w' });
    assert_eq!(floor[7].supply.gives, Part { kind: 3, icon: 'p' });
    assert_eq!(floor[16 * 17 + 7].kind, CellKind::Demand);
    assert_eq!(floor[16 * 17 + 7].demand.part, Part { kind: 4, icon: 'b' });
    assert_eq!(floor[9 * 17 + 16].demand.part, Part { kind: 3, icon: 'p' });
    // Nothing names a part: the placeholder trash.
    assert_eq!(floor[3 * 17 + 16].supply.gives, Part { kind: 1, icon: 't' });
}

#[test]
fn test_supply_line_overrides_grid_part() {
    let cell = |x: usize, y: usize| -> (char, char, char, char, char) {
        if x == 0 && y == 5 { ('─', 's', '>', 'w', '│') } else { plain(x, y) }
    };
    let text = map_text("d=17x17", &cell, "s1 = p s:4 c:2\n");
    let (floor, _) = parse(&text).unwrap();
    assert_eq!(floor[5 * 17].supply.gives, Part { kind: 3, icon: 'p' });
    assert_eq!(floor[5 * 17].supply.speed, 4);
}

#[test]
fn test_inserted_comment_lines_change_nothing() {
    let cell = |x: usize, y: usize| -> (char, char, char, char, char) {
        if x == 4 && y == 4 { ('v', '╚', '>', ' ', ' ') }
        else if x == 0 && y == 5 { ('─', 's', '>', 'w', '│') }
        else if (x == 8 || x == 9) && y == 8 { ('─', '3', '│', '─', '│') }
        else { plain(x, y) }
    };
    let text = map_text("d=17x17", &cell, "s1 = w s:3 c:2\nm3 = wood -> plank s:2\n");
    let plain_text: String = text.iter().collect();
    let lines: Vec<&str> = plain_text.lines().collect();
    let (base, base_unlocks) = parse(&text).unwrap();
    for k in [0usize, 1, 2, 3, 4, 30, 52, 53, 54] {
        for extra in ["", "   ", "# note", "   # indented note"] {
            let mut with: Vec<&str> = lines.clone();
            with.insert(k, extra);
            let changed: Vec<char> = (with.join("\n") + "\n").chars().collect();
            let (floor, unlocks) = parse(&changed).unwrap();
            assert_eq!(unlocks, base_unlocks);
            for c in 0..289 {
                assert_eq!(floor[c].kind, base[c].kind);
                assert_eq!(floor[c].port_u, base[c].port_u);
                assert_eq!(floor[c].port_r, base[c].port_r);
                assert_eq!(floor[c].port_d, base[c].port_d);
                assert_eq!(floor[c].port_l, base[c].port_l);
                assert_eq!(floor[c].supply.gives, base[c].supply.gives);
                assert_eq!(floor[c].supply.speed, base[c].supply.speed);
                assert_eq!(floor[c].machine.speed, base[c].machine.speed);
                assert_eq!(floor[c].machine.wants, base[c].machine.wants);
            }
        }
    }
}
