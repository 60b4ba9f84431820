use factini::belt_meta::{belt_type_from_ports, belt_type_to_belt_meta};
use factini::cell::back_of_the_line;
use factini::deserialize::{port_of, cell_desc, CellDesc, ParseError};
use factini::direction::Direction;
use factini::port::Port;

#[test]
fn test_port_arrows_read_back() {
    assert_eq!(port_of('^', Direction::Up), Some(Port::Outbound));
    assert_eq!(port_of('v', Direction::Up), Some(Port::Inbound));
    assert_eq!(port_of('v', Direction::Down), Some(Port::Outbound));
    assert_eq!(port_of('<', Direction::Left), Some(Port::Outbound));
    assert_eq!(port_of('<', Direction::Right), Some(Port::Inbound));
    assert_eq!(port_of('?', Direction::Right), Some(Port::Unknown));
    assert_eq!(port_of('─', Direction::Up), Some(Port::Absent));
    assert_eq!(port_of('x', Direction::Up), None);
}

#[test]
fn test_belt_meta_carries_ports() {
    let ports = [Port::Absent, Port::Inbound, Port::Outbound, Port::Unknown];
    for &u in ports.iter() {
        for &r in ports.iter() {
            let t = belt_type_from_ports(u, r, Port::Outbound, Port::Absent);
            let meta = belt_type_to_belt_meta(t);
            assert_eq!(meta.port_u, u);
            assert_eq!(meta.port_r, r);
            assert_eq!(meta.port_d, Port::Outbound);
            assert_eq!(meta.port_l, Port::Absent);
            assert_eq!(meta.btype, t);
        }
    }
}

#[test]
fn test_back_of_the_line_rotates() {
    let mut links = vec![
        (Direction::Up, 1, 2, Direction::Down),
        (Direction::Left, 3, 4, Direction::Right),
        (Direction::Down, 5, 6, Direction::Up),
    ];
    back_of_the_line(&mut links, 0);
    assert_eq!(links, vec![
        (Direction::Left, 3, 4, Direction::Right),
        (Direction::Down, 5, 6, Direction::Up),
        (Direction::Up, 1, 2, Direction::Down),
    ]);
    back_of_the_line(&mut links, 7);
    assert_eq!(links.len(), 3);
    assert_eq!(links[0], (Direction::Left, 3, 4, Direction::Right));
}

#[test]
fn test_cell_descriptions() {
    assert_eq!(cell_desc('.', ' ', ' ', ' ', ' ', 3, 3), Ok(CellDesc::Empty));
    assert_eq!(cell_desc('%', ' ', ' ', ' ', ' ', 3, 3), Ok(CellDesc::BeltUnknown));
    assert_eq!(cell_desc('s', ' ', ' ', ' ', ' ', 0, 3), Ok(CellDesc::Supply(' ')));
    assert_eq!(cell_desc('s', ' ', 'w', 'v', ' ', 5, 0), Ok(CellDesc::Supply('w')));
    assert_eq!(cell_desc('s', '─', '>', 'w', '│', 0, 5), Ok(CellDesc::Supply('w')));
    assert_eq!(cell_desc('d', '^', 'g', '─', ' ', 5, 16), Ok(CellDesc::Demand('g')));
    assert_eq!(cell_desc('b', 'v', ' ', 'v', ' ', 3, 3), Ok(CellDesc::Belt(Port::Inbound, Port::Absent, Port::Outbound, Port::Absent)));
    assert_eq!(cell_desc('b', 'v', ' ', 'v', ' ', 0, 3), Err(ParseError::BadCenter));
    assert_eq!(cell_desc('c', ' ', ' ', ' ', ' ', 3, 3), Ok(CellDesc::Machine('c', Port::Absent, Port::Absent, Port::Absent, Port::Absent)));
    assert_eq!(cell_desc('s', '^', ' ', ' ', ' ', 3, 3), Ok(CellDesc::Machine('s', Port::Outbound, Port::Absent, Port::Absent, Port::Absent)));
    assert_eq!(cell_desc('d', ' ', ' ', ' ', ' ', 16, 3), Ok(CellDesc::Demand(' ')));
    assert_eq!(cell_desc('║', 'v', ' ', 'v', ' ', 3, 3), Ok(CellDesc::Belt(Port::Inbound, Port::Absent, Port::Outbound, Port::Absent)));
}
