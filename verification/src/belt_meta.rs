use vstd::prelude::*;
use crate::port::Port;

verus! {

/// The shape of a belt: which of its four sides carry which kind of port.
#[allow(non_camel_case_types)]
#[derive(Clone, Copy, Debug, PartialEq, Eq, Structural)]
pub enum BeltType {
    /// No port at all.
    NONE,
    /// A belt whose ports are still to be discovered.
    UNKNOWN,
    /// A belt that cannot be built (such as a track of one cell).
    INVALID,
    /// A belt with at least one port: up, right, down, left.
    Ports(Port, Port, Port, Port),
}

/// Static description of a belt shape.
#[derive(Clone, Copy, Debug, PartialEq, Eq, Structural)]
pub struct BeltMeta {
    pub btype: BeltType,
    pub port_u: Port,
    pub port_r: Port,
    pub port_d: Port,
    pub port_l: Port,
    /// Box drawing character used by the text renderings of the floor.
    pub cli_icon: char,
}

pub open spec fn spec_belt_type_from_ports(u: Port, r: Port, d: Port, l: Port) -> BeltType {
    if u == Port::Absent && r == Port::Absent && d == Port::Absent && l == Port::Absent {
        BeltType::NONE
    } else {
        BeltType::Ports(u, r, d, l)
    }
}

/// The belt type with the given ports.
pub fn belt_type_from_ports(u: Port, r: Port, d: Port, l: Port) -> (t: BeltType)
    ensures
        t == spec_belt_type_from_ports(u, r, d, l),
{
    if u == Port::Absent && r == Port::Absent && d == Port::Absent && l == Port::Absent {
        BeltType::NONE
    } else {
        BeltType::Ports(u, r, d, l)
    }
}

/// The box drawing character for a belt that connects the sides with a port.
pub open spec fn spec_belt_icon(u: Port, r: Port, d: Port, l: Port) -> char {
    let (hu, hr, hd, hl) = (u != Port::Absent, r != Port::Absent, d != Port::Absent, l != Port::Absent);
    if !hu && !hr && !hd && !hl { ' ' }
    else if hu && !hr && !hd && !hl { '╵' }
    else if !hu && hr && !hd && !hl { '╶' }
    else if !hu && !hr && hd && !hl { '╷' }
    else if !hu && !hr && !hd && hl { '╴' }
    else if !hu && hr && !hd && hl { '═' }
    else if hu && !hr && hd && !hl { '║' }
    else if hu && hr && !hd && !hl { '╚' }
    else if !hu && hr && hd && !hl { '╔' }
    else if !hu && !hr && hd && hl { '╗' }
    else if hu && !hr && !hd && hl { '╝' }
    else if !hu && hr && hd && hl { '╦' }
    else if hu && !hr && hd && hl { '╣' }
    else if hu && hr && hd && !hl { '╠' }
    else if hu && hr && !hd && hl { '╩' }
    else { '╬' }
}

/// See `spec_belt_icon`.
pub fn belt_icon(u: Port, r: Port, d: Port, l: Port) -> (c: char)
    ensures
        c == spec_belt_icon(u, r, d, l),
        !(u == Port::Absent && r == Port::Absent && d == Port::Absent && l == Port::Absent)
            ==> spec_glyph_arms(c) == (u != Port::Absent, r != Port::Absent, d != Port::Absent, l != Port::Absent),
{
    let hu = u != Port::Absent;
    let hr = r != Port::Absent;
    let hd = d != Port::Absent;
    let hl = l != Port::Absent;
    if !hu && !hr && !hd && !hl { ' ' }
    else if hu && !hr && !hd && !hl { '╵' }
    else if !hu && hr && !hd && !hl { '╶' }
    else if !hu && !hr && hd && !hl { '╷' }
    else if !hu && !hr && !hd && hl { '╴' }
    else if !hu && hr && !hd && hl { '═' }
    else if hu && !hr && hd && !hl { '║' }
    else if hu && hr && !hd && !hl { '╚' }
    else if !hu && hr && hd && !hl { '╔' }
    else if !hu && !hr && hd && hl { '╗' }
    else if hu && !hr && !hd && hl { '╝' }
    else if !hu && hr && hd && hl { '╦' }
    else if hu && !hr && hd && hl { '╣' }
    else if hu && hr && hd && !hl { '╠' }
    else if hu && hr && !hd && hl { '╩' }
    else { '╬' }
}

pub open spec fn spec_prebelt_meta(u: Port, r: Port, d: Port, l: Port, cli_icon: char, belt_type: BeltType) -> BeltMeta {
    BeltMeta { btype: belt_type, port_u: u, port_r: r, port_d: d, port_l: l, cli_icon }
}

/// A belt description with the given ports, icon and type.
pub fn prebelt_meta(u: Port, r: Port, d: Port, l: Port, cli_icon: char, belt_type: BeltType) -> (m: BeltMeta)
    ensures
        m == spec_prebelt_meta(u, r, d, l, cli_icon, belt_type),
{
    BeltMeta { btype: belt_type, port_u: u, port_r: r, port_d: d, port_l: l, cli_icon }
}

/// A belt description with the given ports and icon, typed by its ports.
pub fn prebelt(u: Port, r: Port, d: Port, l: Port, cli_icon: char) -> (m: BeltMeta)
    ensures
        m == spec_prebelt_meta(u, r, d, l, cli_icon, spec_belt_type_from_ports(u, r, d, l)),
{
    let bt = belt_type_from_ports(u, r, d, l);
    prebelt_meta(u, r, d, l, cli_icon, bt)
}

pub open spec fn spec_belt_type_to_belt_meta(belt_type: BeltType) -> BeltMeta {
    match belt_type {
        BeltType::NONE => spec_prebelt_meta(Port::Absent, Port::Absent, Port::Absent, Port::Absent, ' ', BeltType::NONE),
        BeltType::UNKNOWN => spec_prebelt_meta(Port::Unknown, Port::Unknown, Port::Unknown, Port::Unknown, '?', BeltType::UNKNOWN),
        BeltType::INVALID => spec_prebelt_meta(Port::Unknown, Port::Unknown, Port::Unknown, Port::Unknown, '!', BeltType::INVALID),
        BeltType::Ports(u, r, d, l) => spec_prebelt_meta(u, r, d, l, spec_belt_icon(u, r, d, l), spec_belt_type_from_ports(u, r, d, l)),
    }
}

/// The description of a belt of the given type.
pub fn belt_type_to_belt_meta(belt_type: BeltType) -> (m: BeltMeta)
    ensures
        m == spec_belt_type_to_belt_meta(belt_type),
{
    match belt_type {
        BeltType::NONE => prebelt_meta(Port::Absent, Port::Absent, Port::Absent, Port::Absent, ' ', BeltType::NONE),
        BeltType::UNKNOWN => prebelt_meta(Port::Unknown, Port::Unknown, Port::Unknown, Port::Unknown, '?', BeltType::UNKNOWN),
        BeltType::INVALID => prebelt_meta(Port::Unknown, Port::Unknown, Port::Unknown, Port::Unknown, '!', BeltType::INVALID),
        BeltType::Ports(u, r, d, l) => prebelt(u, r, d, l, belt_icon(u, r, d, l)),
    }
}

/// The belt description built from a set of ports carries exactly those ports and is typed by
/// them.
pub proof fn lemma_belt_meta_from_ports(u: Port, r: Port, d: Port, l: Port)
    ensures
        spec_belt_type_to_belt_meta(spec_belt_type_from_ports(u, r, d, l)).port_u == u,
        spec_belt_type_to_belt_meta(spec_belt_type_from_ports(u, r, d, l)).port_r == r,
        spec_belt_type_to_belt_meta(spec_belt_type_from_ports(u, r, d, l)).port_d == d,
        spec_belt_type_to_belt_meta(spec_belt_type_from_ports(u, r, d, l)).port_l == l,
        spec_belt_type_to_belt_meta(spec_belt_type_from_ports(u, r, d, l)).btype
            == spec_belt_type_from_ports(u, r, d, l),
        spec_belt_type_to_belt_meta(spec_belt_type_from_ports(u, r, d, l)).cli_icon
            == spec_belt_icon(u, r, d, l),
{
}

/// The sides a box drawing character reaches out to: up, right, down, left. The one-armed
/// characters (thin or thick) reach one side; any other character reaches none.
pub open spec fn spec_glyph_arms(c: char) -> (bool, bool, bool, bool) {
    if c == '╵' || c == '╹' { (true, false, false, false) }
    else if c == '╶' || c == '╺' { (false, true, false, false) }
    else if c == '╷' || c == '╻' { (false, false, true, false) }
    else if c == '╴' || c == '╸' { (false, false, false, true) }
    else if c == '═' { (false, true, false, true) }
    else if c == '║' { (true, false, true, false) }
    else if c == '╚' { (true, true, false, false) }
    else if c == '╔' { (false, true, true, false) }
    else if c == '╗' { (false, false, true, true) }
    else if c == '╝' { (true, false, false, true) }
    else if c == '╦' { (false, true, true, true) }
    else if c == '╣' { (true, false, true, true) }
    else if c == '╠' { (true, true, true, false) }
    else if c == '╩' { (true, true, false, true) }
    else if c == '╬' { (true, true, true, true) }
    else { (false, false, false, false) }
}

/// The icon of a belt reaches out exactly to the sides that have a port: a belt with ports
/// right and down is drawn as the corner joining right and down, and so on. The belt
/// description of a belt with ports carries that icon.
pub proof fn lemma_belt_icon_arms(u: Port, r: Port, d: Port, l: Port)
    requires
        !(u == Port::Absent && r == Port::Absent && d == Port::Absent && l == Port::Absent),
    ensures
        spec_glyph_arms(spec_belt_icon(u, r, d, l)) == (u != Port::Absent, r != Port::Absent, d != Port::Absent, l != Port::Absent),
        spec_glyph_arms(spec_belt_type_to_belt_meta(BeltType::Ports(u, r, d, l)).cli_icon)
            == (u != Port::Absent, r != Port::Absent, d != Port::Absent, l != Port::Absent),
{
}

} // verus!
