use vstd::prelude::*;

verus! {

/// The state of one side of a cell.
#[derive(Clone, Copy, Debug, PartialEq, Eq, Structural)]
pub enum Port {
    Absent,
    Inbound,
    Outbound,
    Unknown,
}

/// The character used to show a port in debug output.
pub fn port_to_char(port: Port) -> (c: char)
    ensures
        c == spec_port_to_char(port),
{
    match port {
        Port::Absent => ' ',
        Port::Inbound => 'i',
        Port::Outbound => 'o',
        Port::Unknown => '?',
    }
}

pub open spec fn spec_port_to_char(port: Port) -> char {
    match port {
        Port::Absent => ' ',
        Port::Inbound => 'i',
        Port::Outbound => 'o',
        Port::Unknown => '?',
    }
}

} // verus!
