use vstd::prelude::*;
use crate::belt_meta::BeltType;
use crate::cell::{Cell, CellKind};
use crate::factory::{Factory, Offer};
use crate::floor::{FLOOR_CELLS_W, FLOOR_CELLS_H, FLOOR_CELLS_WH};
use crate::part::{Part, CONFIG_NODE_PART_NONE};
use crate::port::Port;
use crate::serialize::{spec_decimal, u64_to_decimal, push_all, spec_split, spec_join, spec_views, split_lines};
use crate::text::string_from_chars;

verus! {

/// The end of each line of the map format: a visible `\n` and a line break.
pub open spec fn spec_eol() -> Seq<char> {
    seq!['\\', 'n', '\\', '\n']
}

fn push_eol(out: &mut Vec<char>)
    ensures
        final(out)@ == old(out)@ + spec_eol(),
{
    out.push('\\');
    out.push('n');
    out.push('\\');
    out.push('\n');
    proof { assert(final(out)@ =~= old(out)@ + spec_eol()); }
}

/// An offer line of the map format: `om = a b c -> o s:.. d:WxH`, `os = p s:.. c:..` or `od = p`.
pub open spec fn spec_offer_line(o: Offer) -> Seq<char> {
    if o.kind == CellKind::Machine {
        seq!['o', 'm', ' ', '=', ' ', o.machine_input1, ' ', o.machine_input2, ' ', o.machine_input3, ' ', '-', '>', ' ', o.machine_output,
            ' ', 's', ':'] + spec_decimal(o.speed as nat)
            + seq![' ', 'd', ':'] + spec_decimal(o.cell_width as nat) + seq!['x'] + spec_decimal(o.cell_height as nat)
            + spec_eol()
    } else if o.kind == CellKind::Supply {
        seq!['o', 's', ' ', '=', ' ', o.supply_icon, ' ', 's', ':'] + spec_decimal(o.speed as nat)
            + seq![' ', 'c', ':'] + spec_decimal(o.cooldown as nat) + spec_eol()
    } else {
        seq!['o', 'd', ' ', '=', ' ', o.demand_icon] + spec_eol()
    }
}

/// The line of the map format that describes an offer; see `spec_offer_line`.
pub fn serialize_offer(offer: &Offer) -> (s: Vec<char>)
    requires
        offer.kind == CellKind::Machine || offer.kind == CellKind::Supply || offer.kind == CellKind::Demand,
    ensures
        s@ == spec_offer_line(*offer),
{
    let mut s: Vec<char> = Vec::new();
    s.push('o');
    s.push(match offer.kind { CellKind::Machine => 'm', CellKind::Supply => 's', _ => 'd' });
    s.push(' ');
    s.push('=');
    s.push(' ');
    if offer.kind == CellKind::Machine {
        s.push(offer.machine_input1);
        s.push(' ');
        s.push(offer.machine_input2);
        s.push(' ');
        s.push(offer.machine_input3);
        s.push(' ');
        s.push('-');
        s.push('>');
        s.push(' ');
        s.push(offer.machine_output);
        s.push(' ');
        s.push('s');
        s.push(':');
        push_all(&mut s, &u64_to_decimal(offer.speed));
        s.push(' ');
        s.push('d');
        s.push(':');
        push_all(&mut s, &u64_to_decimal(offer.cell_width as u64));
        s.push('x');
        push_all(&mut s, &u64_to_decimal(offer.cell_height as u64));
    } else if offer.kind == CellKind::Supply {
        s.push(offer.supply_icon);
        s.push(' ');
        s.push('s');
        s.push(':');
        push_all(&mut s, &u64_to_decimal(offer.speed));
        s.push(' ');
        s.push('c');
        s.push(':');
        push_all(&mut s, &u64_to_decimal(offer.cooldown));
    } else {
        s.push(offer.demand_icon);
    }
    push_eol(&mut s);
    proof { assert(s@ =~= spec_offer_line(*offer)); }
    s
}

/// Cells of the floor whose machine numbers can be computed without going below zero or over
/// the top of `usize`: the machine's main cell is not right of or below the cell, and the
/// machine's corners fit.
pub open spec fn spec_dump_ok(c: Cell, coord: int) -> bool {
    let main = c.machine.main_coord as int;
    &&& main % (FLOOR_CELLS_W as int) <= coord % (FLOOR_CELLS_W as int)
    &&& main / (FLOOR_CELLS_W as int) <= coord / (FLOOR_CELLS_W as int)
    &&& main + FLOOR_CELLS_W * (c.machine.cell_height + 1) + c.machine.cell_width + 2 <= usize::MAX
}

/// The machine numbers of a cell: its column within the machine, the width of the machine
/// with its border, and the coords of the bottom-left and bottom-right corners.
pub open spec fn spec_m_x(c: Cell, coord: int) -> int {
    coord % (FLOOR_CELLS_W as int) - (c.machine.main_coord as int) % (FLOOR_CELLS_W as int)
}

pub open spec fn spec_m_w(c: Cell) -> int {
    c.machine.cell_width + 2
}

pub open spec fn spec_m_dl(c: Cell) -> int {
    c.machine.main_coord + FLOOR_CELLS_W * (c.machine.cell_height + 1)
}

pub open spec fn spec_m_dr(c: Cell) -> int {
    spec_m_dl(c) + spec_m_w(c) - 1
}

/// The heavy line glyph for a belt that cannot be built, by the sides that have a port.
pub open spec fn spec_invalid_glyph(u: bool, r: bool, d: bool, l: bool) -> char {
    if !u && !r && !d && !l { '!' }
    else if !u && r && !d && !l { '╺' }
    else if !u && !r && d && !l { '╻' }
    else if !u && !r && !d && l { '╸' }
    else if !u && r && d && !l { '┏' }
    else if !u && r && !d && l { '━' }
    else if !u && !r && d && l { '┓' }
    else if !u && r && d && l { '┳' }
    else if u && !r && !d && !l { '╹' }
    else if u && r && !d && !l { '┗' }
    else if u && !r && d && !l { '┃' }
    else if u && !r && !d && l { '┛' }
    else if u && r && d && !l { '┣' }
    else if u && r && !d && l { '╹' }
    else if u && !r && d && l { '┫' }
    else { '╋' }
}

/// The character in the middle of a cell in the map format.
pub open spec fn spec_dump_center(c: Cell, dump: bool) -> char {
    match c.kind {
        CellKind::Empty => '.',
        CellKind::Supply => 's',
        CellKind::Demand => 'd',
        CellKind::Machine => c.machine.id,
        CellKind::Belt => if !dump && c.belt.part.kind != CONFIG_NODE_PART_NONE {
            c.belt.part.icon
        } else if c.belt.meta.btype == BeltType::INVALID {
            spec_invalid_glyph(c.port_u != Port::Absent, c.port_r != Port::Absent, c.port_d != Port::Absent, c.port_l != Port::Absent)
        } else {
            c.belt.meta.cli_icon
        },
    }
}

/// The three characters of the top line of a cell in the map format.
pub open spec fn spec_top3(c: Cell, coord: int) -> Seq<char> {
    let x = coord % (FLOOR_CELLS_W as int);
    let is_m = c.kind == CellKind::Machine;
    let main = c.machine.main_coord as int;
    let a = if coord == 0 { '┌' } else if x == 0 { '│' } else if coord < FLOOR_CELLS_W { '─' }
        else if coord == FLOOR_CELLS_WH - 1 { '┘' }
        else if coord > FLOOR_CELLS_WH - FLOOR_CELLS_W && coord < FLOOR_CELLS_WH - 1 { '─' }
        else if coord > 0 && coord != FLOOR_CELLS_W - 1 && x == FLOOR_CELLS_W - 1 { '│' }
        else if is_m && coord == main { '┌' }
        else if is_m && coord < main + FLOOR_CELLS_W { '─' }
        else if is_m && spec_m_x(c, coord) == 0 { '│' }
        else { ' ' };
    let b = match c.port_u {
        Port::Inbound => 'v',
        Port::Outbound => '^',
        Port::Unknown => '?',
        Port::Absent => if coord < FLOOR_CELLS_W { '─' }
            else if coord > FLOOR_CELLS_WH - FLOOR_CELLS_W && coord < FLOOR_CELLS_WH - 1 { '─' }
            else if is_m && coord < main + FLOOR_CELLS_W { '─' }
            else { ' ' },
    };
    let e = if coord == FLOOR_CELLS_W - 1 { '┐' } else if x == FLOOR_CELLS_W - 1 { '│' } else if coord < FLOOR_CELLS_W { '─' }
        else if coord == FLOOR_CELLS_WH - FLOOR_CELLS_W { '└' }
        else if coord > FLOOR_CELLS_WH - FLOOR_CELLS_W && coord < FLOOR_CELLS_WH - 1 { '─' }
        else if coord > 0 && x == 0 { '│' }
        else if is_m && coord == main + spec_m_w(c) - 1 { '┐' }
        else if is_m && coord < main + FLOOR_CELLS_W { '─' }
        else if is_m && spec_m_x(c, coord) == spec_m_w(c) - 1 { '│' }
        else { ' ' };
    seq![a, b, e]
}

/// The three characters of the middle line of a cell in the map format.
pub open spec fn spec_mid3(c: Cell, coord: int, dump: bool) -> Seq<char> {
    let x = coord % (FLOOR_CELLS_W as int);
    let y = coord / (FLOOR_CELLS_W as int);
    let is_m = c.kind == CellKind::Machine;
    let a = match c.port_l {
        Port::Inbound => '>',
        Port::Outbound => '<',
        Port::Unknown => '?',
        Port::Absent => if x == 0 { '│' }
            else if coord > 0 && coord != FLOOR_CELLS_W - 1 && coord != FLOOR_CELLS_WH - 1 && x == FLOOR_CELLS_W - 1 { '│' }
            else if is_m && spec_m_x(c, coord) == 0 { '│' }
            else { ' ' },
    };
    let e = match c.port_r {
        Port::Inbound => '<',
        Port::Outbound => '>',
        Port::Unknown => '?',
        Port::Absent => if x == FLOOR_CELLS_W - 1 { '│' }
            else if coord > 0 && coord != FLOOR_CELLS_W - 1 && coord != FLOOR_CELLS_WH - FLOOR_CELLS_W && x == 0 { '│' }
            else if is_m && spec_m_x(c, coord) == spec_m_w(c) - 1 { '│' }
            else if (y == 0 || y == FLOOR_CELLS_H - 1) && c.kind == CellKind::Supply { c.supply.gives.icon }
            else if (y == 0 || y == FLOOR_CELLS_H - 1) && c.kind == CellKind::Demand { c.demand.part.icon }
            else { ' ' },
    };
    seq![a, spec_dump_center(c, dump), e]
}

/// The three characters of the bottom line of a cell in the map format.
pub open spec fn spec_bot3(c: Cell, coord: int) -> Seq<char> {
    let x = coord % (FLOOR_CELLS_W as int);
    let is_m = c.kind == CellKind::Machine;
    let a = if coord == FLOOR_CELLS_W - 1 { '┐' } else if coord == FLOOR_CELLS_WH - FLOOR_CELLS_W { '└' }
        else if coord >= FLOOR_CELLS_WH - FLOOR_CELLS_W { '─' }
        else if x == 0 { '│' }
        else if coord > 0 && coord < FLOOR_CELLS_W - 1 { '─' }
        else if coord > 0 && coord != FLOOR_CELLS_WH - 1 && x == FLOOR_CELLS_W - 1 { '│' }
        else if is_m && coord == spec_m_dl(c) { '└' }
        else if is_m && coord >= spec_m_dl(c) { '─' }
        else if is_m && spec_m_x(c, coord) == 0 { '│' }
        else { ' ' };
    let b = match c.port_d {
        Port::Inbound => '^',
        Port::Outbound => 'v',
        Port::Unknown => '?',
        Port::Absent => if coord > 0 && coord < FLOOR_CELLS_W - 1 { '─' }
            else if coord >= FLOOR_CELLS_WH - FLOOR_CELLS_W { '─' }
            else if (x == 0 || x == FLOOR_CELLS_W - 1) && c.kind == CellKind::Supply { c.supply.gives.icon }
            else if (x == 0 || x == FLOOR_CELLS_W - 1) && c.kind == CellKind::Demand { c.demand.part.icon }
            else if is_m && coord >= spec_m_dl(c) { '─' }
            else { ' ' },
    };
    let e = if coord == 0 { '┌' } else if coord == FLOOR_CELLS_WH - 1 { '┘' }
        else if coord >= FLOOR_CELLS_WH - FLOOR_CELLS_W { '─' }
        else if x == FLOOR_CELLS_W - 1 { '│' }
        else if coord > 0 && coord < FLOOR_CELLS_W - 1 { '─' }
        else if coord != FLOOR_CELLS_WH - FLOOR_CELLS_W && x == 0 { '│' }
        else if is_m && coord == spec_m_dr(c) { '┘' }
        else if is_m && coord >= spec_m_dl(c) { '─' }
        else if is_m && spec_m_x(c, coord) == spec_m_w(c) - 1 { '│' }
        else { ' ' };
    seq![a, b, e]
}

/// The machine numbers of a cell: (column within the machine, width with border, bottom-left
/// corner, bottom-right corner).
fn machine_numbers(c: &Cell, coord: usize) -> (r: (usize, usize, usize, usize))
    requires
        spec_dump_ok(*c, coord as int),
    ensures
        r.0 == spec_m_x(*c, coord as int),
        r.1 == spec_m_w(*c),
        r.2 == spec_m_dl(*c),
        r.3 == spec_m_dr(*c),
{
    let main = c.machine.main_coord;
    let x = coord % FLOOR_CELLS_W;
    let m_x = x - (main % FLOOR_CELLS_W);
    let _m_y = (coord / FLOOR_CELLS_W) - (main / FLOOR_CELLS_W);
    let m_w = c.machine.cell_width + 2;
    let m_h = c.machine.cell_height + 2;
    let m_dl = main + FLOOR_CELLS_W * (m_h - 1);
    let m_dr = m_dl + m_w - 1;
    (m_x, m_w, m_dl, m_dr)
}

fn dump_center(c: &Cell, dump: bool) -> (r: char)
    ensures
        r == spec_dump_center(*c, dump),
{
    match c.kind {
        CellKind::Empty => '.',
        CellKind::Supply => 's',
        CellKind::Demand => 'd',
        CellKind::Machine => c.machine.id,
        CellKind::Belt => if !dump && c.belt.part.kind != CONFIG_NODE_PART_NONE {
            c.belt.part.icon
        } else if c.belt.meta.btype == BeltType::INVALID {
            let u = c.port_u != Port::Absent;
            let r = c.port_r != Port::Absent;
            let d = c.port_d != Port::Absent;
            let l = c.port_l != Port::Absent;
            if !u && !r && !d && !l { '!' }
            else if !u && r && !d && !l { '╺' }
            else if !u && !r && d && !l { '╻' }
            else if !u && !r && !d && l { '╸' }
            else if !u && r && d && !l { '┏' }
            else if !u && r && !d && l { '━' }
            else if !u && !r && d && l { '┓' }
            else if !u && r && d && l { '┳' }
            else if u && !r && !d && !l { '╹' }
            else if u && r && !d && !l { '┗' }
            else if u && !r && d && !l { '┃' }
            else if u && !r && !d && l { '┛' }
            else if u && r && d && !l { '┣' }
            else if u && r && !d && l { '╹' }
            else if u && !r && d && l { '┫' }
            else { '╋' }
        } else {
            c.belt.meta.cli_icon
        },
    }
}

/// See `spec_top3`.
fn top3(c: &Cell, coord: usize) -> (r: Vec<char>)
    requires
        coord < FLOOR_CELLS_WH,
        spec_dump_ok(*c, coord as int),
    ensures
        r@ == spec_top3(*c, coord as int),
{
    let x = coord % FLOOR_CELLS_W;
    let is_m = c.kind == CellKind::Machine;
    let main = c.machine.main_coord;
    let (m_x, m_w, _m_dl, _m_dr) = machine_numbers(c, coord);
    let a = if coord == 0 { '┌' } else if x == 0 { '│' } else if coord < FLOOR_CELLS_W { '─' }
        else if coord == FLOOR_CELLS_WH - 1 { '┘' }
        else if coord > FLOOR_CELLS_WH - FLOOR_CELLS_W && coord < FLOOR_CELLS_WH - 1 { '─' }
        else if coord > 0 && coord != FLOOR_CELLS_W - 1 && x == FLOOR_CELLS_W - 1 { '│' }
        else if is_m && coord == main { '┌' }
        else if is_m && coord < main + FLOOR_CELLS_W { '─' }
        else if is_m && m_x == 0 { '│' }
        else { ' ' };
    let b = match c.port_u {
        Port::Inbound => 'v',
        Port::Outbound => '^',
        Port::Unknown => '?',
        Port::Absent => if coord < FLOOR_CELLS_W { '─' }
            else if coord > FLOOR_CELLS_WH - FLOOR_CELLS_W && coord < FLOOR_CELLS_WH - 1 { '─' }
            else if is_m && coord < main + FLOOR_CELLS_W { '─' }
            else { ' ' },
    };
    let e = if coord == FLOOR_CELLS_W - 1 { '┐' } else if x == FLOOR_CELLS_W - 1 { '│' } else if coord < FLOOR_CELLS_W { '─' }
        else if coord == FLOOR_CELLS_WH - FLOOR_CELLS_W { '└' }
        else if coord > FLOOR_CELLS_WH - FLOOR_CELLS_W && coord < FLOOR_CELLS_WH - 1 { '─' }
        else if coord > 0 && x == 0 { '│' }
        else if is_m && coord == main + m_w - 1 { '┐' }
        else if is_m && coord < main + FLOOR_CELLS_W { '─' }
        else if is_m && m_x == m_w - 1 { '│' }
        else { ' ' };
    let r: Vec<char> = vec![a, b, e];
    proof { assert(r@ =~= spec_top3(*c, coord as int)); }
    r
}

/// See `spec_mid3`.
fn mid3(c: &Cell, coord: usize, dump: bool) -> (r: Vec<char>)
    requires
        coord < FLOOR_CELLS_WH,
        spec_dump_ok(*c, coord as int),
    ensures
        r@ == spec_mid3(*c, coord as int, dump),
{
    let x = coord % FLOOR_CELLS_W;
    let y = coord / FLOOR_CELLS_W;
    let is_m = c.kind == CellKind::Machine;
    let (m_x, m_w, _m_dl, _m_dr) = machine_numbers(c, coord);
    let a = match c.port_l {
        Port::Inbound => '>',
        Port::Outbound => '<',
        Port::Unknown => '?',
        Port::Absent => if x == 0 { '│' }
            else if coord > 0 && coord != FLOOR_CELLS_W - 1 && coord != FLOOR_CELLS_WH - 1 && x == FLOOR_CELLS_W - 1 { '│' }
            else if is_m && m_x == 0 { '│' }
            else { ' ' },
    };
    let e = match c.port_r {
        Port::Inbound => '<',
        Port::Outbound => '>',
        Port::Unknown => '?',
        Port::Absent => if x == FLOOR_CELLS_W - 1 { '│' }
            else if coord > 0 && coord != FLOOR_CELLS_W - 1 && coord != FLOOR_CELLS_WH - FLOOR_CELLS_W && x == 0 { '│' }
            else if is_m && m_x == m_w - 1 { '│' }
            else if (y == 0 || y == FLOOR_CELLS_H - 1) && c.kind == CellKind::Supply { c.supply.gives.icon }
            else if (y == 0 || y == FLOOR_CELLS_H - 1) && c.kind == CellKind::Demand { c.demand.part.icon }
            else { ' ' },
    };
    let r: Vec<char> = vec![a, dump_center(c, dump), e];
    proof { assert(r@ =~= spec_mid3(*c, coord as int, dump)); }
    r
}

/// See `spec_bot3`.
fn bot3(c: &Cell, coord: usize) -> (r: Vec<char>)
    requires
        coord < FLOOR_CELLS_WH,
        spec_dump_ok(*c, coord as int),
    ensures
        r@ == spec_bot3(*c, coord as int),
{
    let x = coord % FLOOR_CELLS_W;
    let is_m = c.kind == CellKind::Machine;
    let (m_x, m_w, m_dl, m_dr) = machine_numbers(c, coord);
    let a = if coord == FLOOR_CELLS_W - 1 { '┐' } else if coord == FLOOR_CELLS_WH - FLOOR_CELLS_W { '└' }
        else if coord >= FLOOR_CELLS_WH - FLOOR_CELLS_W { '─' }
        else if x == 0 { '│' }
        else if coord > 0 && coord < FLOOR_CELLS_W - 1 { '─' }
        else if coord > 0 && coord != FLOOR_CELLS_WH - 1 && x == FLOOR_CELLS_W - 1 { '│' }
        else if is_m && coord == m_dl { '└' }
        else if is_m && coord >= m_dl { '─' }
        else if is_m && m_x == 0 { '│' }
        else { ' ' };
    let b = match c.port_d {
        Port::Inbound => '^',
        Port::Outbound => 'v',
        Port::Unknown => '?',
        Port::Absent => if coord > 0 && coord < FLOOR_CELLS_W - 1 { '─' }
            else if coord >= FLOOR_CELLS_WH - FLOOR_CELLS_W { '─' }
            else if (x == 0 || x == FLOOR_CELLS_W - 1) && c.kind == CellKind::Supply { c.supply.gives.icon }
            else if (x == 0 || x == FLOOR_CELLS_W - 1) && c.kind == CellKind::Demand { c.demand.part.icon }
            else if is_m && coord >= m_dl { '─' }
            else { ' ' },
    };
    let e = if coord == 0 { '┌' } else if coord == FLOOR_CELLS_WH - 1 { '┘' }
        else if coord >= FLOOR_CELLS_WH - FLOOR_CELLS_W { '─' }
        else if x == FLOOR_CELLS_W - 1 { '│' }
        else if coord > 0 && coord < FLOOR_CELLS_W - 1 { '─' }
        else if coord != FLOOR_CELLS_WH - FLOOR_CELLS_W && x == 0 { '│' }
        else if is_m && coord == m_dr { '┘' }
        else if is_m && coord >= m_dl { '─' }
        else if is_m && m_x == m_w - 1 { '│' }
        else { ' ' };
    let r: Vec<char> = vec![a, b, e];
    proof { assert(r@ =~= spec_bot3(*c, coord as int)); }
    r
}

/// The three characters of line `which` (0: top, 1: middle, 2: bottom) of the cell at `coord`.
pub open spec fn spec_cell3(f: Seq<Cell>, which: int, coord: int, dump: bool) -> Seq<char> {
    if which == 0 { spec_top3(f[coord], coord) } else if which == 1 { spec_mid3(f[coord], coord, dump) } else { spec_bot3(f[coord], coord) }
}

/// Line `which` of the first `k` cells of row `row`.
pub open spec fn spec_row_part(f: Seq<Cell>, which: int, row: int, k: nat, dump: bool) -> Seq<char>
    decreases k,
{
    if k == 0 { seq![] } else { spec_row_part(f, which, row, (k - 1) as nat, dump) + spec_cell3(f, which, row * FLOOR_CELLS_W + k - 1, dump) }
}

/// The three lines of the first `r` rows of the map format.
pub open spec fn spec_rows(f: Seq<Cell>, r: nat, dump: bool) -> Seq<char>
    decreases r,
{
    if r == 0 {
        seq![]
    } else {
        spec_rows(f, (r - 1) as nat, dump)
            + spec_row_part(f, 0, r - 1, FLOOR_CELLS_W as nat, dump) + spec_eol()
            + spec_row_part(f, 1, r - 1, FLOOR_CELLS_W as nat, dump) + spec_eol()
            + spec_row_part(f, 2, r - 1, FLOOR_CELLS_W as nat, dump) + spec_eol()
    }
}

/// Every cell of the floor can be written out; see `spec_dump_ok`.
pub open spec fn spec_floor_dump_ok(f: Seq<Cell>) -> bool {
    forall|c: int| 0 <= c < FLOOR_CELLS_WH ==> #[trigger] spec_dump_ok(f[c], c)
}

/// One line of the map format per cell at `coord`.
fn push_cell3(out: &mut Vec<char>, factory: &Factory, which: usize, coord: usize, dump: bool)
    requires
        factory.floor.len() == FLOOR_CELLS_WH,
        coord < FLOOR_CELLS_WH,
        spec_floor_dump_ok(factory.floor@),
    ensures
        final(out)@ == old(out)@ + spec_cell3(factory.floor@, which as int, coord as int, dump),
{
    assert(spec_dump_ok(factory.floor@[coord as int], coord as int));
    let part = if which == 0 {
        top3(&factory.floor[coord], coord)
    } else if which == 1 {
        mid3(&factory.floor[coord], coord, dump)
    } else {
        bot3(&factory.floor[coord], coord)
    };
    push_all(out, &part);
}

/// Appends line `which` of row `row`, with its line end.
fn push_row_line(out: &mut Vec<char>, factory: &Factory, which: usize, row: usize, dump: bool)
    requires
        factory.floor.len() == FLOOR_CELLS_WH,
        row < FLOOR_CELLS_H,
        spec_floor_dump_ok(factory.floor@),
    ensures
        final(out)@ == old(out)@ + spec_row_part(factory.floor@, which as int, row as int, FLOOR_CELLS_W as nat, dump) + spec_eol(),
{
    let ghost o0 = out@;
    let mut x: usize = 0;
    while x < FLOOR_CELLS_W
        invariant
            factory.floor.len() == FLOOR_CELLS_WH,
            row < FLOOR_CELLS_H,
            spec_floor_dump_ok(factory.floor@),
            x <= FLOOR_CELLS_W,
            out@ == o0 + spec_row_part(factory.floor@, which as int, row as int, x as nat, dump),
        decreases FLOOR_CELLS_W - x,
    {
        push_cell3(out, factory, which, row * FLOOR_CELLS_W + x, dump);
        x = x + 1;
        assert(out@ =~= o0 + spec_row_part(factory.floor@, which as int, row as int, x as nat, dump));
    }
    push_eol(out);
    assert(out@ =~= o0 + spec_row_part(factory.floor@, which as int, row as int, FLOOR_CELLS_W as nat, dump) + spec_eol());
}

/// Appends the three lines of every row.
fn push_rows(out: &mut Vec<char>, factory: &Factory, dump: bool)
    requires
        factory.floor.len() == FLOOR_CELLS_WH,
        spec_floor_dump_ok(factory.floor@),
    ensures
        final(out)@ == old(out)@ + spec_rows(factory.floor@, FLOOR_CELLS_H as nat, dump),
{
    let ghost o0 = out@;
    let mut r: usize = 0;
    while r < FLOOR_CELLS_H
        invariant
            factory.floor.len() == FLOOR_CELLS_WH,
            spec_floor_dump_ok(factory.floor@),
            r <= FLOOR_CELLS_H,
            out@ == o0 + spec_rows(factory.floor@, r as nat, dump),
        decreases FLOOR_CELLS_H - r,
    {
        push_row_line(out, factory, 0, r, dump);
        push_row_line(out, factory, 1, r, dump);
        push_row_line(out, factory, 2, r, dump);
        r = r + 1;
        assert(out@ =~= o0 + spec_rows(factory.floor@, r as nat, dump));
    }
}

/// The icons of the parts a machine wants, each followed by a space.
pub open spec fn spec_wants_text(w: Seq<Part>) -> Seq<char>
    decreases w.len(),
{
    if w.len() == 0 { seq![] } else { spec_wants_text(w.drop_last()) + seq![w.last().icon, ' '] }
}

/// The digit-like character that numbers the `n`th machine, supplier or demander.
pub open spec fn spec_count_char(n: nat) -> char {
    (48 + n) as char
}

/// The parameter lines of the first `k` cells, and how many machines, suppliers and demanders
/// they numbered: `m<n> = <wants> -> <output> s:<speed>` for the main cell of each machine,
/// `s<n> = <part> s:<speed> c:<cooldown>` for each supplier, `d<n> = <part>` for each demander.
pub open spec fn spec_params(f: Seq<Cell>, k: nat) -> (Seq<char>, nat, nat, nat)
    decreases k,
{
    if k == 0 {
        (seq![], 0, 0, 0)
    } else {
        let (out, m, sc, dc) = spec_params(f, (k - 1) as nat);
        let coord = k - 1;
        let c = f[coord];
        if c.kind == CellKind::Machine && coord == c.machine.main_coord {
            (out + seq!['m', spec_count_char(m + 1), ' ', '=', ' '] + spec_wants_text(c.machine.wants@)
                + seq!['-', '>', ' ', c.machine.output_want.icon, ' ', 's', ':'] + spec_decimal(c.machine.speed as nat) + spec_eol(),
             m + 1, sc, dc)
        } else if c.kind == CellKind::Supply {
            (out + seq!['s', spec_count_char(sc + 1), ' ', '=', ' ', c.supply.gives.icon, ' ', 's', ':'] + spec_decimal(c.supply.speed as nat)
                + seq![' ', 'c', ':'] + spec_decimal(c.supply.cooldown as nat) + spec_eol(),
             m, sc + 1, dc)
        } else if c.kind == CellKind::Demand {
            (out + seq!['d', spec_count_char(dc + 1), ' ', '=', ' ', c.demand.part.icon] + spec_eol(), m, sc, dc + 1)
        } else {
            (out, m, sc, dc)
        }
    }
}

/// Counting never goes down as more cells are looked at.
proof fn lemma_params_counts_grow(f: Seq<Cell>, k: nat, n: nat)
    requires
        k <= n,
    ensures
        spec_params(f, k).1 <= spec_params(f, n).1,
        spec_params(f, k).2 <= spec_params(f, n).2,
        spec_params(f, k).3 <= spec_params(f, n).3,
    decreases n - k,
{
    if k < n {
        lemma_params_counts_grow(f, k, (n - 1) as nat);
    }
}

/// The numbers of machines, suppliers and demanders fit in the digit-like characters of the
/// map format (which are computed in a byte).
pub open spec fn spec_counts_ok(f: Seq<Cell>) -> bool {
    let p = spec_params(f, FLOOR_CELLS_WH as nat);
    p.1 <= 207 && p.2 <= 207 && p.3 <= 207
}

fn count_char(n: u8) -> (c: char)
    requires
        n <= 207,
    ensures
        c == spec_count_char(n as nat),
{
    ((48u8 + n) as char)
}

/// Appends the icons of the wanted parts, each followed by a space.
fn push_wants(out: &mut Vec<char>, wants: &Vec<Part>)
    ensures
        final(out)@ == old(out)@ + spec_wants_text(wants@),
{
    let ghost o0 = out@;
    let mut i: usize = 0;
    while i < wants.len()
        invariant
            i <= wants@.len(),
            out@ == o0 + spec_wants_text(wants@.take(i as int)),
        decreases wants.len() - i,
    {
        out.push(wants[i].icon);
        out.push(' ');
        proof {
            assert(wants@.take(i + 1).drop_last() =~= wants@.take(i as int));
        }
        i = i + 1;
        assert(out@ =~= o0 + spec_wants_text(wants@.take(i as int)));
    }
    assert(wants@.take(wants@.len() as int) =~= wants@);
}

/// The parameter lines of all cells; see `spec_params`.
fn cell_params(factory: &Factory) -> (out: Vec<char>)
    requires
        factory.floor.len() == FLOOR_CELLS_WH,
        spec_counts_ok(factory.floor@),
    ensures
        out@ == spec_params(factory.floor@, FLOOR_CELLS_WH as nat).0,
{
    let ghost f = factory.floor@;
    let mut out: Vec<char> = Vec::new();
    let mut machine_count: u8 = 0;
    let mut supply_count: u8 = 0;
    let mut demand_count: u8 = 0;
    let mut coord: usize = 0;
    while coord < FLOOR_CELLS_WH
        invariant
            f == factory.floor@,
            factory.floor.len() == FLOOR_CELLS_WH,
            spec_counts_ok(f),
            coord <= FLOOR_CELLS_WH,
            out@ == spec_params(f, coord as nat).0,
            machine_count == spec_params(f, coord as nat).1,
            supply_count == spec_params(f, coord as nat).2,
            demand_count == spec_params(f, coord as nat).3,
        decreases FLOOR_CELLS_WH - coord,
    {
        proof { lemma_params_counts_grow(f, (coord + 1) as nat, FLOOR_CELLS_WH as nat); }
        let c = &factory.floor[coord];
        if c.kind == CellKind::Machine && coord == c.machine.main_coord {
            machine_count = machine_count + 1;
            out.push('m');
            out.push(count_char(machine_count));
            out.push(' ');
            out.push('=');
            out.push(' ');
            push_wants(&mut out, &c.machine.wants);
            out.push('-');
            out.push('>');
            out.push(' ');
            out.push(c.machine.output_want.icon);
            out.push(' ');
            out.push('s');
            out.push(':');
            push_all(&mut out, &u64_to_decimal(c.machine.speed));
            push_eol(&mut out);
        } else if c.kind == CellKind::Supply {
            supply_count = supply_count + 1;
            out.push('s');
            out.push(count_char(supply_count));
            out.push(' ');
            out.push('=');
            out.push(' ');
            out.push(c.supply.gives.icon);
            out.push(' ');
            out.push('s');
            out.push(':');
            push_all(&mut out, &u64_to_decimal(c.supply.speed));
            out.push(' ');
            out.push('c');
            out.push(':');
            push_all(&mut out, &u64_to_decimal(c.supply.cooldown));
            push_eol(&mut out);
        } else if c.kind == CellKind::Demand {
            demand_count = demand_count + 1;
            out.push('d');
            out.push(count_char(demand_count));
            out.push(' ');
            out.push('=');
            out.push(' ');
            out.push(c.demand.part.icon);
            push_eol(&mut out);
        }
        coord = coord + 1;
        assert(out@ =~= spec_params(f, coord as nat).0);
    }
    out
}

/// The offer lines of the first `k` offers.
pub open spec fn spec_offers_text(os: Seq<Offer>, k: nat) -> Seq<char>
    decreases k,
{
    if k == 0 { seq![] } else { spec_offers_text(os, (k - 1) as nat) + spec_offer_line(os[k - 1]) }
}

/// The header line of the map format.
pub open spec fn spec_dump_header() -> Seq<char> {
    seq!['d', '=', '1', '7', 'x', '1', '7', '\\', 'n', '\\', '\n']
}

/// The whole map in the map format: the header line, three lines per row with three
/// characters per cell (the ports on the sides, the content in the middle), the parameter
/// lines of machines, suppliers and demanders, and the offers.
pub open spec fn spec_serialize2(f: Seq<Cell>, offers: Seq<Offer>, dump: bool) -> Seq<char> {
    spec_dump_header() + spec_rows(f, FLOOR_CELLS_H as nat, dump) + spec_params(f, FLOOR_CELLS_WH as nat).0
        + spec_offers_text(offers, offers.len())
}

/// The characters of the factory in the map format; see `spec_serialize2`.
fn serialize2_chars(factory: &Factory, dump: bool) -> (s: Vec<char>)
    requires
        factory.floor.len() == FLOOR_CELLS_WH,
        spec_floor_dump_ok(factory.floor@),
        spec_counts_ok(factory.floor@),
        forall|i: int| 0 <= i < factory.offers@.len() ==> {
            let k = (#[trigger] factory.offers@[i]).kind;
            k == CellKind::Machine || k == CellKind::Supply || k == CellKind::Demand
        },
    ensures
        s@ == spec_serialize2(factory.floor@, factory.offers@, dump),
{
    let mut out: Vec<char> = vec!['d', '=', '1', '7', 'x', '1', '7', '\\', 'n', '\\', '\n'];
    push_rows(&mut out, factory, dump);
    let params = cell_params(factory);
    push_all(&mut out, &params);
    let ghost o0 = out@;
    let mut i: usize = 0;
    while i < factory.offers.len()
        invariant
            i <= factory.offers@.len(),
            forall|i: int| 0 <= i < factory.offers@.len() ==> {
                let k = (#[trigger] factory.offers@[i]).kind;
                k == CellKind::Machine || k == CellKind::Supply || k == CellKind::Demand
            },
            out@ == o0 + spec_offers_text(factory.offers@, i as nat),
        decreases factory.offers.len() - i,
    {
        let line = serialize_offer(&factory.offers[i]);
        push_all(&mut out, &line);
        i = i + 1;
        assert(out@ =~= o0 + spec_offers_text(factory.offers@, i as nat));
    }
    proof {
        assert(out@ =~= spec_serialize2(factory.floor@, factory.offers@, dump));
    }
    out
}

/// Writes the factory in the map format; see `spec_serialize2`. With `dump` a belt shows its
/// shape rather than its part.
pub fn serialize2(factory: &Factory, dump: bool) -> (s: String)
    requires
        factory.floor.len() == FLOOR_CELLS_WH,
        spec_floor_dump_ok(factory.floor@),
        spec_counts_ok(factory.floor@),
        forall|i: int| 0 <= i < factory.offers@.len() ==> {
            let k = (#[trigger] factory.offers@[i]).kind;
            k == CellKind::Machine || k == CellKind::Supply || k == CellKind::Demand
        },
    ensures
        s@ == spec_serialize2(factory.floor@, factory.offers@, dump),
{
    let chars = serialize2_chars(factory, dump);
    string_from_chars(&chars)
}

/// The map format of the factory cut into its lines; see `spec_serialize2`.
pub fn generate_floor_dump(factory: &Factory) -> (out: Vec<String>)
    requires
        factory.floor.len() == FLOOR_CELLS_WH,
        spec_floor_dump_ok(factory.floor@),
        spec_counts_ok(factory.floor@),
        forall|i: int| 0 <= i < factory.offers@.len() ==> {
            let k = (#[trigger] factory.offers@[i]).kind;
            k == CellKind::Machine || k == CellKind::Supply || k == CellKind::Demand
        },
    ensures
        out@.len() == spec_split(spec_serialize2(factory.floor@, factory.offers@, true)).len(),
        forall|i: int| 0 <= i < out@.len() ==> #[trigger] out@[i]@ == spec_split(spec_serialize2(factory.floor@, factory.offers@, true))[i],
        spec_join(Seq::new(out@.len(), |i: int| out@[i]@)) == spec_serialize2(factory.floor@, factory.offers@, true),
{
    let chars = serialize2_chars(factory, true);
    let lines = split_lines(&chars);
    let mut out: Vec<String> = Vec::new();
    let mut i: usize = 0;
    while i < lines.len()
        invariant
            spec_views(lines@) == spec_split(spec_serialize2(factory.floor@, factory.offers@, true)),
            i <= lines@.len(),
            out@.len() == i,
            forall|j: int| 0 <= j < i ==> #[trigger] out@[j]@ == spec_split(spec_serialize2(factory.floor@, factory.offers@, true))[j],
        decreases lines.len() - i,
    {
        proof { assert(spec_views(lines@)[i as int] == lines@[i as int]@); }
        out.push(string_from_chars(&lines[i]));
        i = i + 1;
    }
    proof {
        let text = spec_serialize2(factory.floor@, factory.offers@, true);
        assert(Seq::new(out@.len(), |i: int| out@[i]@) =~= spec_split(text));
        crate::serialize::lemma_split_join(text);
    }
    out
}

} // verus!
