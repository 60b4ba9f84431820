use vstd::prelude::*;
use crate::serialize::{spec_split, spec_views, split_lines};
use crate::direction::Direction;
use crate::port::Port;
use crate::floor::{FLOOR_CELLS_W, FLOOR_CELLS_H, FLOOR_CELLS_WH, spec_is_middle};
use crate::part::{Config, PartKind, is_first_with_icon, is_first_with_name, config_find_icon, config_find_name};

verus! {

/// Why a map text could not be read.
#[derive(Clone, Copy, Debug, PartialEq, Eq, Structural)]
pub enum ParseError {
    /// The text ended before the whole floor was read.
    MissingLines,
    /// The `d=WxH` modifier of the header line is malformed or does not give a 17x17 floor.
    BadHeader,
    /// A port indicator of a cell is not one of the allowed characters.
    BadPort,
    /// The center character of a cell is not a known kind.
    BadCenter,
    /// A parameter line below the floor is malformed.
    BadAugment,
    /// A machine parameter line names a machine id that is not on the floor.
    UnknownMachine,
    /// A part named in a parameter line is not in the configuration.
    UnknownPart,
    /// The cells of a machine do not form a rectangle that grows right and down.
    BadMachineShape,
    /// A number in a parameter line does not fit.
    NumberTooLarge,
}

/// The piece without its last character when that is a carriage return.
pub open spec fn spec_strip_cr(s: Seq<char>) -> Seq<char> {
    if s.len() > 0 && s.last() == '\r' { s.drop_last() } else { s }
}

/// The lines of a text as `str::lines` gives them: split at line breaks, a carriage return
/// before a line break dropped, and no empty last line after a final line break.
pub open spec fn spec_lines(s: Seq<char>) -> Seq<Seq<char>> {
    let p = spec_split(s);
    let n = p.len();
    let init = Seq::new((n - 1) as nat, |i: int| spec_strip_cr(p[i]));
    if p[n - 1].len() == 0 { init } else { init.push(p[n - 1]) }
}

fn strip_cr(v: &mut Vec<char>)
    ensures
        final(v)@ == spec_strip_cr(old(v)@),
{
    if v.len() > 0 && v[v.len() - 1] == '\r' {
        v.pop();
    }
}

/// The lines of a text; see `spec_lines`.
pub fn text_lines(s: &Vec<char>) -> (r: Vec<Vec<char>>)
    ensures
        spec_views(r@) == spec_lines(s@),
{
    let mut pieces = split_lines(s);
    proof { crate::serialize::lemma_split_len(s@); }
    let n = pieces.len();
    let last = pieces.pop().unwrap();
    let mut out: Vec<Vec<char>> = Vec::new();
    let ghost p = spec_split(s@);
    let mut i: usize = 0;
    while i < n - 1
        invariant
            n == p.len(),
            n >= 1,
            pieces@.len() == n - 1,
            forall|k: int| 0 <= k < n - 1 ==> #[trigger] pieces@[k]@ == p[k],
            i <= n - 1,
            out@.len() == i,
            forall|k: int| 0 <= k < i ==> #[trigger] out@[k]@ == spec_strip_cr(p[k]),
        decreases n - 1 - i,
    {
        let mut piece = pieces[i].clone();
        proof { assert(piece@ == p[i as int]); }
        strip_cr(&mut piece);
        out.push(piece);
        i = i + 1;
    }
    proof {
        assert(forall|k: int| 0 <= k < n - 1 ==> spec_views(pieces@.push(last))[k] == p[k]);
    }
    if last.len() > 0 {
        out.push(last);
    }
    proof {
        assert(last@ == p[n - 1]);
        assert(spec_views(out@) =~= spec_lines(s@));
    }
    out
}

/// The character at `i`, or `#` (read as the end of the line) past the end.
pub open spec fn spec_at(l: Seq<char>, i: int) -> char {
    if 0 <= i < l.len() { l[i] } else { '#' }
}

fn char_at(l: &Vec<char>, i: usize) -> (c: char)
    ensures
        c == spec_at(l@, i as int),
{
    if i < l.len() { l[i] } else { '#' }
}

/// The line without its leading spaces.
pub open spec fn spec_trim_start(l: Seq<char>) -> Seq<char>
    decreases l.len(),
{
    if l.len() > 0 && l[0] == ' ' { spec_trim_start(l.drop_first()) } else { l }
}

/// The number of leading spaces of a line.
pub open spec fn spec_leading_spaces(l: Seq<char>) -> nat
    decreases l.len(),
{
    if l.len() > 0 && l[0] == ' ' { 1 + spec_leading_spaces(l.drop_first()) } else { 0 }
}

proof fn lemma_trim_start(l: Seq<char>)
    ensures
        spec_leading_spaces(l) <= l.len(),
        spec_trim_start(l) == l.skip(spec_leading_spaces(l) as int),
    decreases l.len(),
{
    if l.len() > 0 && l[0] == ' ' {
        lemma_trim_start(l.drop_first());
        assert(l.drop_first().skip(spec_leading_spaces(l.drop_first()) as int) =~= l.skip(spec_leading_spaces(l) as int));
    } else {
        assert(l.skip(0) =~= l);
    }
}

/// The line without its leading spaces.
pub fn trim_start(l: &Vec<char>) -> (r: Vec<char>)
    ensures
        r@ == spec_trim_start(l@),
{
    proof { lemma_trim_start(l@); }
    let mut i: usize = 0;
    proof { assert(l@.skip(0) =~= l@); }
    while i < l.len() && l[i] == ' '
        invariant
            i <= l@.len(),
            spec_trim_start(l@.skip(i as int)) == spec_trim_start(l@),
        decreases l.len() - i,
    {
        proof {
            let t = l@.skip(i as int);
            assert(t.len() > 0 && t[0] == ' ');
            assert(t.drop_first() =~= l@.skip(i + 1));
        }
        i = i + 1;
    }
    let mut r: Vec<char> = Vec::new();
    let mut k: usize = i;
    while k < l.len()
        invariant
            i <= k <= l@.len(),
            r@ == l@.subrange(i as int, k as int),
        decreases l.len() - k,
    {
        r.push(l[k]);
        k = k + 1;
        assert(r@ =~= l@.subrange(i as int, k as int));
    }
    proof {
        assert(r@ =~= l@.skip(i as int));
        let t = l@.skip(i as int);
        if t.len() > 0 {
            assert(t[0] != ' ');
        }
        assert(spec_trim_start(t) == t);
    }
    r
}

/// A line that carries content: after its leading spaces it is not empty and does not start a
/// comment.
pub open spec fn spec_is_content(l: Seq<char>) -> bool {
    let t = spec_trim_start(l);
    t.len() > 0 && t[0] != '#'
}

/// The index of the first content line at or after `i`, if any.
pub open spec fn spec_next_content(lines: Seq<Seq<char>>, i: int) -> Option<int>
    decreases lines.len() - i,
{
    if i < 0 || i >= lines.len() {
        None
    } else if spec_is_content(lines[i]) {
        Some(i)
    } else {
        spec_next_content(lines, i + 1)
    }
}

/// The first content line at or after `i`; see `spec_next_content`.
pub(crate) fn next_content(lines: &Vec<Vec<char>>, i: usize) -> (r: Option<usize>)
    ensures
        r.is_some() == spec_next_content(spec_views(lines@), i as int).is_some(),
        r matches Some(j) ==> spec_next_content(spec_views(lines@), i as int) == Some(j as int) && i <= j < lines@.len(),
    decreases lines@.len() - i,
{
    if i >= lines.len() {
        return None;
    }
    let t = trim_start(&lines[i]);
    proof { assert(spec_views(lines@)[i as int] == lines@[i as int]@); }
    if t.len() > 0 && t[0] != '#' {
        Some(i)
    } else {
        next_content(lines, i + 1)
    }
}

pub open spec fn spec_is_digit(c: char) -> bool {
    '0' <= c && c <= '9'
}

pub open spec fn spec_digit_value(c: char) -> nat {
    ((c as int) - 48) as nat
}

fn digit_value(c: char) -> (d: u64)
    requires
        spec_is_digit(c),
    ensures
        d == spec_digit_value(c),
        d < 10,
{
    (c as u32 - '0' as u32) as u64
}

/// The width of a `d=WxH` modifier: digits up to the `x` (from index `j`, value so far `w`);
/// gives the width and the index after the `x`.
pub open spec fn spec_dim_w(t: Seq<char>, j: int, w: nat) -> Option<(nat, int)>
    decreases t.len() - j,
{
    let c = spec_at(t, j);
    if spec_is_digit(c) && j < t.len() {
        spec_dim_w(t, j + 1, w * 10 + spec_digit_value(c))
    } else if c == 'x' {
        Some((w, j + 1))
    } else {
        None
    }
}

/// The height of a `d=WxH` modifier: digits up to the end of the line or a `#`; gives the
/// height and the index of that end.
pub open spec fn spec_dim_h(t: Seq<char>, j: int, h: nat) -> Option<(nat, int)>
    decreases t.len() - j,
{
    let c = spec_at(t, j);
    if spec_is_digit(c) && j < t.len() {
        spec_dim_h(t, j + 1, h * 10 + spec_digit_value(c))
    } else if c == '#' || c == '\n' {
        Some((h, j))
    } else {
        None
    }
}

/// Reads the header line `t` (without leading spaces) from index `k`: anything up to the end
/// or a `#` is ignored, except a `d=WxH` modifier, which must give a 17 by 17 floor.
pub open spec fn spec_header_ok(t: Seq<char>, k: int) -> bool
    decreases t.len() - k,
{
    let c = spec_at(t, k);
    if c == '#' || c == '\n' {
        true
    } else if c == 'd' {
        &&& spec_at(t, k + 1) == '='
        &&& match spec_dim_w(t, k + 2, 0) {
            None => false,
            Some((w, j)) => match spec_dim_h(t, j, 0) {
                None => false,
                Some((h, j2)) => w == 17 && h == 17,
            },
        }
    } else {
        k < t.len() && spec_header_ok(t, k + 1)
    }
}

proof fn lemma_dim_w_grows(t: Seq<char>, j: int, w: nat)
    ensures
        spec_dim_w(t, j, w) matches Some((w2, j2)) ==> w2 >= w && j2 > j && j2 <= t.len(),
    decreases t.len() - j,
{
    let c = spec_at(t, j);
    if spec_is_digit(c) && j < t.len() {
        lemma_dim_w_grows(t, j + 1, w * 10 + spec_digit_value(c));
    }
}

proof fn lemma_dim_h_grows(t: Seq<char>, j: int, h: nat)
    ensures
        spec_dim_h(t, j, h) matches Some((h2, j2)) ==> h2 >= h && j2 >= j,
    decreases t.len() - j,
{
    let c = spec_at(t, j);
    if spec_is_digit(c) && j < t.len() {
        lemma_dim_h_grows(t, j + 1, h * 10 + spec_digit_value(c));
    }
}

/// See `spec_dim_w`; `None` also when the width grows past 17 (then no valid header follows).
fn dim_w(t: &Vec<char>, j0: usize) -> (r: Option<(usize, usize)>)
    requires
        j0 <= t@.len() + 2,
    ensures
        match spec_dim_w(t@, j0 as int, 0) {
            Some((w, j)) => if w == 17 { r == Some((17usize, j as usize)) && j <= t@.len() } else { r.is_none() },
            None => r.is_none(),
        },
{
    let mut w: usize = 0;
    let mut j: usize = j0;
    proof { lemma_dim_w_grows(t@, j0 as int, 0); }
    while j < t.len() && '0' <= t[j] && t[j] <= '9'
        invariant
            j0 <= j <= t@.len() + 2,
            w <= 17,
            spec_dim_w(t@, j as int, w as nat) == spec_dim_w(t@, j0 as int, 0),
        decreases t.len() - j,
    {
        let d = digit_value(t[j]);
        proof { lemma_dim_w_grows(t@, j + 1, (w * 10 + d) as nat); }
        if w * 10 + d as usize > 17 {
            return None;
        }
        w = w * 10 + d as usize;
        j = j + 1;
    }
    if char_at(t, j) == 'x' {
        if w == 17 { Some((w, j + 1)) } else { None }
    } else {
        None
    }
}

/// See `spec_dim_h`; `None` also when the height grows past 17.
fn dim_h(t: &Vec<char>, j0: usize) -> (r: Option<(usize, usize)>)
    requires
        j0 <= t@.len() + 3,
    ensures
        match spec_dim_h(t@, j0 as int, 0) {
            Some((h, j)) => if h == 17 { r == Some((17usize, j as usize)) } else { r.is_none() },
            None => r.is_none(),
        },
{
    let mut h: usize = 0;
    let mut j: usize = j0;
    proof { lemma_dim_h_grows(t@, j0 as int, 0); }
    while j < t.len() && '0' <= t[j] && t[j] <= '9'
        invariant
            j0 <= j <= t@.len() + 3,
            h <= 17,
            spec_dim_h(t@, j as int, h as nat) == spec_dim_h(t@, j0 as int, 0),
        decreases t.len() - j,
    {
        let d = digit_value(t[j]);
        proof { lemma_dim_h_grows(t@, j + 1, (h * 10 + d) as nat); }
        if h * 10 + d as usize > 17 {
            return None;
        }
        h = h * 10 + d as usize;
        j = j + 1;
    }
    let c = char_at(t, j);
    if (c == '#' || c == '\n') && h == 17 { Some((h, j)) } else { None }
}

/// Checks the header line (without leading spaces); see `spec_header_ok`.
pub fn header_ok(t: &Vec<char>) -> (r: bool)
    ensures
        r == spec_header_ok(t@, 0),
{
    let mut k: usize = 0;
    while k <= t.len()
        invariant
            spec_header_ok(t@, k as int) == spec_header_ok(t@, 0),
        decreases t.len() + 1 - k,
    {
        let c = char_at(t, k);
        if c == '#' || c == '\n' {
            return true;
        } else if c == 'd' {
            if char_at(t, k + 1) != '=' {
                return false;
            }
            let rw = dim_w(t, k + 2);
            match rw {
                None => {
                    return false;
                },
                Some((_w, j)) => {
                    proof {
                        match spec_dim_w(t@, k + 2, 0) {
                            Some((w2, j2)) => {
                                lemma_dim_w_grows(t@, k + 2, 0);
                                assert(w2 == 17);
                                assert(0 <= j2 <= t@.len());
                                assert(j as int == j2);
                            },
                            None => {
                                assert(false);
                            },
                        }
                    }
                    let rh = dim_h(t, j);
                    match rh {
                        None => {
                            return false;
                        },
                        Some((_h, _j2)) => {
                            proof {
                                match spec_dim_h(t@, j as int, 0) {
                                    Some((h2, j3)) => {
                                        assert(h2 == 17);
                                    },
                                    None => {
                                        assert(false);
                                    },
                                }
                            }
                            return true;
                        },
                    }
                },
            }
        } else {
            k = k + 1;
        }
    }
    proof { assert(spec_at(t@, k as int) == '#'); }
    true
}

/// The port that an indicator character on side `dir` of a cell stands for: an arrow out of
/// the cell is outbound, one into it inbound, `?` unknown, and a space or a box line no port.
pub open spec fn spec_port_of(c: char, dir: Direction) -> Option<Port> {
    let (out_c, in_c) = match dir {
        Direction::Up => ('^', 'v'),
        Direction::Right => ('>', '<'),
        Direction::Down => ('v', '^'),
        Direction::Left => ('<', '>'),
    };
    if c == out_c { Some(Port::Outbound) }
    else if c == in_c { Some(Port::Inbound) }
    else if c == '?' { Some(Port::Unknown) }
    else if c == ' ' || c == '─' || c == '│' { Some(Port::Absent) }
    else { None }
}

/// The character the map format writes for a port on side `dir` (for a side without a port it
/// writes a space, a border line or an icon instead).
pub open spec fn spec_port_arrow(p: Port, dir: Direction) -> char {
    let (out_c, in_c) = match dir {
        Direction::Up => ('^', 'v'),
        Direction::Right => ('>', '<'),
        Direction::Down => ('v', '^'),
        Direction::Left => ('<', '>'),
    };
    match p {
        Port::Outbound => out_c,
        Port::Inbound => in_c,
        _ => '?',
    }
}

/// Reading back the character written for a port gives the port.
pub proof fn lemma_port_arrow_roundtrip(p: Port, dir: Direction)
    requires
        p != Port::Absent,
    ensures
        spec_port_of(spec_port_arrow(p, dir), dir) == Some(p),
{
}

/// See `spec_port_of`.
pub fn port_of(c: char, dir: Direction) -> (r: Option<Port>)
    ensures
        r == spec_port_of(c, dir),
{
    let (out_c, in_c) = match dir {
        Direction::Up => ('^', 'v'),
        Direction::Right => ('>', '<'),
        Direction::Down => ('v', '^'),
        Direction::Left => ('<', '>'),
    };
    if c == out_c { Some(Port::Outbound) }
    else if c == in_c { Some(Port::Inbound) }
    else if c == '?' { Some(Port::Unknown) }
    else if c == ' ' || c == '─' || c == '│' { Some(Port::Absent) }
    else { None }
}

/// What a cell of the map grid says.
#[derive(Clone, Copy, Debug, PartialEq, Eq, Structural)]
pub enum CellDesc {
    Empty,
    /// A belt whose ports are all to be discovered.
    BeltUnknown,
    /// A belt with the given ports (up, right, down, left).
    Belt(Port, Port, Port, Port),
    /// A cell of the machine with the given id, with the given ports.
    Machine(char, Port, Port, Port, Port),
    /// A supplier; the character is where the map names the part it gives.
    Supply(char),
    /// A demander; the character is where the map names the part it asks for.
    Demand(char),
}

/// The box drawing characters that stand for a belt (its shape comes from its ports).
pub open spec fn spec_is_belt_glyph(e: char) -> bool {
    e == '╹' || e == '╺' || e == '╻' || e == '╸' || e == '╷' || e == '╴' || e == '╵' || e == '╶'
        || e == '╚' || e == '╔' || e == '╗' || e == '╝' || e == '║' || e == '═' || e == '╩' || e == '╠'
        || e == '╦' || e == '╣' || e == '╬'
}

/// Machine ids: digits 1 to 9 and letters, but for `b`, which stands for a belt.
pub open spec fn spec_is_machine_id(e: char) -> bool {
    ('1' <= e && e <= '9') || ('a' <= e && e <= 'z' && e != 'b') || ('A' <= e && e <= 'Z')
}

/// Where the map names the part of a supplier or demander on the edge cell (i, j): right of it
/// on the top and bottom rows, below it on the left and right columns (`f` is the character
/// right of the center, `h` the one below it).
pub open spec fn spec_edge_part_char(f: char, h: char, i: int, j: int) -> char {
    if (j == 0 || j == FLOOR_CELLS_H - 1) && i < FLOOR_CELLS_W - 1 { f } else { h }
}

/// The four ports given by the indicators up, right, down and left of a cell.
pub open spec fn spec_ports_of(b: char, f: char, h: char, d: char) -> Option<(Port, Port, Port, Port)> {
    match (spec_port_of(b, Direction::Up), spec_port_of(f, Direction::Right), spec_port_of(h, Direction::Down), spec_port_of(d, Direction::Left)) {
        (Some(u), Some(r), Some(dd), Some(l)) => Some((u, r, dd, l)),
        _ => None,
    }
}

/// What the cell at (i, j) is, given its center character `e` and its port indicators up
/// (`b`), right (`f`), down (`h`) and left (`d`): a space or dot is empty; `b` or a box
/// glyph inside the edge is a belt with the ports its indicators show, `%` one whose ports are
/// unknown; `s` and `d` on the edge are a supplier and a demander with the part named beside
/// them (see `spec_edge_part_char`); `s`, `d` and any other machine id inside the edge are a
/// machine cell.
pub open spec fn spec_cell_desc(e: char, b: char, f: char, h: char, d: char, i: int, j: int) -> Result<CellDesc, ParseError> {
    let machine = match spec_ports_of(b, f, h, d) {
        Some((u, r, dd, l)) => Ok(CellDesc::Machine(e, u, r, dd, l)),
        None => Err(ParseError::BadPort),
    };
    if e == 's' || e == 'd' {
        if spec_is_middle(i, j) {
            machine
        } else if e == 's' {
            Ok(CellDesc::Supply(spec_edge_part_char(f, h, i, j)))
        } else {
            Ok(CellDesc::Demand(spec_edge_part_char(f, h, i, j)))
        }
    } else if e == ' ' || e == '.' {
        Ok(CellDesc::Empty)
    } else if e == '%' {
        if spec_is_middle(i, j) { Ok(CellDesc::BeltUnknown) } else { Err(ParseError::BadCenter) }
    } else if e == 'b' || spec_is_belt_glyph(e) {
        if !spec_is_middle(i, j) {
            Err(ParseError::BadCenter)
        } else {
            match spec_ports_of(b, f, h, d) {
                Some((u, r, dd, l)) => Ok(CellDesc::Belt(u, r, dd, l)),
                None => Err(ParseError::BadPort),
            }
        }
    } else if spec_is_machine_id(e) {
        if spec_is_middle(i, j) { machine } else { Err(ParseError::BadCenter) }
    } else {
        Err(ParseError::BadCenter)
    }
}

fn ports_of(b: char, f: char, h: char, d: char) -> (r: Option<(Port, Port, Port, Port)>)
    ensures
        r == spec_ports_of(b, f, h, d),
{
    match (port_of(b, Direction::Up), port_of(f, Direction::Right), port_of(h, Direction::Down), port_of(d, Direction::Left)) {
        (Some(u), Some(r), Some(dd), Some(l)) => Some((u, r, dd, l)),
        _ => None,
    }
}

/// See `spec_cell_desc`.
pub fn cell_desc(e: char, b: char, f: char, h: char, d: char, i: usize, j: usize) -> (r: Result<CellDesc, ParseError>)
    ensures
        r == spec_cell_desc(e, b, f, h, d, i as int, j as int),
{
    let machine = match ports_of(b, f, h, d) {
        Some((u, r, dd, l)) => Ok(CellDesc::Machine(e, u, r, dd, l)),
        None => Err(ParseError::BadPort),
    };
    if e == 's' || e == 'd' {
        let p = if (j == 0 || j == FLOOR_CELLS_H - 1) && i < FLOOR_CELLS_W - 1 { f } else { h };
        if i > 0 && j > 0 && i < FLOOR_CELLS_W - 1 && j < FLOOR_CELLS_H - 1 {
            machine
        } else if e == 's' {
            Ok(CellDesc::Supply(p))
        } else {
            Ok(CellDesc::Demand(p))
        }
    } else if e == ' ' || e == '.' {
        Ok(CellDesc::Empty)
    } else if e == '%' {
        if i > 0 && j > 0 && i < FLOOR_CELLS_W - 1 && j < FLOOR_CELLS_H - 1 { Ok(CellDesc::BeltUnknown) } else { Err(ParseError::BadCenter) }
    } else if e == 'b' || e == '╹' || e == '╺' || e == '╻' || e == '╸' || e == '╷' || e == '╴' || e == '╵' || e == '╶'
        || e == '╚' || e == '╔' || e == '╗' || e == '╝' || e == '║' || e == '═' || e == '╩' || e == '╠'
        || e == '╦' || e == '╣' || e == '╬' {
        if !(i > 0 && j > 0 && i < FLOOR_CELLS_W - 1 && j < FLOOR_CELLS_H - 1) {
            Err(ParseError::BadCenter)
        } else {
            match ports_of(b, f, h, d) {
                Some((u, r, dd, l)) => Ok(CellDesc::Belt(u, r, dd, l)),
                None => Err(ParseError::BadPort),
            }
        }
    } else if ('1' <= e && e <= '9') || ('a' <= e && e <= 'z' && e != 'b') || ('A' <= e && e <= 'Z') {
        if i > 0 && j > 0 && i < FLOOR_CELLS_W - 1 && j < FLOOR_CELLS_H - 1 { machine } else { Err(ParseError::BadCenter) }
    } else {
        Err(ParseError::BadCenter)
    }
}

/// The cells of one row of the grid, read from its three lines (without leading spaces): cell
/// `i` takes characters `3i` to `3i + 2` of each line, the middle line's middle character
/// being its center. Gives the first `k` cells, or the error of the first bad one.
pub open spec fn spec_row_descs(t1: Seq<char>, t2: Seq<char>, t3: Seq<char>, j: int, k: nat) -> Result<Seq<CellDesc>, ParseError>
    decreases k,
{
    if k == 0 {
        Ok(seq![])
    } else {
        match spec_row_descs(t1, t2, t3, j, (k - 1) as nat) {
            Err(e) => Err(e),
            Ok(descs) => {
                let i = k - 1;
                match spec_cell_desc(spec_at(t2, 3 * i + 1), spec_at(t1, 3 * i + 1), spec_at(t2, 3 * i + 2), spec_at(t3, 3 * i + 1), spec_at(t2, 3 * i), i, j) {
                    Err(e) => Err(e),
                    Ok(desc) => Ok(descs.push(desc)),
                }
            },
        }
    }
}

/// Reads one row of the grid; see `spec_row_descs`.
fn row_descs(t1: &Vec<char>, t2: &Vec<char>, t3: &Vec<char>, j: usize) -> (r: Result<Vec<CellDesc>, ParseError>)
    ensures
        match spec_row_descs(t1@, t2@, t3@, j as int, FLOOR_CELLS_W as nat) {
            Ok(d) => r matches Ok(v) && v@ == d,
            Err(e) => r == Err::<Vec<CellDesc>, ParseError>(e),
        },
{
    let mut out: Vec<CellDesc> = Vec::new();
    let mut i: usize = 0;
    while i < FLOOR_CELLS_W
        invariant
            i <= FLOOR_CELLS_W,
            spec_row_descs(t1@, t2@, t3@, j as int, i as nat) == Ok::<Seq<CellDesc>, ParseError>(out@),
        decreases FLOOR_CELLS_W - i,
    {
        let r = cell_desc(char_at(t2, 3 * i + 1), char_at(t1, 3 * i + 1), char_at(t2, 3 * i + 2), char_at(t3, 3 * i + 1), char_at(t2, 3 * i), i, j);
        match r {
            Err(e) => {
                proof { lemma_row_descs_err(t1@, t2@, t3@, j as int, (i + 1) as nat, FLOOR_CELLS_W as nat); }
                return Err(e);
            },
            Ok(desc) => {
                out.push(desc);
            },
        }
        i = i + 1;
    }
    Ok(out)
}

/// Once a row has a bad cell, reading more of it keeps that error.
proof fn lemma_row_descs_err(t1: Seq<char>, t2: Seq<char>, t3: Seq<char>, j: int, k: nat, n: nat)
    requires
        k <= n,
        spec_row_descs(t1, t2, t3, j, k) is Err,
    ensures
        spec_row_descs(t1, t2, t3, j, n) == spec_row_descs(t1, t2, t3, j, k),
    decreases n - k,
{
    if k < n {
        lemma_row_descs_err(t1, t2, t3, j, k, (n - 1) as nat);
    }
}

/// The cells of the first `r` rows of the grid, reading lines from index `pos` on (each row
/// takes its next three content lines); gives the cells and the index after the last line.
pub open spec fn spec_grid(lines: Seq<Seq<char>>, pos: int, r: nat) -> Result<(Seq<CellDesc>, int), ParseError>
    decreases r,
{
    if r == 0 {
        Ok((seq![], pos))
    } else {
        match spec_grid(lines, pos, (r - 1) as nat) {
            Err(e) => Err(e),
            Ok((descs, p)) => match spec_next_content(lines, p) {
                None => Err(ParseError::MissingLines),
                Some(a) => match spec_next_content(lines, a + 1) {
                    None => Err(ParseError::MissingLines),
                    Some(b) => match spec_next_content(lines, b + 1) {
                        None => Err(ParseError::MissingLines),
                        Some(c) => match spec_row_descs(spec_trim_start(lines[a]), spec_trim_start(lines[b]), spec_trim_start(lines[c]), r - 1, FLOOR_CELLS_W as nat) {
                            Err(e) => Err(e),
                            Ok(row) => Ok((descs + row, c + 1)),
                        },
                    },
                },
            },
        }
    }
}

proof fn lemma_next_content_bounds(lines: Seq<Seq<char>>, i: int)
    ensures
        spec_next_content(lines, i) matches Some(j) ==> i <= j < lines.len() && spec_is_content(lines[j]),
    decreases lines.len() - i,
{
    if 0 <= i < lines.len() && !spec_is_content(lines[i]) {
        lemma_next_content_bounds(lines, i + 1);
    }
}

proof fn lemma_grid_err(lines: Seq<Seq<char>>, pos: int, r: nat, n: nat)
    requires
        r <= n,
        spec_grid(lines, pos, r) is Err,
    ensures
        spec_grid(lines, pos, n) == spec_grid(lines, pos, r),
    decreases n - r,
{
    if r < n {
        lemma_grid_err(lines, pos, r, (n - 1) as nat);
    }
}

/// Reads the rows of the grid from line `pos` on; see `spec_grid`.
pub(crate) fn parse_grid(lines: &Vec<Vec<char>>, pos: usize) -> (r: Result<(Vec<CellDesc>, usize), ParseError>)
    requires
        pos <= lines@.len(),
    ensures
        match spec_grid(spec_views(lines@), pos as int, FLOOR_CELLS_H as nat) {
            Ok((d, p)) => r matches Ok((v, q)) && v@ == d && q == p && q <= lines@.len(),
            Err(e) => r == Err::<(Vec<CellDesc>, usize), ParseError>(e),
        },
{
    let ghost ls = spec_views(lines@);
    let n = lines.len();
    let mut descs: Vec<CellDesc> = Vec::new();
    let mut p: usize = pos;
    let mut row: usize = 0;
    while row < FLOOR_CELLS_H
        invariant
            n == lines@.len(),
            ls == spec_views(lines@),
            row <= FLOOR_CELLS_H,
            p <= lines@.len(),
            spec_grid(ls, pos as int, row as nat) == Ok::<(Seq<CellDesc>, int), ParseError>((descs@, p as int)),
        decreases FLOOR_CELLS_H - row,
    {
        proof { lemma_next_content_bounds(ls, p as int); }
        let a = match next_content(lines, p) {
            None => {
                proof { lemma_grid_err(ls, pos as int, (row + 1) as nat, FLOOR_CELLS_H as nat); }
                return Err(ParseError::MissingLines);
            },
            Some(a) => a,
        };
        proof {
            assert(ls.len() == lines@.len());
            assert(a < lines@.len());
            lemma_next_content_bounds(ls, a + 1);
        }
        let b = match next_content(lines, a + 1) {
            None => {
                proof { lemma_grid_err(ls, pos as int, (row + 1) as nat, FLOOR_CELLS_H as nat); }
                return Err(ParseError::MissingLines);
            },
            Some(b) => b,
        };
        proof {
            assert(b < lines@.len());
            lemma_next_content_bounds(ls, b + 1);
        }
        let c = match next_content(lines, b + 1) {
            None => {
                proof { lemma_grid_err(ls, pos as int, (row + 1) as nat, FLOOR_CELLS_H as nat); }
                return Err(ParseError::MissingLines);
            },
            Some(c) => c,
        };
        proof {
            assert(ls[a as int] == lines@[a as int]@);
            assert(ls[b as int] == lines@[b as int]@);
            assert(ls[c as int] == lines@[c as int]@);
        }
        let t1 = trim_start(&lines[a]);
        let t2 = trim_start(&lines[b]);
        let t3 = trim_start(&lines[c]);
        match row_descs(&t1, &t2, &t3, row) {
            Err(e) => {
                proof { lemma_grid_err(ls, pos as int, (row + 1) as nat, FLOOR_CELLS_H as nat); }
                return Err(e);
            },
            Ok(mut rd) => {
                let ghost old_descs = descs@;
                descs.append(&mut rd);
                p = c + 1;
                proof { assert(descs@ =~= old_descs + rd@.take(0) + (descs@.skip(old_descs.len() as int))); }
            },
        }
        row = row + 1;
    }
    Ok((descs, p))
}

/// The next character at or after `i` that is not a space, and the index after it.
pub open spec fn spec_next_ns(t: Seq<char>, i: int) -> (char, int)
    decreases t.len() - i,
{
    let c = spec_at(t, i);
    if c == ' ' && 0 <= i < t.len() { spec_next_ns(t, i + 1) } else { (c, i + 1) }
}

proof fn lemma_next_ns(t: Seq<char>, i: int)
    requires
        i >= 0,
    ensures
        spec_next_ns(t, i).1 > i,
        spec_next_ns(t, i).0 == spec_at(t, spec_next_ns(t, i).1 - 1),
        spec_next_ns(t, i).1 <= t.len() + 1 || spec_next_ns(t, i).1 == i + 1,
    decreases t.len() - i,
{
    let c = spec_at(t, i);
    if c == ' ' && 0 <= i < t.len() {
        lemma_next_ns(t, i + 1);
    }
}

/// See `spec_next_ns`.
fn next_ns(t: &Vec<char>, i: usize) -> (r: (char, usize))
    requires
        i <= t@.len() + 2,
        t@.len() + 3 <= usize::MAX,
    ensures
        r.0 == spec_next_ns(t@, i as int).0,
        r.1 == spec_next_ns(t@, i as int).1,
        r.1 <= t@.len() + 3,
        r.0 != '#' ==> r.1 <= t@.len(),
{
    proof { lemma_next_ns(t@, i as int); }
    let mut k: usize = i;
    while k < t.len() && t[k] == ' '
        invariant
            i <= k <= t@.len() + 2,
            spec_next_ns(t@, k as int) == spec_next_ns(t@, i as int),
        decreases t.len() - k,
    {
        k = k + 1;
    }
    (char_at(t, k), k + 1)
}

/// The outcome of reading a number.
pub enum NumberRead {
    /// The digits were fine: the value, the character that ended them and the index after it.
    Done(nat, char, int),
    /// A character other than a digit, a space or `#` came up.
    Bad,
    /// The value does not fit in a `u64`.
    TooLarge,
}

/// Reads digits, the current character being `c` and the next index `i`, the value so far
/// being `v`, up to a space or `#` (the end of the line reads as `#`).
pub open spec fn spec_number(t: Seq<char>, c: char, i: int, v: nat) -> NumberRead
    decreases t.len() + 1 - i,
{
    if spec_is_digit(c) {
        let v2 = v * 10 + spec_digit_value(c);
        if v2 > u64::MAX {
            NumberRead::TooLarge
        } else if i <= t.len() {
            spec_number(t, spec_at(t, i), i + 1, v2)
        } else {
            NumberRead::Bad
        }
    } else if c == '#' || c == ' ' {
        NumberRead::Done(v, c, i)
    } else {
        NumberRead::Bad
    }
}

/// See `spec_number`.
fn number(t: &Vec<char>, c0: char, i0: usize) -> (r: Result<(u64, char, usize), ParseError>)
    requires
        i0 <= t@.len() + 3,
        t@.len() + 3 <= usize::MAX,
    ensures
        match spec_number(t@, c0, i0 as int, 0) {
            NumberRead::Done(v, c, i) => r == Ok::<(u64, char, usize), ParseError>((v as u64, c, i as usize))
                && i <= (if i0 > t@.len() + 1 { i0 as int } else { t@.len() + 1int }),
            NumberRead::Bad => r == Err::<(u64, char, usize), ParseError>(ParseError::BadAugment),
            NumberRead::TooLarge => r == Err::<(u64, char, usize), ParseError>(ParseError::NumberTooLarge),
        },
{
    let mut v: u64 = 0;
    let mut c = c0;
    let mut i = i0;
    while '0' <= c && c <= '9'
        invariant
            t@.len() + 3 <= usize::MAX,
            i0 <= i <= t@.len() + 3,
            i <= (if i0 > t@.len() + 1 { i0 as int } else { t@.len() + 1int }),
            spec_number(t@, c, i as int, v as nat) == spec_number(t@, c0, i0 as int, 0),
        decreases t.len() + 2 - i,
    {
        let d = digit_value(c);
        if v > (u64::MAX - d) / 10 {
            return Err(ParseError::NumberTooLarge);
        }
        v = v * 10 + d;
        if i > t.len() {
            return Err(ParseError::BadAugment);
        }
        c = char_at(t, i);
        i = i + 1;
    }
    if c == '#' || c == ' ' {
        Ok((v, c, i))
    } else {
        Err(ParseError::BadAugment)
    }
}

pub open spec fn spec_is_alnum(c: char) -> bool {
    ('0' <= c && c <= '9') || ('a' <= c && c <= 'z') || ('A' <= c && c <= 'Z')
}

/// The number written by the character `c`: `0`-`9`, then `a`-`z` for 10 to 35, then `A`-`Z`
/// for 36 to 61.
pub open spec fn spec_alnum_to_n(c: char) -> nat {
    if '0' <= c && c <= '9' { ((c as int) - 48) as nat }
    else if 'a' <= c && c <= 'z' { ((c as int) - 97 + 10) as nat }
    else { ((c as int) - 65 + 36) as nat }
}

/// The character that writes the number `n`: `0`-`9`, then `a`-`z`, then `A` and on.
pub open spec fn spec_n_to_alnum(n: nat) -> char {
    if n <= 9 { (48 + n) as char } else if n <= 35 { (97 + n - 10) as char } else { (65 + n - 36) as char }
}

/// See `spec_alnum_to_n`.
pub fn alnum_to_n(c: char) -> (n: u8)
    requires
        spec_is_alnum(c),
    ensures
        n == spec_alnum_to_n(c),
{
    if '0' <= c && c <= '9' {
        (c as u32 - '0' as u32) as u8
    } else if 'a' <= c && c <= 'z' {
        (c as u32 - 'a' as u32 + 10) as u8
    } else {
        (c as u32 - 'A' as u32 + 36) as u8
    }
}

/// See `spec_n_to_alnum`.
pub fn n_to_alnum(n: u8) -> (c: char)
    requires
        n <= 61,
    ensures
        c == spec_n_to_alnum(n as nat),
{
    if n <= 9 {
        (('0' as u8) + n) as char
    } else if n <= 35 {
        (('a' as u8) + (n - 10)) as char
    } else {
        (('A' as u8) + (n - 36)) as char
    }
}

/// Writing a number as a character and reading it back gives the number.
pub proof fn lemma_alnum_roundtrip_n(n: nat)
    requires
        n <= 61,
    ensures
        spec_is_alnum(spec_n_to_alnum(n)),
        spec_alnum_to_n(spec_n_to_alnum(n)) == n,
{
}

/// Reading a character as a number and writing it back gives the character.
pub proof fn lemma_alnum_roundtrip_c(c: char)
    requires
        spec_is_alnum(c),
    ensures
        spec_alnum_to_n(c) <= 61,
        spec_n_to_alnum(spec_alnum_to_n(c)) == c,
{
}

/// Characters allowed as part icons in parameter lines: ASCII letters, and characters whose
/// low byte is above 127.
pub open spec fn spec_icon_ok(c: char) -> bool {
    ('a' <= c && c <= 'z') || ('A' <= c && c <= 'Z') || (c as u32) % 256 > 127
}

fn icon_ok(c: char) -> (r: bool)
    ensures
        r == spec_icon_ok(c),
{
    ('a' <= c && c <= 'z') || ('A' <= c && c <= 'Z') || (c as u32) % 256 > 127
}

/// Reads the `s:<digits>` and `c:<digits>` modifiers of a supplier or demander line from index
/// `i` to the end of the line, starting from the given speed and cooldown.
pub open spec fn spec_mods(t: Seq<char>, i: int, speed: nat, cooldown: nat) -> Result<(nat, nat), ParseError>
    decreases t.len() + 2 - i,
{
    let (c, i1) = spec_next_ns(t, i);
    if c == '#' {
        Ok((speed, cooldown))
    } else if c == 's' || c == 'c' {
        let (c2, i2) = spec_next_ns(t, i1);
        if c2 != ':' {
            Err(ParseError::BadAugment)
        } else {
            let (c3, i3) = spec_next_ns(t, i2);
            match spec_number(t, c3, i3, 0) {
                NumberRead::Bad => Err(ParseError::BadAugment),
                NumberRead::TooLarge => Err(ParseError::NumberTooLarge),
                NumberRead::Done(v, _c4, i4) => if i < i4 <= t.len() + 2 {
                    spec_mods(t, i4, if c == 's' { v } else { speed }, if c == 'c' { v } else { cooldown })
                } else {
                    Err(ParseError::BadAugment)
                },
            }
        }
    } else {
        Err(ParseError::BadAugment)
    }
}

proof fn lemma_mods_bounds(t: Seq<char>, i: int, speed: nat, cooldown: nat)
    requires
        speed <= u64::MAX,
        cooldown <= u64::MAX,
    ensures
        spec_mods(t, i, speed, cooldown) matches Ok((s, c)) ==> s <= u64::MAX && c <= u64::MAX,
    decreases t.len() + 2 - i,
{
    let (c, i1) = spec_next_ns(t, i);
    if c == 's' || c == 'c' {
        let (c2, i2) = spec_next_ns(t, i1);
        let (c3, i3) = spec_next_ns(t, i2);
        lemma_number_index(t, c3, i3, 0);
        match spec_number(t, c3, i3, 0) {
            NumberRead::Done(v, _c4, i4) => if i < i4 <= t.len() + 2 {
                lemma_mods_bounds(t, i4, if c == 's' { v } else { speed }, if c == 'c' { v } else { cooldown });
            },
            _ => {},
        }
    }
}

proof fn lemma_number_index(t: Seq<char>, c: char, i: int, v: nat)
    requires
        v <= u64::MAX,
    ensures
        spec_number(t, c, i, v) matches NumberRead::Done(v2, _c, i2) ==> i2 >= i && v2 <= u64::MAX,
    decreases t.len() + 1 - i,
{
    if spec_is_digit(c) && v * 10 + spec_digit_value(c) <= u64::MAX && i <= t.len() {
        lemma_number_index(t, spec_at(t, i), i + 1, v * 10 + spec_digit_value(c));
    }
}

/// See `spec_mods`.
fn mods(t: &Vec<char>, i0: usize, speed0: u64, cooldown0: u64) -> (r: Result<(u64, u64), ParseError>)
    requires
        i0 <= t@.len() + 2,
        t@.len() + 3 <= usize::MAX,
    ensures
        match spec_mods(t@, i0 as int, speed0 as nat, cooldown0 as nat) {
            Ok((s, c)) => r == Ok::<(u64, u64), ParseError>((s as u64, c as u64)),
            Err(e) => r == Err::<(u64, u64), ParseError>(e),
        },
{
    let mut i = i0;
    let mut speed = speed0;
    let mut cooldown = cooldown0;
    proof { lemma_mods_bounds(t@, i0 as int, speed0 as nat, cooldown0 as nat); }
    loop
        invariant
            i <= t@.len() + 2,
            t@.len() + 3 <= usize::MAX,
            spec_mods(t@, i as int, speed as nat, cooldown as nat) == spec_mods(t@, i0 as int, speed0 as nat, cooldown0 as nat),
        decreases t.len() + 2 - i,
    {
        proof { lemma_next_ns(t@, i as int); }
        let (c, i1) = next_ns(t, i);
        if c == '#' {
            return Ok((speed, cooldown));
        } else if c == 's' || c == 'c' {
            proof { lemma_next_ns(t@, i1 as int); }
            let (c2, i2) = next_ns(t, i1);
            if c2 != ':' {
                return Err(ParseError::BadAugment);
            }
            proof { lemma_next_ns(t@, i2 as int); }
            let (c3, i3) = next_ns(t, i2);
            proof { lemma_number_index(t@, c3, i3 as int, 0); }
            match number(t, c3, i3) {
                Err(e) => {
                    return Err(e);
                },
                Ok((v, _c4, i4)) => {
                    if c == 's' {
                        speed = v;
                    } else {
                        cooldown = v;
                    }
                    i = i4;
                },
            }
        } else {
            return Err(ParseError::BadAugment);
        }
    }
}

/// A parameter line for the `nth` supplier: the part it gives, its speed and cooldown.
pub struct SupplyAugment {
    pub nth: u8,
    pub gives: char,
    pub speed: u64,
    pub cooldown: u64,
}

/// Reads a supplier line `s<n> = <part> [s:<speed>] [c:<cooldown>]` (without leading spaces;
/// speed and cooldown default to 1).
pub open spec fn spec_supply_line(t: Seq<char>) -> Result<(nat, char, nat, nat), ParseError> {
    let (c, i) = spec_next_ns(t, 1);
    if !spec_is_alnum(c) {
        Err(ParseError::BadAugment)
    } else {
        let (c2, i2) = spec_next_ns(t, i);
        if c2 != '=' {
            Err(ParseError::BadAugment)
        } else {
            let (c3, i3) = spec_next_ns(t, i2);
            if !spec_icon_ok(c3) {
                Err(ParseError::BadAugment)
            } else {
                match spec_mods(t, i3, 1, 1) {
                    Err(e) => Err(e),
                    Ok((speed, cooldown)) => Ok((spec_alnum_to_n(c), c3, speed, cooldown)),
                }
            }
        }
    }
}

/// See `spec_supply_line`.
pub fn supply_line(t: &Vec<char>) -> (r: Result<SupplyAugment, ParseError>)
    requires
        t@.len() + 3 <= usize::MAX,
    ensures
        match spec_supply_line(t@) {
            Ok((n, g, s, c)) => r matches Ok(a) && a.nth == n && a.gives == g && a.speed == s && a.cooldown == c,
            Err(e) => r matches Err(e2) && e2 == e,
        },
{
    proof { lemma_next_ns(t@, 1); }
    let (c, i) = next_ns(t, 1);
    if !(('0' <= c && c <= '9') || ('a' <= c && c <= 'z') || ('A' <= c && c <= 'Z')) {
        return Err(ParseError::BadAugment);
    }
    let nth = alnum_to_n(c);
    proof { lemma_next_ns(t@, i as int); }
    let (c2, i2) = next_ns(t, i);
    if c2 != '=' {
        return Err(ParseError::BadAugment);
    }
    proof { lemma_next_ns(t@, i2 as int); }
    let (c3, i3) = next_ns(t, i2);
    if !icon_ok(c3) {
        return Err(ParseError::BadAugment);
    }
    proof { lemma_mods_bounds(t@, i3 as int, 1, 1); }
    match mods(t, i3, 1, 1) {
        Err(e) => Err(e),
        Ok((speed, cooldown)) => Ok(SupplyAugment { nth, gives: c3, speed, cooldown }),
    }
}

/// Reads a demander line `d<n> [s:<speed>] [c:<cooldown>]` (without leading spaces; speed and
/// cooldown default to 1).
pub open spec fn spec_demand_line(t: Seq<char>) -> Result<(nat, nat, nat), ParseError> {
    let (c, i) = spec_next_ns(t, 1);
    if !spec_is_alnum(c) {
        Err(ParseError::BadAugment)
    } else {
        match spec_mods(t, i, 1, 1) {
            Err(e) => Err(e),
            Ok((speed, cooldown)) => Ok((spec_alnum_to_n(c), speed, cooldown)),
        }
    }
}

/// See `spec_demand_line`.
pub fn demand_line(t: &Vec<char>) -> (r: Result<(u8, u64, u64), ParseError>)
    requires
        t@.len() + 3 <= usize::MAX,
    ensures
        match spec_demand_line(t@) {
            Ok((n, s, c)) => r == Ok::<(u8, u64, u64), ParseError>((n as u8, s as u64, c as u64)),
            Err(e) => r == Err::<(u8, u64, u64), ParseError>(e),
        },
{
    proof { lemma_next_ns(t@, 1); }
    let (c, i) = next_ns(t, 1);
    if !(('0' <= c && c <= '9') || ('a' <= c && c <= 'z') || ('A' <= c && c <= 'Z')) {
        return Err(ParseError::BadAugment);
    }
    let nth = alnum_to_n(c);
    match mods(t, i, 1, 1) {
        Err(e) => Err(e),
        Ok((speed, cooldown)) => Ok((nth, speed, cooldown)),
    }
}

/// Reads the unlocked part icons of a `$` line from index `i` to the end of the line (or a
/// `#`), adding each icon not yet in `acc`.
pub open spec fn spec_unlocks(t: Seq<char>, i: int, acc: Seq<char>) -> Result<Seq<char>, ParseError>
    decreases t.len() + 1 - i,
{
    let c = spec_at(t, i);
    if c == '#' || i >= t.len() {
        Ok(acc)
    } else if c == ' ' {
        spec_unlocks(t, i + 1, acc)
    } else if !spec_icon_ok(c) {
        Err(ParseError::BadAugment)
    } else {
        spec_unlocks(t, i + 1, if acc.contains(c) { acc } else { acc.push(c) })
    }
}

/// See `spec_unlocks`.
fn unlocks_line(t: &Vec<char>, i0: usize, acc: &mut Vec<char>) -> (r: Result<(), ParseError>)
    ensures
        match spec_unlocks(t@, i0 as int, old(acc)@) {
            Ok(s) => r is Ok && final(acc)@ == s,
            Err(e) => r == Err::<(), ParseError>(e),
        },
{
    let mut i = i0;
    while i < t.len()
        invariant
            spec_unlocks(t@, i as int, acc@) == spec_unlocks(t@, i0 as int, old(acc)@),
        decreases t.len() - i,
    {
        let c = t[i];
        if c == '#' {
            return Ok(());
        }
        if c != ' ' {
            if !icon_ok(c) {
                return Err(ParseError::BadAugment);
            }
            if !contains_char(acc, c) {
                acc.push(c);
            }
        }
        i = i + 1;
    }
    Ok(())
}

/// Whether `v` holds `c`.
pub fn contains_char(v: &Vec<char>, c: char) -> (r: bool)
    ensures
        r == v@.contains(c),
{
    let mut i: usize = 0;
    while i < v.len()
        invariant
            i <= v@.len(),
            forall|k: int| 0 <= k < i ==> v@[k] != c,
        decreases v.len() - i,
    {
        if v[i] == c {
            return true;
        }
        i = i + 1;
    }
    false
}

/// Skips spaces and dots: the current character `c`, the next index `i`.
pub open spec fn spec_skip_sd(t: Seq<char>, c: char, i: int) -> (char, int)
    decreases t.len() + 1 - i,
{
    if (c == ' ' || c == '.') && i <= t.len() { spec_skip_sd(t, spec_at(t, i), i + 1) } else { (c, i) }
}

/// Skips spaces: the current character `c`, the next index `i`.
pub open spec fn spec_skip_sp(t: Seq<char>, c: char, i: int) -> (char, int)
    decreases t.len() + 1 - i,
{
    if c == ' ' && i <= t.len() { spec_skip_sp(t, spec_at(t, i), i + 1) } else { (c, i) }
}

/// Collects the letters of a word of a machine pattern, up to `#`, `-`, `:`, `.` or a space.
pub open spec fn spec_letters(t: Seq<char>, c: char, i: int, acc: Seq<char>) -> Result<(Seq<char>, char, int), ParseError>
    decreases t.len() + 1 - i,
{
    if c != '#' && c != '-' && c != ':' && c != '.' && c != ' ' {
        if !spec_icon_ok(c) {
            Err(ParseError::BadAugment)
        } else if i <= t.len() {
            spec_letters(t, spec_at(t, i), i + 1, acc.push(c))
        } else {
            Err(ParseError::BadAugment)
        }
    } else {
        Ok((acc, c, i))
    }
}

/// Collects the words of a machine pattern (separated by spaces and dots) up to `#`, `-` or
/// `:`.
pub open spec fn spec_words(t: Seq<char>, c: char, i: int, wants: Seq<Seq<char>>) -> Result<(Seq<Seq<char>>, char, int), ParseError>
    decreases t.len() + 2 - i,
{
    if c == '#' || c == '-' || c == ':' {
        Ok((wants, c, i))
    } else {
        let (c1, i1) = spec_skip_sd(t, c, i);
        match spec_letters(t, c1, i1, seq![]) {
            Err(e) => Err(e),
            Ok((ls, c2, i2)) => {
                let w2 = if ls.len() > 0 { wants.push(ls) } else { wants };
                if i < i2 <= t.len() + 2 { spec_words(t, c2, i2, w2) } else { Err(ParseError::BadAugment) }
            },
        }
    }
}

/// Skips the output word after the arrow of a machine line, up to `#` or a space.
pub open spec fn spec_skip_word(t: Seq<char>, c: char, i: int) -> Result<(char, int), ParseError>
    decreases t.len() + 1 - i,
{
    if c != '#' && c != ' ' {
        if !spec_icon_ok(c) {
            Err(ParseError::BadAugment)
        } else if i <= t.len() {
            spec_skip_word(t, spec_at(t, i), i + 1)
        } else {
            Err(ParseError::BadAugment)
        }
    } else {
        Ok((c, i))
    }
}

/// The arrow and output part of a machine line: after `-` comes `>` and a word, which is
/// checked and skipped.
pub open spec fn spec_arrow(t: Seq<char>, c: char, i: int) -> Result<(char, int), ParseError> {
    if c == '-' {
        let (c2, i2) = spec_next_ns(t, i);
        if c2 != '>' {
            Err(ParseError::BadAugment)
        } else {
            let (c3, i3) = spec_next_ns(t, i2);
            spec_skip_word(t, c3, i3)
        }
    } else {
        Ok((c, i))
    }
}

/// The speed part of a machine line, from the current character `c4` and next index `i4`
/// (after the arrow part); `edge` when the pattern ended in `s:` already.
pub open spec fn spec_speed_tail(t: Seq<char>, c4: char, i4: int, edge: bool) -> Result<nat, ParseError> {
    let (c5, i5) = spec_skip_sp(t, c4, i4);
    let modifier: Result<bool, ParseError> = if edge {
        Ok(true)
    } else if c5 == 's' {
        if i5 <= t.len() + 2 && spec_next_ns(t, i5).0 == ':' { Ok(true) } else { Err(ParseError::BadAugment) }
    } else if c5 != '#' {
        Err(ParseError::BadAugment)
    } else {
        Ok(false)
    };
    match modifier {
        Err(e) => Err(e),
        Ok(false) => Ok(1),
        Ok(true) => {
            let i6 = if edge { i5 } else { spec_next_ns(t, i5).1 };
            let (c7, i7) = spec_next_ns(t, i6);
            if i5 > t.len() + 2 || i6 > t.len() + 2 {
                Err(ParseError::BadAugment)
            } else {
            match spec_number(t, c7, i7, 0) {
                NumberRead::Bad => Err(ParseError::BadAugment),
                NumberRead::TooLarge => Err(ParseError::NumberTooLarge),
                NumberRead::Done(v, c8, i8) => {
                    let (c9, _i9) = spec_skip_sp(t, c8, i8);
                    if c9 != '#' { Err(ParseError::BadAugment) } else { Ok(v) }
                },
            }
            }
        },
    }
}

/// The head of a machine line: the id (among `ids`), the `=` and the words of the pattern;
/// gives the id, the words and where reading stopped.
pub open spec fn spec_machine_head(t: Seq<char>, ids: Seq<char>) -> Result<(char, Seq<Seq<char>>, char, int), ParseError> {
    let (id, i0) = spec_next_ns(t, 1);
    if !spec_is_alnum(id) {
        Err(ParseError::BadAugment)
    } else if !ids.contains(id) {
        Err(ParseError::UnknownMachine)
    } else {
        let (eq, i1) = spec_next_ns(t, i0);
        if eq != '=' {
            Err(ParseError::BadAugment)
        } else {
            match spec_words(t, spec_at(t, i1), i1 + 1, seq![]) {
                Err(e) => Err(e),
                Ok((words, c, i)) => Ok((id, words, c, i)),
            }
        }
    }
}

/// Reads a machine line `m<id> = <pattern words> [-> <output>] [s:<speed>]` (without leading
/// spaces) for a machine whose id is among `ids`; gives the id, the words of the pattern and
/// the speed (default 1). The output word is checked but not kept.
pub open spec fn spec_machine_line(t: Seq<char>, ids: Seq<char>) -> Result<(char, Seq<Seq<char>>, nat), ParseError> {
    match spec_machine_head(t, ids) {
        Err(e) => Err(e),
        Ok((id, words, c, i)) => {
            let edge = c == ':';
            if edge && (words.len() == 0 || words.last() != seq!['s']) {
                Err(ParseError::BadAugment)
            } else {
                let words = if edge { words.drop_last() } else { words };
                match spec_arrow(t, c, i) {
                    Err(e) => Err(e),
                    Ok((c4, i4)) => match spec_speed_tail(t, c4, i4, edge) {
                        Err(e) => Err(e),
                        Ok(v) => Ok((id, words, v)),
                    },
                }
            }
        },
    }
}

proof fn lemma_skip_sd(t: Seq<char>, c: char, i: int)
    requires
        i >= 0,
    ensures
        spec_skip_sd(t, c, i).1 >= i,
        spec_skip_sd(t, c, i).1 <= i || spec_skip_sd(t, c, i).1 <= t.len() + 1,
    decreases t.len() + 1 - i,
{
    if (c == ' ' || c == '.') && i <= t.len() {
        lemma_skip_sd(t, spec_at(t, i), i + 1);
    }
}

fn skip_sd(t: &Vec<char>, c0: char, i0: usize) -> (r: (char, usize))
    requires
        i0 <= t@.len() + 2,
        t@.len() + 3 <= usize::MAX,
    ensures
        r.0 == spec_skip_sd(t@, c0, i0 as int).0,
        r.1 == spec_skip_sd(t@, c0, i0 as int).1,
        r.1 >= i0,
        r.1 <= t@.len() + 2,
{
    let mut c = c0;
    let mut i = i0;
    while (c == ' ' || c == '.') && i <= t.len()
        invariant
            i0 <= i <= t@.len() + 2,
            t@.len() + 3 <= usize::MAX,
            spec_skip_sd(t@, c, i as int) == spec_skip_sd(t@, c0, i0 as int),
        decreases t.len() + 1 - i,
    {
        c = char_at(t, i);
        i = i + 1;
    }
    (c, i)
}

fn skip_sp(t: &Vec<char>, c0: char, i0: usize) -> (r: (char, usize))
    requires
        i0 <= t@.len() + 3,
        t@.len() + 3 <= usize::MAX,
    ensures
        r.0 == spec_skip_sp(t@, c0, i0 as int).0,
        r.1 == spec_skip_sp(t@, c0, i0 as int).1,
        r.1 >= i0,
        r.1 <= t@.len() + 3,
{
    let mut c = c0;
    let mut i = i0;
    while c == ' ' && i <= t.len()
        invariant
            i0 <= i <= t@.len() + 3,
            t@.len() + 3 <= usize::MAX,
            spec_skip_sp(t@, c, i as int) == spec_skip_sp(t@, c0, i0 as int),
        decreases t.len() + 1 - i,
    {
        c = char_at(t, i);
        i = i + 1;
    }
    (c, i)
}

fn letters(t: &Vec<char>, c0: char, i0: usize) -> (r: Result<(Vec<char>, char, usize), ParseError>)
    requires
        i0 <= t@.len() + 2,
        t@.len() + 3 <= usize::MAX,
    ensures
        match spec_letters(t@, c0, i0 as int, seq![]) {
            Ok((ls, c, i)) => r matches Ok((v, c2, i2)) && v@ == ls && c2 == c && i2 == i && i2 >= i0 && i2 <= t@.len() + 2,
            Err(e) => r matches Err(e2) && e2 == e,
        },
{
    let mut acc: Vec<char> = Vec::new();
    let mut c = c0;
    let mut i = i0;
    while c != '#' && c != '-' && c != ':' && c != '.' && c != ' '
        invariant
            i0 <= i <= t@.len() + 2,
            t@.len() + 3 <= usize::MAX,
            spec_letters(t@, c, i as int, acc@) == spec_letters(t@, c0, i0 as int, seq![]),
        decreases t.len() + 2 - i,
    {
        if !icon_ok(c) {
            return Err(ParseError::BadAugment);
        }
        if i > t.len() {
            return Err(ParseError::BadAugment);
        }
        acc.push(c);
        c = char_at(t, i);
        i = i + 1;
    }
    Ok((acc, c, i))
}

/// See `spec_words`.
fn words(t: &Vec<char>, c0: char, i0: usize) -> (r: Result<(Vec<Vec<char>>, char, usize), ParseError>)
    requires
        i0 <= t@.len() + 2,
        t@.len() + 3 <= usize::MAX,
    ensures
        match spec_words(t@, c0, i0 as int, seq![]) {
            Ok((ws, c, i)) => r matches Ok((v, c2, i2)) && spec_views(v@) == ws && c2 == c && i2 == i && i2 <= t@.len() + 2,
            Err(e) => r matches Err(e2) && e2 == e,
        },
{
    let mut wants: Vec<Vec<char>> = Vec::new();
    let mut c = c0;
    let mut i = i0;
    proof { assert(spec_views(wants@) =~= Seq::<Seq<char>>::empty()); }
    while c != '#' && c != '-' && c != ':'
        invariant
            i <= t@.len() + 2,
            t@.len() + 3 <= usize::MAX,
            spec_words(t@, c, i as int, spec_views(wants@)) == spec_words(t@, c0, i0 as int, seq![]),
        decreases t.len() + 2 - i,
    {
        let (c1, i1) = skip_sd(t, c, i);
        match letters(t, c1, i1) {
            Err(e) => {
                return Err(e);
            },
            Ok((ls, c2, i2)) => {
                if !(i < i2 && i2 <= t.len() + 2) {
                    return Err(ParseError::BadAugment);
                }
                if ls.len() > 0 {
                    let ghost before = spec_views(wants@);
                    wants.push(ls);
                    proof { assert(spec_views(wants@) =~= before.push(ls@)); }
                }
                c = c2;
                i = i2;
            },
        }
    }
    Ok((wants, c, i))
}

fn skip_word(t: &Vec<char>, c0: char, i0: usize) -> (r: Result<(char, usize), ParseError>)
    requires
        i0 <= t@.len() + 3,
        t@.len() + 3 <= usize::MAX,
    ensures
        match spec_skip_word(t@, c0, i0 as int) {
            Ok((c, i)) => r == Ok::<(char, usize), ParseError>((c, i as usize)) && i0 <= i <= t@.len() + 3,
            Err(e) => r == Err::<(char, usize), ParseError>(e),
        },
{
    let mut c = c0;
    let mut i = i0;
    while c != '#' && c != ' '
        invariant
            i0 <= i <= t@.len() + 3,
            t@.len() + 3 <= usize::MAX,
            spec_skip_word(t@, c, i as int) == spec_skip_word(t@, c0, i0 as int),
        decreases t.len() + 3 - i,
    {
        if !icon_ok(c) {
            return Err(ParseError::BadAugment);
        }
        if i > t.len() {
            return Err(ParseError::BadAugment);
        }
        c = char_at(t, i);
        i = i + 1;
    }
    Ok((c, i))
}

/// A parameter line for a machine: its id, the words of its pattern and its speed.
pub struct MachineAugment {
    pub id: char,
    pub words: Vec<Vec<char>>,
    pub speed: u64,
}

fn arrow(t: &Vec<char>, c: char, i: usize) -> (r: Result<(char, usize), ParseError>)
    requires
        i <= t@.len() + 2,
        t@.len() + 3 <= usize::MAX,
    ensures
        match spec_arrow(t@, c, i as int) {
            Ok((c2, i2)) => r == Ok::<(char, usize), ParseError>((c2, i2 as usize)) && 0 <= i2 <= t@.len() + 3,
            Err(e) => r == Err::<(char, usize), ParseError>(e),
        },
{
    if c == '-' {
        proof { lemma_next_ns(t@, i as int); }
        let (c2, i2) = next_ns(t, i);
        if c2 != '>' {
            return Err(ParseError::BadAugment);
        }
        proof { lemma_next_ns(t@, i2 as int); }
        let (c3, i3) = next_ns(t, i2);
        skip_word(t, c3, i3)
    } else {
        Ok((c, i))
    }
}

fn speed_tail(t: &Vec<char>, c4: char, i4: usize, edge: bool) -> (r: Result<u64, ParseError>)
    requires
        i4 <= t@.len() + 3,
        t@.len() + 3 <= usize::MAX,
        edge ==> i4 <= t@.len() + 2,
    ensures
        match spec_speed_tail(t@, c4, i4 as int, edge) {
            Ok(v) => r == Ok::<u64, ParseError>(v as u64) && v <= u64::MAX,
            Err(e) => r == Err::<u64, ParseError>(e),
        },
{
    let (c5, i5) = skip_sp(t, c4, i4);
    let modifier = if edge {
        true
    } else if c5 == 's' {
        proof { lemma_next_ns(t@, i5 as int); }
        if i5 > t.len() + 2 {
            return Err(ParseError::BadAugment);
        }
        let (cc, _ii) = next_ns(t, i5);
        if cc == ':' { true } else {
            return Err(ParseError::BadAugment);
        }
    } else if c5 != '#' {
        return Err(ParseError::BadAugment);
    } else {
        false
    };
    if !modifier {
        return Ok(1);
    }
    if i5 > t.len() + 2 {
        return Err(ParseError::BadAugment);
    }
    proof { lemma_next_ns(t@, i5 as int); }
    let i6 = if edge { i5 } else { next_ns(t, i5).1 };
    if i6 > t.len() + 2 {
        return Err(ParseError::BadAugment);
    }
    proof { lemma_next_ns(t@, i6 as int); }
    let (c7, i7) = next_ns(t, i6);
    proof { lemma_number_index(t@, c7, i7 as int, 0); }
    match number(t, c7, i7) {
        Err(e) => Err(e),
        Ok((v, c8, i8)) => {
            let (c9, _i9) = skip_sp(t, c8, i8);
            if c9 != '#' { Err(ParseError::BadAugment) } else { Ok(v) }
        },
    }
}

fn machine_head(t: &Vec<char>, ids: &Vec<char>) -> (r: Result<(char, Vec<Vec<char>>, char, usize), ParseError>)
    requires
        t@.len() + 3 <= usize::MAX,
    ensures
        match spec_machine_head(t@, ids@) {
            Ok((id, ws, c, i)) => r matches Ok((id2, v, c2, i2)) && id2 == id && spec_views(v@) == ws && c2 == c && i2 == i && i2 <= t@.len() + 2,
            Err(e) => r matches Err(e2) && e2 == e,
        },
{
    proof { lemma_next_ns(t@, 1); }
    let (id, i0) = next_ns(t, 1);
    if !(('0' <= id && id <= '9') || ('a' <= id && id <= 'z') || ('A' <= id && id <= 'Z')) {
        return Err(ParseError::BadAugment);
    }
    if !contains_char(ids, id) {
        return Err(ParseError::UnknownMachine);
    }
    proof { lemma_next_ns(t@, i0 as int); }
    let (eq, i1) = next_ns(t, i0);
    if eq != '=' {
        return Err(ParseError::BadAugment);
    }
    let c0 = char_at(t, i1);
    match words(t, c0, i1 + 1) {
        Err(e) => Err(e),
        Ok((ws, c, i)) => Ok((id, ws, c, i)),
    }
}

/// See `spec_machine_line`.
pub fn machine_line(t: &Vec<char>, ids: &Vec<char>) -> (r: Result<MachineAugment, ParseError>)
    requires
        t@.len() + 3 <= usize::MAX,
    ensures
        match spec_machine_line(t@, ids@) {
            Ok((id, ws, speed)) => r matches Ok(a) && a.id == id && spec_views(a.words@) == ws && a.speed == speed,
            Err(e) => r matches Err(e2) && e2 == e,
        },
{
    let head = machine_head(t, ids);
    let (id, mut ws, c, i) = match head {
        Err(e) => {
            return Err(e);
        },
        Ok(x) => x,
    };
    let edge = c == ':';
    if edge {
        if ws.len() == 0 {
            return Err(ParseError::BadAugment);
        }
        let ghost before = spec_views(ws@);
        let last = ws.pop().unwrap();
        proof {
            assert(spec_views(ws@) =~= before.drop_last());
            assert(last@ == before.last());
        }
        if !(last.len() == 1 && last[0] == 's') {
            proof {
                if last@ == seq!['s'] {
                    assert(last@.len() == 1 && last@[0] == 's');
                }
            }
            return Err(ParseError::BadAugment);
        }
        proof { assert(last@ =~= seq!['s']); }
    }
    let ar = arrow(t, c, i);
    let (c4, i4) = match ar {
        Err(e) => {
            return Err(e);
        },
        Ok(x) => x,
    };
    match speed_tail(t, c4, i4, edge) {
        Err(e) => Err(e),
        Ok(v) => Ok(MachineAugment { id, words: ws, speed: v }),
    }
}

/// A parameter line below the grid, read.
pub enum Augment {
    /// The `nth` supplier gives parts of kind `gives` (whose icon is `icon`).
    Supply { nth: u8, gives: PartKind, icon: char, speed: u64, cooldown: u64 },
    /// The `nth` demander.
    Demand { nth: u8, speed: u64, cooldown: u64 },
    /// The machine with id `id` crafts from `pattern`.
    Machine { id: char, pattern: Vec<PartKind>, speed: u64 },
}

/// The ghost form of a read parameter line.
pub enum AugmentView {
    Supply { nth: nat, gives: nat, icon: char, speed: nat, cooldown: nat },
    Demand { nth: nat, speed: nat, cooldown: nat },
    Machine { id: char, pattern: Seq<PartKind>, speed: nat },
}

impl Augment {
    pub open spec fn view_aug(&self) -> AugmentView {
        match self {
            Augment::Supply { nth, gives, icon, speed, cooldown } => AugmentView::Supply { nth: *nth as nat, gives: *gives as nat, icon: *icon, speed: *speed as nat, cooldown: *cooldown as nat },
            Augment::Demand { nth, speed, cooldown } => AugmentView::Demand { nth: *nth as nat, speed: *speed as nat, cooldown: *cooldown as nat },
            Augment::Machine { id, pattern, speed } => AugmentView::Machine { id: *id, pattern: pattern@, speed: *speed as nat },
        }
    }
}

pub open spec fn spec_aug_views(v: Seq<Augment>) -> Seq<AugmentView> {
    Seq::new(v.len(), |k: int| v[k].view_aug())
}

/// The first configuration node with the given icon, if any.
pub open spec fn spec_icon_kind(config: &Config, icon: char) -> Option<nat> {
    if exists|k: int| is_first_with_icon(config, icon, k) {
        Some((choose|k: int| is_first_with_icon(config, icon, k)) as nat)
    } else {
        None
    }
}

/// The first configuration node with the given name, if any.
pub open spec fn spec_name_kind(config: &Config, name: Seq<char>) -> Option<PartKind> {
    if exists|k: int| is_first_with_name(config, name, k) {
        Some((choose|k: int| is_first_with_name(config, name, k)) as PartKind)
    } else {
        None
    }
}

/// The kinds named by the words of a machine pattern, or the first word that names none.
pub open spec fn spec_pattern(config: &Config, words: Seq<Seq<char>>) -> Option<Seq<PartKind>>
    decreases words.len(),
{
    if words.len() == 0 {
        Some(seq![])
    } else {
        match spec_pattern(config, words.drop_last()) {
            None => None,
            Some(p) => match spec_name_kind(config, words.last()) {
                None => None,
                Some(k) => Some(p.push(k)),
            },
        }
    }
}

/// What one line below the grid adds: nothing for an empty or comment line, a parameter
/// line, or more unlocked icons (`$`); `unlocks` are the icons unlocked so far.
pub open spec fn spec_augment_line(config: &Config, line: Seq<char>, ids: Seq<char>, unlocks: Seq<char>) -> Result<(Option<AugmentView>, Seq<char>), ParseError> {
    let t = spec_trim_start(line);
    if !spec_is_content(line) {
        Ok((None, unlocks))
    } else if t[0] == 's' {
        match spec_supply_line(t) {
            Err(e) => Err(e),
            Ok((nth, icon, speed, cooldown)) => match spec_icon_kind(config, icon) {
                None => Err(ParseError::UnknownPart),
                Some(k) => Ok((Some(AugmentView::Supply { nth, gives: k, icon, speed, cooldown }), unlocks)),
            },
        }
    } else if t[0] == 'd' {
        match spec_demand_line(t) {
            Err(e) => Err(e),
            Ok((nth, speed, cooldown)) => Ok((Some(AugmentView::Demand { nth, speed, cooldown }), unlocks)),
        }
    } else if t[0] == 'm' {
        match spec_machine_line(t, ids) {
            Err(e) => Err(e),
            Ok((id, words, speed)) => match spec_pattern(config, words) {
                None => Err(ParseError::UnknownPart),
                Some(p) => Ok((Some(AugmentView::Machine { id, pattern: p, speed }), unlocks)),
            },
        }
    } else if t[0] == '$' {
        match spec_unlocks(t, 1, unlocks) {
            Err(e) => Err(e),
            Ok(u) => Ok((None, u)),
        }
    } else {
        Err(ParseError::BadAugment)
    }
}

/// The parameter lines from line `k` on, and the unlocked icons after them.
pub open spec fn spec_augments(config: &Config, lines: Seq<Seq<char>>, k: int, ids: Seq<char>, unlocks: Seq<char>) -> Result<(Seq<AugmentView>, Seq<char>), ParseError>
    decreases lines.len() - k,
{
    if k < 0 || k >= lines.len() {
        Ok((seq![], unlocks))
    } else {
        match spec_augment_line(config, lines[k], ids, unlocks) {
            Err(e) => Err(e),
            Ok((a, u)) => match spec_augments(config, lines, k + 1, ids, u) {
                Err(e) => Err(e),
                Ok((rest, u2)) => Ok((match a { None => rest, Some(x) => seq![x] + rest }, u2)),
            },
        }
    }
}

/// The kinds named by the words of a machine pattern; see `spec_pattern`.
fn pattern(config: &Config, words: &Vec<Vec<char>>) -> (r: Option<Vec<PartKind>>)
    ensures
        match spec_pattern(config, spec_views(words@)) {
            None => r.is_none(),
            Some(p) => r matches Some(v) && v@ == p,
        },
{
    let mut out: Vec<PartKind> = Vec::new();
    let mut i: usize = 0;
    while i < words.len()
        invariant
            i <= words@.len(),
            spec_pattern(config, spec_views(words@).take(i as int)) == Some(out@),
        decreases words.len() - i,
    {
        proof {
            assert(spec_views(words@).take(i + 1).drop_last() =~= spec_views(words@).take(i as int));
            assert(spec_views(words@).take(i + 1).last() == words@[i as int]@);
        }
        match config_find_name(config, &words[i]) {
            None => {
                proof {
                    assert(!exists|k: int| is_first_with_name(config, words@[i as int]@, k));
                    lemma_pattern_none(config, spec_views(words@), (i + 1) as nat);
                    assert(spec_views(words@).take(words@.len() as int) =~= spec_views(words@));
                }
                return None;
            },
            Some(k) => {
                proof {
                    assert(is_first_with_name(config, words@[i as int]@, k as int));
                    let kk = choose|k: int| is_first_with_name(config, words@[i as int]@, k);
                    lemma_first_name_unique(config, words@[i as int]@, kk, k as int);
                }
                out.push(k);
            },
        }
        i = i + 1;
    }
    proof { assert(spec_views(words@).take(words@.len() as int) =~= spec_views(words@)); }
    Some(out)
}

proof fn lemma_first_name_unique(config: &Config, name: Seq<char>, a: int, b: int)
    requires
        is_first_with_name(config, name, a),
        is_first_with_name(config, name, b),
    ensures
        a == b,
{
}

proof fn lemma_first_icon_unique(config: &Config, icon: char, a: int, b: int)
    requires
        is_first_with_icon(config, icon, a),
        is_first_with_icon(config, icon, b),
    ensures
        a == b,
{
}

proof fn lemma_pattern_none(config: &Config, words: Seq<Seq<char>>, k: nat)
    requires
        k <= words.len(),
        spec_pattern(config, words.take(k as int)).is_none(),
    ensures
        spec_pattern(config, words).is_none(),
    decreases words.len() - k,
{
    if k < words.len() {
        assert(words.take(k + 1int).drop_last() =~= words.take(k as int));
        lemma_pattern_none(config, words, (k + 1) as nat);
    } else {
        assert(words.take(k as int) =~= words);
    }
}

/// The first node with the given icon; see `spec_icon_kind`.
fn icon_kind(config: &Config, icon: char) -> (r: Option<PartKind>)
    ensures
        match spec_icon_kind(config, icon) {
            None => r.is_none(),
            Some(k) => r == Some(k as PartKind),
        },
{
    match config_find_icon(config, icon) {
        None => None,
        Some(k) => {
            proof {
                assert(is_first_with_icon(config, icon, k as int));
                let kk = choose|k: int| is_first_with_icon(config, icon, k);
                lemma_first_icon_unique(config, icon, kk, k as int);
            }
            Some(k)
        },
    }
}

/// Reads one line below the grid; see `spec_augment_line`.
fn augment_line(config: &Config, line: &Vec<char>, ids: &Vec<char>, unlocks: &mut Vec<char>) -> (r: Result<Option<Augment>, ParseError>)
    requires
        line@.len() + 3 <= usize::MAX,
    ensures
        match spec_augment_line(config, line@, ids@, old(unlocks)@) {
            Err(e) => r matches Err(e2) && e2 == e,
            Ok((a, u)) => r matches Ok(x) && final(unlocks)@ == u && match a {
                None => x.is_none(),
                Some(av) => x matches Some(aug) && aug.view_aug() == av,
            },
        },
{
    let t = trim_start(line);
    proof { lemma_trim_start(line@); }
    if t.len() == 0 || t[0] == '#' {
        return Ok(None);
    }
    if t[0] == 's' {
        match supply_line(&t) {
            Err(e) => Err(e),
            Ok(a) => match icon_kind(config, a.gives) {
                None => Err(ParseError::UnknownPart),
                Some(k) => Ok(Some(Augment::Supply { nth: a.nth, gives: k, icon: a.gives, speed: a.speed, cooldown: a.cooldown })),
            },
        }
    } else if t[0] == 'd' {
        proof {
            lemma_next_ns(t@, 1);
            lemma_mods_bounds(t@, spec_next_ns(t@, 1).1, 1, 1);
        }
        match demand_line(&t) {
            Err(e) => Err(e),
            Ok((nth, speed, cooldown)) => Ok(Some(Augment::Demand { nth, speed, cooldown })),
        }
    } else if t[0] == 'm' {
        match machine_line(&t, ids) {
            Err(e) => Err(e),
            Ok(a) => match pattern(config, &a.words) {
                None => Err(ParseError::UnknownPart),
                Some(p) => Ok(Some(Augment::Machine { id: a.id, pattern: p, speed: a.speed })),
            },
        }
    } else if t[0] == '$' {
        match unlocks_line(&t, 1, unlocks) {
            Err(e) => Err(e),
            Ok(()) => Ok(None),
        }
    } else {
        Err(ParseError::BadAugment)
    }
}

/// Reads the lines below the grid, from line `pos` on; see `spec_augments`.
pub(crate) fn augments(config: &Config, lines: &Vec<Vec<char>>, pos: usize, ids: &Vec<char>, unlocks: &mut Vec<char>) -> (r: Result<Vec<Augment>, ParseError>)
    requires
        forall|k: int| 0 <= k < lines@.len() ==> (#[trigger] lines@[k])@.len() + 3 <= usize::MAX,
    ensures
        match spec_augments(config, spec_views(lines@), pos as int, ids@, old(unlocks)@) {
            Err(e) => r matches Err(e2) && e2 == e,
            Ok((augs, u)) => r matches Ok(v) && spec_aug_views(v@) == augs && final(unlocks)@ == u,
        },
    decreases lines@.len() - pos,
{
    if pos >= lines.len() {
        return Ok(Vec::new());
    }
    proof { assert(spec_views(lines@)[pos as int] == lines@[pos as int]@); }
    let a = augment_line(config, &lines[pos], ids, unlocks);
    match a {
        Err(e) => Err(e),
        Ok(x) => {
            let rest = augments(config, lines, pos + 1, ids, unlocks);
            match rest {
                Err(e) => Err(e),
                Ok(mut v) => {
                    match x {
                        None => Ok(v),
                        Some(aug) => {
                            let mut out: Vec<Augment> = Vec::new();
                            out.push(aug);
                            let ghost vv = spec_aug_views(v@);
                            out.append(&mut v);
                            proof {
                                assert(spec_aug_views(out@) =~= seq![out@[0].view_aug()] + vv);
                            }
                            Ok(out)
                        },
                    }
                },
            }
        },
    }
}

} // verus!
