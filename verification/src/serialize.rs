use vstd::prelude::*;
use crate::belt_meta::BeltType;
use crate::cell::{Cell, CellKind};
use crate::direction::Direction;
use crate::factory::Factory;
use crate::floor::{FLOOR_CELLS_W, FLOOR_CELLS_H, FLOOR_CELLS_WH};
use crate::part::CONFIG_NODE_PART_NONE;
use crate::port::Port;
use crate::text::string_from_chars;

verus! {

/// The decimal digit for `d < 10`.
pub open spec fn spec_digit_char(d: int) -> char {
    if d == 0 { '0' } else if d == 1 { '1' } else if d == 2 { '2' } else if d == 3 { '3' } else if d == 4 { '4' }
    else if d == 5 { '5' } else if d == 6 { '6' } else if d == 7 { '7' } else if d == 8 { '8' } else { '9' }
}

/// The decimal digits of `n`, without leading zeros (`0` for zero).
pub open spec fn spec_decimal(n: nat) -> Seq<char>
    decreases n,
{
    if n < 10 {
        seq![spec_digit_char(n as int)]
    } else {
        spec_decimal(n / 10).push(spec_digit_char((n % 10) as int))
    }
}

fn digit_char(d: u64) -> (c: char)
    requires
        d < 10,
    ensures
        c == spec_digit_char(d as int),
{
    if d == 0 { '0' } else if d == 1 { '1' } else if d == 2 { '2' } else if d == 3 { '3' } else if d == 4 { '4' }
    else if d == 5 { '5' } else if d == 6 { '6' } else if d == 7 { '7' } else if d == 8 { '8' } else { '9' }
}

/// The decimal digits of `n`, as `format!("{}", n)` writes them.
pub fn u64_to_decimal(n: u64) -> (r: Vec<char>)
    ensures
        r@ == spec_decimal(n as nat),
    decreases n,
{
    if n < 10 {
        let mut r: Vec<char> = Vec::new();
        r.push(digit_char(n));
        r
    } else {
        let mut r = u64_to_decimal(n / 10);
        r.push(digit_char(n % 10));
        r
    }
}

/// Appends all of `src` to `out`.
pub fn push_all(out: &mut Vec<char>, src: &Vec<char>)
    ensures
        final(out)@ == old(out)@ + src@,
{
    let mut i: usize = 0;
    while i < src.len()
        invariant
            i <= src.len(),
            out@ == old(out)@ + src@.take(i as int),
        decreases src.len() - i,
    {
        out.push(src[i]);
        i = i + 1;
        assert(out@ =~= old(out)@ + src@.take(i as int));
    }
    assert(src@.take(src.len() as int) =~= src@);
}

/// Appends `n` copies of `c` to `out`.
pub fn push_n(out: &mut Vec<char>, c: char, n: usize)
    ensures
        final(out)@ == old(out)@ + Seq::new(n as nat, |i: int| c),
{
    let mut i: usize = 0;
    while i < n
        invariant
            i <= n,
            out@ == old(out)@ + Seq::new(i as nat, |k: int| c),
        decreases n - i,
    {
        out.push(c);
        i = i + 1;
        assert(out@ =~= old(out)@ + Seq::new(i as nat, |k: int| c));
    }
}

/// What one character per cell shows in a text rendering of the floor.
#[derive(Clone, Copy, Debug, PartialEq, Eq, Structural)]
pub enum CellView {
    /// The content of the cell; with `true` (a dump) a belt shows its shape, not its part.
    Center(bool),
    PortU,
    PortR,
    PortD,
    PortL,
    /// Where the part on a belt came from.
    PartFrom,
    /// Where the part on a belt goes to.
    PartTo,
}

/// The character for the content of a cell.
pub open spec fn spec_center_char(c: Cell, dump: bool) -> char {
    match c.kind {
        CellKind::Empty => ' ',
        CellKind::Supply => 's',
        CellKind::Demand => 'd',
        CellKind::Machine => c.machine.id,
        CellKind::Belt => if !dump && c.belt.part.kind != CONFIG_NODE_PART_NONE { c.belt.part.icon } else { c.belt.meta.cli_icon },
    }
}

/// The character for a port: `inbound` and `outbound` name the arrows for that side.
pub open spec fn spec_port_view(c: Cell, p: Port, inbound: char, outbound: char) -> char {
    match p {
        Port::Inbound => inbound,
        Port::Outbound => outbound,
        Port::Unknown => '?',
        Port::Absent => if c.kind == CellKind::Empty { ' ' } else { '.' },
    }
}

pub open spec fn spec_dir_char(d: Direction) -> char {
    match d {
        Direction::Up => 'u',
        Direction::Right => 'r',
        Direction::Down => 'd',
        Direction::Left => 'l',
    }
}

/// The character for a side of the part on a belt.
pub open spec fn spec_part_dir_view(c: Cell, d: Direction) -> char {
    if c.kind != CellKind::Belt { ' ' } else if c.belt.part.kind == CONFIG_NODE_PART_NONE { '-' } else { spec_dir_char(d) }
}

/// The character a view shows for a cell.
pub open spec fn spec_view_char(c: Cell, view: CellView) -> char {
    match view {
        CellView::Center(dump) => spec_center_char(c, dump),
        CellView::PortU => spec_port_view(c, c.port_u, 'v', '^'),
        CellView::PortR => spec_port_view(c, c.port_r, '<', '>'),
        CellView::PortD => spec_port_view(c, c.port_d, '^', 'v'),
        CellView::PortL => spec_port_view(c, c.port_l, '>', '<'),
        CellView::PartFrom => spec_part_dir_view(c, c.belt.part_from),
        CellView::PartTo => spec_part_dir_view(c, c.belt.part_to),
    }
}

fn port_view(c: &Cell, p: Port, inbound: char, outbound: char) -> (r: char)
    ensures
        r == spec_port_view(*c, p, inbound, outbound),
{
    match p {
        Port::Inbound => inbound,
        Port::Outbound => outbound,
        Port::Unknown => '?',
        Port::Absent => if c.kind == CellKind::Empty { ' ' } else { '.' },
    }
}

fn part_dir_view(c: &Cell, d: Direction) -> (r: char)
    ensures
        r == spec_part_dir_view(*c, d),
{
    if c.kind != CellKind::Belt {
        ' '
    } else if c.belt.part.kind == CONFIG_NODE_PART_NONE {
        '-'
    } else {
        match d {
            Direction::Up => 'u',
            Direction::Right => 'r',
            Direction::Down => 'd',
            Direction::Left => 'l',
        }
    }
}

/// The character a view shows for a cell.
pub fn view_char(c: &Cell, view: CellView) -> (r: char)
    ensures
        r == spec_view_char(*c, view),
{
    match view {
        CellView::Center(dump) => match c.kind {
            CellKind::Empty => ' ',
            CellKind::Supply => 's',
            CellKind::Demand => 'd',
            CellKind::Machine => c.machine.id,
            CellKind::Belt => if !dump && c.belt.part.kind != CONFIG_NODE_PART_NONE { c.belt.part.icon } else { c.belt.meta.cli_icon },
        },
        CellView::PortU => port_view(c, c.port_u, 'v', '^'),
        CellView::PortR => port_view(c, c.port_r, '<', '>'),
        CellView::PortD => port_view(c, c.port_d, '^', 'v'),
        CellView::PortL => port_view(c, c.port_l, '>', '<'),
        CellView::PartFrom => part_dir_view(c, c.belt.part_from),
        CellView::PartTo => part_dir_view(c, c.belt.part_to),
    }
}

/// `n` copies of `c`.
pub open spec fn spec_repeat(c: char, n: nat) -> Seq<char> {
    Seq::new(n, |i: int| c)
}

/// The border line between the edge rows and the inner rows, above (`top`) or below them.
pub open spec fn spec_inner_border(top: bool) -> Seq<char> {
    seq!['│', ' ', if top { '┌' } else { '└' }] + spec_repeat('─', (FLOOR_CELLS_W - 2) as nat)
        + seq![if top { '┐' } else { '┘' }, ' ', '│', '\n']
}

/// Whether the cell at `coord` lies in a row between the inner borders.
pub open spec fn spec_inner_row(coord: int) -> bool {
    FLOOR_CELLS_W < coord < FLOOR_CELLS_WH - FLOOR_CELLS_W
}

/// A line break before each row.
pub open spec fn spec_chunk_break(coord: int) -> Seq<char> {
    if coord % (FLOOR_CELLS_W as int) == 0 { seq!['\n'] } else { seq![] }
}

/// An inner border line before the second and the last row.
pub open spec fn spec_chunk_border(coord: int) -> Seq<char> {
    if coord == FLOOR_CELLS_W { spec_inner_border(true) } else if coord == FLOOR_CELLS_WH - FLOOR_CELLS_W { spec_inner_border(false) } else { seq![] }
}

/// The border left of the cell: the outer frame before the first column, the inner border
/// (in the inner rows) before the second.
pub open spec fn spec_chunk_left(coord: int) -> Seq<char> {
    let p = coord % (FLOOR_CELLS_W as int);
    if p == 0 { seq!['│'] } else if p == 1 { seq![if spec_inner_row(coord) { '│' } else { ' ' }] } else { seq![] }
}

/// The border right of the cell: the inner border (in the inner rows) after the second to last
/// column, the outer frame after the last.
pub open spec fn spec_chunk_right(coord: int) -> Seq<char> {
    let p = coord % (FLOOR_CELLS_W as int);
    if p == FLOOR_CELLS_W - 2 { seq![if spec_inner_row(coord) { '│' } else { ' ' }] } else if p == FLOOR_CELLS_W - 1 { seq!['│'] } else { seq![] }
}

/// What the text rendering writes for the cell at `coord`.
pub open spec fn spec_cell_chunk(f: Seq<Cell>, view: CellView, coord: int) -> Seq<char> {
    spec_chunk_break(coord) + spec_chunk_border(coord) + spec_chunk_left(coord)
        + seq![spec_view_char(f[coord], view)] + spec_chunk_right(coord)
}

/// The renderings of the first `k` cells, in order.
pub open spec fn spec_cell_chunks(f: Seq<Cell>, view: CellView, k: nat) -> Seq<char>
    decreases k,
{
    if k == 0 { seq![] } else { spec_cell_chunks(f, view, (k - 1) as nat) + spec_cell_chunk(f, view, k - 1) }
}

/// The text rendering of the floor in one view: an outer frame, inner borders around the edge
/// rows, and one character per cell.
pub open spec fn spec_framed(f: Seq<Cell>, view: CellView) -> Seq<char> {
    seq!['┌'] + spec_repeat('─', (FLOOR_CELLS_W + 2) as nat) + seq!['┐']
        + spec_cell_chunks(f, view, FLOOR_CELLS_WH as nat)
        + seq!['\n', '└'] + spec_repeat('─', (FLOOR_CELLS_W + 2) as nat) + seq!['┘']
}

fn push_inner_border(out: &mut Vec<char>, top: bool)
    ensures
        final(out)@ == old(out)@ + spec_inner_border(top),
{
    out.push('│');
    out.push(' ');
    out.push(if top { '┌' } else { '└' });
    push_n(out, '─', FLOOR_CELLS_W - 2);
    out.push(if top { '┐' } else { '┘' });
    out.push(' ');
    out.push('│');
    out.push('\n');
    proof {
        assert(final(out)@ =~= old(out)@ + spec_inner_border(top));
    }
}

fn push_chunk_break(out: &mut Vec<char>, coord: usize)
    ensures
        final(out)@ == old(out)@ + spec_chunk_break(coord as int),
{
    if coord % FLOOR_CELLS_W == 0 {
        out.push('\n');
    }
    proof { assert(final(out)@ =~= old(out)@ + spec_chunk_break(coord as int)); }
}

fn push_chunk_border(out: &mut Vec<char>, coord: usize)
    ensures
        final(out)@ == old(out)@ + spec_chunk_border(coord as int),
{
    if coord == FLOOR_CELLS_W {
        push_inner_border(out, true);
    } else if coord == FLOOR_CELLS_WH - FLOOR_CELLS_W {
        push_inner_border(out, false);
    } else {
        proof { assert(final(out)@ =~= old(out)@ + spec_chunk_border(coord as int)); }
    }
}

fn push_chunk_left(out: &mut Vec<char>, coord: usize)
    ensures
        final(out)@ == old(out)@ + spec_chunk_left(coord as int),
{
    let p = coord % FLOOR_CELLS_W;
    if p == 0 {
        out.push('│');
    } else if p == 1 {
        out.push(if coord > FLOOR_CELLS_W && coord < FLOOR_CELLS_WH - FLOOR_CELLS_W { '│' } else { ' ' });
    }
    proof { assert(final(out)@ =~= old(out)@ + spec_chunk_left(coord as int)); }
}

fn push_chunk_right(out: &mut Vec<char>, coord: usize)
    ensures
        final(out)@ == old(out)@ + spec_chunk_right(coord as int),
{
    let p = coord % FLOOR_CELLS_W;
    if p == FLOOR_CELLS_W - 2 {
        out.push(if coord > FLOOR_CELLS_W && coord < FLOOR_CELLS_WH - FLOOR_CELLS_W { '│' } else { ' ' });
    } else if p == FLOOR_CELLS_W - 1 {
        out.push('│');
    }
    proof { assert(final(out)@ =~= old(out)@ + spec_chunk_right(coord as int)); }
}

/// Appends the rendering of the cell at `coord`; see `spec_cell_chunk`.
fn push_cell_chunk(out: &mut Vec<char>, factory: &Factory, view: CellView, coord: usize)
    requires
        coord < factory.floor.len(),
    ensures
        final(out)@ == old(out)@ + spec_cell_chunk(factory.floor@, view, coord as int),
{
    let ghost o0 = out@;
    push_chunk_break(out, coord);
    push_chunk_border(out, coord);
    push_chunk_left(out, coord);
    out.push(view_char(&factory.floor[coord], view));
    push_chunk_right(out, coord);
    proof {
        assert(out@ =~= o0 + spec_cell_chunk(factory.floor@, view, coord as int));
    }
}

/// The characters of the text rendering of the floor in one view; see `spec_framed`.
pub fn framed_chars(factory: &Factory, view: CellView) -> (out: Vec<char>)
    requires
        factory.floor.len() == FLOOR_CELLS_WH,
    ensures
        out@ == spec_framed(factory.floor@, view),
{
    let mut out: Vec<char> = Vec::new();
    out.push('┌');
    push_n(&mut out, '─', FLOOR_CELLS_W + 2);
    out.push('┐');
    let ghost top = out@;
    let mut coord: usize = 0;
    while coord < FLOOR_CELLS_WH
        invariant
            factory.floor.len() == FLOOR_CELLS_WH,
            coord <= FLOOR_CELLS_WH,
            out@ == top + spec_cell_chunks(factory.floor@, view, coord as nat),
        decreases FLOOR_CELLS_WH - coord,
    {
        push_cell_chunk(&mut out, factory, view, coord);
        coord = coord + 1;
        assert(out@ =~= top + spec_cell_chunks(factory.floor@, view, coord as nat));
    }
    out.push('\n');
    out.push('└');
    push_n(&mut out, '─', FLOOR_CELLS_W + 2);
    out.push('┘');
    proof {
        assert(out@ =~= spec_framed(factory.floor@, view));
    }
    out
}

/// The rendering of the first `k` cells when cell `i` shows the character `cs[i]`.
pub open spec fn spec_chunks_of(cs: Seq<char>, k: nat) -> Seq<char>
    decreases k,
{
    if k == 0 {
        seq![]
    } else {
        let c = k - 1;
        spec_chunks_of(cs, (k - 1) as nat) + spec_chunk_break(c) + spec_chunk_border(c) + spec_chunk_left(c)
            + seq![cs[c]] + spec_chunk_right(c)
    }
}

/// The text rendering of the floor in which cell `i` shows the character `cs[i]`: the frame of
/// `spec_framed` around those characters.
pub open spec fn spec_framed_of(cs: Seq<char>) -> Seq<char> {
    seq!['┌'] + spec_repeat('─', (FLOOR_CELLS_W + 2) as nat) + seq!['┐']
        + spec_chunks_of(cs, FLOOR_CELLS_WH as nat)
        + seq!['\n', '└'] + spec_repeat('─', (FLOOR_CELLS_W + 2) as nat) + seq!['┘']
}

/// The characters of the cells of the floor in one view.
pub open spec fn spec_view_chars(f: Seq<Cell>, view: CellView) -> Seq<char> {
    Seq::new(FLOOR_CELLS_WH as nat, |i: int| spec_view_char(f[i], view))
}

proof fn lemma_chunks_of_prefix(a: Seq<char>, b: Seq<char>, k: nat)
    requires
        forall|i: int| 0 <= i < k ==> a[i] == b[i],
    ensures
        spec_chunks_of(a, k) == spec_chunks_of(b, k),
    decreases k,
{
    if k > 0 {
        lemma_chunks_of_prefix(a, b, (k - 1) as nat);
        assert(a[k - 1] == b[k - 1]);
    }
}

proof fn lemma_chunks_of_view(f: Seq<Cell>, view: CellView, k: nat)
    requires
        k <= FLOOR_CELLS_WH,
    ensures
        spec_chunks_of(spec_view_chars(f, view), k) == spec_cell_chunks(f, view, k),
    decreases k,
{
    if k > 0 {
        lemma_chunks_of_view(f, view, (k - 1) as nat);
        assert(spec_view_chars(f, view)[k - 1] == spec_view_char(f[k - 1], view));
    }
}

/// Rendering each cell by its character in a view is rendering the floor in that view.
pub proof fn lemma_framed_of_view(f: Seq<Cell>, view: CellView)
    ensures
        spec_framed_of(spec_view_chars(f, view)) == spec_framed(f, view),
{
    lemma_chunks_of_view(f, view, FLOOR_CELLS_WH as nat);
}

/// The text rendering of the floor with the character that `cb` gives for each cell: `cb` is
/// called once for each cell, in order, and the result is `spec_framed_of` of what it gave.
pub fn serialize_cb<F: Fn(&Cell) -> char>(factory: &Factory, cb: F) -> (s: String)
    requires
        factory.floor.len() == FLOOR_CELLS_WH,
        forall|k: int| 0 <= k < FLOOR_CELLS_WH ==> call_requires(cb, (&factory.floor@[k],)),
    ensures
        exists|cs: Seq<char>| {
            &&& cs.len() == FLOOR_CELLS_WH
            &&& forall|k: int| 0 <= k < FLOOR_CELLS_WH ==> call_ensures(cb, (&factory.floor@[k],), #[trigger] cs[k])
            &&& s@ == spec_framed_of(cs)
        },
{
    let mut out: Vec<char> = Vec::new();
    out.push('┌');
    push_n(&mut out, '─', FLOOR_CELLS_W + 2);
    out.push('┐');
    let ghost top = out@;
    let ghost mut cs: Seq<char> = Seq::new(FLOOR_CELLS_WH as nat, |i: int| ' ');
    let mut coord: usize = 0;
    while coord < FLOOR_CELLS_WH
        invariant
            factory.floor.len() == FLOOR_CELLS_WH,
            forall|k: int| 0 <= k < FLOOR_CELLS_WH ==> call_requires(cb, (&factory.floor@[k],)),
            coord <= FLOOR_CELLS_WH,
            cs.len() == FLOOR_CELLS_WH,
            forall|k: int| 0 <= k < coord ==> call_ensures(cb, (&factory.floor@[k],), #[trigger] cs[k]),
            out@ == top + spec_chunks_of(cs, coord as nat),
        decreases FLOOR_CELLS_WH - coord,
    {
        let ghost o0 = out@;
        push_chunk_break(&mut out, coord);
        push_chunk_border(&mut out, coord);
        push_chunk_left(&mut out, coord);
        let ch = cb(&factory.floor[coord]);
        out.push(ch);
        push_chunk_right(&mut out, coord);
        proof {
            let old_cs = cs;
            cs = cs.update(coord as int, ch);
            lemma_chunks_of_prefix(old_cs, cs, coord as nat);
            assert forall|k: int| 0 <= k < coord + 1 implies call_ensures(cb, (&factory.floor@[k],), #[trigger] cs[k]) by {
                if k < coord {
                    assert(cs[k] == old_cs[k]);
                }
            }
        }
        coord = coord + 1;
        assert(out@ =~= top + spec_chunks_of(cs, coord as nat));
    }
    out.push('\n');
    out.push('└');
    push_n(&mut out, '─', FLOOR_CELLS_W + 2);
    out.push('┘');
    proof {
        assert(out@ =~= spec_framed_of(cs));
    }
    string_from_chars(&out)
}

/// The text rendering of the floor showing the content of each cell; with `dump` a belt
/// shows its shape rather than its part.
pub fn serialize(factory: &Factory, dump: bool) -> (s: String)
    requires
        factory.floor.len() == FLOOR_CELLS_WH,
    ensures
        s@ == spec_framed(factory.floor@, CellView::Center(dump)),
{
    let view = CellView::Center(dump);
    let ch = |c: &Cell| -> (r: char)
        ensures
            r == spec_view_char(*c, view),
        { view_char(c, view) };
    let s = serialize_cb(factory, ch);
    proof {
        let cs = choose|cs: Seq<char>| {
            &&& cs.len() == FLOOR_CELLS_WH
            &&& forall|k: int| 0 <= k < FLOOR_CELLS_WH ==> call_ensures(ch, (&factory.floor@[k],), #[trigger] cs[k])
            &&& s@ == spec_framed_of(cs)
        };
        assert(cs =~= spec_view_chars(factory.floor@, view)) by {
            assert forall|k: int| 0 <= k < FLOOR_CELLS_WH implies cs[k] == spec_view_chars(factory.floor@, view)[k] by {
                assert(call_ensures(ch, (&factory.floor@[k],), cs[k]));
            }
        }
        lemma_framed_of_view(factory.floor@, view);
    }
    s
}

/// The pieces of `s` between its line breaks, as `str::split('\n')` gives them.
pub open spec fn spec_split(s: Seq<char>) -> Seq<Seq<char>>
    decreases s.len(),
{
    if s.len() == 0 {
        seq![seq![]]
    } else {
        let r = spec_split(s.drop_last());
        if s.last() == '\n' {
            r.push(seq![])
        } else {
            r.update(r.len() - 1, r.last().push(s.last()))
        }
    }
}

/// The lines joined with a line break between each two.
pub open spec fn spec_join(ls: Seq<Seq<char>>) -> Seq<char>
    decreases ls.len(),
{
    if ls.len() == 0 {
        seq![]
    } else if ls.len() == 1 {
        ls[0]
    } else {
        spec_join(ls.drop_last()) + seq!['\n'] + ls.last()
    }
}

/// Joining the lines of a text with line breaks gives the text back.
pub proof fn lemma_split_join(s: Seq<char>)
    ensures
        spec_join(spec_split(s)) == s,
    decreases s.len(),
{
    if s.len() > 0 {
        let t = s.drop_last();
        let c = s.last();
        lemma_split_join(t);
        lemma_split_len(t);
        let r = spec_split(t);
        if c == '\n' {
            assert(r.push(seq![]).drop_last() =~= r);
            assert(s =~= t + seq!['\n'] + seq![]);
        } else {
            let r2 = r.update(r.len() - 1, r.last().push(c));
            if r.len() == 1 {
                assert(s =~= r[0].push(c));
            } else {
                assert(r2.drop_last() =~= r.drop_last());
                assert(spec_join(r) == spec_join(r.drop_last()) + seq!['\n'] + r.last());
                assert(s =~= t.push(c));
                assert(t == spec_join(r));
                assert((spec_join(r.drop_last()) + seq!['\n'] + r.last()).push(c) =~= spec_join(r.drop_last()) + seq!['\n'] + r.last().push(c));
                assert(r2.last() == r.last().push(c));
                assert(spec_join(r2) == spec_join(r2.drop_last()) + seq!['\n'] + r2.last());
            }
        }
    }
}

/// The number of line breaks in `s`.
pub open spec fn spec_count_breaks(s: Seq<char>) -> nat
    decreases s.len(),
{
    if s.len() == 0 { 0 } else { spec_count_breaks(s.drop_last()) + (if s.last() == '\n' { 1nat } else { 0 }) }
}

/// Splitting gives one piece more than there are line breaks.
pub proof fn lemma_split_len(s: Seq<char>)
    ensures
        spec_split(s).len() == spec_count_breaks(s) + 1,
    decreases s.len(),
{
    if s.len() > 0 {
        lemma_split_len(s.drop_last());
    }
}

/// Line breaks add up over a concatenation.
pub proof fn lemma_count_breaks_concat(a: Seq<char>, b: Seq<char>)
    ensures
        spec_count_breaks(a + b) == spec_count_breaks(a) + spec_count_breaks(b),
    decreases b.len(),
{
    if b.len() > 0 {
        assert((a + b).drop_last() =~= a + b.drop_last());
        lemma_count_breaks_concat(a, b.drop_last());
    } else {
        assert(a + b =~= a);
    }
}

/// The views of a list of character lists.
pub open spec fn spec_views(v: Seq<Vec<char>>) -> Seq<Seq<char>> {
    Seq::new(v.len(), |k: int| v[k]@)
}

/// Splits `s` at its line breaks; see `spec_split`.
pub fn split_lines(s: &Vec<char>) -> (r: Vec<Vec<char>>)
    ensures
        spec_views(r@) == spec_split(s@),
{
    let mut lines: Vec<Vec<char>> = Vec::new();
    let mut cur: Vec<char> = Vec::new();
    let mut i: usize = 0;
    while i < s.len()
        invariant
            i <= s.len(),
            spec_views(lines@).push(cur@) == spec_split(s@.take(i as int)),
        decreases s.len() - i,
    {
        let c = s[i];
        proof {
            assert(s@.take(i + 1).drop_last() =~= s@.take(i as int));
            assert(s@.take(i + 1).last() == c);
        }
        let ghost before = spec_views(lines@).push(cur@);
        if c == '\n' {
            let done = cur;
            lines.push(done);
            cur = Vec::new();
            proof {
                assert(spec_views(lines@).push(cur@) =~= before.push(seq![]));
            }
        } else {
            cur.push(c);
            proof {
                assert(spec_views(lines@).push(cur@) =~= before.update(before.len() - 1, before.last().push(c)));
            }
        }
        i = i + 1;
    }
    let ghost before = spec_views(lines@).push(cur@);
    lines.push(cur);
    proof {
        assert(s@.take(s.len() as int) =~= s@);
        assert(spec_views(lines@) =~= before);
    }
    lines
}

proof fn lemma_count_repeat(c: char, n: nat)
    requires
        c != '\n',
    ensures
        spec_count_breaks(spec_repeat(c, n)) == 0,
    decreases n,
{
    if n > 0 {
        assert(spec_repeat(c, n).drop_last() =~= spec_repeat(c, (n - 1) as nat));
        lemma_count_repeat(c, (n - 1) as nat);
    }
}

proof fn lemma_count_small(s: Seq<char>)
    requires
        s.len() <= 4,
    ensures
        spec_count_breaks(s) >= (if s.len() > 0 && s.last() == '\n' { 1nat } else { 0 }),
{
    if s.len() > 0 {
        assert(spec_count_breaks(s) == spec_count_breaks(s.drop_last()) + (if s.last() == '\n' { 1nat } else { 0 }));
    }
}

proof fn lemma_count_chunk(f: Seq<Cell>, view: CellView, c: int)
    ensures
        spec_count_breaks(spec_cell_chunk(f, view, c)) >=
            (if c % (FLOOR_CELLS_W as int) == 0 { 1nat } else { 0 })
            + (if c == FLOOR_CELLS_W || c == FLOOR_CELLS_WH - FLOOR_CELLS_W { 1nat } else { 0 }),
{
    let b = spec_chunk_break(c);
    let d = spec_chunk_border(c);
    let l = spec_chunk_left(c);
    let v = seq![spec_view_char(f[c], view)];
    let r = spec_chunk_right(c);
    lemma_count_breaks_concat(b, d);
    lemma_count_breaks_concat(b + d, l);
    lemma_count_breaks_concat(b + d + l, v);
    lemma_count_breaks_concat(b + d + l + v, r);
    lemma_count_small(b);
    if c == FLOOR_CELLS_W || c == FLOOR_CELLS_WH - FLOOR_CELLS_W {
        let top = c == FLOOR_CELLS_W;
        let p1 = seq!['│', ' ', if top { '┌' } else { '└' }];
        let p2 = spec_repeat('─', (FLOOR_CELLS_W - 2) as nat);
        let p3 = seq![if top { '┐' } else { '┘' }, ' ', '│', '\n'];
        lemma_count_breaks_concat(p1, p2);
        lemma_count_breaks_concat(p1 + p2, p3);
        lemma_count_small(p3);
    }
}

proof fn lemma_count_chunks(f: Seq<Cell>, view: CellView, k: nat)
    ensures
        spec_count_breaks(spec_cell_chunks(f, view, k)) >=
            (k + 16) / 17 + (if k > FLOOR_CELLS_W { 1nat } else { 0 }) + (if k > FLOOR_CELLS_WH - FLOOR_CELLS_W { 1nat } else { 0 }),
    decreases k,
{
    if k > 0 {
        lemma_count_chunks(f, view, (k - 1) as nat);
        lemma_count_chunk(f, view, k - 1);
        lemma_count_breaks_concat(spec_cell_chunks(f, view, (k - 1) as nat), spec_cell_chunk(f, view, k - 1));
    }
}

/// A text rendering of the floor has at least the 21 lines of the frame.
pub proof fn lemma_framed_lines(f: Seq<Cell>, view: CellView)
    ensures
        spec_split(spec_framed(f, view)).len() >= FLOOR_CELLS_H + 4,
{
    let top = seq!['┌'] + spec_repeat('─', (FLOOR_CELLS_W + 2) as nat) + seq!['┐'];
    let mid = spec_cell_chunks(f, view, FLOOR_CELLS_WH as nat);
    let tail = seq!['\n', '└'] + spec_repeat('─', (FLOOR_CELLS_W + 2) as nat) + seq!['┘'];
    lemma_count_chunks(f, view, FLOOR_CELLS_WH as nat);
    lemma_count_breaks_concat(top, mid);
    lemma_count_breaks_concat(top + mid, tail);
    lemma_count_breaks_concat(seq!['\n', '└'], spec_repeat('─', (FLOOR_CELLS_W + 2) as nat));
    lemma_count_breaks_concat(seq!['\n', '└'] + spec_repeat('─', (FLOOR_CELLS_W + 2) as nat), seq!['┘']);
    assert(spec_count_breaks(seq!['\n']) == 1) by {
        let e = Seq::<char>::empty();
        assert(spec_count_breaks(e) == 0);
        assert(seq!['\n'].drop_last() =~= e);
        assert(seq!['\n'].last() == '\n');
        assert(seq!['\n'].len() == 1);
    }
    assert(spec_count_breaks(seq!['\n', '└']) == 1) by {
        assert(seq!['\n', '└'].drop_last() =~= seq!['\n']);
    }
    assert(spec_framed(f, view) =~= top + mid + tail);
    lemma_split_len(spec_framed(f, view));
}

/// What `format!("{:?}", s)` writes for the string `s`: the string in double quotes, with
/// the characters that need it escaped.
pub uninterp spec fn spec_debug_quoted(s: Seq<char>) -> Seq<char>;

/// The debug form of the string made of `chars`, as `format!("{:?}", ..)` writes it.
#[verifier::external_body]
fn debug_quoted(chars: &Vec<char>) -> (r: Vec<char>)
    ensures
        r@ == spec_debug_quoted(chars@),
{
    let s: String = chars.iter().collect();
    format!("{:?}", s).chars().collect()
}

/// The text padded with spaces on the right to at least three characters, as `{:3}` writes a
/// string.
pub open spec fn spec_pad3(s: Seq<char>) -> Seq<char> {
    if s.len() < 3 { s + spec_repeat(' ', (3 - s.len()) as nat) } else { s }
}

/// The first row index shown on line `i` of the views: counts the lines that show cells of
/// the inner rows or of the last row.
pub open spec fn spec_cor(i: nat) -> nat
    decreases i,
{
    if i == 0 { 0 } else { spec_cor((i - 1) as nat) + (if i != 1 && i != 3 && i != FLOOR_CELLS_H + 2 { 1nat } else { 0 }) }
}

/// The label in front of line `i` of the views: the coord of its first cell, for lines that
/// show cells.
pub open spec fn spec_label(i: nat) -> Seq<char> {
    if i != 0 && i != 2 && i != FLOOR_CELLS_H + 1 && i != FLOOR_CELLS_H + 3 {
        spec_decimal(spec_cor(i) * (FLOOR_CELLS_W as nat))
    } else {
        seq![]
    }
}

/// A line of the side by side views: the label in brackets, then each column's debug form,
/// separated by the given gaps.
pub open spec fn spec_columns_line(label: Seq<char>, cols: Seq<Seq<char>>, gaps: Seq<nat>) -> Seq<char>
    decreases cols.len(),
{
    if cols.len() == 0 {
        seq!['('] + spec_pad3(label) + seq![')', ' ', ' ']
    } else {
        spec_columns_line(label, cols.drop_last(), gaps) + spec_repeat(' ', gaps[cols.len() - 1]) + cols.last()
    }
}

/// The gaps before each of the seven views of `generate_floor_with_views`.
pub open spec fn spec_view_gaps() -> Seq<nat> {
    seq![0nat, 7, 4, 4, 4, 8, 4]
}

/// Writes one line of side by side views; see `spec_columns_line`.
pub fn format_columns_line(label: &Vec<char>, cols: &Vec<Vec<char>>, gaps: &Vec<usize>) -> (r: Vec<char>)
    requires
        gaps@.len() >= cols@.len(),
    ensures
        r@ == spec_columns_line(label@, spec_views(cols@), Seq::new(gaps@.len(), |k: int| gaps@[k] as nat)),
{
    let ghost g = Seq::new(gaps@.len(), |k: int| gaps@[k] as nat);
    let mut out: Vec<char> = Vec::new();
    out.push('(');
    push_all(&mut out, label);
    if label.len() < 3 {
        push_n(&mut out, ' ', 3 - label.len());
    }
    out.push(')');
    out.push(' ');
    out.push(' ');
    proof {
        assert(out@ =~= spec_columns_line(label@, spec_views(cols@).take(0), g));
    }
    let mut k: usize = 0;
    while k < cols.len()
        invariant
            k <= cols@.len(),
            gaps@.len() >= cols@.len(),
            g == Seq::new(gaps@.len(), |k: int| gaps@[k] as nat),
            out@ == spec_columns_line(label@, spec_views(cols@).take(k as int), g),
        decreases cols.len() - k,
    {
        push_n(&mut out, ' ', gaps[k]);
        push_all(&mut out, &cols[k]);
        proof {
            let t = spec_views(cols@).take(k + 1);
            assert(t.drop_last() =~= spec_views(cols@).take(k as int));
            assert(out@ =~= spec_columns_line(label@, t, g));
        }
        k = k + 1;
    }
    proof { assert(spec_views(cols@).take(cols@.len() as int) =~= spec_views(cols@)); }
    out
}

/// The seven views that `generate_floor_with_views` shows side by side.
pub open spec fn spec_all_views() -> Seq<CellView> {
    seq![CellView::Center(false), CellView::PortU, CellView::PortR, CellView::PortD, CellView::PortL,
        CellView::PartFrom, CellView::PartTo]
}

/// The header line of `generate_floor_with_views`.
pub open spec fn spec_views_header() -> Seq<char> {
    "        \"0 123456789012345 6\"                port_u                     port_r                     port_d                     port_l                       belt_from                   belt_to"@
}

/// The header and footer line of `generate_floor_without_views`, and the footer line of
/// `generate_floor_with_views`.
pub open spec fn spec_ruler() -> Seq<char> {
    "        \"0 123456789012345 6\""@
}

/// Line `i` of the frame of the given view.
pub open spec fn spec_frame_line(f: Seq<Cell>, view: CellView, i: int) -> Seq<char> {
    spec_split(spec_framed(f, view))[i]
}

/// Line `i + 1` of `generate_floor_with_views`.
pub open spec fn spec_views_line(f: Seq<Cell>, i: nat) -> Seq<char> {
    spec_columns_line(spec_label(i),
        Seq::new(7, |k: int| spec_debug_quoted(spec_frame_line(f, spec_all_views()[k], i as int))),
        spec_view_gaps())
}

/// Line `i + 1` of `generate_floor_without_views`.
pub open spec fn spec_plain_line(f: Seq<Cell>, i: nat) -> Seq<char> {
    spec_columns_line(spec_label(i),
        seq![spec_debug_quoted(spec_frame_line(f, CellView::Center(false), i as int))],
        seq![0nat])
}

fn views_list() -> (r: Vec<CellView>)
    ensures
        r@ == spec_all_views(),
{
    let r: Vec<CellView> = vec![CellView::Center(false), CellView::PortU, CellView::PortR, CellView::PortD, CellView::PortL,
        CellView::PartFrom, CellView::PartTo];
    proof { assert(r@ =~= spec_all_views()); }
    r
}

/// The label of a line: the coord of its first cell when `show`.
fn label_chars(show: bool, cor: usize) -> (r: Vec<char>)
    requires
        cor <= 100,
    ensures
        r@ == (if show { spec_decimal((cor * FLOOR_CELLS_W) as nat) } else { seq![] }),
{
    if show { u64_to_decimal((cor * FLOOR_CELLS_W) as u64) } else { Vec::new() }
}

proof fn lemma_cor_bound(i: nat)
    ensures
        spec_cor(i) <= i,
    decreases i,
{
    if i > 0 {
        lemma_cor_bound((i - 1) as nat);
    }
}

/// The floor as seven text renderings side by side (content, the four ports, and where the
/// part on each belt comes from and goes to), one line per row of text, between a header and
/// a ruler line.
pub fn generate_floor_with_views(factory: &Factory) -> (out: Vec<String>)
    requires
        factory.floor.len() == FLOOR_CELLS_WH,
    ensures
        out@.len() == FLOOR_CELLS_H + 6,
        out@[0]@ == spec_views_header(),
        out@[FLOOR_CELLS_H + 5]@ == spec_ruler(),
        forall|i: int| 0 <= i < FLOOR_CELLS_H + 4 ==> #[trigger] out@[i + 1]@ == spec_views_line(factory.floor@, i as nat),
{
    let ghost f = factory.floor@;
    let views = views_list();
    let mut splits: Vec<Vec<Vec<char>>> = Vec::new();
    let mut k: usize = 0;
    while k < views.len()
        invariant
            factory.floor.len() == FLOOR_CELLS_WH,
            f == factory.floor@,
            views@ == spec_all_views(),
            k <= views@.len(),
            splits@.len() == k,
            forall|j: int| 0 <= j < k ==> #[trigger] spec_views(splits@[j]@) == spec_split(spec_framed(f, spec_all_views()[j])),
        decreases views.len() - k,
    {
        let chars = framed_chars(factory, views[k]);
        let lines = split_lines(&chars);
        splits.push(lines);
        k = k + 1;
    }
    let mut gaps: Vec<usize> = vec![0, 7, 4, 4, 4, 8, 4];
    let ghost g = Seq::new(gaps@.len(), |k: int| gaps@[k] as nat);
    proof { assert(g =~= spec_view_gaps()); }
    let mut out: Vec<String> = Vec::new();
    out.push("        \"0 123456789012345 6\"                port_u                     port_r                     port_d                     port_l                       belt_from                   belt_to".to_owned());
    let mut cor: usize = 0;
    let mut i: usize = 0;
    while i < FLOOR_CELLS_H + 4
        invariant
            f == factory.floor@,
            splits@.len() == 7,
            forall|j: int| 0 <= j < 7 ==> #[trigger] spec_views(splits@[j]@) == spec_split(spec_framed(f, spec_all_views()[j])),
            gaps@.len() == 7,
            g == spec_view_gaps(),
            g == Seq::new(gaps@.len(), |k: int| gaps@[k] as nat),
            i <= FLOOR_CELLS_H + 4,
            cor == (if i == 0 { 0 } else { spec_cor((i - 1) as nat) }),
            cor <= i,
            out@.len() == i + 1,
            out@[0]@ == spec_views_header(),
            forall|j: int| 0 <= j < i ==> #[trigger] out@[j + 1]@ == spec_views_line(f, j as nat),
        decreases FLOOR_CELLS_H + 4 - i,
    {
        if i != 0 && i != 1 && i != 3 && i != FLOOR_CELLS_H + 2 {
            cor = cor + 1;
        }
        proof { lemma_cor_bound(i as nat); }
        let show = i != 0 && i != 2 && i != FLOOR_CELLS_H + 1 && i != FLOOR_CELLS_H + 3;
        let label = label_chars(show, cor);
        let mut cols: Vec<Vec<char>> = Vec::new();
        let mut k: usize = 0;
        while k < 7
            invariant
                f == factory.floor@,
                splits@.len() == 7,
                forall|j: int| 0 <= j < 7 ==> #[trigger] spec_views(splits@[j]@) == spec_split(spec_framed(f, spec_all_views()[j])),
                i < FLOOR_CELLS_H + 4,
                k <= 7,
                cols@.len() == k,
                forall|j: int| 0 <= j < k ==> #[trigger] cols@[j]@ == spec_debug_quoted(spec_frame_line(f, spec_all_views()[j], i as int)),
            decreases 7 - k,
        {
            proof {
                lemma_framed_lines(f, spec_all_views()[k as int]);
                assert(spec_views(splits@[k as int]@) == spec_split(spec_framed(f, spec_all_views()[k as int])));
                assert(spec_views(splits@[k as int]@)[i as int] == splits@[k as int]@[i as int]@);
            }
            let q = debug_quoted(&splits[k][i]);
            cols.push(q);
            k = k + 1;
        }
        let line = format_columns_line(&label, &cols, &gaps);
        proof {
            assert(spec_views(cols@) =~= Seq::new(7, |k: int| spec_debug_quoted(spec_frame_line(f, spec_all_views()[k], i as int))));
            assert(label@ == spec_label(i as nat));
        }
        out.push(string_from_chars(&line));
        i = i + 1;
    }
    out.push("        \"0 123456789012345 6\"".to_owned());
    out
}

/// The floor as a text rendering of its content, one line per row of text, between two ruler
/// lines.
pub fn generate_floor_without_views(factory: &Factory) -> (out: Vec<String>)
    requires
        factory.floor.len() == FLOOR_CELLS_WH,
    ensures
        out@.len() == FLOOR_CELLS_H + 6,
        out@[0]@ == spec_ruler(),
        out@[FLOOR_CELLS_H + 5]@ == spec_ruler(),
        forall|i: int| 0 <= i < FLOOR_CELLS_H + 4 ==> #[trigger] out@[i + 1]@ == spec_plain_line(factory.floor@, i as nat),
{
    let ghost f = factory.floor@;
    let chars = framed_chars(factory, CellView::Center(false));
    let lines = split_lines(&chars);
    proof { lemma_framed_lines(f, CellView::Center(false)); }
    let gaps: Vec<usize> = vec![0];
    let ghost g = Seq::new(gaps@.len(), |k: int| gaps@[k] as nat);
    proof { assert(g =~= seq![0nat]); }
    let mut out: Vec<String> = Vec::new();
    out.push("        \"0 123456789012345 6\"".to_owned());
    let mut cor: usize = 0;
    let mut i: usize = 0;
    while i < FLOOR_CELLS_H + 4
        invariant
            f == factory.floor@,
            spec_views(lines@) == spec_split(spec_framed(f, CellView::Center(false))),
            spec_split(spec_framed(f, CellView::Center(false))).len() >= FLOOR_CELLS_H + 4,
            gaps@.len() == 1,
            g == seq![0nat],
            g == Seq::new(gaps@.len(), |k: int| gaps@[k] as nat),
            i <= FLOOR_CELLS_H + 4,
            cor == (if i == 0 { 0 } else { spec_cor((i - 1) as nat) }),
            cor <= i,
            out@.len() == i + 1,
            out@[0]@ == spec_ruler(),
            forall|j: int| 0 <= j < i ==> #[trigger] out@[j + 1]@ == spec_plain_line(f, j as nat),
        decreases FLOOR_CELLS_H + 4 - i,
    {
        if i != 0 && i != 1 && i != 3 && i != FLOOR_CELLS_H + 2 {
            cor = cor + 1;
        }
        proof { lemma_cor_bound(i as nat); }
        let show = i != 0 && i != 2 && i != FLOOR_CELLS_H + 1 && i != FLOOR_CELLS_H + 3;
        let label = label_chars(show, cor);
        proof { assert(spec_views(lines@)[i as int] == lines@[i as int]@); }
        let q = debug_quoted(&lines[i]);
        let mut cols: Vec<Vec<char>> = Vec::new();
        cols.push(q);
        let line = format_columns_line(&label, &cols, &gaps);
        proof {
            assert(spec_views(cols@) =~= seq![spec_debug_quoted(spec_frame_line(f, CellView::Center(false), i as int))]);
            assert(label@ == spec_label(i as nat));
        }
        out.push(string_from_chars(&line));
        i = i + 1;
    }
    out.push("        \"0 123456789012345 6\"".to_owned());
    out
}

} // verus!
