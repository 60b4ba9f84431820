use vstd::prelude::*;
use crate::belt_meta::{BeltType, belt_type_from_ports, belt_type_to_belt_meta, spec_belt_type_from_ports, spec_belt_type_to_belt_meta};
use crate::cell::{Cell, CellKind, floor_wf, lemma_floor_cell, lemma_floor_len, lemma_floor_update, spec_fresh_cell, spec_new_empty,
    spec_new_belt, spec_new_supply, spec_new_demand, empty_cell, belt_cell, machine_any_cell, supply_cell, demand_cell};
use crate::deserialize::{CellDesc, ParseError, Augment, AugmentView, spec_aug_views, spec_row_descs, spec_grid, spec_cell_desc};
use crate::supply::Supply;
use crate::demand::Demand;
use crate::floor::{FLOOR_CELLS_W, FLOOR_CELLS_H, FLOOR_CELLS_WH, spec_is_middle, spec_to_coord, to_xy};
use crate::machine::MachineKind;
use crate::part::{Config, Part, part_c, CONFIG_NODE_PART_NONE, CONFIG_NODE_PART_TRASH};
use crate::port::Port;
use crate::layout::{spec_in_rect, spec_col, spec_row, spec_rect_w, spec_rect_h, spec_rect_coords, spec_wants, spec_placed, place_machine, copy_usizes};
use crate::part::{PartKind, spec_part_none, part_none, spec_icon_part, icon_part};
use crate::deserialize::{spec_pattern, spec_augments, spec_lines, spec_next_content, spec_is_content, spec_trim_start, spec_header_ok, text_lines, trim_start, header_ok, next_content, parse_grid, augments, spec_strip_cr};
use crate::serialize::{spec_split, spec_views};
use crate::cell::spec_coord_is_middle;

verus! {

/// A machine cell only inside the floor, a supplier or demander only on its edge.
pub open spec fn spec_desc_ok(d: CellDesc, i: int, j: int) -> bool {
    &&& (d is Machine || d is Belt || d is BeltUnknown) ==> spec_is_middle(i, j)
    &&& (d is Supply || d is Demand) ==> !spec_is_middle(i, j)
}

/// Every cell of the grid is in a place its kind allows.
pub open spec fn spec_descs_ok(descs: Seq<CellDesc>) -> bool {
    forall|c: int| 0 <= c < descs.len() ==> #[trigger] spec_desc_ok(descs[c], c % (FLOOR_CELLS_W as int), c / (FLOOR_CELLS_W as int))
}

proof fn lemma_row_descs_ok(t1: Seq<char>, t2: Seq<char>, t3: Seq<char>, j: int, k: nat)
    ensures
        spec_row_descs(t1, t2, t3, j, k) matches Ok(d) ==> d.len() == k
            && forall|i: int| 0 <= i < k ==> #[trigger] spec_desc_ok(d[i], i, j),
    decreases k,
{
    if k > 0 {
        lemma_row_descs_ok(t1, t2, t3, j, (k - 1) as nat);
    }
}

/// The cells read from the grid are in places their kinds allow.
pub proof fn lemma_grid_ok(lines: Seq<Seq<char>>, pos: int, r: nat)
    requires
        r <= FLOOR_CELLS_H,
    ensures
        spec_grid(lines, pos, r) matches Ok((d, _p)) ==> d.len() == r * FLOOR_CELLS_W && spec_descs_ok(d),
    decreases r,
{
    if r > 0 {
        lemma_grid_ok(lines, pos, (r - 1) as nat);
        match spec_grid(lines, pos, (r - 1) as nat) {
            Err(_) => {},
            Ok((descs, p)) => {
                match crate::deserialize::spec_next_content(lines, p) {
                    None => {},
                    Some(a) => match crate::deserialize::spec_next_content(lines, a + 1) {
                        None => {},
                        Some(b) => match crate::deserialize::spec_next_content(lines, b + 1) {
                            None => {},
                            Some(c) => {
                                let t1 = crate::deserialize::spec_trim_start(lines[a]);
                                let t2 = crate::deserialize::spec_trim_start(lines[b]);
                                let t3 = crate::deserialize::spec_trim_start(lines[c]);
                                lemma_row_descs_ok(t1, t2, t3, r - 1, FLOOR_CELLS_W as nat);
                                match spec_row_descs(t1, t2, t3, r - 1, FLOOR_CELLS_W as nat) {
                                    Err(_) => {},
                                    Ok(row) => {
                                        let d = descs + row;
                                        assert forall|cc: int| 0 <= cc < d.len() implies #[trigger] spec_desc_ok(d[cc], cc % (FLOOR_CELLS_W as int), cc / (FLOOR_CELLS_W as int)) by {
                                            if cc < descs.len() {
                                                assert(d[cc] == descs[cc]);
                                            } else {
                                                let i = cc - descs.len();
                                                assert(d[cc] == row[i]);
                                                assert(cc % 17 == i && cc / 17 == r - 1) by (nonlinear_arith)
                                                    requires cc == (r - 1) * 17 + i, 0 <= i < 17, r >= 1;
                                                assert(spec_desc_ok(row[i], i, r - 1));
                                            }
                                        }
                                    },
                                }
                            },
                        },
                    },
                }
            },
        }
    }
}

/// The trash part that placeholder suppliers hand out.
pub open spec fn spec_trash() -> Part {
    Part { kind: CONFIG_NODE_PART_TRASH, icon: 't' }
}

/// The cell that the grid description `d` of cell (x, y) makes, before parameter lines and
/// machines are applied.
pub open spec fn spec_desc_cell(config: &Config, c: Cell, d: CellDesc, x: int, y: int, demand_speed: u64, demand_cooldown: u64) -> bool {
    match d {
        CellDesc::Empty => spec_new_empty(c, x, y),
        CellDesc::BeltUnknown => spec_new_belt(c, x, y, spec_belt_type_to_belt_meta(BeltType::UNKNOWN)),
        CellDesc::Belt(u, r, dd, l) => spec_new_belt(c, x, y, spec_belt_type_to_belt_meta(spec_belt_type_from_ports(u, r, dd, l))),
        CellDesc::Machine(id, u, r, dd, l) => {
            &&& spec_fresh_cell(c, CellKind::Machine, x, y)
            &&& c.ins@.len() == 0 && c.outs@.len() == 0
            &&& c.port_u == u && c.port_r == r && c.port_d == dd && c.port_l == l
            &&& c.machine.kind == MachineKind::Unknown
            &&& c.machine.main_coord == spec_to_coord(x, y)
            &&& c.machine.id == id
            &&& c.machine.coords@.len() == 0
        },
        CellDesc::Supply(p) => spec_new_supply(c, x, y, spec_icon_part(config, p, spec_trash()), 1, 1, 1),
        CellDesc::Demand(p) => spec_new_demand(c, x, y, demand_speed, demand_cooldown)
            && c.demand.part == spec_icon_part(config, p, spec_part_none()),
    }
}

/// The cell for one grid description; see `spec_desc_cell`.
fn desc_cell(config: &Config, d: CellDesc, x: usize, y: usize, demand_speed: u64, demand_cooldown: u64) -> (c: Cell)
    requires
        config.wf(),
        x < FLOOR_CELLS_W,
        y < FLOOR_CELLS_H,
        spec_desc_ok(d, x as int, y as int),
    ensures
        spec_desc_cell(config, c, d, x as int, y as int, demand_speed, demand_cooldown),
        c.wf_at(spec_to_coord(x as int, y as int)),
{
    let c = match d {
        CellDesc::Empty => empty_cell(x, y),
        CellDesc::BeltUnknown => belt_cell(x, y, belt_type_to_belt_meta(BeltType::UNKNOWN)),
        CellDesc::Belt(u, r, dd, l) => belt_cell(x, y, belt_type_to_belt_meta(belt_type_from_ports(u, r, dd, l))),
        CellDesc::Machine(id, u, r, dd, l) => {
            let none = part_c(config, ' ');
            let mut c = machine_any_cell(id, x, y, 1, 1, MachineKind::Unknown, Vec::new(), none, 1, 1, 1);
            c.port_u = u;
            c.port_r = r;
            c.port_d = dd;
            c.port_l = l;
            c
        },
        CellDesc::Supply(p) => {
            let trash = part_c(config, 't');
            assert(trash == spec_trash()) by {
                assert(config.nodes[1].icon == 't');
                assert(config.nodes[0].icon != 't');
            }
            supply_cell(x, y, icon_part(config, p, trash), 1, 1, 1)
        },
        CellDesc::Demand(p) => {
            let mut c = demand_cell(x, y, demand_speed, demand_cooldown);
            c.demand.part = icon_part(config, p, part_none());
            c
        },
    };
    assert(spec_desc_cell(config, c, d, x as int, y as int, demand_speed, demand_cooldown));
    c
}

/// The grid description is a cell of the machine with id `id`.
pub open spec fn spec_is_id(d: CellDesc, id: char) -> bool {
    d matches CellDesc::Machine(i2, _u, _r, _d, _l) && i2 == id
}

/// The machine ids of the first `k` cells, in the order they first appear.
pub open spec fn spec_desc_ids(descs: Seq<CellDesc>, k: nat) -> Seq<char>
    decreases k,
{
    if k == 0 {
        seq![]
    } else {
        let ids = spec_desc_ids(descs, (k - 1) as nat);
        match descs[k - 1] {
            CellDesc::Machine(id, _u, _r, _d, _l) => if ids.contains(id) { ids } else { ids.push(id) },
            _ => ids,
        }
    }
}

/// The first of the first `k` cells that belongs to machine `id` (-1 if none).
pub open spec fn spec_first_of(descs: Seq<CellDesc>, id: char, k: nat) -> int
    decreases k,
{
    if k == 0 {
        -1
    } else {
        let f = spec_first_of(descs, id, (k - 1) as nat);
        if f >= 0 { f } else if spec_is_id(descs[k - 1], id) { k - 1 } else { -1 }
    }
}

/// The last of the first `k` cells that belongs to machine `id` (-1 if none).
pub open spec fn spec_last_of(descs: Seq<CellDesc>, id: char, k: nat) -> int
    decreases k,
{
    if k == 0 {
        -1
    } else if spec_is_id(descs[k - 1], id) {
        k - 1
    } else {
        spec_last_of(descs, id, (k - 1) as nat)
    }
}

proof fn lemma_ids_first(descs: Seq<CellDesc>, k: nat)
    ensures
        forall|id: char| #[trigger] spec_desc_ids(descs, k).contains(id) <==> spec_first_of(descs, id, k) >= 0,
        forall|id: char| spec_first_of(descs, id, k) >= 0 ==> #[trigger] spec_last_of(descs, id, k) >= spec_first_of(descs, id, k),
        forall|id: char| spec_first_of(descs, id, k) < k,
    decreases k,
{
    if k > 0 {
        lemma_ids_first(descs, (k - 1) as nat);
        let ids = spec_desc_ids(descs, (k - 1) as nat);
        assert forall|id: char| #[trigger] spec_desc_ids(descs, k).contains(id) <==> spec_first_of(descs, id, k) >= 0 by {
            match descs[k - 1] {
                CellDesc::Machine(x, _u, _r, _d, _l) => {
                    if !ids.contains(x) {
                        let p = ids.push(x);
                        assert(p[ids.len() as int] == x);
                        if p.contains(id) {
                            let i = choose|i: int| 0 <= i < p.len() && p[i] == id;
                            if i < ids.len() {
                                assert(ids[i] == id);
                                assert(ids.contains(id));
                            }
                        }
                        if ids.contains(id) {
                            let i = choose|i: int| 0 <= i < ids.len() && ids[i] == id;
                            assert(p[i] == id);
                        }
                    }
                },
                _ => {},
            }
        }
        assert forall|id: char| spec_first_of(descs, id, k) >= 0 implies #[trigger] spec_last_of(descs, id, k) >= spec_first_of(descs, id, k) by {
            assert(spec_first_of(descs, id, (k - 1) as nat) < k - 1);
            if spec_first_of(descs, id, (k - 1) as nat) >= 0 {
                assert(spec_last_of(descs, id, (k - 1) as nat) >= spec_first_of(descs, id, (k - 1) as nat));
            }
        }
        assert forall|id: char| spec_first_of(descs, id, k) < k by {
            assert(spec_first_of(descs, id, (k - 1) as nat) < k - 1);
        }
    }
}

/// Builds the floor from the grid descriptions, and lists the machines: their ids in the
/// order they first appear, with their first and last cells.
fn build_floor(config: &Config, descs: &Vec<CellDesc>, demand_speed: u64, demand_cooldown: u64) -> (r: (Vec<Cell>, Vec<char>, Vec<usize>, Vec<usize>))
    requires
        config.wf(),
        descs@.len() == FLOOR_CELLS_WH,
        spec_descs_ok(descs@),
    ensures
        r.0@.len() == FLOOR_CELLS_WH,
        floor_wf(r.0@),
        forall|c: int| 0 <= c < FLOOR_CELLS_WH ==> #[trigger] spec_desc_cell(config, r.0@[c], descs@[c], c % (FLOOR_CELLS_W as int), c / (FLOOR_CELLS_W as int), demand_speed, demand_cooldown),
        r.1@ == spec_desc_ids(descs@, FLOOR_CELLS_WH as nat),
        r.2@.len() == r.1@.len() && r.3@.len() == r.1@.len(),
        forall|k: int| 0 <= k < r.1@.len() ==> r.2@[k] == spec_first_of(descs@, #[trigger] r.1@[k], FLOOR_CELLS_WH as nat),
        forall|k: int| 0 <= k < r.1@.len() ==> r.3@[k] == spec_last_of(descs@, #[trigger] r.1@[k], FLOOR_CELLS_WH as nat),
        forall|i: int, j: int| 0 <= i < j < r.1@.len() ==> r.1@[i] != r.1@[j],
{
    let mut floor: Vec<Cell> = Vec::new();
    let mut ids: Vec<char> = Vec::new();
    let mut firsts: Vec<usize> = Vec::new();
    let mut lasts: Vec<usize> = Vec::new();
    let mut c: usize = 0;
    while c < FLOOR_CELLS_WH
        invariant
            config.wf(),
            descs@.len() == FLOOR_CELLS_WH,
            spec_descs_ok(descs@),
            c <= FLOOR_CELLS_WH,
            floor@.len() == c,
            forall|k: int| 0 <= k < c ==> (#[trigger] floor@[k]).wf_at(k),
            forall|k: int| 0 <= k < c ==> #[trigger] spec_desc_cell(config, floor@[k], descs@[k], k % (FLOOR_CELLS_W as int), k / (FLOOR_CELLS_W as int), demand_speed, demand_cooldown),
            ids@ == spec_desc_ids(descs@, c as nat),
            firsts@.len() == ids@.len() && lasts@.len() == ids@.len(),
            forall|k: int| 0 <= k < ids@.len() ==> firsts@[k] == spec_first_of(descs@, #[trigger] ids@[k], c as nat),
            forall|k: int| 0 <= k < ids@.len() ==> lasts@[k] == spec_last_of(descs@, #[trigger] ids@[k], c as nat),
            forall|i: int, j: int| 0 <= i < j < ids@.len() ==> ids@[i] != ids@[j],
        decreases FLOOR_CELLS_WH - c,
    {
        let (x, y) = to_xy(c);
        let d = descs[c];
        proof { assert(spec_desc_ok(descs@[c as int], c as int % 17, c as int / 17)); }
        let cell = desc_cell(config, d, x, y, demand_speed, demand_cooldown);
        floor.push(cell);
        proof { lemma_ids_first(descs@, c as nat); }
        match d {
            CellDesc::Machine(id, _u, _r, _dd, _l) => {
                let mut k: usize = 0;
                while k < ids.len() && ids[k] != id
                    invariant
                        k <= ids@.len(),
                        forall|j: int| 0 <= j < k ==> ids@[j] != id,
                    decreases ids.len() - k,
                {
                    k = k + 1;
                }
                if k < ids.len() {
                    lasts.set(k, c);
                    proof {
                        assert forall|j: int| 0 <= j < ids@.len() && j != k implies ids@[j] != id by {}
                    }
                } else {
                    proof { assert(!ids@.contains(id)); }
                    ids.push(id);
                    firsts.push(c);
                    lasts.push(c);
                }
            },
            _ => {},
        }
        c = c + 1;
    }
    proof {
        reveal(floor_wf);
    }
    (floor, ids, firsts, lasts)
}

/// The number of suppliers (or, with `!supply`, demanders) among the first `k` cells.
pub open spec fn spec_count_kind(descs: Seq<CellDesc>, supply: bool, k: nat) -> nat
    decreases k,
{
    if k == 0 {
        0
    } else {
        spec_count_kind(descs, supply, (k - 1) as nat)
            + (if (supply && descs[k - 1] is Supply) || (!supply && descs[k - 1] is Demand) { 1nat } else { 0 })
    }
}

/// The supplier after the first `k` parameter lines for the `n`th supplier were applied.
pub open spec fn spec_supply_after(s: Supply, augs: Seq<AugmentView>, n: nat, k: nat) -> Supply
    decreases k,
{
    if k == 0 {
        s
    } else {
        let prev = spec_supply_after(s, augs, n, (k - 1) as nat);
        match augs[k - 1] {
            AugmentView::Supply { nth, gives, icon, speed, cooldown } => if nth == n {
                Supply { speed: speed as u64, cooldown: cooldown as u64, gives: Part { kind: gives as usize, icon }, ..prev }
            } else {
                prev
            },
            _ => prev,
        }
    }
}

/// The demander after the first `k` parameter lines for the `n`th demander were applied.
pub open spec fn spec_demand_after(d: Demand, augs: Seq<AugmentView>, n: nat, k: nat) -> Demand
    decreases k,
{
    if k == 0 {
        d
    } else {
        let prev = spec_demand_after(d, augs, n, (k - 1) as nat);
        match augs[k - 1] {
            AugmentView::Demand { nth, speed, cooldown } => if nth == n {
                Demand { speed: speed as u64, cooldown: cooldown as u64, ..prev }
            } else {
                prev
            },
            _ => prev,
        }
    }
}

/// The floor after the parameter lines of suppliers and demanders were applied: the `n`th
/// supplier and demander (counted in floor order from 1) take the values of the last line for
/// them.
pub open spec fn spec_augmented(f0: Seq<Cell>, f1: Seq<Cell>, descs: Seq<CellDesc>, augs: Seq<AugmentView>) -> bool {
    &&& f1.len() == f0.len()
    &&& forall|c: int| 0 <= c < f0.len() ==> #[trigger] f1[c] == (
        if descs[c] is Supply {
            Cell { supply: spec_supply_after(f0[c].supply, augs, spec_count_kind(descs, true, c as nat) + 1, augs.len()), ..f0[c] }
        } else if descs[c] is Demand {
            Cell { demand: spec_demand_after(f0[c].demand, augs, spec_count_kind(descs, false, c as nat) + 1, augs.len()), ..f0[c] }
        } else {
            f0[c]
        })
}

/// The floor after the first `k` parameter lines (see `spec_augmented`).
pub open spec fn spec_augmented_k(f0: Seq<Cell>, f1: Seq<Cell>, descs: Seq<CellDesc>, augs: Seq<AugmentView>, k: nat) -> bool {
    &&& f1.len() == f0.len()
    &&& forall|c: int| 0 <= c < f0.len() ==> #[trigger] f1[c] == (
        if descs[c] is Supply {
            Cell { supply: spec_supply_after(f0[c].supply, augs, spec_count_kind(descs, true, c as nat) + 1, k), ..f0[c] }
        } else if descs[c] is Demand {
            Cell { demand: spec_demand_after(f0[c].demand, augs, spec_count_kind(descs, false, c as nat) + 1, k), ..f0[c] }
        } else {
            f0[c]
        })
}

/// Applies one supplier line: the `nth` supplier in floor order takes its values.
fn apply_supply(floor: &mut Vec<Cell>, descs: &Vec<CellDesc>, nth: u8, gives: usize, icon: char, speed: u64, cooldown: u64)
    requires
        old(floor)@.len() == FLOOR_CELLS_WH,
        descs@.len() == FLOOR_CELLS_WH,
        forall|c: int| 0 <= c < FLOOR_CELLS_WH ==> ((#[trigger] old(floor)@[c]).kind == CellKind::Supply <==> descs@[c] is Supply),
    ensures
        final(floor)@.len() == FLOOR_CELLS_WH,
        forall|c: int| 0 <= c < FLOOR_CELLS_WH ==> #[trigger] final(floor)@[c] == (
            if descs@[c] is Supply && spec_count_kind(descs@, true, c as nat) + 1 == nth {
                Cell { supply: Supply { speed, cooldown, gives: Part { kind: gives, icon }, ..old(floor)@[c].supply }, ..old(floor)@[c] }
            } else {
                old(floor)@[c]
            }),
{
    let mut n: usize = 1;
    let mut c: usize = 0;
    while c < FLOOR_CELLS_WH
        invariant
            floor@.len() == FLOOR_CELLS_WH,
            descs@.len() == FLOOR_CELLS_WH,
            forall|c: int| 0 <= c < FLOOR_CELLS_WH ==> ((#[trigger] old(floor)@[c]).kind == CellKind::Supply <==> descs@[c] is Supply),
            c <= FLOOR_CELLS_WH,
            n == spec_count_kind(descs@, true, c as nat) + 1,
            n <= c + 1,
            forall|k: int| c <= k < FLOOR_CELLS_WH ==> #[trigger] floor@[k] == old(floor)@[k],
            forall|k: int| 0 <= k < c ==> #[trigger] floor@[k] == (
                if descs@[k] is Supply && spec_count_kind(descs@, true, k as nat) + 1 == nth {
                    Cell { supply: Supply { speed, cooldown, gives: Part { kind: gives, icon }, ..old(floor)@[k].supply }, ..old(floor)@[k] }
                } else {
                    old(floor)@[k]
                }),
        decreases FLOOR_CELLS_WH - c,
    {
        proof { assert(floor@[c as int] == old(floor)@[c as int]); }
        if floor[c].kind == CellKind::Supply {
            if n == nth as usize {
                floor[c].supply.speed = speed;
                floor[c].supply.cooldown = cooldown;
                floor[c].supply.gives = Part { kind: gives, icon };
            }
            n = n + 1;
        }
        c = c + 1;
    }
}

/// Applies one demander line: the `nth` demander in floor order takes its values.
fn apply_demand(floor: &mut Vec<Cell>, descs: &Vec<CellDesc>, nth: u8, speed: u64, cooldown: u64)
    requires
        old(floor)@.len() == FLOOR_CELLS_WH,
        descs@.len() == FLOOR_CELLS_WH,
        forall|c: int| 0 <= c < FLOOR_CELLS_WH ==> ((#[trigger] old(floor)@[c]).kind == CellKind::Demand <==> descs@[c] is Demand),
    ensures
        final(floor)@.len() == FLOOR_CELLS_WH,
        forall|c: int| 0 <= c < FLOOR_CELLS_WH ==> #[trigger] final(floor)@[c] == (
            if descs@[c] is Demand && spec_count_kind(descs@, false, c as nat) + 1 == nth {
                Cell { demand: Demand { speed, cooldown, ..old(floor)@[c].demand }, ..old(floor)@[c] }
            } else {
                old(floor)@[c]
            }),
{
    let mut n: usize = 1;
    let mut c: usize = 0;
    while c < FLOOR_CELLS_WH
        invariant
            floor@.len() == FLOOR_CELLS_WH,
            descs@.len() == FLOOR_CELLS_WH,
            forall|c: int| 0 <= c < FLOOR_CELLS_WH ==> ((#[trigger] old(floor)@[c]).kind == CellKind::Demand <==> descs@[c] is Demand),
            c <= FLOOR_CELLS_WH,
            n == spec_count_kind(descs@, false, c as nat) + 1,
            n <= c + 1,
            forall|k: int| c <= k < FLOOR_CELLS_WH ==> #[trigger] floor@[k] == old(floor)@[k],
            forall|k: int| 0 <= k < c ==> #[trigger] floor@[k] == (
                if descs@[k] is Demand && spec_count_kind(descs@, false, k as nat) + 1 == nth {
                    Cell { demand: Demand { speed, cooldown, ..old(floor)@[k].demand }, ..old(floor)@[k] }
                } else {
                    old(floor)@[k]
                }),
        decreases FLOOR_CELLS_WH - c,
    {
        proof { assert(floor@[c as int] == old(floor)@[c as int]); }
        if floor[c].kind == CellKind::Demand {
            if n == nth as usize {
                floor[c].demand.speed = speed;
                floor[c].demand.cooldown = cooldown;
            }
            n = n + 1;
        }
        c = c + 1;
    }
}

proof fn lemma_first_last_is_id(descs: Seq<CellDesc>, id: char, k: nat)
    requires
        k <= descs.len(),
    ensures
        spec_first_of(descs, id, k) >= 0 ==> spec_is_id(descs[spec_first_of(descs, id, k)], id),
        spec_last_of(descs, id, k) >= 0 ==> spec_is_id(descs[spec_last_of(descs, id, k)], id),
        spec_last_of(descs, id, k) < k,
    decreases k,
{
    if k > 0 {
        lemma_first_last_is_id(descs, id, (k - 1) as nat);
    }
}

proof fn lemma_pattern_valid(config: &Config, words: Seq<Seq<char>>)
    ensures
        spec_pattern(config, words) matches Some(p) ==> forall|i: int| 0 <= i < p.len() ==> #[trigger] p[i] < config.nodes.len(),
    decreases words.len(),
{
    if words.len() > 0 {
        lemma_pattern_valid(config, words.drop_last());
        match spec_pattern(config, words.drop_last()) {
            None => {},
            Some(p) => match crate::deserialize::spec_name_kind(config, words.last()) {
                None => {},
                Some(k) => {
                    let q = p.push(k);
                    assert forall|i: int| 0 <= i < q.len() implies #[trigger] q[i] < config.nodes.len() by {
                        if i < p.len() {
                            assert(q[i] == p[i]);
                        }
                    }
                },
            },
        }
    }
}

/// Every pattern of a machine line names kinds of the configuration.
pub open spec fn spec_patterns_valid(config: &Config, augs: Seq<AugmentView>) -> bool {
    forall|i: int| 0 <= i < augs.len() ==> (#[trigger] augs[i] matches AugmentView::Machine { pattern, .. }
        ==> forall|j: int| 0 <= j < pattern.len() ==> #[trigger] pattern[j] < config.nodes.len())
}

proof fn lemma_augments_valid(config: &Config, lines: Seq<Seq<char>>, k: int, ids: Seq<char>, unlocks: Seq<char>)
    ensures
        spec_augments(config, lines, k, ids, unlocks) matches Ok((augs, _u)) ==> spec_patterns_valid(config, augs),
    decreases lines.len() - k,
{
    if 0 <= k < lines.len() {
        lemma_augments_valid(config, lines, k + 1, ids, crate::deserialize::spec_augment_line(config, lines[k], ids, unlocks).unwrap().1);
        match crate::deserialize::spec_augment_line(config, lines[k], ids, unlocks) {
            Err(_) => {},
            Ok((a, u)) => match spec_augments(config, lines, k + 1, ids, u) {
                Err(_) => {},
                Ok((rest, _u2)) => {
                    match a {
                        None => {},
                        Some(x) => {
                            let t = crate::deserialize::spec_trim_start(lines[k]);
                            if t[0] == 'm' {
                                match crate::deserialize::spec_machine_line(t, ids) {
                                    Err(_) => {},
                                    Ok((_id, words, _speed)) => { lemma_pattern_valid(config, words); },
                                }
                            }
                            let all = seq![x] + rest;
                            assert forall|i: int| 0 <= i < all.len() implies (#[trigger] all[i] matches AugmentView::Machine { pattern, .. }
                                ==> forall|j: int| 0 <= j < pattern.len() ==> #[trigger] pattern[j] < config.nodes.len()) by {
                                if i > 0 {
                                    assert(all[i] == rest[i - 1]);
                                }
                            }
                        },
                    }
                },
            },
        }
    }
}

/// The pattern and speed of the last machine line for machine `id` among the first `k` lines.
pub open spec fn spec_machine_aug(augs: Seq<AugmentView>, id: char, k: nat) -> Option<(Seq<PartKind>, nat)>
    decreases k,
{
    if k == 0 {
        None
    } else {
        match augs[k - 1] {
            AugmentView::Machine { id: i2, pattern, speed } => if i2 == id {
                Some((pattern, speed))
            } else {
                spec_machine_aug(augs, id, (k - 1) as nat)
            },
            _ => spec_machine_aug(augs, id, (k - 1) as nat),
        }
    }
}

/// The pattern of machine `id`: that of its last machine line, empty without one.
pub open spec fn spec_machine_pattern(augs: Seq<AugmentView>, id: char) -> Seq<PartKind> {
    match spec_machine_aug(augs, id, augs.len()) {
        Some((p, _s)) => p,
        None => seq![],
    }
}

/// The speed of machine `id`: that of its last machine line, 1 without one.
pub open spec fn spec_machine_speed(augs: Seq<AugmentView>, id: char) -> nat {
    match spec_machine_aug(augs, id, augs.len()) {
        Some((_p, s)) => s,
        None => 1,
    }
}

proof fn lemma_machine_aug_valid(config: &Config, augs: Seq<AugmentView>, id: char, k: nat)
    requires
        k <= augs.len(),
        spec_patterns_valid(config, augs),
    ensures
        spec_machine_aug(augs, id, k) matches Some((p, _s)) ==> forall|j: int| 0 <= j < p.len() ==> #[trigger] p[j] < config.nodes.len(),
    decreases k,
{
    if k > 0 {
        lemma_machine_aug_valid(config, augs, id, (k - 1) as nat);
        assert(augs[k - 1] matches AugmentView::Machine { pattern, .. }
            ==> forall|j: int| 0 <= j < pattern.len() ==> #[trigger] pattern[j] < config.nodes.len());
    }
}

/// The pattern and speed of machine `id`; see `spec_machine_pattern` and `spec_machine_speed`.
fn machine_aug(augs: &Vec<Augment>, id: char) -> (r: (Vec<PartKind>, u64))
    ensures
        r.0@ == spec_machine_pattern(spec_aug_views(augs@), id),
        r.1 == spec_machine_speed(spec_aug_views(augs@), id),
{
    let ghost views = spec_aug_views(augs@);
    let mut pattern: Vec<PartKind> = Vec::new();
    let mut speed: u64 = 1;
    let mut k: usize = 0;
    while k < augs.len()
        invariant
            k <= augs@.len(),
            views == spec_aug_views(augs@),
            match spec_machine_aug(views, id, k as nat) {
                Some((p, s)) => pattern@ == p && speed == s,
                None => pattern@.len() == 0 && speed == 1,
            },
        decreases augs.len() - k,
    {
        match &augs[k] {
            Augment::Machine { id: i2, pattern: p, speed: s } => {
                if *i2 == id {
                    pattern = copy_usizes(p);
                    speed = *s;
                }
            },
            _ => {},
        }
        k = k + 1;
    }
    proof {
        if spec_machine_aug(views, id, k as nat) is None {
            assert(pattern@ =~= Seq::<PartKind>::empty());
        }
    }
    (pattern, speed)
}

/// Index of the last of the first `k` machines whose rectangle holds cell `c` (-1 if none).
pub open spec fn spec_owner(firsts: Seq<usize>, lasts: Seq<usize>, c: int, k: nat) -> int
    decreases k,
{
    if k == 0 {
        -1
    } else if spec_in_rect(firsts[k - 1] as int, lasts[k - 1] as int, c) {
        k - 1
    } else {
        spec_owner(firsts, lasts, c, (k - 1) as nat)
    }
}

proof fn lemma_owner(firsts: Seq<usize>, lasts: Seq<usize>, c: int, k: nat)
    ensures
        -1 <= spec_owner(firsts, lasts, c, k) < k,
        spec_owner(firsts, lasts, c, k) >= 0 ==> spec_in_rect(firsts[spec_owner(firsts, lasts, c, k)] as int, lasts[spec_owner(firsts, lasts, c, k)] as int, c),
        forall|m: int| spec_owner(firsts, lasts, c, k) < m < k ==> !spec_in_rect(#[trigger] firsts[m] as int, lasts[m] as int, c),
    decreases k,
{
    if k > 0 {
        lemma_owner(firsts, lasts, c, (k - 1) as nat);
    }
}

/// Cell `c` after the first `k` machines were laid over the floor, one after the other (see
/// `spec_placed`): the last machine whose rectangle holds the cell owns it, and a main cell
/// keeps what its own machine wants, though a later machine covered it.
pub open spec fn spec_laid(config: &Config, c0: Cell, c1: Cell, c: int, ids: Seq<char>, firsts: Seq<usize>, lasts: Seq<usize>, pats: Seq<Seq<PartKind>>, speeds: Seq<u64>, k: nat) -> bool {
    let j = spec_owner(firsts, lasts, c, k);
    &&& (forall|m: int| 0 <= m < k && firsts[m] == c ==> {
        let n = (spec_rect_w(firsts[m] as int, lasts[m] as int) * spec_rect_h(firsts[m] as int, lasts[m] as int)) as nat;
        &&& c1.machine.wants@ == spec_wants(config, #[trigger] pats[m], n)
        &&& c1.machine.haves@ == Seq::new(n, |i: int| spec_part_none())
        &&& c1.machine.speed == speeds[m]
    })
    &&& (forall|m: int| 0 <= m < k ==> #[trigger] firsts[m] != c) ==> {
        &&& c1.machine.wants == c0.machine.wants
        &&& c1.machine.haves == c0.machine.haves
        &&& c1.machine.speed == c0.machine.speed
    }
    &&& if j < 0 {
        c1 == c0
    } else {
        let first = firsts[j] as int;
        let last = lasts[j] as int;
        &&& c1 == Cell { kind: CellKind::Machine, machine: c1.machine, ..c0 }
        &&& c1.machine.kind == (if c == first { MachineKind::Main } else { MachineKind::SubBuilding })
        &&& c1.machine.main_coord == first
        &&& c1.machine.id == ids[j]
        &&& c1.machine.cell_width == spec_rect_w(first, last)
        &&& c1.machine.cell_height == spec_rect_h(first, last)
        &&& c1.machine.coords@ == spec_rect_coords(first, last)
        &&& c1.machine.output_want == c0.machine.output_want
        &&& c1.machine.start_at == c0.machine.start_at
    }
}

/// A machine table that can be laid: each machine spans a rectangle inside the floor from its
/// first to its last cell, the first cells differ, and patterns name kinds of the configuration.
pub open spec fn spec_table_ok(config: &Config, firsts: Seq<usize>, lasts: Seq<usize>, pats: Seq<Seq<PartKind>>, n: nat) -> bool {
    &&& firsts.len() == n && lasts.len() == n && pats.len() == n
    &&& forall|m: int| 0 <= m < n ==> {
        &&& #[trigger] firsts[m] <= lasts[m] < FLOOR_CELLS_WH
        &&& spec_coord_is_middle(firsts[m] as int)
        &&& spec_coord_is_middle(lasts[m] as int)
        &&& spec_col(firsts[m] as int) <= spec_col(lasts[m] as int)
    }
    &&& forall|m: int, j: int| 0 <= m < j < n ==> #[trigger] firsts[m] != #[trigger] firsts[j]
    &&& forall|m: int, j: int| 0 <= m < n && 0 <= j < pats[m].len() ==> #[trigger] pats[m][j] < config.nodes.len()
}

pub open spec fn spec_vec_views(v: Seq<Vec<PartKind>>) -> Seq<Seq<PartKind>> {
    Seq::new(v.len(), |i: int| v[i]@)
}


#[verifier::spinoff_prover]
#[verifier::rlimit(50)]
proof fn lemma_laid_step(config: &Config, c0: Cell, b: Cell, a: Cell, c: int, ids: Seq<char>, firsts: Seq<usize>, lasts: Seq<usize>, pats: Seq<Seq<PartKind>>, speeds: Seq<u64>, n: nat, k: nat)
    requires
        0 <= c < FLOOR_CELLS_WH,
        k < n,
        spec_table_ok(config, firsts, lasts, pats, n),
        spec_laid(config, c0, b, c, ids, firsts, lasts, pats, speeds, k),
        spec_placed(config, b, a, c, ids[k as int], firsts[k as int] as int, lasts[k as int] as int, pats[k as int], speeds[k as int]),
    ensures
        spec_laid(config, c0, a, c, ids, firsts, lasts, pats, speeds, (k + 1) as nat),
{
    let first = firsts[k as int] as int;
    let last = lasts[k as int] as int;
    assert(firsts[k as int] <= lasts[k as int] < FLOOR_CELLS_WH);
    lemma_owner(firsts, lasts, c, k);
    lemma_owner(firsts, lasts, c, (k + 1) as nat);
    let j0 = spec_owner(firsts, lasts, c, k);
    // A first cell lies in its own rectangle.
    assert forall|m: int| 0 <= m < n implies spec_in_rect(#[trigger] firsts[m] as int, lasts[m] as int, firsts[m] as int) by {
        assert(firsts[m] <= lasts[m] < FLOOR_CELLS_WH);
        vstd::arithmetic::div_mod::lemma_div_is_ordered(firsts[m] as int, lasts[m] as int, 17);
    }
    if j0 < 0 {
        assert forall|m: int| 0 <= m < k implies #[trigger] firsts[m] != c by {
            if firsts[m] == c {
                assert(spec_in_rect(firsts[m] as int, lasts[m] as int, firsts[m] as int));
            }
        }
    }
    if c == first {
        assert forall|m: int| 0 <= m < k implies #[trigger] firsts[m] != c by {
            assert(firsts[m] != firsts[k as int]);
        }
    }
    let n2 = (spec_rect_w(first, last) * spec_rect_h(first, last)) as nat;
    if spec_in_rect(first, last, c) {
        assert(spec_owner(firsts, lasts, c, (k + 1) as nat) == k);
        if c == first {
            assert(a.machine.wants@ == spec_wants(config, pats[k as int], n2));
        } else {
            assert(a.machine.wants == b.machine.wants);
            assert(forall|m: int| 0 <= m < k + 1 && firsts[m] == c ==> m < k);
        }
        if j0 >= 0 {
            assert(b == Cell { kind: CellKind::Machine, machine: b.machine, ..c0 });
        }
        assert(a == Cell { kind: CellKind::Machine, machine: a.machine, ..c0 });
    } else {
        assert(a == b);
        assert(spec_owner(firsts, lasts, c, (k + 1) as nat) == j0);
        assert(firsts[k as int] != c);
    }
    let k1 = (k + 1) as nat;
    assert forall|m: int| 0 <= m < k1 && firsts[m] == c implies {
        let n = (spec_rect_w(firsts[m] as int, lasts[m] as int) * spec_rect_h(firsts[m] as int, lasts[m] as int)) as nat;
        &&& a.machine.wants@ == spec_wants(config, #[trigger] pats[m], n)
        &&& a.machine.haves@ == Seq::new(n, |i: int| spec_part_none())
        &&& a.machine.speed == speeds[m]
    } by {
        if m == k {
            assert(c == first);
            assert(spec_in_rect(first, last, c));
            assert(a.machine.haves@ =~= Seq::new(n2, |i: int| spec_part_none()));
        } else {
            assert(c != first);
            let nm = (spec_rect_w(firsts[m] as int, lasts[m] as int) * spec_rect_h(firsts[m] as int, lasts[m] as int)) as nat;
            assert(b.machine.wants@ == spec_wants(config, pats[m], nm));
            assert(a.machine.haves@ =~= Seq::new(nm, |i: int| spec_part_none()));
        }
    }
    assert((forall|m: int| 0 <= m < k1 ==> #[trigger] firsts[m] != c) ==> {
        &&& a.machine.wants == c0.machine.wants
        &&& a.machine.haves == c0.machine.haves
        &&& a.machine.speed == c0.machine.speed
    });
}

/// Lays the machines of the table over the floor, in order; see `spec_laid`.
fn lay_machines(config: &Config, floor: &mut Vec<Cell>, ids: &Vec<char>, firsts: &Vec<usize>, lasts: &Vec<usize>, pats: &Vec<Vec<PartKind>>, speeds: &Vec<u64>)
    requires
        config.wf(),
        floor_wf(old(floor)@),
        ids@.len() == firsts@.len() && speeds@.len() == firsts@.len(),
        spec_table_ok(config, firsts@, lasts@, spec_vec_views(pats@), firsts@.len() as nat),
    ensures
        floor_wf(final(floor)@),
        forall|c: int| 0 <= c < FLOOR_CELLS_WH ==> spec_laid(config, old(floor)@[c], #[trigger] final(floor)@[c], c, ids@, firsts@, lasts@, spec_vec_views(pats@), speeds@, firsts@.len() as nat),
{
    let ghost f0 = floor@;
    let ghost pv = spec_vec_views(pats@);
    proof { lemma_floor_len(floor@); }
    let n = firsts.len();
    let mut k: usize = 0;
    while k < n
        invariant
            config.wf(),
            n == firsts@.len(),
            ids@.len() == n && speeds@.len() == n,
            pv == spec_vec_views(pats@),
            spec_table_ok(config, firsts@, lasts@, pv, n as nat),
            f0.len() == FLOOR_CELLS_WH,
            floor_wf(floor@),
            k <= n,
            floor@.len() == FLOOR_CELLS_WH,
            forall|c: int| 0 <= c < FLOOR_CELLS_WH ==> spec_laid(config, f0[c], #[trigger] floor@[c], c, ids@, firsts@, lasts@, pv, speeds@, k as nat),
        decreases n - k,
    {
        let ghost before = floor@;
        proof {
            assert(firsts@[k as int] <= lasts@[k as int] < FLOOR_CELLS_WH);
            assert forall|i: int| 0 <= i < pats@[k as int]@.len() implies #[trigger] pats@[k as int]@[i] < config.nodes.len() by {
                assert(pv[k as int] == pats@[k as int]@);
                assert(pv[k as int][i] < config.nodes.len());
            }
        }
        place_machine(config, floor, ids[k], firsts[k], lasts[k], &pats[k], speeds[k]);
        proof {
            lemma_floor_len(floor@);
            let first = firsts@[k as int] as int;
            let last = lasts@[k as int] as int;
            assert(spec_row(first) <= spec_row(last)) by {
                vstd::arithmetic::div_mod::lemma_div_is_ordered(first, last, 17);
            }
            assert(spec_in_rect(first, last, first));
            assert forall|c: int| 0 <= c < FLOOR_CELLS_WH implies spec_laid(config, f0[c], #[trigger] floor@[c], c, ids@, firsts@, lasts@, pv, speeds@, (k + 1) as nat) by {
                assert(pv[k as int] == pats@[k as int]@);
                lemma_laid_step(config, f0[c], before[c], floor@[c], c, ids@, firsts@, lasts@, pv, speeds@, n as nat, k as nat);
            }
        }
        k = k + 1;
    }
}

proof fn lemma_split_pieces_short(s: Seq<char>)
    ensures
        forall|k: int| 0 <= k < spec_split(s).len() ==> #[trigger] spec_split(s)[k].len() <= s.len(),
    decreases s.len(),
{
    if s.len() > 0 {
        lemma_split_pieces_short(s.drop_last());
        crate::serialize::lemma_split_len(s.drop_last());
    }
}

/// No line of a text is longer than the text.
pub proof fn lemma_lines_short(s: Seq<char>)
    ensures
        forall|k: int| 0 <= k < spec_lines(s).len() ==> #[trigger] spec_lines(s)[k].len() <= s.len(),
{
    lemma_split_pieces_short(s);
    crate::serialize::lemma_split_len(s);
}

/// Every machine spans from its first cell rightwards: its last cell is not left of its first.
pub open spec fn spec_shapes_ok(descs: Seq<CellDesc>) -> bool {
    let ids = spec_desc_ids(descs, FLOOR_CELLS_WH as nat);
    forall|m: int| 0 <= m < ids.len() ==> spec_col(spec_first_of(descs, #[trigger] ids[m], FLOOR_CELLS_WH as nat)) <= spec_col(spec_last_of(descs, ids[m], FLOOR_CELLS_WH as nat))
}

/// What a map text says, before the floor is built from it: the cells of the grid, the
/// parameter lines and the unlocked icons (after `unlocks`); or why it cannot be read.
/// The first content line is the header; the grid follows; then parameter lines.
pub open spec fn spec_parse(config: &Config, input: Seq<char>, unlocks: Seq<char>) -> Result<(Seq<CellDesc>, Seq<AugmentView>, Seq<char>), ParseError> {
    spec_parse_lines(config, spec_lines(input), unlocks)
}

/// What the lines of a map text say; see `spec_parse`.
pub open spec fn spec_parse_lines(config: &Config, lines: Seq<Seq<char>>, unlocks: Seq<char>) -> Result<(Seq<CellDesc>, Seq<AugmentView>, Seq<char>), ParseError> {
    match spec_next_content(lines, 0) {
        None => Err(ParseError::MissingLines),
        Some(h) => if !spec_header_ok(spec_trim_start(lines[h]), 0) {
            Err(ParseError::BadHeader)
        } else {
            match spec_grid(lines, h + 1, FLOOR_CELLS_H as nat) {
                Err(e) => Err(e),
                Ok((descs, p)) => match spec_augments(config, lines, p, spec_desc_ids(descs, FLOOR_CELLS_WH as nat), unlocks) {
                    Err(e) => Err(e),
                    Ok((augs, u)) => if spec_shapes_ok(descs) { Ok((descs, augs, u)) } else { Err(ParseError::BadMachineShape) },
                },
            }
        },
    }
}

/// Position `q` of the lines with a line inserted at `k` stands for position `p` of the lines
/// without it: the same line, or the inserted line just before it.
pub open spec fn spec_corr(k: int, p: int, q: int) -> bool {
    (p < k && q == p) || (p >= k && q == p + 1) || (p == k && q == k)
}

/// Where line `i` moves when a line is inserted at `k`.
pub open spec fn spec_shift(k: int, i: int) -> int {
    if i < k { i } else { i + 1 }
}

proof fn lemma_next_content_range(lines: Seq<Seq<char>>, i: int)
    ensures
        spec_next_content(lines, i) matches Some(j) ==> i <= j < lines.len() && 0 <= j,
    decreases lines.len() - i,
{
    if 0 <= i < lines.len() && !spec_is_content(lines[i]) {
        lemma_next_content_range(lines, i + 1);
    }
}

proof fn lemma_next_content_insert(lines: Seq<Seq<char>>, k: int, l: Seq<char>, p: int, q: int)
    requires
        0 <= k <= lines.len(),
        !spec_is_content(l),
        0 <= p <= lines.len(),
        spec_corr(k, p, q),
    ensures
        spec_next_content(lines.insert(k, l), q) == match spec_next_content(lines, p) {
            None => None::<int>,
            Some(i) => Some(spec_shift(k, i)),
        },
    decreases lines.len() - p, (if p == k && q == k { 1int } else { 0int }),
{
    let l2 = lines.insert(k, l);
    lines.insert_ensures(k, l);
    if p == k && q == k {
        assert(l2[k] == l);
        lemma_next_content_insert(lines, k, l, p, k + 1);
    } else if p == lines.len() {
        assert(q >= l2.len());
    } else {
        assert(l2[q] == lines[p]);
        if !spec_is_content(lines[p]) {
            lemma_next_content_insert(lines, k, l, p + 1, q + 1);
        }
    }
}

proof fn lemma_grid_insert(lines: Seq<Seq<char>>, k: int, l: Seq<char>, p: int, q: int, r: nat)
    requires
        0 <= k <= lines.len(),
        !spec_is_content(l),
        0 <= p <= lines.len(),
        spec_corr(k, p, q),
    ensures
        match (spec_grid(lines, p, r), spec_grid(lines.insert(k, l), q, r)) {
            (Err(e1), Err(e2)) => e1 == e2,
            (Ok((d1, p1)), Ok((d2, q1))) => d1 == d2 && 0 <= p1 <= lines.len() && spec_corr(k, p1, q1),
            _ => false,
        },
    decreases r,
{
    let l2 = lines.insert(k, l);
    lines.insert_ensures(k, l);
    if r > 0 {
        lemma_grid_insert(lines, k, l, p, q, (r - 1) as nat);
        match (spec_grid(lines, p, (r - 1) as nat), spec_grid(l2, q, (r - 1) as nat)) {
            (Ok((_d1, p1)), Ok((_d2, q1))) => {
                lemma_next_content_insert(lines, k, l, p1, q1);
                lemma_next_content_range(lines, p1);
                match spec_next_content(lines, p1) {
                    None => {},
                    Some(a) => {
                        lemma_next_content_insert(lines, k, l, a + 1, spec_shift(k, a) + 1);
                        lemma_next_content_range(lines, a + 1);
                        match spec_next_content(lines, a + 1) {
                            None => {},
                            Some(b) => {
                                lemma_next_content_insert(lines, k, l, b + 1, spec_shift(k, b) + 1);
                                lemma_next_content_range(lines, b + 1);
                                match spec_next_content(lines, b + 1) {
                                    None => {},
                                    Some(c) => {
                                        assert(l2[spec_shift(k, a)] == lines[a]);
                                        assert(l2[spec_shift(k, b)] == lines[b]);
                                        assert(l2[spec_shift(k, c)] == lines[c]);
                                    },
                                }
                            },
                        }
                    },
                }
            },
            _ => {},
        }
    }
}

proof fn lemma_augments_insert(config: &Config, lines: Seq<Seq<char>>, k: int, l: Seq<char>, p: int, q: int, ids: Seq<char>, u: Seq<char>)
    requires
        0 <= k <= lines.len(),
        !spec_is_content(l),
        0 <= p <= lines.len(),
        spec_corr(k, p, q),
    ensures
        spec_augments(config, lines.insert(k, l), q, ids, u) == spec_augments(config, lines, p, ids, u),
    decreases lines.len() - p, (if p == k && q == k { 1int } else { 0int }),
{
    let l2 = lines.insert(k, l);
    lines.insert_ensures(k, l);
    if p == k && q == k {
        assert(l2[k] == l);
        lemma_augments_insert(config, lines, k, l, p, k + 1, ids, u);
    } else if p == lines.len() {
        assert(q >= l2.len());
    } else {
        assert(l2[q] == lines[p]);
        match crate::deserialize::spec_augment_line(config, lines[p], ids, u) {
            Err(_) => {},
            Ok((_a, u2)) => {
                lemma_augments_insert(config, lines, k, l, p + 1, q + 1, ids, u2);
            },
        }
    }
}

/// Blank lines and comment lines (those that start with `#` after leading spaces) are skipped
/// wherever they stand: a map text with one more such line reads as the same map, or fails
/// with the same error.
pub proof fn lemma_parse_skips_comment_line(config: &Config, input: Seq<char>, input2: Seq<char>, unlocks: Seq<char>, k: int, l: Seq<char>)
    requires
        0 <= k <= spec_lines(input).len(),
        !spec_is_content(l),
        spec_lines(input2) == spec_lines(input).insert(k, l),
    ensures
        spec_parse(config, input2, unlocks) == spec_parse(config, input, unlocks),
{
    let lines = spec_lines(input);
    let l2 = lines.insert(k, l);
    lines.insert_ensures(k, l);
    lemma_next_content_insert(lines, k, l, 0, 0);
    lemma_next_content_range(lines, 0);
    match spec_next_content(lines, 0) {
        None => {},
        Some(h) => {
            assert(l2[spec_shift(k, h)] == lines[h]);
            lemma_grid_insert(lines, k, l, h + 1, spec_shift(k, h) + 1, FLOOR_CELLS_H as nat);
            match spec_grid(lines, h + 1, FLOOR_CELLS_H as nat) {
                Err(_) => {},
                Ok((descs, p)) => {
                    let q = match spec_grid(l2, spec_shift(k, h) + 1, FLOOR_CELLS_H as nat) { Ok((_d, q)) => q, Err(_) => 0 };
                    lemma_augments_insert(config, lines, k, l, p, q, spec_desc_ids(descs, FLOOR_CELLS_WH as nat), unlocks);
                },
            }
        },
    }
}

/// The machine table of a grid: ids in order of first appearance.
pub open spec fn spec_ids(descs: Seq<CellDesc>) -> Seq<char> {
    spec_desc_ids(descs, FLOOR_CELLS_WH as nat)
}

pub open spec fn spec_firsts(descs: Seq<CellDesc>) -> Seq<usize> {
    Seq::new(spec_ids(descs).len(), |m: int| spec_first_of(descs, spec_ids(descs)[m], FLOOR_CELLS_WH as nat) as usize)
}

pub open spec fn spec_lasts(descs: Seq<CellDesc>) -> Seq<usize> {
    Seq::new(spec_ids(descs).len(), |m: int| spec_last_of(descs, spec_ids(descs)[m], FLOOR_CELLS_WH as nat) as usize)
}

pub open spec fn spec_pats(descs: Seq<CellDesc>, augs: Seq<AugmentView>) -> Seq<Seq<PartKind>> {
    Seq::new(spec_ids(descs).len(), |m: int| spec_machine_pattern(augs, spec_ids(descs)[m]))
}

pub open spec fn spec_speeds(descs: Seq<CellDesc>, augs: Seq<AugmentView>) -> Seq<u64> {
    Seq::new(spec_ids(descs).len(), |m: int| spec_machine_speed(augs, spec_ids(descs)[m]) as u64)
}

/// The floor read from the grid `descs` and parameter lines `augs`: each cell as its grid
/// description makes it, suppliers and demanders with their parameter lines applied, then
/// the machines laid over it in order of first appearance.
pub open spec fn spec_floor_read(config: &Config, descs: Seq<CellDesc>, augs: Seq<AugmentView>, floor: Seq<Cell>, demand_speed: u64, demand_cooldown: u64) -> bool {
    exists|f0: Seq<Cell>, f1: Seq<Cell>| {
        &&& #[trigger] f0.len() == FLOOR_CELLS_WH
        &&& forall|c: int| 0 <= c < FLOOR_CELLS_WH ==> #[trigger] spec_desc_cell(config, f0[c], descs[c], c % (FLOOR_CELLS_W as int), c / (FLOOR_CELLS_W as int), demand_speed, demand_cooldown)
        &&& #[trigger] spec_augmented(f0, f1, descs, augs)
        &&& floor.len() == FLOOR_CELLS_WH
        &&& forall|c: int| 0 <= c < FLOOR_CELLS_WH ==> spec_laid(config, f1[c], #[trigger] floor[c], c, spec_ids(descs), spec_firsts(descs), spec_lasts(descs), spec_pats(descs, augs), spec_speeds(descs, augs), spec_ids(descs).len())
    }
}

fn copy_chars(v: &Vec<char>) -> (r: Vec<char>)
    ensures
        r@ == v@,
{
    let mut r: Vec<char> = Vec::new();
    let mut i: usize = 0;
    while i < v.len()
        invariant
            i <= v@.len(),
            r@ == v@.subrange(0, i as int),
        decreases v.len() - i,
    {
        r.push(v[i]);
        i = i + 1;
        assert(r@ =~= v@.subrange(0, i as int));
    }
    assert(v@.subrange(0, v@.len() as int) =~= v@);
    r
}



fn shapes_ok(firsts: &Vec<usize>, lasts: &Vec<usize>) -> (r: bool)
    requires
        firsts@.len() == lasts@.len(),
    ensures
        r == forall|j: int| 0 <= j < firsts@.len() ==> spec_col(#[trigger] firsts@[j] as int) <= spec_col(lasts@[j] as int),
{
    let mut m: usize = 0;
    while m < firsts.len()
        invariant
            firsts@.len() == lasts@.len(),
            m <= firsts@.len(),
            forall|j: int| 0 <= j < m ==> spec_col(#[trigger] firsts@[j] as int) <= spec_col(lasts@[j] as int),
        decreases firsts.len() - m,
    {
        if lasts[m] % FLOOR_CELLS_W < firsts[m] % FLOOR_CELLS_W {
            return false;
        }
        m = m + 1;
    }
    true
}

proof fn lemma_aug_cell(f0c: Cell, b: Cell, a: Cell, d: CellDesc, views: Seq<AugmentView>, k: nat, ns: nat, nd: nat)
    requires
        k < views.len(),
        b == (if d is Supply {
            Cell { supply: spec_supply_after(f0c.supply, views, ns, k), ..f0c }
        } else if d is Demand {
            Cell { demand: spec_demand_after(f0c.demand, views, nd, k), ..f0c }
        } else {
            f0c
        }),
        match views[k as int] {
            AugmentView::Supply { nth, gives, icon, speed, cooldown } => a == (if d is Supply && ns == nth {
                Cell { supply: Supply { speed: speed as u64, cooldown: cooldown as u64, gives: Part { kind: gives as usize, icon }, ..b.supply }, ..b }
            } else {
                b
            }),
            AugmentView::Demand { nth, speed, cooldown } => a == (if d is Demand && nd == nth {
                Cell { demand: Demand { speed: speed as u64, cooldown: cooldown as u64, ..b.demand }, ..b }
            } else {
                b
            }),
            AugmentView::Machine { .. } => a == b,
        },
    ensures
        a == (if d is Supply {
            Cell { supply: spec_supply_after(f0c.supply, views, ns, k + 1), ..f0c }
        } else if d is Demand {
            Cell { demand: spec_demand_after(f0c.demand, views, nd, k + 1), ..f0c }
        } else {
            f0c
        }),
{
}

/// Applies supplier parameter line `k` (see `spec_augmented_k`).
#[verifier::spinoff_prover]
#[verifier::rlimit(40)]
fn apply_supply_line(floor: &mut Vec<Cell>, descs: &Vec<CellDesc>, nth: u8, gives: usize, icon: char, speed: u64, cooldown: u64, Ghost(f0): Ghost<Seq<Cell>>, Ghost(views): Ghost<Seq<AugmentView>>, Ghost(k): Ghost<nat>)
    requires
        k < views.len(),
        descs@.len() == FLOOR_CELLS_WH,
        f0.len() == FLOOR_CELLS_WH,
        forall|c: int| 0 <= c < FLOOR_CELLS_WH ==> ((#[trigger] f0[c]).kind == CellKind::Supply <==> descs@[c] is Supply) && (f0[c].kind == CellKind::Demand <==> descs@[c] is Demand),
        spec_augmented_k(f0, old(floor)@, descs@, views, k as nat),
        views[k as int] == (AugmentView::Supply { nth: nth as nat, gives: gives as nat, icon, speed: speed as nat, cooldown: cooldown as nat }),
    ensures
        spec_augmented_k(f0, final(floor)@, descs@, views, (k + 1) as nat),
{
    let ghost before = floor@;
    proof {
        assert forall|c: int| 0 <= c < FLOOR_CELLS_WH implies ((#[trigger] floor@[c]).kind == CellKind::Supply <==> descs@[c] is Supply)
            && (floor@[c].kind == CellKind::Demand <==> descs@[c] is Demand) by {
            assert(floor@[c].kind == f0[c].kind);
        }
    }
    apply_supply(floor, descs, nth, gives, icon, speed, cooldown);
    proof {
        assert forall|c: int| 0 <= c < FLOOR_CELLS_WH implies #[trigger] floor@[c] == (
            if descs@[c] is Supply {
                Cell { supply: spec_supply_after(f0[c].supply, views, spec_count_kind(descs@, true, c as nat) + 1, (k + 1) as nat), ..f0[c] }
            } else if descs@[c] is Demand {
                Cell { demand: spec_demand_after(f0[c].demand, views, spec_count_kind(descs@, false, c as nat) + 1, (k + 1) as nat), ..f0[c] }
            } else {
                f0[c]
            }) by {
            lemma_aug_cell(f0[c], before[c], floor@[c], descs@[c], views, k as nat, spec_count_kind(descs@, true, c as nat) + 1, spec_count_kind(descs@, false, c as nat) + 1);
        }
    }
}

/// Applies demander parameter line `k` (see `spec_augmented_k`).
#[verifier::spinoff_prover]
#[verifier::rlimit(40)]
fn apply_demand_line(floor: &mut Vec<Cell>, descs: &Vec<CellDesc>, nth: u8, speed: u64, cooldown: u64, Ghost(f0): Ghost<Seq<Cell>>, Ghost(views): Ghost<Seq<AugmentView>>, Ghost(k): Ghost<nat>)
    requires
        k < views.len(),
        descs@.len() == FLOOR_CELLS_WH,
        f0.len() == FLOOR_CELLS_WH,
        forall|c: int| 0 <= c < FLOOR_CELLS_WH ==> ((#[trigger] f0[c]).kind == CellKind::Supply <==> descs@[c] is Supply) && (f0[c].kind == CellKind::Demand <==> descs@[c] is Demand),
        spec_augmented_k(f0, old(floor)@, descs@, views, k as nat),
        views[k as int] == (AugmentView::Demand { nth: nth as nat, speed: speed as nat, cooldown: cooldown as nat }),
    ensures
        spec_augmented_k(f0, final(floor)@, descs@, views, (k + 1) as nat),
{
    let ghost before = floor@;
    proof {
        assert forall|c: int| 0 <= c < FLOOR_CELLS_WH implies ((#[trigger] floor@[c]).kind == CellKind::Supply <==> descs@[c] is Supply)
            && (floor@[c].kind == CellKind::Demand <==> descs@[c] is Demand) by {
            assert(floor@[c].kind == f0[c].kind);
        }
    }
    apply_demand(floor, descs, nth, speed, cooldown);
    proof {
        assert forall|c: int| 0 <= c < FLOOR_CELLS_WH implies #[trigger] floor@[c] == (
            if descs@[c] is Supply {
                Cell { supply: spec_supply_after(f0[c].supply, views, spec_count_kind(descs@, true, c as nat) + 1, (k + 1) as nat), ..f0[c] }
            } else if descs@[c] is Demand {
                Cell { demand: spec_demand_after(f0[c].demand, views, spec_count_kind(descs@, false, c as nat) + 1, (k + 1) as nat), ..f0[c] }
            } else {
                f0[c]
            }) by {
            lemma_aug_cell(f0[c], before[c], floor@[c], descs@[c], views, k as nat, spec_count_kind(descs@, true, c as nat) + 1, spec_count_kind(descs@, false, c as nat) + 1);
        }
    }
}

proof fn lemma_machine_line_keeps(f0: Seq<Cell>, floor: Seq<Cell>, descs: Seq<CellDesc>, views: Seq<AugmentView>, k: nat)
    requires
        k < views.len(),
        views[k as int] is Machine,
        descs.len() == FLOOR_CELLS_WH,
        f0.len() == FLOOR_CELLS_WH,
        spec_augmented_k(f0, floor, descs, views, k),
    ensures
        spec_augmented_k(f0, floor, descs, views, k + 1),
{
    let before = floor;
    assert forall|c: int| 0 <= c < FLOOR_CELLS_WH implies #[trigger] floor[c] == (
            if descs[c] is Supply {
                Cell { supply: spec_supply_after(f0[c].supply, views, spec_count_kind(descs, true, c as nat) + 1, (k + 1) as nat), ..f0[c] }
            } else if descs[c] is Demand {
                Cell { demand: spec_demand_after(f0[c].demand, views, spec_count_kind(descs, false, c as nat) + 1, (k + 1) as nat), ..f0[c] }
            } else {
                f0[c]
            }) by {
            lemma_aug_cell(f0[c], before[c], floor[c], descs[c], views, k as nat, spec_count_kind(descs, true, c as nat) + 1, spec_count_kind(descs, false, c as nat) + 1);
        }
}

/// Applies parameter line `k`: a supplier or demander line sets the values of its cell.
fn apply_aug(floor: &mut Vec<Cell>, descs: &Vec<CellDesc>, augs: &Vec<Augment>, k: usize, Ghost(f0): Ghost<Seq<Cell>>, Ghost(views): Ghost<Seq<AugmentView>>)
    requires
        k < augs@.len(),
        views == spec_aug_views(augs@),
        k < views.len(),
        descs@.len() == FLOOR_CELLS_WH,
        f0.len() == FLOOR_CELLS_WH,
        forall|c: int| 0 <= c < FLOOR_CELLS_WH ==> ((#[trigger] f0[c]).kind == CellKind::Supply <==> descs@[c] is Supply) && (f0[c].kind == CellKind::Demand <==> descs@[c] is Demand),
        spec_augmented_k(f0, old(floor)@, descs@, views, k as nat),
    ensures
        spec_augmented_k(f0, final(floor)@, descs@, views, (k + 1) as nat),
{
    proof { assert(views[k as int] == augs@[k as int].view_aug()); }
    match &augs[k] {
        Augment::Supply { nth, gives, icon, speed, cooldown } => {
            apply_supply_line(floor, descs, *nth, *gives, *icon, *speed, *cooldown, Ghost(f0), Ghost(views), Ghost(k as nat));
        },
        Augment::Demand { nth, speed, cooldown } => {
            apply_demand_line(floor, descs, *nth, *speed, *cooldown, Ghost(f0), Ghost(views), Ghost(k as nat));
        },
        Augment::Machine { .. } => {
            proof { lemma_machine_line_keeps(f0, floor@, descs@, views, k as nat); }
        },
    }
}

/// Reads a floor from its text form; see `spec_parse` for when it fails and
/// `spec_floor_read` for the floor. The unlocked icons are `initial_unlocks` and, after
/// them, those of the `$` lines that are new. Demanders get the given default speed and
/// cooldown unless a parameter line sets them. Text that the format does not allow is refused
/// with an error and never aborts the program: among others a header whose size is not 17x17
/// (`BadHeader`) and a port character that is none of the allowed ones (`BadPort`).
#[verifier::spinoff_prover]
#[verifier::rlimit(80)]
pub fn str_to_floor2(config: &Config, input: &Vec<char>, initial_unlocks: &Vec<char>, demand_speed: u64, demand_cooldown: u64) -> (r: Result<(Vec<Cell>, Vec<char>), ParseError>)
    requires
        config.wf(),
        input@.len() + 3 <= usize::MAX,
    ensures
        match spec_parse(config, input@, initial_unlocks@) {
            Err(e) => r == Err::<(Vec<Cell>, Vec<char>), ParseError>(e),
            Ok((descs, augs, u)) => r matches Ok((floor, unlocks)) && floor_wf(floor@) && unlocks@ == u
                && spec_floor_read(config, descs, augs, floor@, demand_speed, demand_cooldown),
        },
{
    let lines = text_lines(input);
    let ghost ls = spec_lines(input@);
    proof {
        lemma_lines_short(input@);
        assert(spec_views(lines@) == ls);
        assert forall|k: int| 0 <= k < lines@.len() implies (#[trigger] lines@[k])@.len() + 3 <= usize::MAX by {
            assert(spec_views(lines@)[k] == lines@[k]@);
        }
    }
    let h = match next_content(&lines, 0) {
        None => return Err(ParseError::MissingLines),
        Some(h) => h,
    };
    let nl = lines.len();
    assert(h < nl);
    let t = trim_start(&lines[h]);
    proof { assert(spec_views(lines@)[h as int] == lines@[h as int]@); }
    if !header_ok(&t) {
        return Err(ParseError::BadHeader);
    }
    let (descs, p) = match parse_grid(&lines, h + 1) {
        Err(e) => return Err(e),
        Ok(x) => x,
    };
    proof { lemma_grid_ok(ls, h + 1, FLOOR_CELLS_H as nat); }
    let (mut floor, ids, firsts, lasts) = build_floor(config, &descs, demand_speed, demand_cooldown);
    let mut unlocks = copy_chars(initial_unlocks);
    let augs = match augments(config, &lines, p, &ids, &mut unlocks) {
        Err(e) => return Err(e),
        Ok(a) => a,
    };
    let ghost views = spec_aug_views(augs@);
    proof { lemma_augments_valid(config, ls, p as int, ids@, initial_unlocks@); }
    // Suppliers and demanders take the values of their parameter lines.
    let ghost f0 = floor@;
    proof {
        assert forall|c: int| 0 <= c < FLOOR_CELLS_WH implies ((#[trigger] f0[c]).kind == CellKind::Supply <==> descs@[c] is Supply) && (f0[c].kind == CellKind::Demand <==> descs@[c] is Demand) by {
            assert(spec_desc_cell(config, f0[c], descs@[c], c % (FLOOR_CELLS_W as int), c / (FLOOR_CELLS_W as int), demand_speed, demand_cooldown));
        }
        assert(spec_augmented_k(f0, floor@, descs@, views, 0));
    }
    let mut k: usize = 0;
    while k < augs.len()
        invariant
            k <= augs@.len(),
            views == spec_aug_views(augs@),
            descs@.len() == FLOOR_CELLS_WH,
            f0.len() == FLOOR_CELLS_WH,
            forall|c: int| 0 <= c < FLOOR_CELLS_WH ==> #[trigger] spec_desc_cell(config, f0[c], descs@[c], c % (FLOOR_CELLS_W as int), c / (FLOOR_CELLS_W as int), demand_speed, demand_cooldown),
            forall|c: int| 0 <= c < FLOOR_CELLS_WH ==> ((#[trigger] f0[c]).kind == CellKind::Supply <==> descs@[c] is Supply) && (f0[c].kind == CellKind::Demand <==> descs@[c] is Demand),
            spec_augmented_k(f0, floor@, descs@, views, k as nat),
        decreases augs.len() - k,
    {
        apply_aug(&mut floor, &descs, &augs, k, Ghost(f0), Ghost(views));
        k = k + 1;
    }
    let ghost f1 = floor@;
    proof {
        reveal(floor_wf);
        assert forall|c: int| 0 <= c < FLOOR_CELLS_WH implies #[trigger] floor@[c].wf_at(c) by {
            assert(f0[c].wf_at(c));
            assert(spec_desc_cell(config, f0[c], descs@[c], c % (FLOOR_CELLS_W as int), c / (FLOOR_CELLS_W as int), demand_speed, demand_cooldown));
        }
        assert(spec_augmented(f0, f1, descs@, views));
    }
    // The machine table.
    let n = ids.len();
    let mut pats: Vec<Vec<PartKind>> = Vec::new();
    let mut speeds: Vec<u64> = Vec::new();
    let mut m: usize = 0;
    while m < n
        invariant
            n == ids@.len(),
            views == spec_aug_views(augs@),
            m <= n,
            pats@.len() == m && speeds@.len() == m,
            forall|j: int| 0 <= j < m ==> (#[trigger] pats@[j])@ == spec_machine_pattern(views, ids@[j]),
            forall|j: int| 0 <= j < m ==> #[trigger] speeds@[j] == spec_machine_speed(views, ids@[j]),
        decreases n - m,
    {
        let (pt, sp) = machine_aug(&augs, ids[m]);
        pats.push(pt);
        speeds.push(sp);
        m = m + 1;
    }
    // Each machine must grow right and down from its first cell.
    if !shapes_ok(&firsts, &lasts) {
        proof {
            assert(ids@ == spec_ids(descs@));
            let m = choose|m: int| 0 <= m < n && !(spec_col(firsts@[m] as int) <= spec_col(lasts@[m] as int));
            assert(!spec_shapes_ok(descs@)) by {
                assert(firsts@[m] == spec_first_of(descs@, ids@[m], FLOOR_CELLS_WH as nat));
            }
        }
        return Err(ParseError::BadMachineShape);
    }
    proof {
        let pv = spec_vec_views(pats@);
        lemma_ids_first(descs@, FLOOR_CELLS_WH as nat);
        assert forall|j: int| 0 <= j < n implies {
            &&& #[trigger] firsts@[j] <= lasts@[j] < FLOOR_CELLS_WH
            &&& spec_coord_is_middle(firsts@[j] as int)
            &&& spec_coord_is_middle(lasts@[j] as int)
            &&& spec_col(firsts@[j] as int) <= spec_col(lasts@[j] as int)
        } by {
            let id = ids@[j];
            assert(spec_desc_ids(descs@, FLOOR_CELLS_WH as nat).contains(id));
            lemma_first_last_is_id(descs@, id, FLOOR_CELLS_WH as nat);
            let f = spec_first_of(descs@, id, FLOOR_CELLS_WH as nat);
            let l = spec_last_of(descs@, id, FLOOR_CELLS_WH as nat);
            assert(spec_desc_ok(descs@[f], f % 17, f / 17));
            assert(spec_desc_ok(descs@[l], l % 17, l / 17));
        }
        assert forall|a: int, b: int| 0 <= a < b < n implies #[trigger] firsts@[a] != #[trigger] firsts@[b] by {
            lemma_first_last_is_id(descs@, ids@[a], FLOOR_CELLS_WH as nat);
            lemma_first_last_is_id(descs@, ids@[b], FLOOR_CELLS_WH as nat);
            assert(spec_desc_ids(descs@, FLOOR_CELLS_WH as nat).contains(ids@[a]));
            assert(spec_desc_ids(descs@, FLOOR_CELLS_WH as nat).contains(ids@[b]));
        }
        assert forall|a: int, j: int| 0 <= a < n && 0 <= j < pv[a].len() implies #[trigger] pv[a][j] < config.nodes.len() by {
            lemma_machine_aug_valid(config, views, ids@[a], views.len());
            assert(pv[a] == spec_machine_pattern(views, ids@[a]));
        }
        assert(spec_table_ok(config, firsts@, lasts@, pv, n as nat));
    }
    lay_machines(config, &mut floor, &ids, &firsts, &lasts, &pats, &speeds);
    proof {
        assert(spec_ids(descs@) == ids@);
        assert(spec_firsts(descs@) =~= firsts@);
        assert(spec_lasts(descs@) =~= lasts@);
        assert(spec_pats(descs@, views) =~= spec_vec_views(pats@));
        assert(spec_speeds(descs@, views) =~= speeds@);
        assert(spec_shapes_ok(descs@));
        lemma_floor_len(floor@);
        assert(spec_floor_read(config, descs@, views, floor@, demand_speed, demand_cooldown)) by {
            assert(f0.len() == FLOOR_CELLS_WH);
            assert(spec_augmented(f0, f1, descs@, views));
        }
    }
    Ok((floor, unlocks))
}

/// Whether `c` is white space as Unicode defines it (what `char::is_whitespace` tests).
pub open spec fn spec_is_whitespace(c: char) -> bool {
    ||| c == '\t' || c == '\n' || c == '\u{0B}' || c == '\u{0C}' || c == '\r' || c == ' '
    ||| c == '\u{85}' || c == '\u{A0}' || c == '\u{1680}'
    ||| ('\u{2000}' <= c && c <= '\u{200A}')
    ||| c == '\u{2028}' || c == '\u{2029}' || c == '\u{202F}' || c == '\u{205F}' || c == '\u{3000}'
}

fn is_whitespace(c: char) -> (r: bool)
    ensures
        r == spec_is_whitespace(c),
{
    c == '\t' || c == '\n' || c == '\u{0B}' || c == '\u{0C}' || c == '\r' || c == ' '
        || c == '\u{85}' || c == '\u{A0}' || c == '\u{1680}'
        || ('\u{2000}' <= c && c <= '\u{200A}')
        || c == '\u{2028}' || c == '\u{2029}' || c == '\u{202F}' || c == '\u{205F}' || c == '\u{3000}'
}

/// Whether the text holds nothing but white space.
fn all_whitespace(s: &Vec<char>) -> (r: bool)
    ensures
        r == forall|i: int| 0 <= i < s@.len() ==> spec_is_whitespace(#[trigger] s@[i]),
{
    let mut i: usize = 0;
    while i < s.len()
        invariant
            i <= s@.len(),
            forall|j: int| 0 <= j < i ==> spec_is_whitespace(#[trigger] s@[j]),
        decreases s.len() - i,
    {
        if !is_whitespace(s[i]) {
            return false;
        }
        i = i + 1;
    }
    true
}

/// A floor of empty cells.
fn empty_floor() -> (f: Vec<Cell>)
    ensures
        floor_wf(f@),
        forall|c: int| 0 <= c < FLOOR_CELLS_WH ==> spec_new_empty(#[trigger] f@[c], c % (FLOOR_CELLS_W as int), c / (FLOOR_CELLS_W as int)),
{
    let mut f: Vec<Cell> = Vec::new();
    let mut c: usize = 0;
    while c < FLOOR_CELLS_WH
        invariant
            c <= FLOOR_CELLS_WH,
            f@.len() == c,
            forall|k: int| 0 <= k < c ==> (#[trigger] f@[k]).wf_at(k),
            forall|k: int| 0 <= k < c ==> spec_new_empty(#[trigger] f@[k], k % (FLOOR_CELLS_W as int), k / (FLOOR_CELLS_W as int)),
        decreases FLOOR_CELLS_WH - c,
    {
        let (x, y) = to_xy(c);
        f.push(empty_cell(x, y));
        c = c + 1;
    }
    proof { reveal(floor_wf); }
    f
}

/// Reads a floor from its text form. A text of nothing but white space gives an empty floor
/// and no unlocked icons; any other text is read as `str_to_floor2` reads it.
pub fn floor_from_str(config: &Config, input: &Vec<char>, initial_unlocks: &Vec<char>, demand_speed: u64, demand_cooldown: u64) -> (r: Result<(Vec<Cell>, Vec<char>), ParseError>)
    requires
        config.wf(),
        input@.len() + 3 <= usize::MAX,
    ensures
        (forall|i: int| 0 <= i < input@.len() ==> spec_is_whitespace(#[trigger] input@[i])) ==> (r matches Ok((floor, unlocks))
            && floor_wf(floor@) && unlocks@.len() == 0
            && forall|c: int| 0 <= c < FLOOR_CELLS_WH ==> spec_new_empty(#[trigger] floor@[c], c % (FLOOR_CELLS_W as int), c / (FLOOR_CELLS_W as int))),
        !(forall|i: int| 0 <= i < input@.len() ==> spec_is_whitespace(#[trigger] input@[i])) ==> match spec_parse(config, input@, initial_unlocks@) {
            Err(e) => r == Err::<(Vec<Cell>, Vec<char>), ParseError>(e),
            Ok((descs, augs, u)) => r matches Ok((floor, unlocks)) && floor_wf(floor@) && unlocks@ == u
                && spec_floor_read(config, descs, augs, floor@, demand_speed, demand_cooldown),
        },
{
    if all_whitespace(input) {
        return Ok((empty_floor(), Vec::new()));
    }
    str_to_floor2(config, input, initial_unlocks, demand_speed, demand_cooldown)
}

/// What reading back gives for a cell the map format wrote.
pub open spec fn spec_expected_desc(c: Cell) -> CellDesc {
    match c.kind {
        CellKind::Belt => CellDesc::Belt(c.port_u, c.port_r, c.port_d, c.port_l),
        CellKind::Machine => CellDesc::Machine(c.machine.id, c.port_u, c.port_r, c.port_d, c.port_l),
        CellKind::Supply => CellDesc::Supply(c.supply.gives.icon),
        CellKind::Demand => CellDesc::Demand(c.demand.part.icon),
        CellKind::Empty => CellDesc::Empty,
    }
}

/// Reading back the three lines that the map format writes for a cell (its center and the
/// four port indicators around it) gives the cell's kind and ports: for an empty cell, a belt
/// drawn with a box glyph, and a machine cell with a letter or digit for an id inside the edge,
/// and for a supplier or demander on the edge, with the icon of its part, when it has no port on
/// the side where the map names that part (and is not in the bottom right corner, where the map
/// has no room for it).
pub proof fn lemma_dump_cell_roundtrip(c: Cell, coord: int)
    requires
        0 <= coord < FLOOR_CELLS_WH,
        (c.kind == CellKind::Empty || c.kind == CellKind::Belt || c.kind == CellKind::Machine) ==> crate::cell::spec_coord_is_middle(coord),
        (c.kind == CellKind::Supply || c.kind == CellKind::Demand) ==> {
            let x = coord % (FLOOR_CELLS_W as int);
            let y = coord / (FLOOR_CELLS_W as int);
            &&& !crate::cell::spec_coord_is_middle(coord)
            &&& coord != FLOOR_CELLS_WH - 1
            &&& if (y == 0 || y == FLOOR_CELLS_H - 1) && x < FLOOR_CELLS_W - 1 { c.port_r == Port::Absent } else { c.port_d == Port::Absent }
        },
        c.kind == CellKind::Belt ==> c.belt.meta.btype != BeltType::INVALID && crate::deserialize::spec_is_belt_glyph(c.belt.meta.cli_icon),
        c.kind == CellKind::Machine ==> crate::deserialize::spec_is_machine_id(c.machine.id),
    ensures
        spec_cell_desc(crate::dump::spec_dump_center(c, true), crate::dump::spec_top3(c, coord)[1], crate::dump::spec_mid3(c, coord, true)[2],
            crate::dump::spec_bot3(c, coord)[1], crate::dump::spec_mid3(c, coord, true)[0], coord % (FLOOR_CELLS_W as int), coord / (FLOOR_CELLS_W as int))
            == Ok::<CellDesc, ParseError>(spec_expected_desc(c)),
{
}

/// The glyph the map format draws for a belt with at least one port is one the reader takes
/// for a belt.
pub proof fn lemma_belt_icon_readable(u: Port, r: Port, d: Port, l: Port)
    requires
        !(u == Port::Absent && r == Port::Absent && d == Port::Absent && l == Port::Absent),
    ensures
        crate::deserialize::spec_is_belt_glyph(crate::belt_meta::spec_belt_icon(u, r, d, l)),
{
}

} // verus!
