use vstd::prelude::*;

verus! {

/// Index of a node (a kind of part) in the configuration.
pub type PartKind = usize;

/// The configuration node that stands for "no part".
pub const CONFIG_NODE_PART_NONE: usize = 0;
/// The configuration node of the trash part, given by placeholder suppliers.
pub const CONFIG_NODE_PART_TRASH: usize = 1;

/// A part as it travels over the floor.
#[derive(Clone, Copy, Debug, PartialEq, Eq, Structural)]
pub struct Part {
    pub kind: PartKind,
    pub icon: char,
}

/// One kind of part of the game configuration.
pub struct ConfigNode {
    pub name: Vec<char>,
    pub icon: char,
    /// The distinct kinds of part that a machine needs to craft this part.
    pub pattern_unique_kinds: Vec<PartKind>,
}

/// The game configuration: the kinds of parts.
pub struct Config {
    pub nodes: Vec<ConfigNode>,
}

impl Config {
    /// Node 0 is "no part" (icon space), node 1 is trash (icon `t`), and every crafting
    /// pattern names existing nodes.
    pub open spec fn wf(&self) -> bool {
        &&& self.nodes.len() >= 2
        &&& self.nodes[0].icon == ' '
        &&& self.nodes[1].icon == 't'
        &&& forall|k: int, j: int|
            0 <= k < self.nodes.len() && 0 <= j < self.nodes[k].pattern_unique_kinds.len()
                ==> #[trigger] self.nodes[k].pattern_unique_kinds[j] < self.nodes.len()
    }
}

pub open spec fn spec_part_none() -> Part {
    Part { kind: CONFIG_NODE_PART_NONE, icon: ' ' }
}

/// The empty part.
pub fn part_none() -> (p: Part)
    ensures
        p == spec_part_none(),
{
    Part { kind: CONFIG_NODE_PART_NONE, icon: ' ' }
}

/// The part of the given kind.
pub fn part_from_part_kind(config: &Config, kind: PartKind) -> (p: Part)
    requires
        kind < config.nodes.len(),
    ensures
        p.kind == kind,
        p.icon == config.nodes[kind as int].icon,
{
    Part { kind, icon: config.nodes[kind].icon }
}

/// Whether `kind` is the first node with the given icon.
pub open spec fn is_first_with_icon(config: &Config, icon: char, kind: int) -> bool {
    &&& 0 <= kind < config.nodes.len()
    &&& config.nodes[kind].icon == icon
    &&& forall|j: int| 0 <= j < kind ==> config.nodes[j].icon != icon
}

/// The index of the first node with the given icon, if any.
pub fn config_find_icon(config: &Config, icon: char) -> (r: Option<PartKind>)
    ensures
        match r {
            Some(k) => is_first_with_icon(config, icon, k as int),
            None => forall|j: int| 0 <= j < config.nodes.len() ==> config.nodes[j].icon != icon,
        },
{
    let mut i: usize = 0;
    while i < config.nodes.len()
        invariant
            i <= config.nodes.len(),
            forall|j: int| 0 <= j < i ==> config.nodes[j].icon != icon,
        decreases config.nodes.len() - i,
    {
        if config.nodes[i].icon == icon {
            return Some(i);
        }
        i = i + 1;
    }
    None
}

/// The part with the given icon.
pub fn part_c(config: &Config, icon: char) -> (p: Part)
    requires
        exists|k: int| 0 <= k < config.nodes.len() && config.nodes[k].icon == icon,
    ensures
        is_first_with_icon(config, icon, p.kind as int),
        p.icon == icon,
{
    match config_find_icon(config, icon) {
        Some(k) => Part { kind: k, icon },
        None => {
            proof {
                let k = choose|k: int| 0 <= k < config.nodes.len() && config.nodes[k].icon == icon;
                assert(config.nodes[k].icon != icon);
            }
            Part { kind: 0, icon }
        },
    }
}

/// The part that the map names by `icon`: the first configuration node with that icon, or
/// `dflt` when there is none or it is the node for "no part".
pub open spec fn spec_icon_part(config: &Config, icon: char, dflt: Part) -> Part {
    if exists|k: int| is_first_with_icon(config, icon, k) {
        let k = choose|k: int| is_first_with_icon(config, icon, k);
        if k == CONFIG_NODE_PART_NONE { dflt } else { Part { kind: k as usize, icon } }
    } else {
        dflt
    }
}

/// See `spec_icon_part`.
pub fn icon_part(config: &Config, icon: char, dflt: Part) -> (p: Part)
    ensures
        p == spec_icon_part(config, icon, dflt),
{
    match config_find_icon(config, icon) {
        Some(k) => {
            proof {
                let c = choose|c: int| is_first_with_icon(config, icon, c);
                assert(c == k as int) by {
                    if c < k { assert(config.nodes[c].icon != icon); }
                    if k < c { assert(config.nodes[k as int].icon != icon); }
                }
            }
            if k == CONFIG_NODE_PART_NONE { dflt } else { Part { kind: k, icon } }
        },
        None => dflt,
    }
}

/// Whether two character sequences are equal.
pub fn chars_eq(a: &Vec<char>, b: &Vec<char>) -> (r: bool)
    ensures
        r == (a@ == b@),
{
    if a.len() != b.len() {
        return false;
    }
    let mut i: usize = 0;
    while i < a.len()
        invariant
            a.len() == b.len(),
            i <= a.len(),
            forall|j: int| 0 <= j < i ==> a@[j] == b@[j],
        decreases a.len() - i,
    {
        if a[i] != b[i] {
            return false;
        }
        i = i + 1;
    }
    assert(a@ =~= b@);
    true
}

/// Whether `kind` is the first node with the given name.
pub open spec fn is_first_with_name(config: &Config, name: Seq<char>, kind: int) -> bool {
    &&& 0 <= kind < config.nodes.len()
    &&& config.nodes[kind].name@ == name
    &&& forall|j: int| 0 <= j < kind ==> config.nodes[j].name@ != name
}

/// The index of the first node with the given name, if any.
pub fn config_find_name(config: &Config, name: &Vec<char>) -> (r: Option<PartKind>)
    ensures
        match r {
            Some(k) => is_first_with_name(config, name@, k as int),
            None => forall|j: int| 0 <= j < config.nodes.len() ==> config.nodes[j].name@ != name@,
        },
{
    let mut i: usize = 0;
    while i < config.nodes.len()
        invariant
            i <= config.nodes.len(),
            forall|j: int| 0 <= j < i ==> config.nodes[j].name@ != name@,
        decreases config.nodes.len() - i,
    {
        if chars_eq(&config.nodes[i].name, name) {
            return Some(i);
        }
        i = i + 1;
    }
    None
}

} // verus!
