use vstd::prelude::*;
use crate::factory::Factory;

verus! {

/// Whether the atom (a base part offered below the floor) at `woop_down_atom_index` is shown.
pub fn atom_is_visible(factory: &Factory, woop_down_atom_index: usize) -> (r: bool)
    requires
        woop_down_atom_index < factory.available_atoms@.len(),
    ensures
        r == factory.available_atoms@[woop_down_atom_index as int].1,
{
    factory.available_atoms[woop_down_atom_index].1
}

} // verus!
