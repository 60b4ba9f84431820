use vstd::prelude::*;

pub mod auto;
pub mod auto_build;
pub mod belt;
pub mod apply;
pub mod atom;
pub mod belt_meta;
pub mod cell;
pub mod connect;
pub mod direction;
pub mod dump;
pub mod edit;
pub mod factory;
pub mod demand;
pub mod deserialize;
pub mod floor;
pub mod layout;
pub mod machine;
pub mod parse_floor;
pub mod part;
pub mod port;
pub mod serialize;
pub mod supply;
pub mod text;
pub mod track;

verus! {
}
