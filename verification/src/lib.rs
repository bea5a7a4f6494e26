use vstd::prelude::*;

pub mod blocks;
pub mod cbor;
pub mod config;
pub mod daemon;
pub mod double;
pub mod text;
pub mod udp;
pub mod ui;

verus! {

} // verus!
