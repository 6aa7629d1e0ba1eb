//! Synthesis of byte-exact serialization plans for wire-protocol messages.
//!
//! A [`layout::Message`] describes one protocol entity as an ordered list of
//! structure items. [`rstruct::from_lvl2`] classifies and names it, and
//! [`rstruct::RStruct::populate_asb`] derives its size expression and the
//! instruction sequences that write it to bytes and read it back.
use vstd::prelude::*;

pub mod layout;
pub mod asb;
pub mod rstruct;
pub mod emit;
pub mod wire;
pub mod round_trip;

verus! {

} // verus!
