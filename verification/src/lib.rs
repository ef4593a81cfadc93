//! Reading and editing Apple iWork documents at the wire level.
//!
//! Every object in a Pages, Numbers or Keynote file is a protobuf message, and
//! this crate keeps them that way: [`pb`] is the wire format, and the modules
//! above it read the calculation engine, charts, drawables and the review layer
//! through typed accessors over those messages.

pub mod annotations;
pub mod calc;
pub mod chars;
pub mod chart;
pub mod cli;
pub mod create;
pub mod document;
pub mod drawable;
pub mod formula;
pub mod pb;

use vstd::prelude::*;

verus! {

} // verus!
