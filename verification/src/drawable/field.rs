//! Field numbers of `TSD.DrawableArchive`, once `drawable_path` has found it.

use vstd::prelude::*;

verus! {

pub const GEOMETRY: u32 = 1;
pub const PARENT: u32 = 2;
pub const TEXT_WRAP: u32 = 3;
pub const HYPERLINK: u32 = 4;
pub const LOCKED: u32 = 5;
pub const COMMENT: u32 = 6;
pub const ASPECT_RATIO_LOCKED: u32 = 7;
pub const DESCRIPTION: u32 = 8;
pub const PENCIL_ANNOTATIONS: u32 = 9;
pub const TITLE: u32 = 10;
pub const CAPTION: u32 = 11;
pub const TITLE_HIDDEN: u32 = 12;
pub const CAPTION_HIDDEN: u32 = 13;

} // verus!
