//! A spreadsheet template engine: Handlebars-style expressions placed in the
//! cells of an `.xlsx` workbook are expanded against a JSON-shaped data
//! context, and the workbook's structure (cell addresses, merged ranges,
//! hyperlinks, drawings, the relationship graph and the content-type
//! manifest) is re-derived to match the expanded content.

use vstd::prelude::*;

pub mod bundle;
pub mod column;
pub mod dates;
pub mod drawings;
pub mod errors;
pub mod merges;
pub mod outside_codecs;
pub mod postprocess;
pub mod render;
pub mod imagesize;
pub mod scan;
pub mod sheet_ops;
pub mod shared_strings;
pub mod stitch;
pub mod zipio;
pub mod helpers;

verus! {

} // verus!
