//! The logic of comparing parsed packets with TShark's JSON output: how packets render as
//! fields, how TShark's protocol trees flatten into fields and which are compared, how two
//! renderings differ, and how a suite of captures is read, run and scored.
pub mod fields;
pub mod suite;
pub mod json;
pub mod diff;
pub mod render;
pub mod readable;
