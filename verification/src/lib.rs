//! Steam grid artwork and the VDF files that refer to it.
//!
//! The crate reads and writes Valve's binary key-value format, reads the
//! per-application records of `appinfo.vdf`, and works out which files and
//! which shortcut entries have to change when a user assigns new artwork.
//! Every function is stated over a mathematical model of its data and is
//! proved against that statement. What is asked of `serde_json`, of
//! `keyvalues_parser` and of the standard library's strings is taken on
//! trust; the few functions that do the asking say so.

pub mod appinfo;
pub mod decoder;
pub mod encoder;
pub mod error;
pub mod format;
pub mod grids;
pub mod json;
pub mod localconfig;
pub mod node;
pub mod reader;
pub mod roundtrip;
pub mod save;
pub mod shortcuts;
pub mod steam;
pub mod text;
pub mod wire;

