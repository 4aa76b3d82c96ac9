//! The PT2 archive format: bounded import and export of exported programs.
pub mod archive;
pub mod archive_laws;
pub mod aten_laws;
pub mod calling;
pub mod format_laws;
pub mod json;
pub mod laws;
pub mod load;
pub mod operator;
pub mod pack;
pub mod package_laws;
pub mod round_trip;
pub mod save;
pub mod state;
pub mod state_laws;
pub mod values;
pub mod write;
