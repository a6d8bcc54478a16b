//! Small helpers behind the `px` command line tool, with their contracts.
use vstd::prelude::*;

pub mod text;
pub mod cmdline;
pub mod errors;
pub mod registry;
pub mod size;
pub mod order;
pub mod apps;
pub mod lines;
pub mod netstat;
pub mod uninstall;
pub mod files;
pub mod selfupdate;

verus! {

} // verus!
