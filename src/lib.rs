//! Combines source files from a directory tree or a ZIP archive into one text
//! document: each file whose extension is on a fixed allowlist becomes a framed
//! record holding its name and its text, and the run keeps a count of the
//! records and of the bytes of text they hold.
use vstd::prelude::*;

pub mod collector;
pub mod display;
pub mod naming;
pub mod text;

verus! {

} // verus!
