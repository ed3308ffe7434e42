use vstd::prelude::*;

pub mod diag;
pub mod keys;
pub mod refs;
pub mod markets;
pub mod chart_refs;
pub mod detects;
pub mod orders;
pub mod gate;
pub mod text;
pub mod log_view;
pub mod report;
pub mod input;
pub mod firetest;
pub mod shell;
pub mod settings;
pub mod assets;
pub mod detached;
pub mod toolbar;
pub mod icons;

verus! {
} // verus!
