use vstd::prelude::*;

pub mod text;
pub mod job;
pub mod models;
pub mod mentor;
pub mod quiz;
pub mod roadmap;
pub mod dates;
pub mod srs;
pub mod timer;
pub mod ui;
pub mod analytics;
pub mod update;
pub mod github;
pub mod verify;
pub mod app;

verus! {

} // verus!
