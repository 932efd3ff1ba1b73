//! A GTD (Getting Things Done) system kept as plain markdown files: the
//! horizons of focus (purpose, vision, goals, areas), projects and lists, the
//! calendar, weekly boards with an accountability partner's notes, and the
//! guided weekly review. The library reads and writes those files and
//! decides what the review shows and does on each key; the terminal and the
//! file system are left to the program around it.
use vstd::prelude::*;

pub mod external;
pub mod text;
pub mod triggers;
pub mod horizons;
pub mod board;
pub mod projects;
pub mod calendar;
pub mod paths;
pub mod listing;
pub mod partner;
pub mod ui;
pub mod review;
pub mod session;
pub mod overview;

verus! {
} // verus!
