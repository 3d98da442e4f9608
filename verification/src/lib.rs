pub mod board;
pub mod moves;
pub mod rules;
pub mod state;
pub mod text;
pub mod screen;
pub mod invariants;
pub mod replay;
pub mod conservation;
pub mod ai;
