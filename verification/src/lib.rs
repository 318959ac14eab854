pub mod control;
pub mod counts;
pub mod engine;
pub mod grid;
pub mod live;
pub mod rules;
