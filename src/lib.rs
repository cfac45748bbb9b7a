//! Crop-rotation planning for a market garden: a decoded, scored plan of
//! which variety grows in which bed each week, and an evolutionary search
//! over such plans.

pub mod season;
pub mod basket;
pub mod params;
pub mod bed_plan;
pub mod evaluator;
pub mod plan;
pub mod randomness;
pub mod genome;
pub mod evolver;
pub mod text;
pub mod tasks;
pub mod instructions;
pub mod resource;
pub mod schedule;
