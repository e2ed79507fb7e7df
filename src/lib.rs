//! Combat, steering, feedback and loot rules of a top-down arcade shooter,
//! held in integer fixed-point units so that every rule is proved.

pub mod geometry;
pub mod steering;
pub mod shake;
pub mod loot;
pub mod rewards;
pub mod combat;
pub mod progress;
pub mod archer;
pub mod colors;
mod chance;
