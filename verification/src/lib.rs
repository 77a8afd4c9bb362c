//! Core state model for a tabletop combat-encounter tracker: a roster of
//! combatants kept sorted by initiative, a turn/round tracker, and a dice
//! roller with a per-die breakdown.

pub mod codec;
pub mod dice;
pub mod entity;
pub mod roster;
pub mod state;
pub mod text;

pub use dice::{DiceType, get_dice_val};
pub use entity::Entity;
pub use state::{AppMode, TemplateApp, TrackerError};
