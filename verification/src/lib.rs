//! Rules for making a character of a role-playing campaign: tags and the conditions
//! on them, the changes that a choice makes, the catalog of what can be chosen, and
//! the step from a player's choices to the character that is stored.

pub mod campaign;
pub mod character;
pub mod error;
pub mod sums;
pub mod system;
pub mod table;
pub mod tags;
pub mod util;
