//! Finds the games that are free to claim on the Epic Games Store right now and
//! decides, for each configured notification target, which of them still has to
//! be announced.
pub mod config;
pub mod delivery;
pub mod epic;
pub mod notifier;
pub mod offers;
pub mod store;
pub mod text;
pub mod time;
