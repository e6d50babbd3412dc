//! A turn-based battle engine: teams of members exchange actions turn by
//! turn until an end condition declares the battle over.
//!
//! The engine is organised around a small set of capabilities. Members expose
//! health and statistics through the traits in [`member`]; actions mutate
//! resolved performers and targets through [`action::Context`]; the turn
//! machinery in [`battle`] drives the cycle and [`search`] suggests the next
//! performer.

pub mod action;
pub mod battle;
pub mod catalogue;
pub mod equipment;
pub mod member;
pub mod search;
pub mod team;
