//! Ready-made content for common battles: a catalogue of pre-made actions
//! and a basic member implementation.

pub mod actions;
pub mod members;
