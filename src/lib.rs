//! Change-tracked execution for entity-component systems.
//!
//! A system that reacts to changes owns, per tracked component type and
//! event kind, a cursor into that component's change stream and a reusable
//! dirty set. Each run drains the events that arrived since the previous run
//! into the dirty set and hands it to the system's logic.
pub mod bits;
pub mod channel;
pub mod events;
pub mod track;
pub mod laws;
