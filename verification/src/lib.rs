//! Simulation core of a top-down game of circular units that can be selected,
//! sent to a destination and split in two.
//!
//! The core owns everything that is decided on integers and flags: the
//! fixed-step clock, the handle registry, the input snapshot and the units'
//! state machine. It is generic over the scalar type `N` of world coordinates
//! and never computes on it: distances, overlaps and the like are measured by
//! the host and handed in as plain values.
//!
//! A host drives the core frame by frame:
//!
//! 1. It puts the events that its window has delivered into a queue and calls
//!    [`engine::Engine::update`], which reads the clock and, if a tick is due,
//!    polls the input from the queue.
//! 2. Where the answer is [`engine::Step::Pass`], it measures a
//!    [`entity::splitter_man::Sighting`] for every registered entity, on the
//!    registry as it stands, and calls [`engine::Engine::pass`], which runs
//!    every entity, writes the resolved positions back, and drops and
//!    registers entities.
//! 3. It draws if [`engine::Engine::render`] says so.

pub mod camera;
pub mod clock;
pub mod engine;
pub mod entity;
pub mod input;
pub mod vec;
