//! The states of a splitter unit. Each state decides, once per tick, what the
//! unit does with the input of that tick; see [`SplitterMan::stepped`] for the
//! unit after the step and [`SplitterMan::outcome`] for what the step reports.

use vstd::prelude::*;
use crate::input::InputHandler;
use crate::entity::{spawned, Entity};
use crate::entity::splitter_man::{Sighting, SplitterMan};
use crate::vec::Vec2;

verus! {

/// The unit stands where it is and waits for an order.
#[derive(Clone, Copy, Debug, PartialEq, Eq, Structural)]
pub struct IdleState;

/// The unit has been sent somewhere. It stays in this state after it has
/// arrived.
#[derive(Clone, Copy, Debug, PartialEq, Eq, Structural)]
pub struct MovingState;

/// Kept for a split that takes time; nothing enters it.
#[derive(Clone, Copy, Debug, PartialEq, Eq, Structural)]
pub struct SplittingState;

/// Kept for a merge of two units; nothing enters it.
#[derive(Clone, Copy, Debug, PartialEq, Eq, Structural)]
pub struct JoiningState;

#[derive(Clone, Copy, Debug, PartialEq, Eq, Structural)]
pub enum State {
    Idle(IdleState),
    Moving(MovingState),
    Splitting(SplittingState),
    Joining(JoiningState),
}

impl IdleState {
    pub fn new() -> (r: IdleState)
        ensures
            r == IdleState,
    {
        IdleState
    }

    /// Tests the selection box; a selected unit then looks for a split
    /// request and for a move order, and an order sends it to the moving
    /// state.
    pub fn process<N: Copy>(
        &mut self,
        e: &mut SplitterMan<N>,
        input: &InputHandler,
        sighting: &Sighting<N>,
    ) -> (r: (Option<State>, (bool, Option<Vec<Entity<N>>>, Vec2<N>)))
        ensures
            *final(self) == *old(self),
            *final(e) == old(e).stepped(State::Idle(IdleState), *input, *sighting),
            r.0 == old(e).next_state(State::Idle(IdleState), *input, *sighting),
            (r.1.0, spawned(r.1.1), r.1.2) == old(e).outcome(
                State::Idle(IdleState),
                *input,
                *sighting,
            ),
    {
        let new_pos = e.body.pos;
        let mut remove = false;
        let mut ents: Option<Vec<Entity<N>>> = None;
        let mut next_state: Option<State> = None;

        e.check_selection_box(input, sighting);
        if e.selected {
            let res = e.check_for_split(input, sighting);
            remove = res.0;
            ents = res.1;
            let moved = e.check_for_move(input, sighting);
            if moved {
                next_state = Some(State::Moving(MovingState::new()));
            }
        }
        (next_state, (remove, ents, new_pos))
    }
}

impl MovingState {
    pub fn new() -> (r: MovingState)
        ensures
            r == MovingState,
    {
        MovingState
    }

    /// Tests the selection box; a selected unit then looks for a split
    /// request and for a new destination. Selected or not, the unit then
    /// steers toward its destination.
    pub fn process<N: Copy>(
        &mut self,
        e: &mut SplitterMan<N>,
        input: &InputHandler,
        sighting: &Sighting<N>,
    ) -> (r: (Option<State>, (bool, Option<Vec<Entity<N>>>, Vec2<N>)))
        ensures
            *final(self) == *old(self),
            *final(e) == old(e).stepped(State::Moving(MovingState), *input, *sighting),
            r.0 == old(e).next_state(State::Moving(MovingState), *input, *sighting),
            (r.1.0, spawned(r.1.1), r.1.2) == old(e).outcome(
                State::Moving(MovingState),
                *input,
                *sighting,
            ),
    {
        let new_pos = e.body.pos;
        let mut remove = false;
        let mut ents: Option<Vec<Entity<N>>> = None;
        let mut moved = false;

        e.check_selection_box(input, sighting);
        if e.selected {
            let res = e.check_for_split(input, sighting);
            remove = res.0;
            ents = res.1;
            moved = e.check_for_move(input, sighting);
        }
        e.set_vel_to_target(
            if moved {
                &sighting.to_pointer
            } else {
                &sighting.to_target
            },
            sighting.zero,
        );
        (None, (remove, ents, new_pos))
    }
}

impl SplittingState {
    pub fn new() -> (r: SplittingState)
        ensures
            r == SplittingState,
    {
        SplittingState
    }

    /// Leaves the unit as it is and reports the origin as its position.
    pub fn process<N: Copy>(
        &mut self,
        e: &mut SplitterMan<N>,
        input: &InputHandler,
        sighting: &Sighting<N>,
    ) -> (r: (Option<State>, (bool, Option<Vec<Entity<N>>>, Vec2<N>)))
        ensures
            *final(self) == *old(self),
            *final(e) == old(e).stepped(State::Splitting(SplittingState), *input, *sighting),
            r.0 == old(e).next_state(State::Splitting(SplittingState), *input, *sighting),
            (r.1.0, spawned(r.1.1), r.1.2) == old(e).outcome(
                State::Splitting(SplittingState),
                *input,
                *sighting,
            ),
    {
        (None, (false, None, sighting.zero))
    }
}

impl JoiningState {
    pub fn new() -> (r: JoiningState)
        ensures
            r == JoiningState,
    {
        JoiningState
    }

    /// Leaves the unit as it is and reports the origin as its position.
    pub fn process<N: Copy>(
        &mut self,
        e: &mut SplitterMan<N>,
        input: &InputHandler,
        sighting: &Sighting<N>,
    ) -> (r: (Option<State>, (bool, Option<Vec<Entity<N>>>, Vec2<N>)))
        ensures
            *final(self) == *old(self),
            *final(e) == old(e).stepped(State::Joining(JoiningState), *input, *sighting),
            r.0 == old(e).next_state(State::Joining(JoiningState), *input, *sighting),
            (r.1.0, spawned(r.1.1), r.1.2) == old(e).outcome(
                State::Joining(JoiningState),
                *input,
                *sighting,
            ),
    {
        (None, (false, None, sighting.zero))
    }
}

impl State {
    /// Runs the state that `e` is in for one tick. Returns the state to
    /// change to, if any, and what the step reports: whether the unit is to
    /// be removed, the units it spawns, and the position the step reports.
    pub fn process<N: Copy>(
        &mut self,
        e: &mut SplitterMan<N>,
        input: &InputHandler,
        sighting: &Sighting<N>,
    ) -> (r: (Option<State>, (bool, Option<Vec<Entity<N>>>, Vec2<N>)))
        ensures
            *final(self) == *old(self),
            *final(e) == old(e).stepped(*old(self), *input, *sighting),
            r.0 == old(e).next_state(*old(self), *input, *sighting),
            (r.1.0, spawned(r.1.1), r.1.2) == old(e).outcome(
                *old(self),
                *input,
                *sighting,
            ),
    {
        match self {
            State::Idle(s) => s.process(e, input, sighting),
            State::Moving(s) => s.process(e, input, sighting),
            State::Splitting(s) => s.process(e, input, sighting),
            State::Joining(s) => s.process(e, input, sighting),
        }
    }
}

} // verus!
