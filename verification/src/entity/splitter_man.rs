//! The splitter: a circular unit that can be selected, sent to a destination
//! and split into two units of half its split level.
//!
//! A unit never measures the world itself. What it has to know of the
//! geometry of a tick, the host measures and hands over as a [`Sighting`].

use vstd::prelude::*;
use crate::entity::{spawned, EHandle, Entity, EntityBody};
use crate::input::{Control, Event, InputHandler};
use crate::vec::Vec2;
use self::state::{IdleState, State};

pub mod state;

verus! {

/// What the host has measured of the collisions of a unit that holds one
/// velocity, against the other bodies as they stand before the tick.
#[derive(Debug)]
pub struct Course<N> {
    /// Where one step of that velocity takes the unit.
    pub stepped: Vec2<N>,
    /// For each other body, in the order of the registry: where the overlap
    /// with that body pushes the unit, or `None` where the two do not
    /// overlap.
    pub contacts: Vec<Option<Vec2<N>>>,
}

/// How a unit stands to a destination.
#[derive(Debug)]
pub enum Approach<N> {
    /// The destination is less than one step away and the unit does not
    /// stand on it yet.
    Arrive,
    /// The unit stands on the destination; its collisions at rest there.
    Rest(Course<N>),
    /// The destination is a step or more away: the velocity that leads to
    /// it at the unit's speed, and the unit's collisions under it.
    Head(Vec2<N>, Course<N>),
}

/// The measures of the two units that a unit splits into.
#[derive(Debug)]
pub struct Brood<N> {
    /// Radius of a child.
    pub rad: N,
    /// Speed of a child.
    pub speed: N,
    /// Where the left child stands along the first axis: one child radius
    /// left of the parent.
    pub left: N,
    /// Where the right child stands along the first axis: one child radius
    /// right of the parent.
    pub right: N,
}

impl<N: Copy> Copy for Brood<N> {

}

impl<N: Copy> Clone for Brood<N> {
    fn clone(&self) -> (r: Self)
        ensures
            r == *self,
    {
        *self
    }
}

/// What the host has measured for one unit and one tick, in world
/// coordinates, on the unit and the other bodies as they stand before the
/// tick.
#[derive(Debug)]
pub struct Sighting<N> {
    /// The unit's bounding square overlaps the selection rectangle of this
    /// tick. Read only where the input snapshot holds one.
    pub boxed: bool,
    /// Where the pointer is.
    pub pointer: Vec2<N>,
    /// The children for a split.
    pub brood: Brood<N>,
    /// The zero vector.
    pub zero: Vec2<N>,
    /// How the unit stands to its destination. Read only where it has one.
    pub to_target: Approach<N>,
    /// How the unit stands to the pointer.
    pub to_pointer: Approach<N>,
    /// The unit's collisions under the velocity that it has.
    pub drift: Course<N>,
}

/// The fill that a unit is drawn with.
#[derive(Clone, Copy, Debug, PartialEq, Eq, Structural)]
pub enum Colour {
    Cyan,
    Red,
}

#[derive(Debug)]
pub struct SplitterMan<N> {
    pub id: Option<EHandle>,
    pub body: EntityBody<N>,
    pub state: State,
    /// The splitter man's target location in world coordinates.
    pub target: Option<Vec2<N>>,
    /// Splitter man's split level, that is how many clones he can split
    /// into. Lowest value = 1.
    pub size: u32,
    /// Has the player selected this splitter man?
    pub selected: bool,
    pub speed: N,
}

impl<N: Copy> Copy for SplitterMan<N> {

}

impl<N: Copy> Clone for SplitterMan<N> {
    fn clone(&self) -> (r: Self)
        ensures
            r == *self,
    {
        *self
    }
}

impl<N> SplitterMan<N> {
    /// The unit after the selection box test: where the snapshot holds a
    /// selection rectangle the unit is selected exactly if it overlaps it,
    /// and else its selection stays as it is.
    pub open spec fn boxed(self, input: InputHandler, sighting: Sighting<N>) -> SplitterMan<N> {
        match input.selection {
            Some(_) => SplitterMan { selected: sighting.boxed, ..self },
            None => self,
        }
    }

    /// The unit can split further and the split control has just gone down.
    pub open spec fn splits(self, input: InputHandler) -> bool {
        self.size > 1 && input.inputs.split.just_down
    }

    /// The unit is selected and the move control is held while the select
    /// control is not.
    pub open spec fn ordered(self, input: InputHandler) -> bool {
        self.selected && input.inputs.steer.down && !input.inputs.select.down
    }

    /// A child of this unit standing at `x` along the first axis and level
    /// with this unit along the second: idle, at rest, selected, not
    /// registered, of half the split level.
    pub open spec fn child(self, x: N, sighting: Sighting<N>) -> SplitterMan<N> {
        SplitterMan {
            id: None,
            body: EntityBody {
                pos: Vec2(x, self.body.pos.1),
                vel: sighting.zero,
                rad: sighting.brood.rad,
            },
            state: State::Idle(IdleState),
            target: None,
            size: self.size / 2,
            selected: true,
            speed: sighting.brood.speed,
        }
    }

    /// The two children of a split, left then right.
    pub open spec fn brood(self, sighting: Sighting<N>) -> Seq<Entity<N>> {
        seq![
            Entity::SplitterMan(self.child(sighting.brood.left, sighting)),
            Entity::SplitterMan(self.child(sighting.brood.right, sighting)),
        ]
    }

    /// The unit after steering: without a destination it is left alone; on
    /// arrival it stands on the destination at rest; else it heads there.
    pub open spec fn steered(self, approach: Approach<N>, zero: Vec2<N>) -> SplitterMan<N> {
        match self.target {
            None => self,
            Some(t) => match approach {
                Approach::Arrive | Approach::Rest(_) => SplitterMan {
                    body: EntityBody { pos: t, vel: zero, ..self.body },
                    ..self
                },
                Approach::Head(v, _) => SplitterMan {
                    body: EntityBody { vel: v, ..self.body },
                    ..self
                },
            },
        }
    }

    /// The unit after the state `st` has processed it, its state field
    /// aside. Idle and moving units take the box test and, if selected and
    /// ordered, the pointer as their destination; moving units then steer.
    pub open spec fn stepped(
        self,
        st: State,
        input: InputHandler,
        sighting: Sighting<N>,
    ) -> SplitterMan<N> {
        let a = self.boxed(input, sighting);
        match st {
            State::Idle(_) => if a.ordered(input) {
                SplitterMan { target: Some(sighting.pointer), ..a }
            } else {
                a
            },
            State::Moving(_) => if a.ordered(input) {
                SplitterMan { target: Some(sighting.pointer), ..a }.steered(
                    sighting.to_pointer,
                    sighting.zero,
                )
            } else {
                a.steered(sighting.to_target, sighting.zero)
            },
            _ => self,
        }
    }

    /// The state that `st` hands over to: an idle unit that takes an order
    /// starts moving; nothing else changes state.
    pub open spec fn next_state(
        self,
        st: State,
        input: InputHandler,
        sighting: Sighting<N>,
    ) -> Option<State> {
        match st {
            State::Idle(_) => if self.boxed(input, sighting).ordered(input) {
                Some(State::Moving(state::MovingState))
            } else {
                None
            },
            _ => None,
        }
    }

    /// What the step of state `st` hands to the unit's update: whether the
    /// unit is to be removed, the units it spawns, and a position. An idle
    /// or moving unit that is selected and splits is removed and spawns its
    /// brood; the position is the one it had before the step. The two spare
    /// states hand over the origin. The update does not pass the position
    /// on: it resolves one, see [`SplitterMan::resolved`].
    pub open spec fn outcome(self, st: State, input: InputHandler, sighting: Sighting<N>) -> (
        bool,
        Option<Seq<Entity<N>>>,
        Vec2<N>,
    ) {
        let a = self.boxed(input, sighting);
        match st {
            State::Idle(_) | State::Moving(_) => if a.selected && a.splits(input) {
                (true, Some(a.brood(sighting)), self.body.pos)
            } else {
                (false, None, self.body.pos)
            },
            _ => (false, None, sighting.zero),
        }
    }

    /// The unit after one tick of its state machine.
    pub open spec fn ticked(self, input: InputHandler, sighting: Sighting<N>) -> SplitterMan<N> {
        let a = self.stepped(self.state, input, sighting);
        match self.next_state(self.state, input, sighting) {
            Some(next) => SplitterMan { state: next, ..a },
            None => a,
        }
    }

    /// The collisions that decide where the unit goes after the step of
    /// state `st`, or `None` where the step itself has displaced the unit.
    /// Only a moving unit that arrives at a destination on which it does
    /// not stand yet is displaced. A moving unit with a destination has
    /// the collisions that the host has measured with its approach: toward
    /// the pointer where it has just been ordered there, else toward the
    /// destination it had. Every other unit keeps its velocity and has the
    /// collisions of its drift.
    pub open spec fn course(
        self,
        st: State,
        input: InputHandler,
        sighting: Sighting<N>,
    ) -> Option<Course<N>> {
        let a = self.boxed(input, sighting);
        match st {
            State::Moving(_) => if a.ordered(input) {
                match sighting.to_pointer {
                    Approach::Arrive => None,
                    Approach::Rest(c) => Some(c),
                    Approach::Head(_, c) => Some(c),
                }
            } else {
                match self.target {
                    None => Some(sighting.drift),
                    Some(_) => match sighting.to_target {
                        Approach::Arrive => None,
                        Approach::Rest(c) => Some(c),
                        Approach::Head(_, c) => Some(c),
                    },
                }
            },
            _ => Some(sighting.drift),
        }
    }

    /// The resolved position of the unit for this tick, which is written
    /// back into it at the end of the pass. Where the step of its state has
    /// displaced the unit, that is where the step has put it, and
    /// collisions are left aside for this tick. Else it is where collision
    /// resolution settles, see [`SplitterMan::pushed_to`].
    pub open spec fn resolved(self, input: InputHandler, sighting: Sighting<N>) -> Vec2<N> {
        match self.course(self.state, input, sighting) {
            Some(c) => Self::pushed_to(c.stepped, c.contacts@),
            None => self.ticked(input, sighting).body.pos,
        }
    }

    /// The position that collision resolution settles on. `stepped` is
    /// where one step of its velocity takes the unit; `contacts` holds, for
    /// each other body in turn, the position that the overlap with that body
    /// pushes the unit to, or `None` where they do not overlap. Pushes do
    /// not add up: the last overlap decides, and without any the step does.
    pub open spec fn pushed_to(stepped: Vec2<N>, contacts: Seq<Option<Vec2<N>>>) -> Vec2<N>
        decreases contacts.len(),
    {
        if contacts.len() == 0 {
            stepped
        } else {
            match contacts.last() {
                Some(p) => p,
                None => Self::pushed_to(stepped, contacts.drop_last()),
            }
        }
    }

    /// `other` is built as this unit is: same split level, radius and speed.
    pub open spec fn same_build(self, other: SplitterMan<N>) -> bool {
        &&& self.size == other.size
        &&& self.body.rad == other.body.rad
        &&& self.speed == other.speed
    }
}

impl<N> SplitterMan<N> {
    /// Splitting is triggered by the edge, not by the level: after a poll
    /// in which no event presses what the split control is bound to, no
    /// unit in any state is removed or spawns anything, however long the
    /// control has been held.
    pub proof fn lemma_held_split_does_not_repeat(
        self,
        st: State,
        before: InputHandler,
        events: Seq<Event>,
        sighting: Sighting<N>,
    )
        requires
            forall|i: int|
                0 <= i < events.len() ==> !InputHandler::presses(
                    #[trigger] events[i],
                    before.inputs.split,
                ),
        ensures
            !self.outcome(st, before.opened().fed(events).0, sighting).0,
            self.outcome(st, before.opened().fed(events).0, sighting).1 is None,
    {
        before.lemma_no_press_no_mark(events);
    }

    /// A unit of split level 1 or less is never removed and spawns nothing,
    /// whatever the input and the state.
    pub proof fn lemma_smallest_never_splits(
        self,
        st: State,
        input: InputHandler,
        sighting: Sighting<N>,
    )
        requires
            self.size <= 1,
        ensures
            !self.outcome(st, input, sighting).0,
            self.outcome(st, input, sighting).1 is None,
    {
    }

    /// A split of a selected unit of split level above 1, on the tick on
    /// which the split control goes down, removes the unit and spawns two
    /// selected children of half its split level, left and right of it and
    /// level with it.
    pub proof fn lemma_split_halves(self, input: InputHandler, sighting: Sighting<N>)
        requires
            self.state is Idle || self.state is Moving,
            self.boxed(input, sighting).selected,
            self.size > 1,
            input.inputs.split.just_down,
        ensures
            self.outcome(self.state, input, sighting).0,
            self.outcome(self.state, input, sighting).1 == Some(
                seq![
                    Entity::SplitterMan(
                        SplitterMan {
                            id: None,
                            body: EntityBody {
                                pos: Vec2(sighting.brood.left, self.body.pos.1),
                                vel: sighting.zero,
                                rad: sighting.brood.rad,
                            },
                            state: State::Idle(IdleState),
                            target: None,
                            size: self.size / 2,
                            selected: true,
                            speed: sighting.brood.speed,
                        },
                    ),
                    Entity::SplitterMan(
                        SplitterMan {
                            id: None,
                            body: EntityBody {
                                pos: Vec2(sighting.brood.right, self.body.pos.1),
                                vel: sighting.zero,
                                rad: sighting.brood.rad,
                            },
                            state: State::Idle(IdleState),
                            target: None,
                            size: self.size / 2,
                            selected: true,
                            speed: sighting.brood.speed,
                        },
                    ),
                ],
            ),
    {
    }

    /// Split level, radius and speed are set when a unit is built and never
    /// change: a tick of the state machine keeps them, and the handle too.
    pub proof fn lemma_tick_keeps_build(self, input: InputHandler, sighting: Sighting<N>)
        ensures
            self.ticked(input, sighting).same_build(self),
            self.ticked(input, sighting).id == self.id,
    {
    }

    /// A moving unit that the host sees less than one step from its
    /// destination stands on the destination after the tick, at rest, and
    /// that is its resolved position: on the pointer where it has just been
    /// ordered there, else on the destination it had.
    pub proof fn lemma_arrival_snaps(self, input: InputHandler, sighting: Sighting<N>)
        requires
            self.state is Moving,
        ensures
            self.boxed(input, sighting).ordered(input) && sighting.to_pointer is Arrive ==> {
                &&& self.ticked(input, sighting).body.pos == sighting.pointer
                &&& self.ticked(input, sighting).body.vel == sighting.zero
                &&& self.resolved(input, sighting) == sighting.pointer
            },
            !self.boxed(input, sighting).ordered(input) && sighting.to_target is Arrive
                && self.target is Some ==> {
                &&& self.ticked(input, sighting).body.pos == self.target->0
                &&& self.ticked(input, sighting).body.vel == sighting.zero
                &&& self.resolved(input, sighting) == self.target->0
            },
    {
    }

    /// A unit that its step does not displace goes where collision
    /// resolution settles: an idle unit on its drift.
    pub proof fn lemma_idle_unit_is_resolved_by_collision(
        self,
        input: InputHandler,
        sighting: Sighting<N>,
    )
        requires
            self.state is Idle,
        ensures
            self.resolved(input, sighting) == Self::pushed_to(
                sighting.drift.stepped,
                sighting.drift.contacts@,
            ),
    {
    }
}

impl<N: Copy> SplitterMan<N> {
    /// An idle, unselected, unregistered unit at rest at (`x`, `y`), of
    /// split level `size`, with the radius and the speed that the host has
    /// derived from `size`.
    pub fn new(x: N, y: N, size: u32, rad: N, speed: N, zero: Vec2<N>) -> (r: SplitterMan<N>)
        ensures
            r == (SplitterMan {
                id: None,
                body: EntityBody { pos: Vec2(x, y), vel: zero, rad: rad },
                state: State::Idle(IdleState),
                target: None,
                size: size,
                selected: false,
                speed: speed,
            }),
    {
        SplitterMan {
            body: EntityBody { pos: Vec2(x, y), vel: zero, rad: rad },
            state: State::Idle(IdleState::new()),
            size: size,
            target: None,
            selected: false,
            speed: speed,
            id: None,
        }
    }

    /// Processes collisions. Returns the new position of the entity,
    /// according to collisions, see [`SplitterMan::pushed_to`].
    pub fn process_coll(stepped: Vec2<N>, contacts: &Vec<Option<Vec2<N>>>) -> (r: Vec2<N>)
        ensures
            r == Self::pushed_to(stepped, contacts@),
    {
        let mut final_pos = stepped;
        let mut i: usize = 0;
        while i < contacts.len()
            invariant
                i <= contacts.len(),
                final_pos == Self::pushed_to(stepped, contacts@.take(i as int)),
            decreases contacts.len() - i,
        {
            proof {
                assert(contacts@.take(i as int + 1).drop_last() =~= contacts@.take(i as int));
                assert(contacts@.take(i as int + 1).last() == contacts@[i as int]);
            }
            match contacts[i] {
                Some(p) => {
                    final_pos = p;
                },
                None => {},
            }
            i += 1;
        }
        proof {
            assert(contacts@.take(contacts.len() as int) =~= contacts@);
        }
        final_pos
    }

    /// Checks if the box select has hit this entity. Returns true if this
    /// entity was selected by it.
    pub fn check_selection_box(&mut self, input: &InputHandler, sighting: &Sighting<N>) -> (hit: bool)
        ensures
            *final(self) == old(self).boxed(*input, *sighting),
            hit == (input.selection is Some && sighting.boxed),
    {
        if input.selection.is_some() {
            if sighting.boxed {
                self.selected = true;
                return true;
            } else {
                self.selected = false;
            }
        }
        false
    }

    /// Sets the velocity to move towards the target, or stops on it.
    pub fn set_vel_to_target(&mut self, approach: &Approach<N>, zero: Vec2<N>)
        ensures
            *final(self) == old(self).steered(*approach, zero),
            old(self).target is Some && !(approach is Head) ==> final(self).body.pos == old(
                self,
            ).target->0 && final(self).body.vel == zero,
    {
        if let Some(t) = self.target {
            match approach {
                Approach::Arrive => {
                    self.body.pos = t;
                    self.body.vel = zero;
                },
                Approach::Rest(_) => {
                    self.body.pos = t;
                    self.body.vel = zero;
                },
                Approach::Head(v, _) => {
                    self.body.vel = *v;
                },
            }
        }
    }

    /// Checks if the player has pressed the split control, and whether this
    /// entity can split any further. If so, splits this entity: it is to be
    /// removed, and its two children are to be added.
    pub fn check_for_split(&mut self, input: &InputHandler, sighting: &Sighting<N>) -> (r: (
        bool,
        Option<Vec<Entity<N>>>,
    ))
        ensures
            *final(self) == *old(self),
            r.0 == old(self).splits(*input),
            spawned(r.1) == if old(self).splits(*input) {
                Some(old(self).brood(*sighting))
            } else {
                None
            },
            old(self).size <= 1 ==> !r.0 && r.1 is None,
    {
        if self.size > 1 && input.inputs.get(&Control::Split).just_down {
            let next_size: u32 = self.next_size();
            let b = sighting.brood;
            let mut child_1 = SplitterMan::new(
                b.left,
                self.body.pos.1,
                next_size,
                b.rad,
                b.speed,
                sighting.zero,
            );
            let mut child_2 = SplitterMan::new(
                b.right,
                self.body.pos.1,
                next_size,
                b.rad,
                b.speed,
                sighting.zero,
            );
            child_1.selected = true;
            child_2.selected = true;
            let mut ents: Vec<Entity<N>> = Vec::new();
            ents.push(Entity::SplitterMan(child_1));
            ents.push(Entity::SplitterMan(child_2));
            proof {
                assert(ents@ =~= old(self).brood(*sighting));
            }
            return (true, Some(ents));
        }
        (false, None)
    }

    /// Checks if the player has set a target destination for this entity.
    /// Returns true if the player has moved this entity.
    pub fn check_for_move(&mut self, input: &InputHandler, sighting: &Sighting<N>) -> (moved: bool)
        ensures
            moved == old(self).ordered(*input),
            *final(self) == if moved {
                SplitterMan { target: Some(sighting.pointer), ..*old(self) }
            } else {
                *old(self)
            },
    {
        if self.selected {
            if input.inputs.get(&Control::Move).down
                && !input.inputs.get(&Control::Select).down {
                self.target = Some(sighting.pointer);
                return true;
            }
        }
        false
    }

    /// Processes this entity's current state. Changes state if required.
    fn process_state(&mut self, input: &InputHandler, sighting: &Sighting<N>) -> (r: (
        bool,
        Option<Vec<Entity<N>>>,
        Vec2<N>,
    ))
        ensures
            *final(self) == old(self).ticked(*input, *sighting),
            (r.0, spawned(r.1), r.2) == old(self).outcome(
                old(self).state,
                *input,
                *sighting,
            ),
    {
        let mut state_copy = self.state;
        let (next_state, ret) = state_copy.process(self, input, sighting);
        match next_state {
            Some(next) => {
                self.state = next;
            },
            None => {
                self.state = state_copy;
            },
        }
        ret
    }

    /// The collisions that decide where this unit goes after the step of
    /// the state it is in, see [`SplitterMan::course`].
    fn pick_course<'a>(&self, input: &InputHandler, sighting: &'a Sighting<N>) -> (r: Option<
        &'a Course<N>,
    >)
        ensures
            match r {
                Some(c) => self.course(self.state, *input, *sighting) == Some(*c),
                None => self.course(self.state, *input, *sighting) is None,
            },
    {
        match self.state {
            State::Moving(_) => {
                let selected = if input.selection.is_some() {
                    sighting.boxed
                } else {
                    self.selected
                };
                let ordered = selected && input.inputs.get(&Control::Move).down
                    && !input.inputs.get(&Control::Select).down;
                if !ordered && self.target.is_none() {
                    return Some(&sighting.drift);
                }
                let approach = if ordered {
                    &sighting.to_pointer
                } else {
                    &sighting.to_target
                };
                match approach {
                    Approach::Arrive => None,
                    Approach::Rest(c) => Some(c),
                    Approach::Head(_, c) => Some(c),
                }
            },
            _ => Some(&sighting.drift),
        }
    }

    /// Runs the unit for one tick: its state machine, then the resolution
    /// of its position. Returns a tuple: true if this entity should be
    /// removed after the pass; the entities to add after the pass; the
    /// position this entity should be moved to after the pass, see
    /// [`SplitterMan::resolved`]. The unit keeps its handle and its build,
    /// and one that cannot split further is never removed and spawns
    /// nothing.
    pub fn update(&mut self, input: &InputHandler, sighting: &Sighting<N>) -> (r: (
        bool,
        Option<Vec<Entity<N>>>,
        Vec2<N>,
    ))
        ensures
            *final(self) == old(self).ticked(*input, *sighting),
            r.0 == old(self).outcome(old(self).state, *input, *sighting).0,
            spawned(r.1) == old(self).outcome(old(self).state, *input, *sighting).1,
            r.2 == old(self).resolved(*input, *sighting),
            final(self).id == old(self).id,
            final(self).same_build(*old(self)),
            old(self).size <= 1 ==> !r.0 && r.1 is None,
            r.0 == r.1 is Some,
            r.1 matches Some(ents) ==> ents@.len() == 2,
    {
        let course = self.pick_course(input, sighting);
        let (remove, ents, _) = self.process_state(input, sighting);
        let final_pos = match course {
            Some(c) => Self::process_coll(c.stepped, &c.contacts),
            None => self.body.pos,
        };
        (remove, ents, final_pos)
    }

    /// Entity's visual size (radius).
    pub fn get_size(&self) -> (r: N)
        ensures
            r == self.body.rad,
    {
        self.body.rad
    }

    /// The split level of the children of this unit.
    pub fn next_size(&self) -> (r: u32)
        ensures
            r == self.size / 2,
    {
        self.size / 2
    }

    /// The fill this unit is drawn with: cyan if selected, else red.
    pub fn render(&self) -> (c: Colour)
        ensures
            c == if self.selected {
                Colour::Cyan
            } else {
                Colour::Red
            },
    {
        if self.selected {
            Colour::Cyan
        } else {
            Colour::Red
        }
    }

    pub fn get_id(&self) -> (r: Option<EHandle>)
        ensures
            r == self.id,
    {
        self.id
    }

    pub fn set_id(&mut self, new_handle: EHandle)
        ensures
            *final(self) == (SplitterMan { id: Some(new_handle), ..*old(self) }),
    {
        self.id = Some(new_handle)
    }

    pub fn get_body(&self) -> (r: EntityBody<N>)
        ensures
            r == self.body,
    {
        self.body
    }

    pub fn set_pos(&mut self, pos: Vec2<N>)
        ensures
            *final(self) == (SplitterMan {
                body: EntityBody { pos: pos, ..old(self).body },
                ..*old(self)
            }),
    {
        self.body.pos = pos;
    }
}

} // verus!
