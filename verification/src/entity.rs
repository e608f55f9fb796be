//! Entities: what the registry holds. An entity is one of a closed set of
//! kinds; the registry reaches it only through the operations of [`Entity`].

use vstd::prelude::*;
use crate::input::InputHandler;
use crate::vec::Vec2;
use self::splitter_man::{Colour, Sighting, SplitterMan};

pub mod splitter_man;

verus! {

/// The handle of a registered entity.
#[derive(Clone, Copy, Debug, PartialEq, Eq, Structural)]
pub struct EHandle(pub u32);

/// Where an entity is, how it moves and how large it is.
#[derive(Debug)]
pub struct EntityBody<N> {
    pub pos: Vec2<N>,
    pub vel: Vec2<N>,
    pub rad: N,
}

impl<N: Copy> Copy for EntityBody<N> {

}

impl<N: Copy> Clone for EntityBody<N> {
    fn clone(&self) -> (r: Self)
        ensures
            r == *self,
    {
        *self
    }
}

#[derive(Debug)]
pub enum Entity<N> {
    SplitterMan(SplitterMan<N>),
}

impl<N: Copy> Copy for Entity<N> {

}

impl<N: Copy> Clone for Entity<N> {
    fn clone(&self) -> (r: Self)
        ensures
            r == *self,
    {
        *self
    }
}

/// The entities in a list of spawned entities, if there is one.
pub open spec fn spawned<N>(ents: Option<Vec<Entity<N>>>) -> Option<Seq<Entity<N>>> {
    match ents {
        Some(v) => Some(v@),
        None => None,
    }
}

impl<N> Entity<N> {
    /// The handle of the entity, if it is registered.
    pub open spec fn handle(self) -> Option<EHandle> {
        match self {
            Entity::SplitterMan(e) => e.id,
        }
    }

    /// The number of the entity's handle; 0 where it has none.
    pub open spec fn number(self) -> int {
        match self.handle() {
            Some(h) => h.0 as int,
            None => 0,
        }
    }

    pub open spec fn body(self) -> EntityBody<N> {
        match self {
            Entity::SplitterMan(e) => e.body,
        }
    }

    /// The entity with handle `h`.
    pub open spec fn stamped(self, h: EHandle) -> Entity<N> {
        match self {
            Entity::SplitterMan(e) => Entity::SplitterMan(SplitterMan { id: Some(h), ..e }),
        }
    }

    /// The entity standing at `pos`.
    pub open spec fn placed(self, pos: Vec2<N>) -> Entity<N> {
        match self {
            Entity::SplitterMan(e) => Entity::SplitterMan(
                SplitterMan { body: EntityBody { pos: pos, ..e.body }, ..e },
            ),
        }
    }

    /// The entity after one tick of its own logic.
    pub open spec fn ticked(self, input: InputHandler, sighting: Sighting<N>) -> Entity<N> {
        match self {
            Entity::SplitterMan(e) => Entity::SplitterMan(e.ticked(input, sighting)),
        }
    }

    /// What one tick of the entity's logic comes to: whether it is to be
    /// removed, the entities it spawns, and its resolved position, which is
    /// written back into it at the end of the pass.
    pub open spec fn outcome(self, input: InputHandler, sighting: Sighting<N>) -> (
        bool,
        Option<Seq<Entity<N>>>,
        Vec2<N>,
    ) {
        match self {
            Entity::SplitterMan(e) => (
                e.outcome(e.state, input, sighting).0,
                e.outcome(e.state, input, sighting).1,
                e.resolved(input, sighting),
            ),
        }
    }
}

impl<N> Entity<N> {
    /// `other` is built as this entity is: of the same kind, split level,
    /// radius and speed.
    pub open spec fn same_build(self, other: Entity<N>) -> bool {
        match (self, other) {
            (Entity::SplitterMan(a), Entity::SplitterMan(b)) => a.same_build(b),
        }
    }

    /// A tick of its logic leaves an entity its handle, and so does a new
    /// position.
    pub proof fn lemma_handle_is_kept(self, input: InputHandler, sighting: Sighting<N>)
        ensures
            self.ticked(input, sighting).handle() == self.handle(),
            self.ticked(input, sighting).placed(
                self.outcome(input, sighting).2,
            ).handle() == self.handle(),
    {
    }

    /// An entity is removed and spawns only on a tick on which the split
    /// control has just gone down, and then it spawns two.
    pub proof fn lemma_no_mark_no_split(self, input: InputHandler, sighting: Sighting<N>)
        ensures
            !input.inputs.split.just_down ==> !self.outcome(input, sighting).0 && self.outcome(
                input,
                sighting,
            ).1 is None,
            self.outcome(input, sighting).0 == self.outcome(input, sighting).1 is Some,
            self.outcome(input, sighting).1 matches Some(spawn) ==> spawn.len() == 2,
    {
    }

    /// How an entity is built is settled when it is made: neither a tick of
    /// its logic nor a new position nor a handle changes its split level,
    /// its radius or its speed.
    pub proof fn lemma_build_is_kept(
        self,
        input: InputHandler,
        sighting: Sighting<N>,
        pos: Vec2<N>,
        h: EHandle,
    )
        ensures
            self.ticked(input, sighting).same_build(self),
            self.placed(pos).same_build(self),
            self.stamped(h).same_build(self),
    {
    }
}

impl<N: Copy> Entity<N> {
    /// Runs the entity's logic for one tick. Returns a tuple:
    /// true if this entity should be removed after the pass; the entities
    /// to add after the pass; the position this entity should be moved to
    /// after the pass.
    pub fn update(&mut self, input: &InputHandler, sighting: &Sighting<N>) -> (r: (
        bool,
        Option<Vec<Entity<N>>>,
        Vec2<N>,
    ))
        ensures
            *final(self) == old(self).ticked(*input, *sighting),
            (r.0, spawned(r.1), r.2) == old(self).outcome(*input, *sighting),
            final(self).handle() == old(self).handle(),
            r.0 == r.1 is Some,
            r.1 matches Some(ents) ==> ents@.len() == 2,
    {
        match self {
            Entity::SplitterMan(e) => e.update(input, sighting),
        }
    }

    /// The fill this entity is drawn with.
    pub fn render(&self) -> (c: Colour)
        ensures
            self matches Entity::SplitterMan(e) && c == if e.selected {
                Colour::Cyan
            } else {
                Colour::Red
            },
    {
        match self {
            Entity::SplitterMan(e) => e.render(),
        }
    }

    pub fn get_entity_handle(&self) -> (r: Option<EHandle>)
        ensures
            r == self.handle(),
    {
        match self {
            Entity::SplitterMan(e) => e.get_id(),
        }
    }

    pub fn set_entity_handle(&mut self, h: EHandle)
        ensures
            *final(self) == old(self).stamped(h),
    {
        match self {
            Entity::SplitterMan(e) => e.set_id(h),
        }
    }

    /// Returns entity position, velocity and size (radius).
    pub fn get_body(&self) -> (r: EntityBody<N>)
        ensures
            r == self.body(),
    {
        match self {
            Entity::SplitterMan(e) => e.get_body(),
        }
    }

    pub fn set_pos(&mut self, pos: Vec2<N>)
        ensures
            *final(self) == old(self).placed(pos),
    {
        match self {
            Entity::SplitterMan(e) => e.set_pos(pos),
        }
    }
}

} // verus!
