//! The engine: the registry of entities, keyed by handles that are never
//! used twice, the frame that gates a tick by the clock, and the pass that
//! moves every entity one tick on.
//!
//! In a pass every entity reads the others as they stand before the pass:
//! what it has to know of them the host has measured beforehand. Positions
//! are written back, entities dropped and spawned entities registered when
//! all have run.

use std::collections::VecDeque;
use vstd::prelude::*;
use crate::clock::Clock;
use crate::entity::{EHandle, Entity, EntityBody};
use crate::entity::splitter_man::Sighting;
use crate::input::{Event, InputHandler};
use crate::vec::Vec2;

verus! {

/// `es`, each with the handle that it gets when they are registered one
/// after the other behind the handle `last`.
pub open spec fn registered<N>(es: Seq<Entity<N>>, last: int) -> Seq<Entity<N>> {
    Seq::new(es.len(), |k: int| es[k].stamped(EHandle((last + 1 + k) as u32)))
}

/// The bodies of the entities among the first `n` of `es` whose handle is
/// not `of`, in order.
pub open spec fn others_of<N>(es: Seq<Entity<N>>, of: EHandle, n: nat) -> Seq<EntityBody<N>>
    decreases n,
{
    if n == 0 {
        Seq::empty()
    } else {
        let rest = others_of(es, of, (n - 1) as nat);
        if es[n - 1].handle() == Some(of) {
            rest
        } else {
            rest.push(es[n - 1].body())
        }
    }
}

/// What the host is to do after a frame.
#[derive(Clone, Copy, Debug, PartialEq, Eq, Structural)]
pub enum Step {
    /// No tick is due: go on to the next frame.
    Wait,
    /// A tick has begun and the user has asked to quit: stop.
    Quit,
    /// A tick has begun: run a pass over the entities.
    Pass,
}

/// The engine as contracts see it.
pub struct EngineView<N> {
    /// The registered entities, in the order in which they were registered.
    pub entities: Seq<Entity<N>>,
    pub input: InputHandler,
    pub clock: Clock,
    /// A tick has run since the latest render.
    pub render_due: bool,
    /// The handle given out last; 0 while none has been.
    pub last_handle: u32,
}

impl<N> EngineView<N> {
    /// Every registered entity has a handle, numbered between 1 and the one
    /// given out last, and the numbers grow along the list.
    pub open spec fn wf(self) -> bool {
        &&& forall|i: int|
            0 <= i < self.entities.len() ==> 1 <= (#[trigger] self.entities[i].number())
                <= self.last_handle
        &&& forall|i: int, j: int|
            0 <= i < j < self.entities.len() ==> (#[trigger] self.entities[i].number()) < (
            #[trigger] self.entities[j].number())
    }

    /// The entity at place `i` as the pass leaves it, if it stays: after
    /// its tick, at its resolved position.
    pub open spec fn moved(self, sightings: Seq<Sighting<N>>, i: int) -> Entity<N> {
        self.entities[i].ticked(self.input, sightings[i]).placed(
            self.entities[i].outcome(self.input, sightings[i]).2,
        )
    }

    /// The entities among the first `n` that stay after a pass, in order.
    pub open spec fn survivors(self, sightings: Seq<Sighting<N>>, n: nat) -> Seq<Entity<N>>
        decreases n,
    {
        if n == 0 {
            Seq::empty()
        } else {
            let rest = self.survivors(sightings, (n - 1) as nat);
            if self.entities[n - 1].outcome(self.input, sightings[n - 1]).0 {
                rest
            } else {
                rest.push(self.moved(sightings, n - 1))
            }
        }
    }

    /// The entities that the first `n` spawn in a pass, in order.
    pub open spec fn newborns(self, sightings: Seq<Sighting<N>>, n: nat) -> Seq<Entity<N>>
        decreases n,
    {
        if n == 0 {
            Seq::empty()
        } else {
            self.newborns(sightings, (n - 1) as nat) + match self.entities[n - 1].outcome(
                self.input,
                sightings[n - 1],
            ).1 {
                Some(spawn) => spawn,
                None => Seq::empty(),
            }
        }
    }

    /// The engine after a pass in which the entity at each place has the
    /// sighting at that place. Each entity runs once, on the input and the
    /// sighting alone. Those that are not removed stay, in order, each
    /// after its tick and at its resolved position; behind them come the
    /// spawned entities, in the order of their parents, each under the
    /// next handle. Nothing else changes.
    pub open spec fn passed(self, sightings: Seq<Sighting<N>>) -> EngineView<N> {
        EngineView {
            entities: self.survivors(sightings, self.entities.len()) + registered(
                self.newborns(sightings, self.entities.len()),
                self.last_handle as int,
            ),
            last_handle: (self.last_handle + self.newborns(sightings, self.entities.len()).len()) as u32,
            ..self
        }
    }

    /// There is a sighting for each entity and a handle for every entity
    /// that a pass can spawn.
    pub open spec fn can_pass(self, sightings: Seq<Sighting<N>>) -> bool {
        &&& sightings.len() == self.entities.len()
        &&& self.last_handle + 2 * self.entities.len() <= u32::MAX
    }

    /// The engine after the frame at the clock reading `now`, with the
    /// events `events` waiting, and what the host is to do next. The clock
    /// takes the frame. Where no tick goes, nothing else changes: neither
    /// the entities nor the input. Where one goes, a render becomes due and
    /// the input is polled; the host quits if the poll says so, and else
    /// runs a pass.
    pub open spec fn framed(self, now: u64, events: Seq<Event>) -> (EngineView<N>, Step) {
        let (clock, fired) = self.clock.framed(now);
        if !fired {
            (EngineView { clock: clock, ..self }, Step::Wait)
        } else {
            let (input, quit) = self.input.opened().fed(events);
            (
                EngineView { clock: clock, render_due: true, input: input, ..self },
                if quit {
                    Step::Quit
                } else {
                    Step::Pass
                },
            )
        }
    }

    /// The events that are left waiting after that frame: all of them where
    /// no tick goes, else those that the poll has not read.
    pub open spec fn unread(self, now: u64, events: Seq<Event>) -> Seq<Event> {
        if self.clock.framed(now).1 {
            events.skip(self.input.opened().read(events) as int)
        } else {
            events
        }
    }
}

impl<N> EngineView<N> {
    /// A frame goes by the clock alone: where the clock lets no tick go,
    /// the frame changes nothing but the clock, reads no event, makes no
    /// render due and asks for no pass; and no frame touches the registry.
    /// Where the clock lets a tick go, it is one tick: one tick length is
    /// taken off the time gathered and the rest is kept, a render becomes
    /// due, the input is polled, and the host is asked to run a pass unless
    /// the poll says to quit. How many ticks the clock lets go is bounded
    /// by [`Clock::lemma_ticks_paid_by_time`].
    pub proof fn lemma_frame_waits_for_the_clock(self, now: u64, events: Seq<Event>)
        ensures
            self.framed(now, events).0.clock == self.clock.framed(now).0,
            self.framed(now, events).0.entities == self.entities,
            self.framed(now, events).0.last_handle == self.last_handle,
            (self.framed(now, events).1 != Step::Wait) == self.clock.framed(now).1,
            !self.clock.framed(now).1 ==> {
                &&& self.framed(now, events).0.input == self.input
                &&& self.framed(now, events).0.render_due == self.render_due
                &&& self.unread(now, events) == events
            },
            self.clock.framed(now).1 ==> {
                &&& self.framed(now, events).0.render_due
                &&& self.framed(now, events).0.clock.nanos_cumul == self.clock.nanos_cumul
                    + self.clock.delta_at(now) - self.clock.nanos_per_frame
                &&& self.framed(now, events).0.input == self.input.opened().fed(events).0
                &&& (self.framed(now, events).1 == Step::Quit) == self.input.opened().fed(
                    events,
                ).1
            },
    {
    }

    /// An entity collides with every registered entity but itself: among
    /// the first `n` entities, the others of the entity at place `i` are
    /// all of them where `i` is not among them, and else all but one.
    pub proof fn lemma_others_are_all_but_one(self, i: int, n: nat)
        requires
            self.wf(),
            0 <= i < self.entities.len(),
            n <= self.entities.len(),
        ensures
            others_of(self.entities, self.entities[i].handle()->0, n).len() == if i < n {
                n - 1
            } else {
                n as int
            },
        decreases n,
    {
        if n > 0 {
            self.lemma_others_are_all_but_one(i, (n - 1) as nat);
            if i != n - 1 {
                self.lemma_handles_distinct(i, n - 1);
            }
            assert(1 <= self.entities[i].number());
        }
    }

    /// No two registered entities share a handle, and every one has one.
    pub proof fn lemma_handles_distinct(self, i: int, j: int)
        requires
            self.wf(),
            0 <= i < self.entities.len(),
            0 <= j < self.entities.len(),
            i != j,
        ensures
            self.entities[i].handle() is Some,
            self.entities[i].handle() != self.entities[j].handle(),
    {
        if i < j {
            assert(self.entities[i].number() < self.entities[j].number());
        } else {
            assert(self.entities[j].number() < self.entities[i].number());
        }
        assert(1 <= self.entities[i].number());
    }

    /// What a pass makes of an entity does not depend on its place in the
    /// registry nor on the entities around it, but on the entity, the input
    /// and its sighting alone: the order in which the entities run is of no
    /// account.
    pub proof fn lemma_order_is_of_no_account(
        self,
        sightings: Seq<Sighting<N>>,
        i: int,
        other: EngineView<N>,
        other_sightings: Seq<Sighting<N>>,
        j: int,
    )
        requires
            self.input == other.input,
            self.entities[i] == other.entities[j],
            sightings[i] == other_sightings[j],
        ensures
            self.moved(sightings, i) == other.moved(other_sightings, j),
            self.entities[i].outcome(self.input, sightings[i]) == other.entities[j].outcome(
                other.input,
                other_sightings[j],
            ),
    {
    }

    /// Whoever is not to be removed stays: an entity among the first `n`
    /// that its tick does not remove is among the survivors, after its tick
    /// and at its resolved position.
    pub proof fn lemma_kept_survive(self, sightings: Seq<Sighting<N>>, n: nat, i: int)
        requires
            0 <= i < n,
            !self.entities[i].outcome(self.input, sightings[i]).0,
        ensures
            exists|k: int|
                0 <= k < self.survivors(sightings, n).len() && #[trigger] self.survivors(
                    sightings,
                    n,
                )[k] == self.moved(sightings, i),
        decreases n,
    {
        let all = self.survivors(sightings, n);
        let rest = self.survivors(sightings, (n - 1) as nat);
        if i == n - 1 {
            assert(all[rest.len() as int] == self.moved(sightings, i));
        } else {
            self.lemma_kept_survive(sightings, (n - 1) as nat, i);
            let k = choose|k: int| 0 <= k < rest.len() && #[trigger] rest[k] == self.moved(sightings, i);
            assert(all[k] == rest[k]);
        }
    }

    /// And nobody else does: the survivor at place `k` is an entity that
    /// its tick does not remove, after its tick and at its resolved
    /// position. It stands at a place no earlier than `k`, and in a
    /// well-formed engine it has the handle it had.
    pub proof fn lemma_survivors_were_kept(self, sightings: Seq<Sighting<N>>, n: nat, k: int)
        requires
            n <= self.entities.len(),
            0 <= k < self.survivors(sightings, n).len(),
        ensures
            exists|i: int|
                k <= i < n && !(#[trigger] self.entities[i]).outcome(self.input, sightings[i]).0
                    && self.survivors(sightings, n)[k] == self.moved(sightings, i)
                    && self.survivors(sightings, n)[k].handle() == self.entities[i].handle(),
            self.survivors(sightings, n).len() <= n,
        decreases n,
    {
        let rest = self.survivors(sightings, (n - 1) as nat);
        if n > 0 {
            self.lemma_survivors_are_no_more(sightings, (n - 1) as nat);
            if k < rest.len() {
                self.lemma_survivors_were_kept(sightings, (n - 1) as nat, k);
            } else {
                assert(!self.entities[n - 1].outcome(self.input, sightings[n - 1]).0);
                self.entities[n - 1].lemma_handle_is_kept(self.input, sightings[n - 1]);
            }
        }
    }

    /// No more entities stay than there were, and no more are spawned than
    /// two for each.
    pub proof fn lemma_survivors_are_no_more(self, sightings: Seq<Sighting<N>>, n: nat)
        ensures
            self.survivors(sightings, n).len() <= n,
            self.newborns(sightings, n).len() <= 2 * n,
        decreases n,
    {
        if n > 0 {
            self.lemma_survivors_are_no_more(sightings, (n - 1) as nat);
        }
    }

    /// The survivors among the first `n` keep the order of the registry:
    /// their handles lie between 1 and the one given out last, grow along
    /// the list, and lie below those of the entities from place `n` on.
    pub proof fn lemma_survivors_in_order(self, sightings: Seq<Sighting<N>>, n: nat)
        requires
            self.wf(),
            n <= self.entities.len(),
        ensures
            forall|k: int|
                0 <= k < self.survivors(sightings, n).len() ==> 1 <= (#[trigger] self.survivors(
                    sightings,
                    n,
                )[k].number()) <= self.last_handle,
            forall|k: int, l: int|
                0 <= k < l < self.survivors(sightings, n).len() ==> (#[trigger] self.survivors(
                    sightings,
                    n,
                )[k].number()) < (#[trigger] self.survivors(sightings, n)[l].number()),
            forall|k: int, j: int|
                0 <= k < self.survivors(sightings, n).len() && n <= j < self.entities.len() ==> (
                #[trigger] self.survivors(sightings, n)[k].number()) < (
                #[trigger] self.entities[j].number()),
        decreases n,
    {
        if n > 0 {
            self.lemma_survivors_in_order(sightings, (n - 1) as nat);
            self.entities[n - 1].lemma_handle_is_kept(self.input, sightings[n - 1]);
            let rest = self.survivors(sightings, (n - 1) as nat);
            let all = self.survivors(sightings, n);
            assert(1 <= self.entities[n - 1].number() <= self.last_handle);
            assert forall|k: int| 0 <= k < all.len() implies 1 <= (#[trigger] all[k].number())
                <= self.last_handle by {
                if k < rest.len() {
                    assert(all[k] == rest[k]);
                }
            }
            assert forall|k: int, l: int| 0 <= k < l < all.len() implies (#[trigger] all[k].number())
                < (#[trigger] all[l].number()) by {
                if l < rest.len() {
                    assert(all[k] == rest[k] && all[l] == rest[l]);
                } else {
                    assert(all[k] == rest[k]);
                    assert(rest[k].number() < self.entities[n - 1].number());
                }
            }
            assert forall|k: int, j: int|
                0 <= k < all.len() && n <= j < self.entities.len() implies (#[trigger] all[k].number())
                < (#[trigger] self.entities[j].number()) by {
                if k < rest.len() {
                    assert(all[k] == rest[k]);
                } else {
                    assert(self.entities[n - 1].number() < self.entities[j].number());
                }
            }
        }
    }

    /// A pass keeps the registry well formed and never takes a handle
    /// back: the handle given out last does not fall, who stays keeps a
    /// handle from before the pass, and who is spawned gets one above all
    /// that were ever given out.
    pub proof fn lemma_pass_keeps_handles(self, sightings: Seq<Sighting<N>>)
        requires
            self.wf(),
            self.can_pass(sightings),
        ensures
            self.passed(sightings).wf(),
            self.passed(sightings).last_handle == self.last_handle + self.newborns(
                sightings,
                self.entities.len(),
            ).len(),
            self.passed(sightings).entities.len() == self.survivors(
                sightings,
                self.entities.len(),
            ).len() + self.newborns(sightings, self.entities.len()).len(),
            forall|k: int|
                0 <= k < self.passed(sightings).entities.len() ==> (#[trigger] self.passed(
                    sightings,
                ).entities[k].number()) == if k < self.survivors(
                    sightings,
                    self.entities.len(),
                ).len() {
                    self.survivors(sightings, self.entities.len())[k].number()
                } else {
                    self.last_handle + 1 + (k - self.survivors(
                        sightings,
                        self.entities.len(),
                    ).len())
                },
    {
        let n = self.entities.len();
        let stay = self.survivors(sightings, n);
        let born = self.newborns(sightings, n);
        let after = self.passed(sightings);
        self.lemma_survivors_are_no_more(sightings, n);
        self.lemma_survivors_in_order(sightings, n);
        assert forall|k: int| 0 <= k < after.entities.len() implies (
        #[trigger] after.entities[k].number()) == if k < stay.len() {
            stay[k].number()
        } else {
            self.last_handle + 1 + (k - stay.len())
        } by {
            if k < stay.len() {
                assert(after.entities[k] == stay[k]);
            } else {
                lemma_registered_are_fresh(born, self.last_handle as int, k - stay.len());
                assert(after.entities[k] == registered(born, self.last_handle as int)[k
                    - stay.len()]);
            }
        }
        assert forall|i: int, j: int| 0 <= i < j < after.entities.len() implies (
        #[trigger] after.entities[i].number()) < (#[trigger] after.entities[j].number()) by {
            if j < stay.len() {
                assert(stay[i].number() < stay[j].number());
            } else if i < stay.len() {
                assert(stay[i].number() <= self.last_handle);
            }
        }
    }

    /// An entity that a pass removes is gone for good: no entity has its
    /// handle after the pass.
    pub proof fn lemma_removed_handle_is_gone(self, sightings: Seq<Sighting<N>>, i: int, k: int)
        requires
            self.wf(),
            self.can_pass(sightings),
            0 <= i < self.entities.len(),
            self.entities[i].outcome(self.input, sightings[i]).0,
            0 <= k < self.passed(sightings).entities.len(),
        ensures
            self.passed(sightings).entities[k].handle() != self.entities[i].handle(),
    {
        let n = self.entities.len();
        let stay = self.survivors(sightings, n);
        self.lemma_pass_keeps_handles(sightings);
        assert(1 <= self.entities[i].number() <= self.last_handle);
        if k < stay.len() {
            self.lemma_survivors_were_kept(sightings, n, k);
            let j = choose|j: int|
                k <= j < n && !(#[trigger] self.entities[j]).outcome(self.input, sightings[j]).0
                    && stay[k] == self.moved(sightings, j) && stay[k].handle()
                    == self.entities[j].handle();
            self.lemma_handles_distinct(i, j);
            assert(self.passed(sightings).entities[k] == stay[k]);
        } else {
            assert(self.passed(sightings).entities[k].number() > self.last_handle);
        }
    }

    /// A pass in which no entity splits leaves the registry as long as it
    /// was and gives out no handle: every entity is there, at its place,
    /// after its tick and at its resolved position.
    pub proof fn lemma_quiet_pass(self, sightings: Seq<Sighting<N>>, n: nat)
        requires
            n <= self.entities.len(),
            forall|i: int|
                0 <= i < n ==> !(#[trigger] self.entities[i]).outcome(self.input, sightings[i]).0
                    && self.entities[i].outcome(self.input, sightings[i]).1 is None,
        ensures
            self.survivors(sightings, n).len() == n,
            self.newborns(sightings, n).len() == 0,
            forall|i: int|
                0 <= i < n ==> (#[trigger] self.survivors(sightings, n)[i]) == self.moved(
                    sightings,
                    i,
                ),
            n == self.entities.len() ==> self.passed(sightings).last_handle == self.last_handle
                && self.passed(sightings).entities =~= self.survivors(sightings, n),
        decreases n,
    {
        if n > 0 {
            self.lemma_quiet_pass(sightings, (n - 1) as nat);
            assert(!self.entities[n - 1].outcome(self.input, sightings[n - 1]).0);
            let rest = self.survivors(sightings, (n - 1) as nat);
            let all = self.survivors(sightings, n);
            assert forall|i: int| 0 <= i < n implies (#[trigger] all[i]) == self.moved(
                sightings,
                i,
            ) by {
                if i < n - 1 {
                    assert(all[i] == rest[i]);
                }
            }
        }
    }

    /// What a pass in which only the entity at place `i` splits makes of
    /// the first `n` entities: all of them stay but that one, in order, and
    /// the spawned are its two children.
    proof fn lemma_one_split_so_far(self, sightings: Seq<Sighting<N>>, i: int, n: nat)
        requires
            n <= self.entities.len(),
            0 <= i < self.entities.len(),
            self.entities[i].outcome(self.input, sightings[i]).0,
            forall|j: int|
                0 <= j < self.entities.len() && j != i ==> !(#[trigger] self.entities[j]).outcome(
                    self.input,
                    sightings[j],
                ).0,
        ensures
            self.survivors(sightings, n).len() == if i < n {
                n - 1
            } else {
                n as int
            },
            forall|k: int|
                0 <= k < self.survivors(sightings, n).len() ==> (#[trigger] self.survivors(
                    sightings,
                    n,
                )[k]) == self.moved(
                    sightings,
                    if k < i {
                        k
                    } else {
                        k + 1
                    },
                ),
            self.newborns(sightings, n) =~= if i < n {
                self.entities[i].outcome(self.input, sightings[i]).1->0
            } else {
                Seq::empty()
            },
        decreases n,
    {
        if n > 0 {
            self.lemma_one_split_so_far(sightings, i, (n - 1) as nat);
            self.entities[n - 1].lemma_no_mark_no_split(self.input, sightings[n - 1]);
            let rest = self.survivors(sightings, (n - 1) as nat);
            let all = self.survivors(sightings, n);
            if i != n - 1 {
                assert(!self.entities[n - 1].outcome(self.input, sightings[n - 1]).0);
            }
            assert forall|k: int| 0 <= k < all.len() implies (#[trigger] all[k]) == self.moved(
                sightings,
                if k < i {
                    k
                } else {
                    k + 1
                },
            ) by {
                if k < rest.len() {
                    assert(all[k] == rest[k]);
                }
            }
        }
    }

    /// A pass in which the entity at place `i` splits and no other does:
    /// that entity is gone, the others stay in order, each after its tick
    /// and at its resolved position, and the two children stand at the end
    /// of the registry under the next two handles, which are the last
    /// given out.
    pub proof fn lemma_one_split(self, sightings: Seq<Sighting<N>>, i: int)
        requires
            self.wf(),
            self.can_pass(sightings),
            0 <= i < self.entities.len(),
            self.entities[i].outcome(self.input, sightings[i]).0,
            forall|j: int|
                0 <= j < self.entities.len() && j != i ==> !(#[trigger] self.entities[j]).outcome(
                    self.input,
                    sightings[j],
                ).0,
        ensures
            self.passed(sightings).wf(),
            self.passed(sightings).last_handle == self.last_handle + 2,
            self.passed(sightings).entities.len() == self.entities.len() + 1,
            forall|k: int|
                0 <= k < self.entities.len() - 1 ==> (#[trigger] self.passed(
                    sightings,
                ).entities[k]) == self.moved(
                    sightings,
                    if k < i {
                        k
                    } else {
                        k + 1
                    },
                ),
            self.entities[i].outcome(self.input, sightings[i]).1 matches Some(spawn) && {
                &&& spawn.len() == 2
                &&& self.passed(sightings).entities[self.entities.len() - 1] == spawn[0].stamped(
                    EHandle((self.last_handle + 1) as u32),
                )
                &&& self.passed(sightings).entities[self.entities.len() as int]
                    == spawn[1].stamped(EHandle((self.last_handle + 2) as u32))
            },
    {
        let n = self.entities.len();
        self.lemma_one_split_so_far(sightings, i, n);
        self.lemma_pass_keeps_handles(sightings);
        self.entities[i].lemma_no_mark_no_split(self.input, sightings[i]);
        let stay = self.survivors(sightings, n);
        let born = self.newborns(sightings, n);
        let after = self.passed(sightings);
        assert forall|k: int| 0 <= k < n - 1 implies (#[trigger] after.entities[k]) == self.moved(
            sightings,
            if k < i {
                k
            } else {
                k + 1
            },
        ) by {
            assert(after.entities[k] == stay[k]);
        }
        lemma_registered_are_fresh(born, self.last_handle as int, 0);
        lemma_registered_are_fresh(born, self.last_handle as int, 1);
        assert(after.entities[n - 1] == registered(born, self.last_handle as int)[0]);
        assert(after.entities[n as int] == registered(born, self.last_handle as int)[1]);
    }

    /// Holding the split control splits nothing: a pass after a poll in
    /// which no event presses what the split control is bound to removes
    /// no entity and spawns none, however long the control has been held.
    pub proof fn lemma_held_split_passes_quietly(
        self,
        events: Seq<Event>,
        sightings: Seq<Sighting<N>>,
    )
        requires
            forall|i: int|
                0 <= i < events.len() ==> !InputHandler::presses(
                    #[trigger] events[i],
                    self.input.inputs.split,
                ),
        ensures
            ({
                let polled = EngineView { input: self.input.opened().fed(events).0, ..self };
                &&& polled.passed(sightings).entities.len() == self.entities.len()
                &&& polled.passed(sightings).last_handle == self.last_handle
                &&& forall|i: int|
                    0 <= i < self.entities.len() ==> (#[trigger] polled.passed(
                        sightings,
                    ).entities[i]) == polled.moved(sightings, i)
            }),
    {
        let polled = EngineView { input: self.input.opened().fed(events).0, ..self };
        self.input.lemma_no_press_no_mark(events);
        assert forall|i: int| 0 <= i < polled.entities.len() implies !(
        #[trigger] polled.entities[i]).outcome(polled.input, sightings[i]).0
            && polled.entities[i].outcome(polled.input, sightings[i]).1 is None by {
            polled.entities[i].lemma_no_mark_no_split(polled.input, sightings[i]);
        }
        polled.lemma_quiet_pass(sightings, polled.entities.len());
    }
}

/// Entities registered behind the handle `last` get the numbers that
/// follow it, one after the other: each is above every number given out
/// before, whether or not the entity that had it is still registered.
pub proof fn lemma_registered_are_fresh<N>(es: Seq<Entity<N>>, last: int, k: int)
    requires
        0 <= last,
        last + es.len() <= u32::MAX,
        0 <= k < es.len(),
    ensures
        registered(es, last)[k].number() == last + 1 + k,
        registered(es, last)[k] == es[k].stamped(EHandle((last + 1 + k) as u32)),
{
}

pub struct Engine<N> {
    entity_list: Vec<Entity<N>>,
    pub input_handler: InputHandler,
    clock: Clock,
    /// Flag to say whether we should render this frame. Set to true when
    /// the entities update (to sync with frame limiting).
    should_render: bool,
    last_ehandle: EHandle,
}

impl<N> View for Engine<N> {
    type V = EngineView<N>;

    closed spec fn view(&self) -> EngineView<N> {
        EngineView {
            entities: self.entity_list@,
            input: self.input_handler,
            clock: self.clock,
            render_due: self.should_render,
            last_handle: self.last_ehandle.0,
        }
    }
}

impl<N: Copy> Engine<N> {
    /// The engine is well formed, see [`EngineView::wf`].
    pub open spec fn wf(self) -> bool {
        self@.wf()
    }

    /// An engine without entities, with a fresh input snapshot and clock.
    pub fn new() -> (r: Engine<N>)
        ensures
            r.wf(),
            r@ == (EngineView::<N> {
                entities: Seq::empty(),
                input: InputHandler::initial(),
                clock: Clock {
                    last_update_nanos: 0,
                    frame_delta: 0,
                    nanos_cumul: 0,
                    nanos_per_frame: crate::clock::NANOS_PER_FRAME,
                },
                render_due: false,
                last_handle: 0,
            }),
    {
        Engine {
            entity_list: Vec::new(),
            input_handler: InputHandler::new(),
            clock: Clock::new(),
            should_render: false,
            last_ehandle: EHandle(0),
        }
    }

    /// The registered entities, in the order in which they were registered.
    pub fn entity_list(&self) -> (r: &Vec<Entity<N>>)
        ensures
            r@ == self@.entities,
    {
        &self.entity_list
    }

    pub fn clock(&self) -> (r: &Clock)
        ensures
            *r == self@.clock,
    {
        &self.clock
    }

    pub fn should_render(&self) -> (r: bool)
        ensures
            r == self@.render_due,
    {
        self.should_render
    }

    /// The handle given out last.
    pub fn last_ehandle(&self) -> (r: EHandle)
        ensures
            r.0 == self@.last_handle,
    {
        self.last_ehandle
    }

    /// The rest of a frame in which a tick goes: marks a render due and
    /// polls the input.
    fn begin_tick(&mut self, pending: &mut VecDeque<Event>) -> (step: Step)
        ensures
            step != Step::Wait,
            final(self)@ == (EngineView {
                render_due: true,
                input: old(self)@.input.opened().fed(old(pending)@).0,
                ..old(self)@
            }),
            (step == Step::Quit) == old(self)@.input.opened().fed(old(pending)@).1,
            final(pending)@ == old(pending)@.skip(
                old(self)@.input.opened().read(old(pending)@) as int,
            ),
    {
        self.should_render = true;
        if self.input_handler.check_input(pending) {
            Step::Quit
        } else {
            Step::Pass
        }
    }

    /// One frame of the host at the clock reading `now`, with the events
    /// that the window has delivered waiting in `pending`. Says what the
    /// host is to do next, see [`EngineView::framed`].
    pub fn frame(&mut self, now: u64, pending: &mut VecDeque<Event>) -> (step: Step)
        ensures
            (final(self)@, step) == old(self)@.framed(now, old(pending)@),
            final(pending)@ == old(self)@.unread(now, old(pending)@),
            old(self).wf() ==> final(self).wf(),
    {
        let step = if self.clock.frame(now) {
            self.begin_tick(pending)
        } else {
            Step::Wait
        };
        proof {
            assert(self@.entities == old(self)@.entities);
            assert(self@.last_handle == old(self)@.last_handle);
        }
        step
    }

    /// One frame of the host at the present reading of the clock, with the
    /// events that the window has delivered waiting in `pending`. Says what
    /// the host is to do next. Whatever the reading, the frame is the one
    /// that [`Engine::frame`] makes of it.
    pub fn update(&mut self, pending: &mut VecDeque<Event>) -> (step: Step)
        ensures
            exists|now: u64|
                (final(self)@, step) == old(self)@.framed(now, old(pending)@) && final(pending)@
                    == old(self)@.unread(now, old(pending)@),
            old(self).wf() ==> final(self).wf(),
    {
        let (now, taken) = self.clock.update_delta();
        let step = if taken && self.clock.drain() {
            self.begin_tick(pending)
        } else {
            Step::Wait
        };
        proof {
            assert((self@, step) == old(self)@.framed(now, old(pending)@));
            assert(pending@ == old(self)@.unread(now, old(pending)@));
        }
        step
    }

    /// Whether the host is to draw now: true once after a tick has begun.
    pub fn render(&mut self) -> (draw: bool)
        ensures
            draw == old(self)@.render_due,
            final(self)@ == (EngineView { render_due: false, ..old(self)@ }),
    {
        if !self.should_render {
            return false;
        }
        self.should_render = false;
        true
    }

    fn gen_entity_id(&mut self) -> (h: EHandle)
        requires
            old(self)@.last_handle < u32::MAX,
        ensures
            h.0 == old(self)@.last_handle + 1,
            final(self)@ == (EngineView { last_handle: h.0, ..old(self)@ }),
    {
        self.last_ehandle.0 += 1;
        EHandle(self.last_ehandle.0)
    }

    /// Registers `e` behind the entities that are there, under the handle
    /// that follows the one given out last; a handle that `e` comes with is
    /// replaced. The entities that are there stay as they are.
    pub fn add_entity(&mut self, e: Entity<N>)
        requires
            old(self).wf(),
            old(self)@.last_handle < u32::MAX,
        ensures
            final(self).wf(),
            final(self)@.last_handle == old(self)@.last_handle + 1,
            final(self)@ == (EngineView {
                entities: old(self)@.entities.push(
                    e.stamped(EHandle(final(self)@.last_handle)),
                ),
                last_handle: final(self)@.last_handle,
                ..old(self)@
            }),
            final(self)@.entities.len() == old(self)@.entities.len() + 1,
            forall|i: int|
                0 <= i < old(self)@.entities.len() ==> (#[trigger] final(self)@.entities[i])
                    == old(self)@.entities[i] && old(self)@.entities[i].number()
                    <= old(self)@.last_handle,
            final(self)@.entities.last().handle() == Some(EHandle(final(self)@.last_handle)),
            final(self)@.entities.last().same_build(e),
    {
        let mut e = e;
        e.set_entity_handle(self.gen_entity_id());
        self.entity_list.push(e);
    }

    /// The bodies of all registered entities but the one with handle `of`,
    /// in the order of the registry: what that entity can collide with.
    pub fn others(&self, of: EHandle) -> (r: Vec<EntityBody<N>>)
        ensures
            r@ == others_of(self@.entities, of, self@.entities.len()),
    {
        let mut r: Vec<EntityBody<N>> = Vec::new();
        let mut i: usize = 0;
        while i < self.entity_list.len()
            invariant
                i <= self.entity_list.len(),
                r@ == others_of(self@.entities, of, i as nat),
            decreases self.entity_list.len() - i,
        {
            let e = &self.entity_list[i];
            let own = match e.get_entity_handle() {
                Some(h) => h.0 == of.0,
                None => false,
            };
            if !own {
                r.push(e.get_body());
            }
            i += 1;
        }
        r
    }

    /// One pass over the entities: runs every registered entity for one
    /// tick, each with the sighting at its place in `sightings`, then
    /// writes the resolved positions back, drops the entities that are to
    /// be removed and registers the spawned ones, see
    /// [`EngineView::passed`].
    pub fn pass(&mut self, sightings: &Vec<Sighting<N>>)
        requires
            old(self).wf(),
            old(self)@.can_pass(sightings@),
        ensures
            final(self).wf(),
            final(self)@ == old(self)@.passed(sightings@),
            final(self)@.last_handle >= old(self)@.last_handle,
    {
        let n: usize = self.entity_list.len();
        let mut kept: Vec<Entity<N>> = Vec::new();
        let mut born: Vec<Entity<N>> = Vec::new();
        let mut i: usize = 0;
        while i < n
            invariant
                i <= n,
                n == self.entity_list.len(),
                n == sightings.len(),
                self@ == old(self)@,
                kept@ == self@.survivors(sightings@, i as nat),
                born@ == self@.newborns(sightings@, i as nat),
            decreases n - i,
        {
            let mut e = self.entity_list[i];
            let (remove, spawn, new_pos) = e.update(&self.input_handler, &sightings[i]);
            e.set_pos(new_pos);
            if !remove {
                kept.push(e);
            }
            match &spawn {
                Some(v) => {
                    let ghost before = born@;
                    let mut j: usize = 0;
                    while j < v.len()
                        invariant
                            j <= v.len(),
                            born@ == before + v@.subrange(0, j as int),
                        decreases v.len() - j,
                    {
                        born.push(v[j]);
                        proof {
                            assert(born@ =~= before + v@.subrange(0, j as int + 1));
                        }
                        j += 1;
                    }
                    proof {
                        assert(v@.subrange(0, v.len() as int) =~= v@);
                    }
                },
                None => {
                    proof {
                        assert(born@ =~= born@ + Seq::<Entity<N>>::empty());
                    }
                },
            }
            i += 1;
        }
        let ghost last = self@.last_handle as int;
        let ghost stay = kept@;
        proof {
            self@.lemma_survivors_are_no_more(sightings@, n as nat);
            self@.lemma_survivors_in_order(sightings@, n as nat);
        }
        self.entity_list = kept;
        let mut k: usize = 0;
        while k < born.len()
            invariant
                k <= born.len(),
                last == old(self)@.last_handle,
                last + born.len() <= u32::MAX,
                self.wf(),
                self@ == (EngineView {
                    entities: stay + registered(born@, last).subrange(0, k as int),
                    last_handle: (last + k) as u32,
                    ..old(self)@
                }),
            decreases born.len() - k,
        {
            self.add_entity(born[k]);
            proof {
                assert(self@.entities =~= stay + registered(born@, last).subrange(
                    0,
                    k as int + 1,
                ));
            }
            k += 1;
        }
        proof {
            assert(registered(born@, last).subrange(0, born.len() as int) =~= registered(
                born@,
                last,
            ));
        }
    }
}

} // verus!
