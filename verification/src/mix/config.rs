//! The per-show registries of actors, groups and positions.
//!
//! The three registries are independent; referential integrity is checked
//! lazily, at lookup time, so a dangling handle is a recoverable
//! `MixError`, not a corruption.

use vstd::prelude::*;
use vstd::string::*;

use crate::mix::actor::{Actor, ActorId};
use crate::mix::error::MixError;
use crate::mix::group::{Group, GroupId};
use crate::mix::position::{Position, PositionId};
use crate::registry::{lemma_reg_lookup_some_index, reg_max_key, Registry};
use crate::wing::channel::WingChannelId;
use crate::wing::color::WingColor;

verus! {

/// The registries of one show.
pub struct MixConfig {
    actors: Registry<Actor>,
    groups: Registry<Group>,
    positions: Registry<Position>,
}

impl MixConfig {
    /// The actor entries, in insertion order.
    pub closed spec fn actors_seq(&self) -> Seq<(u32, Actor)> {
        self.actors.entries_seq()
    }

    /// The group entries, in insertion order.
    pub closed spec fn groups_seq(&self) -> Seq<(u32, Group)> {
        self.groups.entries_seq()
    }

    /// The position entries, in insertion order.
    pub closed spec fn positions_seq(&self) -> Seq<(u32, Position)> {
        self.positions.entries_seq()
    }

    /// The actor a handle resolves to.
    pub closed spec fn actor_lookup(&self, id: ActorId) -> Option<Actor> {
        self.actors.lookup(id.0)
    }

    /// The group a handle resolves to.
    pub closed spec fn group_lookup(&self, id: GroupId) -> Option<Group> {
        self.groups.lookup(id.0)
    }

    /// The position a handle resolves to.
    pub closed spec fn position_lookup(&self, id: PositionId) -> Option<Position> {
        self.positions.lookup(id.0)
    }

    /// The registries hold unique keys, groups hold sorted unique members,
    /// and stored pans lie in the valid range.
    pub closed spec fn wf(&self) -> bool {
        &&& self.actors.wf()
        &&& self.groups.wf()
        &&& self.positions.wf()
        &&& forall|j: int|
            0 <= j < self.groups_seq().len() ==> (#[trigger] self.groups_seq()[j]).1.wf()
        &&& forall|j: int|
            0 <= j < self.positions_seq().len() ==> (#[trigger] self.positions_seq()[j]).1.wf()
    }

    /// Whether some actor is mapped to the channel. Such a channel is
    /// "controlled": cue activation owns its state and silences it whenever
    /// no slot claims it.
    pub open spec fn is_controlled(&self, ch: WingChannelId) -> bool {
        exists|j: int|
            0 <= j < self.actors_seq().len() && (#[trigger] self.actors_seq()[j]).1.channel_spec()
                == ch
    }

    /// A configuration with empty registries.
    pub fn new() -> (r: Self)
        ensures
            r.wf(),
            r.actors_seq() == Seq::<(u32, Actor)>::empty(),
            r.groups_seq() == Seq::<(u32, Group)>::empty(),
            r.positions_seq() == Seq::<(u32, Position)>::empty(),
    {
        MixConfig { actors: Registry::new(), groups: Registry::new(), positions: Registry::new() }
    }

    /// The actor entries, in insertion order.
    pub fn actors(&self) -> (r: &Vec<(u32, Actor)>)
        ensures
            r@ == self.actors_seq(),
    {
        self.actors.entries()
    }

    /// The group entries, in insertion order.
    pub fn groups(&self) -> (r: &Vec<(u32, Group)>)
        ensures
            r@ == self.groups_seq(),
    {
        self.groups.entries()
    }

    /// The position entries, in insertion order.
    pub fn positions(&self) -> (r: &Vec<(u32, Position)>)
        ensures
            r@ == self.positions_seq(),
    {
        self.positions.entries()
    }

    /// Resolves an actor handle; a handle no actor holds reports which
    /// handle was missing.
    pub fn actor(&self, id: ActorId) -> (r: Result<&Actor, MixError>)
        ensures
            r is Ok <==> self.actor_lookup(id) is Some,
            r matches Ok(a) ==> self.actor_lookup(id) == Some(*a),
            r matches Err(e) ==> e == MixError::ActorNotFound(id),
    {
        match self.actors.get(id.0) {
            Some(a) => Ok(a),
            None => Err(MixError::ActorNotFound(id)),
        }
    }

    /// Resolves a group handle; a handle no group holds reports which handle
    /// was missing.
    pub fn group(&self, id: GroupId) -> (r: Result<&Group, MixError>)
        ensures
            r is Ok <==> self.group_lookup(id) is Some,
            r matches Ok(g) ==> self.group_lookup(id) == Some(*g),
            r matches Err(e) ==> e == MixError::GroupNotFound(id),
    {
        match self.groups.get(id.0) {
            Some(g) => Ok(g),
            None => Err(MixError::GroupNotFound(id)),
        }
    }

    /// Resolves a position handle; a handle no position holds reports which
    /// handle was missing.
    pub fn position(&self, id: PositionId) -> (r: Result<&Position, MixError>)
        ensures
            r is Ok <==> self.position_lookup(id) is Some,
            r matches Ok(p) ==> self.position_lookup(id) == Some(*p),
            r matches Err(e) ==> e == MixError::PositionNotFound(id),
            self.wf() ==> (r matches Ok(p) ==> p.wf()),
    {
        let r = match self.positions.get(id.0) {
            Some(p) => Ok(p),
            None => Err(MixError::PositionNotFound(id)),
        };
        proof {
            if self.wf() && r is Ok {
                lemma_reg_lookup_some_index(self.positions_seq(), id.0);
            }
        }
        r
    }

    /// The channels the configuration controls: one per actor, in actor
    /// insertion order.
    pub fn controlled_channels(&self) -> (r: Vec<WingChannelId>)
        ensures
            r@.len() == self.actors_seq().len(),
            forall|j: int|
                0 <= j < r@.len() ==> r@[j] == (#[trigger] self.actors_seq()[j]).1.channel_spec(),
            forall|j: int| 0 <= j < r@.len() ==> self.is_controlled(#[trigger] r@[j]),
    {
        let entries = self.actors.entries();
        let mut out: Vec<WingChannelId> = Vec::new();
        let mut i: usize = 0;
        while i < entries.len()
            invariant
                i <= entries@.len(),
                entries@ == self.actors_seq(),
                out@.len() == i,
                forall|j: int|
                    0 <= j < i ==> out@[j] == (#[trigger] self.actors_seq()[j]).1.channel_spec(),
            decreases entries@.len() - i,
        {
            let c: WingChannelId = *entries[i].1.channel();
            out.push(c);
            i += 1;
        }
        proof {
            assert forall|j: int| 0 <= j < out@.len() implies self.is_controlled(
                #[trigger] out@[j],
            ) by {
                assert((self.actors_seq()[j]).1.channel_spec() == out@[j]);
            }
        }
        out
    }

    /// Stores an actor under the next free handle.
    pub fn insert_actor(&mut self, actor: Actor) -> (id: ActorId)
        requires
            old(self).wf(),
            reg_max_key(old(self).actors_seq()) < u32::MAX,
        ensures
            final(self).wf(),
            old(self).actor_lookup(id) is None,
            final(self).actor_lookup(id) == Some(actor),
            forall|o: ActorId| o != id ==> final(self).actor_lookup(o) == old(self).actor_lookup(o),
            final(self).actors_seq() == old(self).actors_seq().push((id.0, actor)),
            final(self).groups_seq() == old(self).groups_seq(),
            final(self).positions_seq() == old(self).positions_seq(),
    {
        let ghost gs = self.groups_seq();
        let ghost ps = self.positions_seq();
        let k = self.actors.insert_next(actor);
        proof {
            assert forall|o: ActorId| o != ActorId(k) implies final(self).actor_lookup(o) == old(
                self,
            ).actor_lookup(o) by {
                assert(o == ActorId(o.0));
                assert(o.0 != k);
            }
            assert forall|j: int|
                0 <= j < self.groups_seq().len() implies (#[trigger] self.groups_seq()[j]).1.wf() by {
                assert(self.groups_seq()[j] == gs[j]);
            }
            assert forall|j: int|
                0 <= j < self.positions_seq().len() implies (
            #[trigger] self.positions_seq()[j]).1.wf() by {
                assert(self.positions_seq()[j] == ps[j]);
            }
        }
        ActorId(k)
    }

    /// Builds an actor and stores it under the next free handle, handing
    /// back the handle together with a copy of the stored actor.
    pub fn add_actor(&mut self, channel: WingChannelId, name: String, color: Option<WingColor>) -> (r:
        (ActorId, Actor))
        requires
            old(self).wf(),
            reg_max_key(old(self).actors_seq()) < u32::MAX,
        ensures
            final(self).wf(),
            old(self).actor_lookup(r.0) is None,
            final(self).actor_lookup(r.0) matches Some(a) && a.channel_spec() == channel
                && a.name_spec() == name@ && a.color_spec() == color,
            r.1.channel_spec() == channel && r.1.name_spec() == name@ && r.1.color_spec() == color,
            forall|o: ActorId| o != r.0 ==> final(self).actor_lookup(o) == old(self).actor_lookup(o),
            final(self).groups_seq() == old(self).groups_seq(),
            final(self).positions_seq() == old(self).positions_seq(),
    {
        let actor = Actor::new(channel, name, color);
        let copy = actor.duplicate();
        let id = self.insert_actor(actor);
        (id, copy)
    }

    /// Builds a group and stores it under the next free handle, handing back
    /// the handle together with a copy of the stored group.
    pub fn add_group(&mut self, actors: Vec<ActorId>, name: String, color: Option<WingColor>) -> (r:
        (GroupId, Group))
        requires
            old(self).wf(),
            reg_max_key(old(self).groups_seq()) < u32::MAX,
        ensures
            final(self).wf(),
            old(self).group_lookup(r.0) is None,
            final(self).group_lookup(r.0) matches Some(g) && g.name_spec() == name@
                && g.color_spec() == color && (forall|a: ActorId|
                g.has_actor(a) <==> actors@.contains(a)),
            r.1.name_spec() == name@ && r.1.color_spec() == color && (forall|a: ActorId|
                r.1.has_actor(a) <==> actors@.contains(a)),
            forall|o: GroupId| o != r.0 ==> final(self).group_lookup(o) == old(self).group_lookup(o),
            final(self).actors_seq() == old(self).actors_seq(),
            final(self).positions_seq() == old(self).positions_seq(),
    {
        let ghost gs = self.groups_seq();
        let ghost ps = self.positions_seq();
        let group = Group::new(actors, name, color);
        let ghost g0 = group;
        let copy = group.duplicate();
        let k = self.groups.insert_next(group);
        proof {
            assert forall|o: GroupId| o != GroupId(k) implies final(self).group_lookup(o) == old(
                self,
            ).group_lookup(o) by {
                assert(o == GroupId(o.0));
                assert(o.0 != k);
            }
            assert forall|a: ActorId| copy.has_actor(a) <==> actors@.contains(a) by {
                assert(g0.has_actor(a) <==> actors@.contains(a));
                assert(copy.actors_spec() == g0.actors_spec());
            }
            assert(final(self).group_lookup(GroupId(k)) == Some(g0));
            assert forall|a: ActorId| g0.has_actor(a) <==> actors@.contains(a) by {}
            assert forall|j: int|
                0 <= j < self.groups_seq().len() implies (#[trigger] self.groups_seq()[j]).1.wf() by {
                if j < gs.len() {
                    assert(self.groups_seq()[j] == gs[j]);
                } else {
                    assert(self.groups_seq()[j] == (k, g0));
                }
            }
            assert forall|j: int|
                0 <= j < self.positions_seq().len() implies (
            #[trigger] self.positions_seq()[j]).1.wf() by {
                assert(self.positions_seq()[j] == ps[j]);
            }
        }
        (GroupId(k), copy)
    }

    /// Stores a position under the next free handle.
    pub fn insert_position(&mut self, position: Position) -> (id: PositionId)
        requires
            old(self).wf(),
            position.wf(),
            reg_max_key(old(self).positions_seq()) < u32::MAX,
        ensures
            final(self).wf(),
            old(self).position_lookup(id) is None,
            final(self).position_lookup(id) == Some(position),
            forall|o: PositionId|
                o != id ==> final(self).position_lookup(o) == old(self).position_lookup(o),
            final(self).actors_seq() == old(self).actors_seq(),
            final(self).groups_seq() == old(self).groups_seq(),
    {
        let ghost gs = self.groups_seq();
        let ghost ps = self.positions_seq();
        let k = self.positions.insert_next(position);
        proof {
            assert forall|o: PositionId| o != PositionId(k) implies final(self).position_lookup(o)
                == old(self).position_lookup(o) by {
                assert(o == PositionId(o.0));
                assert(o.0 != k);
            }
            assert forall|j: int|
                0 <= j < self.positions_seq().len() implies (
            #[trigger] self.positions_seq()[j]).1.wf() by {
                if j < ps.len() {
                    assert(self.positions_seq()[j] == ps[j]);
                } else {
                    assert(self.positions_seq()[j] == (k, position));
                }
            }
            assert forall|j: int|
                0 <= j < self.groups_seq().len() implies (#[trigger] self.groups_seq()[j]).1.wf() by {
                assert(self.groups_seq()[j] == gs[j]);
            }
        }
        PositionId(k)
    }

    /// Puts an actor back under an explicit handle, as when a saved show is
    /// reloaded; fails if the handle is in use.
    pub fn restore_actor(&mut self, id: ActorId, actor: Actor) -> (ok: bool)
        requires
            old(self).wf(),
        ensures
            final(self).wf(),
            ok <==> old(self).actor_lookup(id) is None,
            ok ==> final(self).actor_lookup(id) == Some(actor),
            !ok ==> *final(self) == *old(self),
            final(self).groups_seq() == old(self).groups_seq(),
            final(self).positions_seq() == old(self).positions_seq(),
    {
        let ghost gs = self.groups_seq();
        let ghost ps = self.positions_seq();
        let ok = self.actors.restore(id.0, actor);
        proof {
            assert forall|j: int|
                0 <= j < self.groups_seq().len() implies (#[trigger] self.groups_seq()[j]).1.wf() by {
                assert(self.groups_seq()[j] == gs[j]);
            }
            assert forall|j: int|
                0 <= j < self.positions_seq().len() implies (
            #[trigger] self.positions_seq()[j]).1.wf() by {
                assert(self.positions_seq()[j] == ps[j]);
            }
        }
        ok
    }

    /// Puts a group back under an explicit handle, as when a saved show is
    /// reloaded; fails if the handle is in use.
    pub fn restore_group(&mut self, id: GroupId, group: Group) -> (ok: bool)
        requires
            old(self).wf(),
            group.wf(),
        ensures
            final(self).wf(),
            ok <==> old(self).group_lookup(id) is None,
            ok ==> final(self).group_lookup(id) == Some(group),
            !ok ==> *final(self) == *old(self),
            final(self).actors_seq() == old(self).actors_seq(),
            final(self).positions_seq() == old(self).positions_seq(),
    {
        let ghost gs = self.groups_seq();
        let ghost ps = self.positions_seq();
        let ghost g0 = group;
        let ok = self.groups.restore(id.0, group);
        proof {
            if ok {
                assert forall|j: int|
                    0 <= j < self.groups_seq().len() implies (
                #[trigger] self.groups_seq()[j]).1.wf() by {
                    if j < gs.len() {
                        assert(self.groups_seq()[j] == gs[j]);
                    } else {
                        assert(self.groups_seq()[j] == (id.0, g0));
                    }
                }
            }
            assert forall|j: int|
                0 <= j < self.positions_seq().len() implies (
            #[trigger] self.positions_seq()[j]).1.wf() by {
                assert(self.positions_seq()[j] == ps[j]);
            }
        }
        ok
    }

    /// Puts a position back under an explicit handle, as when a saved show
    /// is reloaded; fails if the handle is in use.
    pub fn restore_position(&mut self, id: PositionId, position: Position) -> (ok: bool)
        requires
            old(self).wf(),
            position.wf(),
        ensures
            final(self).wf(),
            ok <==> old(self).position_lookup(id) is None,
            ok ==> final(self).position_lookup(id) == Some(position),
            !ok ==> *final(self) == *old(self),
            final(self).actors_seq() == old(self).actors_seq(),
            final(self).groups_seq() == old(self).groups_seq(),
    {
        let ghost gs = self.groups_seq();
        let ghost ps = self.positions_seq();
        let ok = self.positions.restore(id.0, position);
        proof {
            if ok {
                assert forall|j: int|
                    0 <= j < self.positions_seq().len() implies (
                #[trigger] self.positions_seq()[j]).1.wf() by {
                    if j < ps.len() {
                        assert(self.positions_seq()[j] == ps[j]);
                    } else {
                        assert(self.positions_seq()[j] == (id.0, position));
                    }
                }
            }
            assert forall|j: int|
                0 <= j < self.groups_seq().len() implies (#[trigger] self.groups_seq()[j]).1.wf() by {
                assert(self.groups_seq()[j] == gs[j]);
            }
        }
        ok
    }
}

impl Default for MixConfig {
    /// A configuration with empty registries.
    fn default() -> (r: Self)
        ensures
            r.wf(),
            r.actors_seq() == Seq::<(u32, Actor)>::empty(),
            r.groups_seq() == Seq::<(u32, Group)>::empty(),
            r.positions_seq() == Seq::<(u32, Position)>::empty(),
    {
        MixConfig::new()
    }
}

} // verus!
