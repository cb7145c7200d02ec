//! The DCA assignment engine.
//!
//! A cue holds sixteen slots, one per hardware DCA bus; a slot names
//! nothing, one actor, or one group. Applying an assignment recomputes the
//! console's routing from scratch: every controlled channel no slot claims
//! is muted and its membership cleared, every claimed channel is unmuted and
//! assigned to exactly the bus of the last slot claiming it, and every bus
//! is labeled from its slot. Nothing depends on what a previous cue wrote.

use vstd::prelude::*;
use vstd::string::*;

use crate::mix::actor::ActorId;
use crate::mix::config::MixConfig;
use crate::mix::group::{Group, GroupId};
use crate::wing::action::WingAction;
use crate::wing::channel::{lemma_channel_id_injective, WingChannelId};
use crate::wing::color::WingColor;
use crate::wing::dca::WingDcaId;
use crate::wing::id::WingId;
use crate::wing::state::{
    last_dca_color, last_dca_name, last_dcas, last_mute, last_pan, lemma_run_dca_color,
    lemma_run_dca_name, lemma_run_dcas, lemma_run_mute, lemma_run_pan, run_actions, WingMixState,
};

verus! {

/// One slot of a DCA assignment.
#[derive(Copy, Clone, Debug, Default, PartialEq, Eq, Structural)]
pub enum SingleDcaAssignment {
    /// The slot names nobody; its bus carries no channel.
    #[default]
    Unassigned,
    /// The slot carries one actor's channel.
    Actor(ActorId),
    /// The slot carries the channels of every resolvable actor of a group.
    Group(GroupId),
}

/// The channels of a group's resolvable members. A member handle that no
/// longer resolves is skipped, not an error.
pub open spec fn group_channel_set(g: Group, config: MixConfig) -> Set<WingChannelId> {
    Set::new(
        |ch: WingChannelId|
            exists|i: int|
                0 <= i < g.actors_spec().len() && ((#[trigger] config.actor_lookup(
                    g.actors_spec()[i],
                )) matches Some(actor) && actor.channel_spec() == ch),
    )
}

/// The channels a slot controls: nothing, one actor's channel, or a group's
/// channels; an unresolvable reference controls nothing.
pub open spec fn bake_channel_set(s: SingleDcaAssignment, config: MixConfig) -> Set<WingChannelId> {
    match s {
        SingleDcaAssignment::Unassigned => Set::empty(),
        SingleDcaAssignment::Actor(a) => match config.actor_lookup(a) {
            Some(actor) => Set::empty().insert(actor.channel_spec()),
            None => Set::empty(),
        },
        SingleDcaAssignment::Group(g) => match config.group_lookup(g) {
            Some(group) => group_channel_set(group, config),
            None => Set::empty(),
        },
    }
}

/// The display name a slot gives its bus; an empty or unresolvable slot
/// gives the empty name.
pub open spec fn bake_name_spec(s: SingleDcaAssignment, config: MixConfig) -> Seq<char> {
    match s {
        SingleDcaAssignment::Unassigned => Seq::empty(),
        SingleDcaAssignment::Actor(a) => match config.actor_lookup(a) {
            Some(actor) => actor.name_spec(),
            None => Seq::empty(),
        },
        SingleDcaAssignment::Group(g) => match config.group_lookup(g) {
            Some(group) => group.name_spec(),
            None => Seq::empty(),
        },
    }
}

/// The color a slot chooses for its bus, if its actor or group has one.
pub open spec fn bake_color_spec(s: SingleDcaAssignment, config: MixConfig) -> Option<WingColor> {
    match s {
        SingleDcaAssignment::Unassigned => None,
        SingleDcaAssignment::Actor(a) => match config.actor_lookup(a) {
            Some(actor) => actor.color_spec(),
            None => None,
        },
        SingleDcaAssignment::Group(g) => match config.group_lookup(g) {
            Some(group) => group.color_spec(),
            None => None,
        },
    }
}

/// The color written to a slot's bus: the slot's own color, or the fixed
/// fallback where the slot gives none.
pub open spec fn effective_color_spec(s: SingleDcaAssignment, config: MixConfig) -> WingColor {
    match bake_color_spec(s, config) {
        Some(c) => c,
        None => WingColor::Red,
    }
}

/// Whether any slot controls the channel.
pub open spec fn claimed_by_any(
    slots: Seq<SingleDcaAssignment>,
    config: MixConfig,
    ch: WingChannelId,
) -> bool {
    exists|i: int|
        0 <= i < slots.len() && (#[trigger] bake_channel_set(slots[i], config)).contains(ch)
}

/// The last slot that controls the channel, if any: with two slots claiming
/// one channel, the later slot in array order wins.
pub open spec fn last_claiming_slot(
    slots: Seq<SingleDcaAssignment>,
    config: MixConfig,
    ch: WingChannelId,
) -> Option<int>
    decreases slots.len(),
{
    if slots.len() == 0 {
        None
    } else if bake_channel_set(slots.last(), config).contains(ch) {
        Some(slots.len() - 1)
    } else {
        last_claiming_slot(slots.drop_last(), config, ch)
    }
}

/// A slot resolved against a configuration: the channels it controls and
/// the name and color it gives its bus.
pub struct SingleDcaAssignmentBake {
    channels: Vec<WingChannelId>,
    name: String,
    color: Option<WingColor>,
}

impl SingleDcaAssignmentBake {
    /// The controlled channels, without duplicates.
    pub closed spec fn channels_seq(&self) -> Seq<WingChannelId> {
        self.channels@
    }

    /// The controlled channels as a set.
    pub open spec fn channel_set(&self) -> Set<WingChannelId> {
        Set::new(|ch: WingChannelId| self.channels_seq().contains(ch))
    }

    /// The bus name this slot writes.
    pub closed spec fn name_spec(&self) -> Seq<char> {
        self.name@
    }

    /// The bus color this slot chooses, if any.
    pub closed spec fn color_spec(&self) -> Option<WingColor> {
        self.color
    }

    /// The channel list holds no duplicates.
    pub open spec fn wf(&self) -> bool {
        forall|i: int, j: int|
            0 <= i < j < self.channels_seq().len() ==> self.channels_seq()[i]
                != self.channels_seq()[j]
    }

    /// The controlled channels.
    pub fn channels(&self) -> (r: &Vec<WingChannelId>)
        ensures
            r@ == self.channels_seq(),
    {
        &self.channels
    }

    /// The bus name this slot writes.
    pub fn name(&self) -> (r: &str)
        ensures
            r@ == self.name_spec(),
    {
        self.name.as_str()
    }

    /// The bus color this slot chooses, if any.
    pub fn color(&self) -> (r: Option<WingColor>)
        ensures
            r == self.color_spec(),
    {
        self.color
    }
}

fn channels_contain(v: &Vec<WingChannelId>, ch: WingChannelId) -> (r: bool)
    ensures
        r == v@.contains(ch),
{
    let mut i: usize = 0;
    while i < v.len()
        invariant
            i <= v@.len(),
            forall|j: int| 0 <= j < i ==> v@[j] != ch,
        decreases v@.len() - i,
    {
        if v[i].value() == ch.value() {
            proof {
                assert(v@[i as int].id_spec() == ch.id_spec());
                assert(v@[i as int] == ch) by {
                    lemma_channel_id_injective(v@[i as int], ch);
                }
            }
            return true;
        }
        proof {
            if v@[i as int] == ch {
                assert(v@[i as int].id_spec() == ch.id_spec());
                assert(false);
            }
        }
        i += 1;
    }
    false
}

impl SingleDcaAssignment {
    /// Resolves this slot against a configuration: the set of channels it
    /// controls, with an unresolvable actor or group yielding the empty set,
    /// and the name and color it gives its bus.
    pub fn bake_assignment(&self, config: &MixConfig) -> (b: SingleDcaAssignmentBake)
        requires
            config.wf(),
        ensures
            b.wf(),
            b.channel_set() == bake_channel_set(*self, *config),
            b.name_spec() == bake_name_spec(*self, *config),
            b.color_spec() == bake_color_spec(*self, *config),
    {
        match self {
            SingleDcaAssignment::Unassigned => {
                let b = SingleDcaAssignmentBake {
                    channels: Vec::new(),
                    name: String::new(),
                    color: None,
                };
                proof {
                    assert(b.channel_set() =~= bake_channel_set(*self, *config));
                }
                b
            },
            SingleDcaAssignment::Actor(a) => {
                match config.actor(*a) {
                    Ok(actor) => {
                        let mut channels: Vec<WingChannelId> = Vec::new();
                        channels.push(*actor.channel());
                        let b = SingleDcaAssignmentBake {
                            channels,
                            name: actor.name().to_owned(),
                            color: actor.color(),
                        };
                        proof {
                            assert(b.channels_seq()[0] == actor.channel_spec());
                            assert(b.channel_set() =~= bake_channel_set(*self, *config));
                        }
                        b
                    },
                    Err(_) => {
                        let b = SingleDcaAssignmentBake {
                            channels: Vec::new(),
                            name: String::new(),
                            color: None,
                        };
                        proof {
                            assert(b.channel_set() =~= bake_channel_set(*self, *config));
                        }
                        b
                    },
                }
            },
            SingleDcaAssignment::Group(g) => {
                match config.group(*g) {
                    Ok(group) => {
                        let members = group.actors();
                        let mut channels: Vec<WingChannelId> = Vec::new();
                        let mut i: usize = 0;
                        while i < members.len()
                            invariant
                                i <= members@.len(),
                                members@ == group.actors_spec(),
                                config.wf(),
                                forall|p: int, q: int|
                                    0 <= p < q < channels@.len() ==> channels@[p] != channels@[q],
                                forall|ch: WingChannelId| #![trigger channels@.contains(ch)]
                                    channels@.contains(ch) <==> exists|j: int|
                                        0 <= j < i && ((#[trigger] config.actor_lookup(
                                            members@[j],
                                        )) matches Some(actor) && actor.channel_spec() == ch),
                            decreases members@.len() - i,
                        {
                            let ghost pre = channels@;
                            match config.actor(members[i]) {
                                Ok(actor) => {
                                    let ch = *actor.channel();
                                    let present = channels_contain(&channels, ch);
                                    if !present {
                                        channels.push(ch);
                                    }
                                    proof {
                                        assert forall|c: WingChannelId| #![trigger channels@.contains(c)]
                                            channels@.contains(c) <==> exists|j: int|
                                                0 <= j < i + 1 && ((#[trigger] config.actor_lookup(
                                                    members@[j],
                                                )) matches Some(a2) && a2.channel_spec() == c) by {
                                            if !present {
                                                lemma_channels_contains_push(pre, ch, c);
                                            }
                                            if channels@.contains(c) {
                                                if c == ch {
                                                    assert((config.actor_lookup(members@[i as int])
                                                        matches Some(a2)) && (config.actor_lookup(
                                                        members@[i as int],
                                                    ) matches Some(a2) && a2.channel_spec() == c));
                                                } else {
                                                    assert(pre.contains(c));
                                                }
                                            }
                                            if exists|j: int|
                                                0 <= j < i + 1 && ((#[trigger] config.actor_lookup(
                                                    members@[j],
                                                )) matches Some(a2) && a2.channel_spec() == c) {
                                                let j = choose|j: int|
                                                    0 <= j < i + 1 && ((
                                                    #[trigger] config.actor_lookup(
                                                        members@[j],
                                                    )) matches Some(a2) && a2.channel_spec() == c);
                                                if j < i {
                                                    assert(pre.contains(c));
                                                    if !present {
                                                        lemma_channels_contains_push(pre, ch, c);
                                                    }
                                                } else {
                                                    assert(c == ch);
                                                    if present {
                                                        assert(pre.contains(c));
                                                    } else {
                                                        assert(channels@ == pre.push(ch));
                                                        assert(channels@[pre.len() as int] == ch);
                                                    }
                                                }
                                            }
                                        }
                                    }
                                },
                                Err(_) => {
                                    proof {
                                        assert forall|c: WingChannelId| #![trigger channels@.contains(c)]
                                            channels@.contains(c) <==> exists|j: int|
                                                0 <= j < i + 1 && ((#[trigger] config.actor_lookup(
                                                    members@[j],
                                                )) matches Some(a2) && a2.channel_spec() == c) by {
                                            if exists|j: int|
                                                0 <= j < i + 1 && ((#[trigger] config.actor_lookup(
                                                    members@[j],
                                                )) matches Some(a2) && a2.channel_spec() == c) {
                                                let j = choose|j: int|
                                                    0 <= j < i + 1 && ((
                                                    #[trigger] config.actor_lookup(
                                                        members@[j],
                                                    )) matches Some(a2) && a2.channel_spec() == c);
                                                assert(j < i);
                                            }
                                        }
                                    }
                                },
                            }
                            i += 1;
                        }
                        let b = SingleDcaAssignmentBake {
                            channels,
                            name: group.name().to_owned(),
                            color: group.color(),
                        };
                        proof {
                            assert(b.channel_set() =~= bake_channel_set(*self, *config));
                        }
                        b
                    },
                    Err(_) => {
                        let b = SingleDcaAssignmentBake {
                            channels: Vec::new(),
                            name: String::new(),
                            color: None,
                        };
                        proof {
                            assert(b.channel_set() =~= bake_channel_set(*self, *config));
                        }
                        b
                    },
                }
            },
        }
    }
}

proof fn lemma_channels_contains_push(v: Seq<WingChannelId>, x: WingChannelId, t: WingChannelId)
    ensures
        v.push(x).contains(t) <==> (v.contains(t) || t == x),
{
    if v.push(x).contains(t) {
        let k = choose|k: int| 0 <= k < v.push(x).len() && v.push(x)[k] == t;
        if k < v.len() {
            assert(v[k] == t);
        }
    }
    if v.contains(t) {
        let k = choose|k: int| 0 <= k < v.len() && v[k] == t;
        assert(v.push(x)[k] == t);
    }
    if t == x {
        assert(v.push(x)[v.len() as int] == t);
    }
}


/// The mute write a finished plan leaves on a channel: a claimed channel is
/// unmuted, an unclaimed controlled channel is muted, and any other channel
/// gets no mute write at all. `upto` bounds the slots already planned.
pub open spec fn planned_mute(
    slots: Seq<SingleDcaAssignment>,
    config: MixConfig,
    upto: int,
    ch: WingChannelId,
) -> Option<bool> {
    match last_claiming_slot(slots.take(upto), config, ch) {
        Some(i) => Some(false),
        None => if config.is_controlled(ch) && !claimed_by_any(slots, config, ch) {
            Some(true)
        } else {
            None
        },
    }
}

/// Whether a membership write matches the plan's intent for a channel: the
/// bus of the last claiming slot, the empty membership for an unclaimed
/// controlled channel, and no write for any other channel.
pub open spec fn planned_dcas_ok(
    slots: Seq<SingleDcaAssignment>,
    config: MixConfig,
    upto: int,
    ch: WingChannelId,
    v: Option<Seq<WingDcaId>>,
) -> bool {
    match last_claiming_slot(slots.take(upto), config, ch) {
        Some(i) => v matches Some(ids) && ids.len() == 1 && ids[0].id_spec() == i + 1,
        None => if config.is_controlled(ch) && !claimed_by_any(slots, config, ch) {
            v == Some(Seq::<WingDcaId>::empty())
        } else {
            v is None
        },
    }
}

/// A channel has a last claiming slot exactly when some slot claims it, and
/// that slot claims it.
pub proof fn lemma_last_claiming_slot(
    slots: Seq<SingleDcaAssignment>,
    config: MixConfig,
    ch: WingChannelId,
)
    ensures
        (last_claiming_slot(slots, config, ch) is None) <==> !claimed_by_any(slots, config, ch),
        last_claiming_slot(slots, config, ch) matches Some(i) ==> 0 <= i < slots.len()
            && bake_channel_set(slots[i], config).contains(ch),
    decreases slots.len(),
{
    if slots.len() > 0 {
        lemma_last_claiming_slot(slots.drop_last(), config, ch);
        assert(forall|j: int|
            0 <= j < slots.drop_last().len() ==> (#[trigger] slots.drop_last()[j]) == slots[j]);
        if bake_channel_set(slots.last(), config).contains(ch) {
            assert(bake_channel_set(slots[slots.len() - 1], config).contains(ch));
            assert(claimed_by_any(slots, config, ch));
        } else {
            if claimed_by_any(slots.drop_last(), config, ch) {
                let j = choose|j: int|
                    0 <= j < slots.drop_last().len() && (#[trigger] bake_channel_set(
                        slots.drop_last()[j],
                        config,
                    )).contains(ch);
                assert(bake_channel_set(slots[j], config).contains(ch));
            }
            if claimed_by_any(slots, config, ch) {
                let j = choose|j: int|
                    0 <= j < slots.len() && (#[trigger] bake_channel_set(
                        slots[j],
                        config,
                    )).contains(ch);
                assert(j < slots.len() - 1);
                assert(bake_channel_set(slots.drop_last()[j], config).contains(ch));
            }
        }
    }
}

fn push_silence(plan: &mut Vec<WingAction>, ch: WingChannelId)
    ensures
        forall|c: WingChannelId| #![trigger last_mute(final(plan)@, c)]
            last_mute(final(plan)@, c) == (if c == ch {
                Some(true)
            } else {
                last_mute(old(plan)@, c)
            }),
        forall|c: WingChannelId| #![trigger last_dcas(final(plan)@, c)]
            last_dcas(final(plan)@, c) == (if c == ch {
                Some(Seq::<WingDcaId>::empty())
            } else {
                last_dcas(old(plan)@, c)
            }),
        forall|c: WingChannelId| #![trigger last_pan(final(plan)@, c)]
            last_pan(final(plan)@, c) == last_pan(old(plan)@, c),
        forall|d: WingDcaId| #![trigger last_dca_name(final(plan)@, d)]
            last_dca_name(final(plan)@, d) == last_dca_name(old(plan)@, d),
        forall|d: WingDcaId| #![trigger last_dca_color(final(plan)@, d)]
            last_dca_color(final(plan)@, d) == last_dca_color(old(plan)@, d),
{
    let ghost p0 = plan@;
    plan.push(WingAction::Mute(ch));
    let ghost p1 = plan@;
    let ids: Vec<WingDcaId> = Vec::new();
    let ghost idsv = ids@;
    plan.push(WingAction::SetDcas(ch, ids));
    proof {
        let p2 = plan@;
        assert(p1.drop_last() =~= p0);
        assert(p2.drop_last() =~= p1);
        assert forall|c: WingChannelId|
            last_mute(p2, c) == (if c == ch {
                Some(true)
            } else {
                last_mute(p0, c)
            }) by {
            assert(last_mute(p2, c) == last_mute(p1, c));
            assert(last_mute(p1, c) == (if c == ch {
                Some(true)
            } else {
                last_mute(p0, c)
            }));
        }
        assert forall|c: WingChannelId|
            last_dcas(p2, c) == (if c == ch {
                Some(Seq::<WingDcaId>::empty())
            } else {
                last_dcas(p0, c)
            }) by {
            assert(last_dcas(p1, c) == last_dcas(p0, c));
        }
        assert forall|c: WingChannelId| last_pan(p2, c) == last_pan(p0, c) by {
            assert(last_pan(p2, c) == last_pan(p1, c));
        }
        assert forall|d: WingDcaId| last_dca_name(p2, d) == last_dca_name(p0, d) by {
            assert(last_dca_name(p2, d) == last_dca_name(p1, d));
        }
        assert forall|d: WingDcaId| last_dca_color(p2, d) == last_dca_color(p0, d) by {
            assert(last_dca_color(p2, d) == last_dca_color(p1, d));
        }
    }
}

fn push_assign(plan: &mut Vec<WingAction>, ch: WingChannelId, d: WingDcaId)
    ensures
        forall|c: WingChannelId| #![trigger last_mute(final(plan)@, c)]
            last_mute(final(plan)@, c) == (if c == ch {
                Some(false)
            } else {
                last_mute(old(plan)@, c)
            }),
        forall|c: WingChannelId| #![trigger last_dcas(final(plan)@, c)]
            last_dcas(final(plan)@, c) == (if c == ch {
                Some(seq![d])
            } else {
                last_dcas(old(plan)@, c)
            }),
        forall|c: WingChannelId| #![trigger last_pan(final(plan)@, c)]
            last_pan(final(plan)@, c) == last_pan(old(plan)@, c),
        forall|e: WingDcaId| #![trigger last_dca_name(final(plan)@, e)]
            last_dca_name(final(plan)@, e) == last_dca_name(old(plan)@, e),
        forall|e: WingDcaId| #![trigger last_dca_color(final(plan)@, e)]
            last_dca_color(final(plan)@, e) == last_dca_color(old(plan)@, e),
{
    let ghost p0 = plan@;
    plan.push(WingAction::Unmute(ch));
    let ghost p1 = plan@;
    let mut ids: Vec<WingDcaId> = Vec::new();
    ids.push(d);
    let ghost idsv = ids@;
    plan.push(WingAction::SetDcas(ch, ids));
    proof {
        let p2 = plan@;
        assert(p1.drop_last() =~= p0);
        assert(p2.drop_last() =~= p1);
        assert(idsv =~= seq![d]);
        assert forall|c: WingChannelId|
            last_mute(p2, c) == (if c == ch {
                Some(false)
            } else {
                last_mute(p0, c)
            }) by {
            assert(last_mute(p2, c) == last_mute(p1, c));
            assert(last_mute(p1, c) == (if c == ch {
                Some(false)
            } else {
                last_mute(p0, c)
            }));
        }
        assert forall|c: WingChannelId|
            last_dcas(p2, c) == (if c == ch {
                Some(seq![d])
            } else {
                last_dcas(p0, c)
            }) by {
            assert(last_dcas(p1, c) == last_dcas(p0, c));
        }
        assert forall|c: WingChannelId| last_pan(p2, c) == last_pan(p0, c) by {
            assert(last_pan(p2, c) == last_pan(p1, c));
        }
        assert forall|e: WingDcaId| last_dca_name(p2, e) == last_dca_name(p0, e) by {
            assert(last_dca_name(p2, e) == last_dca_name(p1, e));
        }
        assert forall|e: WingDcaId| last_dca_color(p2, e) == last_dca_color(p0, e) by {
            assert(last_dca_color(p2, e) == last_dca_color(p1, e));
        }
    }
}

fn push_label(plan: &mut Vec<WingAction>, d: WingDcaId, name: &str, color: WingColor)
    ensures
        forall|e: WingDcaId| #![trigger last_dca_name(final(plan)@, e)]
            last_dca_name(final(plan)@, e) == (if e == d {
                Some(name@)
            } else {
                last_dca_name(old(plan)@, e)
            }),
        forall|e: WingDcaId| #![trigger last_dca_color(final(plan)@, e)]
            last_dca_color(final(plan)@, e) == (if e == d {
                Some(color)
            } else {
                last_dca_color(old(plan)@, e)
            }),
        forall|c: WingChannelId| #![trigger last_mute(final(plan)@, c)]
            last_mute(final(plan)@, c) == last_mute(old(plan)@, c),
        forall|c: WingChannelId| #![trigger last_dcas(final(plan)@, c)]
            last_dcas(final(plan)@, c) == last_dcas(old(plan)@, c),
        forall|c: WingChannelId| #![trigger last_pan(final(plan)@, c)]
            last_pan(final(plan)@, c) == last_pan(old(plan)@, c),
{
    let ghost p0 = plan@;
    plan.push(WingAction::SetDcaName(d, name.to_owned()));
    let ghost p1 = plan@;
    plan.push(WingAction::SetDcaColor(d, color));
    proof {
        let p2 = plan@;
        assert(p1.drop_last() =~= p0);
        assert(p2.drop_last() =~= p1);
        assert forall|e: WingDcaId|
            last_dca_name(p2, e) == (if e == d {
                Some(name@)
            } else {
                last_dca_name(p0, e)
            }) by {
            assert(last_dca_name(p2, e) == last_dca_name(p1, e));
            assert(last_dca_name(p1, e) == (if e == d {
                Some(name@)
            } else {
                last_dca_name(p0, e)
            }));
        }
        assert forall|e: WingDcaId|
            last_dca_color(p2, e) == (if e == d {
                Some(color)
            } else {
                last_dca_color(p0, e)
            }) by {
            assert(last_dca_color(p1, e) == last_dca_color(p0, e));
        }
        assert forall|c: WingChannelId| last_mute(p2, c) == last_mute(p0, c) by {
            assert(last_mute(p2, c) == last_mute(p1, c));
        }
        assert forall|c: WingChannelId| last_dcas(p2, c) == last_dcas(p0, c) by {
            assert(last_dcas(p2, c) == last_dcas(p1, c));
        }
        assert forall|c: WingChannelId| last_pan(p2, c) == last_pan(p0, c) by {
            assert(last_pan(p2, c) == last_pan(p1, c));
        }
    }
}

fn bakes_claim(bakes: &Vec<SingleDcaAssignmentBake>, ch: WingChannelId) -> (r: bool)
    ensures
        r == exists|j: int|
            0 <= j < bakes@.len() && (#[trigger] bakes@[j].channel_set()).contains(ch),
{
    let mut j: usize = 0;
    while j < bakes.len()
        invariant
            j <= bakes@.len(),
            forall|p: int| 0 <= p < j ==> !(#[trigger] bakes@[p].channel_set()).contains(ch),
        decreases bakes@.len() - j,
    {
        if channels_contain(bakes[j].channels(), ch) {
            proof {
                assert(bakes@[j as int].channel_set().contains(ch));
            }
            return true;
        }
        j += 1;
    }
    false
}

/// A cue's full DCA routing: sixteen slots, the slot at index `i` driving
/// hardware DCA bus `i + 1`.
pub struct DcaAssignment {
    assignment: Vec<SingleDcaAssignment>,
}

impl DcaAssignment {
    /// The sixteen slots, in bus order.
    pub closed spec fn slots(&self) -> Seq<SingleDcaAssignment> {
        self.assignment@
    }

    /// An assignment always holds exactly sixteen slots.
    pub open spec fn wf(&self) -> bool {
        self.slots().len() == 16
    }

    /// An assignment with every slot empty.
    pub fn new() -> (r: Self)
        ensures
            r.wf(),
            forall|i: int| 0 <= i < 16 ==> r.slots()[i] == SingleDcaAssignment::Unassigned,
    {
        let mut assignment: Vec<SingleDcaAssignment> = Vec::new();
        let mut i: usize = 0;
        while i < 16
            invariant
                i <= 16,
                assignment@.len() == i,
                forall|j: int| 0 <= j < i ==> assignment@[j] == SingleDcaAssignment::Unassigned,
            decreases 16 - i,
        {
            assignment.push(SingleDcaAssignment::Unassigned);
            i += 1;
        }
        DcaAssignment { assignment }
    }

    /// The slot driving one bus.
    pub fn slot(&self, idx: usize) -> (r: SingleDcaAssignment)
        requires
            self.wf(),
            idx < 16,
        ensures
            r == self.slots()[idx as int],
    {
        self.assignment[idx]
    }

    /// Replaces the slot driving one bus.
    pub fn set_slot(&mut self, idx: usize, s: SingleDcaAssignment)
        requires
            old(self).wf(),
            idx < 16,
        ensures
            final(self).wf(),
            final(self).slots() == old(self).slots().update(idx as int, s),
    {
        let ghost before = self.slots();
        self.assignment.remove(idx);
        self.assignment.insert(idx, s);
        proof {
            assert(self.slots() =~= before.update(idx as int, s));
        }
    }

    /// Plans the device writes that realize this assignment under a
    /// configuration. The plan touches no pan, recomputes everything from
    /// scratch, and leaves: every controlled channel no slot claims muted
    /// with its membership cleared; every claimed channel unmuted on exactly
    /// the bus of the last slot claiming it; every other channel untouched;
    /// and every bus named and colored from its slot, with the fixed
    /// fallback color where the slot gives none.
    pub fn apply(&self, config: &MixConfig) -> (plan: Vec<WingAction>)
        requires
            self.wf(),
            config.wf(),
        ensures
            dca_plan_post(plan@, self.slots(), *config),
    {
        let ghost slots = self.slots();

        let mut bakes: Vec<SingleDcaAssignmentBake> = Vec::new();
        let mut i: usize = 0;
        while i < 16
            invariant
                i <= 16,
                self.wf(),
                config.wf(),
                slots == self.slots(),
                bakes@.len() == i,
                forall|j: int|
                    0 <= j < i ==> (#[trigger] bakes@[j].channel_set()) == bake_channel_set(
                        slots[j],
                        *config,
                    ) && bakes@[j].name_spec() == bake_name_spec(slots[j], *config)
                        && bakes@[j].color_spec() == bake_color_spec(slots[j], *config)
                        && bakes@[j].wf(),
            decreases 16 - i,
        {
            bakes.push(self.assignment[i].bake_assignment(config));
            i += 1;
        }

        let mut plan: Vec<WingAction> = Vec::new();

        // Silence every controlled channel no slot claims: those channels
        // may carry state from an earlier cue and nothing later in this plan
        // touches them.
        let controlled = config.controlled_channels();
        let ghost cs = controlled@;
        let mut t: usize = 0;
        while t < controlled.len()
            invariant
                t <= cs.len(),
                self.wf(),
                config.wf(),
                slots == self.slots(),
                cs == controlled@,
                bakes@.len() == 16,
                forall|j: int|
                    0 <= j < 16 ==> (#[trigger] bakes@[j].channel_set()) == bake_channel_set(
                        slots[j],
                        *config,
                    ) && bakes@[j].name_spec() == bake_name_spec(slots[j], *config)
                        && bakes@[j].color_spec() == bake_color_spec(slots[j], *config)
                        && bakes@[j].wf(),
                forall|j: int| 0 <= j < cs.len() ==> config.is_controlled(#[trigger] cs[j]),
                forall|ch: WingChannelId| #![trigger last_mute(plan@, ch)]
                    last_mute(plan@, ch) == (if cs.take(t as int).contains(ch) && !claimed_by_any(
                        slots,
                        *config,
                        ch,
                    ) {
                        Some(true)
                    } else {
                        None
                    }),
                forall|ch: WingChannelId| #![trigger last_dcas(plan@, ch)]
                    last_dcas(plan@, ch) == (if cs.take(t as int).contains(ch) && !claimed_by_any(
                        slots,
                        *config,
                        ch,
                    ) {
                        Some(Seq::<WingDcaId>::empty())
                    } else {
                        None
                    }),
                forall|ch: WingChannelId| #![trigger last_pan(plan@, ch)] last_pan(plan@, ch) is None,
                forall|d: WingDcaId| #![trigger last_dca_name(plan@, d)]
                    last_dca_name(plan@, d) is None,
                forall|d: WingDcaId| #![trigger last_dca_color(plan@, d)]
                    last_dca_color(plan@, d) is None,
            decreases cs.len() - t,
        {
            let ch = controlled[t];
            let hit = bakes_claim(&bakes, ch);
            proof {
                assert(hit == claimed_by_any(slots, *config, ch)) by {
                    if hit {
                        let j = choose|j: int|
                            0 <= j < bakes@.len() && (#[trigger] bakes@[j].channel_set()).contains(
                                ch,
                            );
                        assert(bake_channel_set(slots[j], *config).contains(ch));
                    }
                    if claimed_by_any(slots, *config, ch) {
                        let j = choose|j: int|
                            0 <= j < slots.len() && (#[trigger] bake_channel_set(
                                slots[j],
                                *config,
                            )).contains(ch);
                        assert(bakes@[j].channel_set().contains(ch));
                    }
                }
            }
            if !hit {
                push_silence(&mut plan, ch);
            }
            proof {
                assert(cs.take(t + 1) =~= cs.take(t as int).push(cs[t as int]));
                assert forall|c: WingChannelId| #![trigger cs.take(t + 1).contains(c)]
                    cs.take(t + 1).contains(c) <==> (cs.take(t as int).contains(c) || c == cs[
                    t as int]) by {
                    lemma_channels_contains_push(cs.take(t as int), cs[t as int], c);
                }
                assert forall|c: WingChannelId| #![trigger last_mute(plan@, c)]
                    last_mute(plan@, c) == (if cs.take(t + 1).contains(c) && !claimed_by_any(
                        slots,
                        *config,
                        c,
                    ) {
                        Some(true)
                    } else {
                        None
                    }) by {
                    assert(cs.take(t + 1).contains(c) <==> (cs.take(t as int).contains(c) || c
                        == cs[t as int]));
                }
                assert forall|c: WingChannelId| #![trigger last_dcas(plan@, c)]
                    last_dcas(plan@, c) == (if cs.take(t + 1).contains(c) && !claimed_by_any(
                        slots,
                        *config,
                        c,
                    ) {
                        Some(Seq::<WingDcaId>::empty())
                    } else {
                        None
                    }) by {
                    assert(cs.take(t + 1).contains(c) <==> (cs.take(t as int).contains(c) || c
                        == cs[t as int]));
                }
            }
            t += 1;
        }

        proof {
            assert(cs.take(cs.len() as int) =~= cs);
            assert forall|ch: WingChannelId| cs.contains(ch) <==> config.is_controlled(ch) by {
                if cs.contains(ch) {
                    let j = choose|j: int| 0 <= j < cs.len() && cs[j] == ch;
                    assert(config.is_controlled(cs[j]));
                }
                if config.is_controlled(ch) {
                    let j = choose|j: int|
                        0 <= j < config.actors_seq().len() && (
                        #[trigger] config.actors_seq()[j]).1.channel_spec() == ch;
                    assert(cs[j] == ch);
                    assert(cs.contains(ch));
                }
            }
            assert(slots.take(0) =~= Seq::<SingleDcaAssignment>::empty());
            assert forall|ch: WingChannelId| #![trigger last_mute(plan@, ch)]
                last_mute(plan@, ch) == planned_mute(slots, *config, 0, ch) by {}
            assert forall|ch: WingChannelId| #![trigger last_dcas(plan@, ch)]
                planned_dcas_ok(slots, *config, 0, ch, last_dcas(plan@, ch)) by {}
        }

        // Route every slot: label its bus, then unmute and claim each of its
        // channels. A later slot overrides an earlier one on a shared
        // channel because its writes come later in the plan.
        let mut k: usize = 0;
        while k < 16
            invariant
                k <= 16,
                self.wf(),
                config.wf(),
                slots == self.slots(),
                bakes@.len() == 16,
                forall|j: int|
                    0 <= j < 16 ==> (#[trigger] bakes@[j].channel_set()) == bake_channel_set(
                        slots[j],
                        *config,
                    ) && bakes@[j].name_spec() == bake_name_spec(slots[j], *config)
                        && bakes@[j].color_spec() == bake_color_spec(slots[j], *config)
                        && bakes@[j].wf(),
                forall|ch: WingChannelId| #![trigger last_mute(plan@, ch)]
                    last_mute(plan@, ch) == planned_mute(slots, *config, k as int, ch),
                forall|ch: WingChannelId| #![trigger last_dcas(plan@, ch)]
                    planned_dcas_ok(slots, *config, k as int, ch, last_dcas(plan@, ch)),
                forall|ch: WingChannelId| #![trigger last_pan(plan@, ch)] last_pan(plan@, ch) is None,
                forall|d: WingDcaId| #![trigger last_dca_name(plan@, d)]
                    last_dca_name(plan@, d) == (if 1 <= d.id_spec() <= k {
                        Some(bake_name_spec(slots[d.id_spec() - 1], *config))
                    } else {
                        None
                    }),
                forall|d: WingDcaId| #![trigger last_dca_color(plan@, d)]
                    last_dca_color(plan@, d) == (if 1 <= d.id_spec() <= k {
                        Some(effective_color_spec(slots[d.id_spec() - 1], *config))
                    } else {
                        None
                    }),
            decreases 16 - k,
        {
            let d = WingDcaId::unchecked_new((k + 1) as u8);
            proof {
                assert(bakes@[k as int].channel_set() == bake_channel_set(
                    slots[k as int],
                    *config,
                ));
                assert(bakes@[k as int].name_spec() == bake_name_spec(slots[k as int], *config));
                assert(bakes@[k as int].color_spec() == bake_color_spec(slots[k as int], *config));
            }
            let color = match bakes[k].color() {
                Some(c) => c,
                None => WingColor::Red,
            };
            push_label(&mut plan, d, bakes[k].name(), color);
            proof {
                assert forall|e: WingDcaId| #![trigger last_dca_name(plan@, e)]
                    last_dca_name(plan@, e) == (if 1 <= e.id_spec() <= k + 1 {
                        Some(bake_name_spec(slots[e.id_spec() - 1], *config))
                    } else {
                        None
                    }) by {
                    if e.id_spec() == k + 1 {
                        assert(e == d) by {
                            crate::wing::dca::lemma_dca_id_injective(e, d);
                        }
                    } else if e == d {
                        assert(e.id_spec() == k + 1);
                    }
                }
                assert forall|e: WingDcaId| #![trigger last_dca_color(plan@, e)]
                    last_dca_color(plan@, e) == (if 1 <= e.id_spec() <= k + 1 {
                        Some(effective_color_spec(slots[e.id_spec() - 1], *config))
                    } else {
                        None
                    }) by {
                    if e.id_spec() == k + 1 {
                        assert(e == d) by {
                            crate::wing::dca::lemma_dca_id_injective(e, d);
                        }
                        assert(color == effective_color_spec(slots[k as int], *config));
                    } else if e == d {
                        assert(e.id_spec() == k + 1);
                    }
                }
            }
            let chs = bakes[k].channels();
            let ghost chseq = chs@;
            let mut u: usize = 0;
            while u < chs.len()
                invariant
                    u <= chseq.len(),
                    chseq == chs@,
                    self.wf(),
                    config.wf(),
                    slots == self.slots(),
                    k < 16,
                    d.id_spec() == k + 1,
                    chs@ == bakes@[k as int].channels_seq(),
                    bakes@.len() == 16,
                    bakes@[k as int].channel_set() == bake_channel_set(slots[k as int], *config),
                    forall|ch: WingChannelId| #![trigger last_mute(plan@, ch)]
                        last_mute(plan@, ch) == (if chseq.take(u as int).contains(ch) {
                            Some(false)
                        } else {
                            planned_mute(slots, *config, k as int, ch)
                        }),
                    forall|ch: WingChannelId| #![trigger last_dcas(plan@, ch)]
                        if chseq.take(u as int).contains(ch) {
                            last_dcas(plan@, ch) == Some(seq![d])
                        } else {
                            planned_dcas_ok(slots, *config, k as int, ch, last_dcas(plan@, ch))
                        },
                    forall|ch: WingChannelId| #![trigger last_pan(plan@, ch)]
                        last_pan(plan@, ch) is None,
                    forall|e: WingDcaId| #![trigger last_dca_name(plan@, e)]
                        last_dca_name(plan@, e) == (if 1 <= e.id_spec() <= k + 1 {
                            Some(bake_name_spec(slots[e.id_spec() - 1], *config))
                        } else {
                            None
                        }),
                    forall|e: WingDcaId| #![trigger last_dca_color(plan@, e)]
                        last_dca_color(plan@, e) == (if 1 <= e.id_spec() <= k + 1 {
                            Some(effective_color_spec(slots[e.id_spec() - 1], *config))
                        } else {
                            None
                        }),
                decreases chseq.len() - u,
            {
                let ch = chs[u];
                push_assign(&mut plan, ch, d);
                proof {
                    assert(chseq.take(u + 1) =~= chseq.take(u as int).push(chseq[u as int]));
                    assert forall|c: WingChannelId| #![trigger chseq.take(u + 1).contains(c)]
                        chseq.take(u + 1).contains(c) <==> (chseq.take(u as int).contains(c) || c
                        == chseq[u as int]) by {
                        lemma_channels_contains_push(chseq.take(u as int), chseq[u as int], c);
                    }
                    assert forall|c: WingChannelId| #![trigger last_mute(plan@, c)]
                        last_mute(plan@, c) == (if chseq.take(u + 1).contains(c) {
                            Some(false)
                        } else {
                            planned_mute(slots, *config, k as int, c)
                        }) by {
                        assert(chseq.take(u + 1).contains(c) <==> (chseq.take(u as int).contains(c)
                            || c == chseq[u as int]));
                    }
                    assert forall|c: WingChannelId| #![trigger last_dcas(plan@, c)]
                        if chseq.take(u + 1).contains(c) {
                            last_dcas(plan@, c) == Some(seq![d])
                        } else {
                            planned_dcas_ok(slots, *config, k as int, c, last_dcas(plan@, c))
                        } by {
                        assert(chseq.take(u + 1).contains(c) <==> (chseq.take(u as int).contains(c)
                            || c == chseq[u as int]));
                    }
                }
                u += 1;
            }
            proof {
                assert(chseq.take(chseq.len() as int) =~= chseq);
                assert(slots.take(k + 1).drop_last() =~= slots.take(k as int));
                assert(slots.take(k + 1).last() == slots[k as int]);
                assert forall|c: WingChannelId|
                    chseq.contains(c) <==> bake_channel_set(slots[k as int], *config).contains(
                        c,
                    ) by {
                    assert(bakes@[k as int].channel_set().contains(c) <==> bakes@[
                        k as int].channels_seq().contains(c));
                }
                assert forall|c: WingChannelId| #![trigger last_mute(plan@, c)]
                    last_mute(plan@, c) == planned_mute(slots, *config, k + 1, c) by {
                    if bake_channel_set(slots[k as int], *config).contains(c) {
                        assert(last_claiming_slot(slots.take(k + 1), *config, c) == Some(
                            k as int,
                        ));
                    } else {
                        assert(last_claiming_slot(slots.take(k + 1), *config, c)
                            == last_claiming_slot(slots.take(k as int), *config, c));
                    }
                }
                assert forall|c: WingChannelId| #![trigger last_dcas(plan@, c)]
                    planned_dcas_ok(slots, *config, k + 1, c, last_dcas(plan@, c)) by {
                    if bake_channel_set(slots[k as int], *config).contains(c) {
                        assert(last_claiming_slot(slots.take(k + 1), *config, c) == Some(
                            k as int,
                        ));
                        assert(last_dcas(plan@, c) == Some(seq![d]));
                        assert(seq![d].len() == 1 && seq![d][0].id_spec() == k + 1);
                    } else {
                        assert(last_claiming_slot(slots.take(k + 1), *config, c)
                            == last_claiming_slot(slots.take(k as int), *config, c));
                    }
                }
            }
            k += 1;
        }
        proof {
            assert(slots.take(16) =~= slots);
        }
        plan
    }
}

/// What a DCA plan writes, write for write: the last mute write of each
/// channel is the planned one, the last membership write names the planned
/// bus, every bus gets its slot's label as its last name and color write,
/// and no pan is written at all.
pub open spec fn dca_plan_post(
    plan: Seq<WingAction>,
    slots: Seq<SingleDcaAssignment>,
    config: MixConfig,
) -> bool {
    &&& forall|ch: WingChannelId| #![trigger last_mute(plan, ch)]
        last_mute(plan, ch) == planned_mute(slots, config, 16, ch)
    &&& forall|ch: WingChannelId| #![trigger last_dcas(plan, ch)]
        planned_dcas_ok(slots, config, 16, ch, last_dcas(plan, ch))
    &&& forall|d: WingDcaId| #![trigger last_dca_name(plan, d)]
        last_dca_name(plan, d) == (if 1 <= d.id_spec() <= 16 {
            Some(bake_name_spec(slots[d.id_spec() - 1], config))
        } else {
            None
        })
    &&& forall|d: WingDcaId| #![trigger last_dca_color(plan, d)]
        last_dca_color(plan, d) == (if 1 <= d.id_spec() <= 16 {
            Some(effective_color_spec(slots[d.id_spec() - 1], config))
        } else {
            None
        })
    &&& forall|ch: WingChannelId| #![trigger last_pan(plan, ch)] last_pan(plan, ch) is None
}

/// Every hardware bus carries its slot's label in a console state: the
/// slot's baked name, and its color or the fixed fallback.
pub open spec fn buses_labeled(
    stf: WingMixState,
    slots: Seq<SingleDcaAssignment>,
    config: MixConfig,
) -> bool {
    forall|d: WingDcaId|
        1 <= d.id_spec() <= 16 ==> (#[trigger] stf.dca_names.contains_key(d)) && stf.dca_names[d]
            == bake_name_spec(slots[d.id_spec() - 1], config) && stf.dca_colors.contains_key(d)
            && stf.dca_colors[d] == effective_color_spec(slots[d.id_spec() - 1], config)
}

/// The engine's guarantee, stated over the console itself: executed from any
/// starting state, a plan with the engine's write pattern leaves every
/// controlled channel no slot claims muted with its membership cleared —
/// a channel dropped from the cue is always silenced, with no reliance on
/// what an earlier cue wrote; leaves every claimed channel unmuted on
/// exactly the bus of the last slot claiming it; leaves every channel the
/// show neither controls nor claims untouched; labels every bus from its
/// slot; and touches no pan.
pub proof fn lemma_plan_realizes_assignment(
    st: WingMixState,
    plan: Seq<WingAction>,
    slots: Seq<SingleDcaAssignment>,
    config: MixConfig,
)
    requires
        slots.len() == 16,
        dca_plan_post(plan, slots, config),
    ensures
        forall|ch: WingChannelId|
            config.is_controlled(ch) && !claimed_by_any(slots, config, ch)
                ==> (#[trigger] run_actions(st, plan).muted.contains_key(ch)) && run_actions(
                st,
                plan,
            ).muted[ch] == true && run_actions(st, plan).dcas.contains_key(ch) && run_actions(
                st,
                plan,
            ).dcas[ch] == Seq::<WingDcaId>::empty(),
        forall|ch: WingChannelId| #![trigger last_claiming_slot(slots, config, ch)]
            match last_claiming_slot(slots, config, ch) {
                Some(i) => run_actions(st, plan).muted.contains_key(ch) && run_actions(
                    st,
                    plan,
                ).muted[ch] == false && run_actions(st, plan).dcas.contains_key(ch)
                    && run_actions(st, plan).dcas[ch].len() == 1 && run_actions(
                    st,
                    plan,
                ).dcas[ch][0].id_spec() == i + 1,
                None => true,
            },
        forall|ch: WingChannelId|
            !config.is_controlled(ch) && !claimed_by_any(slots, config, ch) ==> (
            #[trigger] run_actions(st, plan).muted.contains_key(ch)) == st.muted.contains_key(ch)
                && (st.muted.contains_key(ch) ==> run_actions(st, plan).muted[ch] == st.muted[ch])
                && run_actions(st, plan).dcas.contains_key(ch) == st.dcas.contains_key(ch) && (
            st.dcas.contains_key(ch) ==> run_actions(st, plan).dcas[ch] == st.dcas[ch]),
        forall|ch: WingChannelId|
            (#[trigger] run_actions(st, plan).pans.contains_key(ch)) == st.pans.contains_key(ch)
                && (st.pans.contains_key(ch) ==> run_actions(st, plan).pans[ch] == st.pans[ch]),
        buses_labeled(run_actions(st, plan), slots, config),
{
    assert(slots.take(16) =~= slots);
    assert forall|ch: WingChannelId|
        config.is_controlled(ch) && !claimed_by_any(slots, config, ch) implies (
    #[trigger] run_actions(st, plan).muted.contains_key(ch)) && run_actions(st, plan).muted[ch]
        == true && run_actions(st, plan).dcas.contains_key(ch) && run_actions(st, plan).dcas[ch]
        == Seq::<WingDcaId>::empty() by {
        lemma_last_claiming_slot(slots, config, ch);
        lemma_run_mute(st, plan, ch);
        lemma_run_dcas(st, plan, ch);
    }
    assert forall|ch: WingChannelId| #![trigger last_claiming_slot(slots, config, ch)]
        match last_claiming_slot(slots, config, ch) {
            Some(i) => run_actions(st, plan).muted.contains_key(ch) && run_actions(
                st,
                plan,
            ).muted[ch] == false && run_actions(st, plan).dcas.contains_key(ch) && run_actions(
                st,
                plan,
            ).dcas[ch].len() == 1 && run_actions(st, plan).dcas[ch][0].id_spec() == i + 1,
            None => true,
        } by {
        lemma_last_claiming_slot(slots, config, ch);
        lemma_run_mute(st, plan, ch);
        lemma_run_dcas(st, plan, ch);
    }
    assert forall|ch: WingChannelId|
        !config.is_controlled(ch) && !claimed_by_any(slots, config, ch) implies (
    #[trigger] run_actions(st, plan).muted.contains_key(ch)) == st.muted.contains_key(ch) && (
    st.muted.contains_key(ch) ==> run_actions(st, plan).muted[ch] == st.muted[ch]) && run_actions(
        st,
        plan,
    ).dcas.contains_key(ch) == st.dcas.contains_key(ch) && (st.dcas.contains_key(ch)
        ==> run_actions(st, plan).dcas[ch] == st.dcas[ch]) by {
        lemma_last_claiming_slot(slots, config, ch);
        lemma_run_mute(st, plan, ch);
        lemma_run_dcas(st, plan, ch);
    }
    assert forall|ch: WingChannelId|
        (#[trigger] run_actions(st, plan).pans.contains_key(ch)) == st.pans.contains_key(ch) && (
    st.pans.contains_key(ch) ==> run_actions(st, plan).pans[ch] == st.pans[ch]) by {
        lemma_run_pan(st, plan, ch);
    }
    assert forall|d: WingDcaId|
        1 <= d.id_spec() <= 16 implies (#[trigger] run_actions(st, plan).dca_names.contains_key(d))
        && run_actions(st, plan).dca_names[d] == bake_name_spec(slots[d.id_spec() - 1], config)
        && run_actions(st, plan).dca_colors.contains_key(d) && run_actions(st, plan).dca_colors[d]
        == effective_color_spec(slots[d.id_spec() - 1], config) by {
        lemma_run_dca_name(st, plan, d);
        lemma_run_dca_color(st, plan, d);
    }
}

impl Default for DcaAssignment {
    /// An assignment with every slot empty.
    fn default() -> (r: Self)
        ensures
            r.wf(),
            forall|i: int| 0 <= i < 16 ==> r.slots()[i] == SingleDcaAssignment::Unassigned,
    {
        DcaAssignment::new()
    }
}

} // verus!
