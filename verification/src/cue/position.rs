//! The position assignment engine.
//!
//! A cue maps actors to stored positions; every actor the configuration
//! knows gets a pan write on activation, defaulting to center for any actor
//! the cue leaves out or whose position handle no longer resolves. No diff
//! is computed: pan has no "unassigned" state that would need silencing.

use vstd::prelude::*;

use crate::clamped::{ClampedValue, HALF_UNIT};
use crate::mix::actor::{Actor, ActorId};
use crate::mix::config::MixConfig;
use crate::mix::position::{Position, PositionId};
use crate::registry::Registry;
use crate::wing::action::WingAction;
use crate::wing::channel::WingChannelId;
use crate::wing::dca::WingDcaId;
use crate::wing::state::{
    last_dca_color, last_dca_name, last_dcas, last_mute, last_pan, lemma_run_dca_color,
    lemma_run_dca_name, lemma_run_dcas, lemma_run_mute, lemma_run_pan, run_actions, WingMixState,
};

verus! {

/// A cue's mapping from actors to stored positions; actors absent from the
/// mapping take the default center pan.
pub struct PositionAssignment {
    assignment: Registry<PositionId>,
}

impl PositionAssignment {
    /// The position handle assigned to an actor, if any.
    pub closed spec fn lookup(&self, actor: ActorId) -> Option<PositionId> {
        self.assignment.lookup(actor.0)
    }

    /// Each actor has at most one entry.
    pub closed spec fn wf(&self) -> bool {
        self.assignment.wf()
    }

    /// The pan an actor receives under this assignment: the stored value of
    /// its assigned position, exactly as clamped at construction, or center
    /// if the actor is absent from the mapping or its handle does not
    /// resolve.
    pub open spec fn resolved_pan_value(&self, config: MixConfig, actor: ActorId) -> u32 {
        match self.lookup(actor) {
            Some(pid) => match config.position_lookup(pid) {
                Some(pos) => pos.pan_spec().value_spec(),
                None => HALF_UNIT,
            },
            None => HALF_UNIT,
        }
    }

    /// An empty mapping: every actor takes the default pan.
    pub fn new() -> (r: Self)
        ensures
            r.wf(),
            forall|a: ActorId| r.lookup(a) is None,
    {
        let r = PositionAssignment { assignment: Registry::new() };
        proof {
            assert forall|a: ActorId| r.lookup(a) is None by {
                assert(r.assignment.lookup(a.0) is None);
            }
        }
        r
    }

    /// Maps an actor to a position: succeeds exactly when the actor has no
    /// entry yet, and otherwise changes nothing.
    pub fn assign(&mut self, actor: ActorId, position: PositionId) -> (ok: bool)
        requires
            old(self).wf(),
        ensures
            final(self).wf(),
            ok <==> old(self).lookup(actor) is None,
            ok ==> final(self).lookup(actor) == Some(position) && (forall|o: ActorId|
                o != actor ==> final(self).lookup(o) == old(self).lookup(o)),
            !ok ==> *final(self) == *old(self),
    {
        let ok = self.assignment.restore(actor.0, position);
        proof {
            if ok {
                assert forall|o: ActorId| o != actor implies final(self).lookup(o) == old(
                    self,
                ).lookup(o) by {
                    assert(o == ActorId(o.0));
                    assert(o.0 != actor.0);
                }
            }
        }
        ok
    }

    /// The position handle assigned to an actor, if any.
    pub fn position_for(&self, actor: ActorId) -> (r: Option<PositionId>)
        ensures
            r matches Some(pid) ==> self.lookup(actor) == Some(pid),
            r is None ==> self.lookup(actor) is None,
    {
        match self.assignment.get(actor.0) {
            Some(pid) => Some(*pid),
            None => None,
        }
    }

    /// The pan an actor receives: its assigned position's stored value,
    /// handed back exactly as clamped at construction, or the center pan
    /// when the actor is absent from the mapping or its handle no longer
    /// resolves.
    pub fn resolve_pan(&self, config: &MixConfig, actor: ActorId) -> (p: ClampedValue)
        requires
            config.wf(),
        ensures
            p.value_spec() == self.resolved_pan_value(*config, actor),
            p.wf(),
    {
        match self.assignment.get(actor.0) {
            Some(pid) => match config.position(*pid) {
                Ok(pos) => pos.pan(),
                Err(_) => Position::default().pan(),
            },
            None => Position::default().pan(),
        }
    }

    /// Plans the pan writes that realize this assignment under a
    /// configuration: one write per actor the configuration knows, in actor
    /// order, each carrying the actor's resolved pan.
    pub fn apply(&self, config: &MixConfig) -> (plan: Vec<WingAction>)
        requires
            config.wf(),
        ensures
            position_plan_post(plan@, *self, *config),
    {
        let actors = config.actors();
        let mut plan: Vec<WingAction> = Vec::new();
        let mut i: usize = 0;
        while i < actors.len()
            invariant
                i <= actors@.len(),
                actors@ == config.actors_seq(),
                config.wf(),
                plan@.len() == i,
                forall|j: int|
                    0 <= j < i ==> ((#[trigger] plan@[j]) matches WingAction::SetPan(ch, pan) && ch
                        == config.actors_seq()[j].1.channel_spec() && pan.value_spec()
                        == self.resolved_pan_value(*config, ActorId(config.actors_seq()[j].0))
                        && pan.wf()),
            decreases actors@.len() - i,
        {
            let aid = ActorId(actors[i].0);
            let ch = *actors[i].1.channel();
            let pan = self.resolve_pan(config, aid);
            plan.push(WingAction::SetPan(ch, pan));
            i += 1;
        }
        plan
    }
}

impl Default for PositionAssignment {
    /// An empty mapping.
    fn default() -> (r: Self)
        ensures
            r.wf(),
            forall|a: ActorId| r.lookup(a) is None,
    {
        PositionAssignment::new()
    }
}

/// What a position plan writes: one pan write per actor the configuration
/// knows, in actor order, each carrying that actor's resolved pan.
pub open spec fn position_plan_post(
    plan: Seq<WingAction>,
    pa: PositionAssignment,
    config: MixConfig,
) -> bool {
    &&& plan.len() == config.actors_seq().len()
    &&& forall|j: int|
        0 <= j < plan.len() ==> ((#[trigger] plan[j]) matches WingAction::SetPan(ch, pan) && ch
            == config.actors_seq()[j].1.channel_spec() && pan.value_spec() == pa.resolved_pan_value(
            config,
            ActorId(config.actors_seq()[j].0),
        ) && pan.wf())
}


/// The last actor in registry order whose channel is `ch`, if any: with two
/// actors on one channel, the later one's pan write lands last.
pub open spec fn last_actor_on_channel(s: Seq<(u32, Actor)>, ch: WingChannelId) -> Option<int>
    decreases s.len(),
{
    if s.len() == 0 {
        None
    } else if s.last().1.channel_spec() == ch {
        Some(s.len() - 1)
    } else {
        last_actor_on_channel(s.drop_last(), ch)
    }
}

proof fn lemma_last_actor_bounds(s: Seq<(u32, Actor)>, ch: WingChannelId)
    ensures
        last_actor_on_channel(s, ch) matches Some(j) ==> 0 <= j < s.len() && s[
            j].1.channel_spec() == ch,
    decreases s.len(),
{
    if s.len() > 0 && s.last().1.channel_spec() != ch {
        lemma_last_actor_bounds(s.drop_last(), ch);
        match last_actor_on_channel(s.drop_last(), ch) {
            Some(j) => {
                assert(s.drop_last()[j] == s[j]);
            },
            None => {},
        }
    }
}

proof fn lemma_position_last_pan(
    plan: Seq<WingAction>,
    s: Seq<(u32, Actor)>,
    pa: PositionAssignment,
    config: MixConfig,
    ch: WingChannelId,
)
    requires
        plan.len() == s.len(),
        forall|j: int|
            0 <= j < plan.len() ==> ((#[trigger] plan[j]) matches WingAction::SetPan(c, pan) && c
                == s[j].1.channel_spec() && pan.value_spec() == pa.resolved_pan_value(
                config,
                ActorId(s[j].0),
            ) && pan.wf()),
    ensures
        match last_actor_on_channel(s, ch) {
            Some(j) => last_pan(plan, ch) matches Some(p) && p.value_spec()
                == pa.resolved_pan_value(config, ActorId(s[j].0)) && p.wf(),
            None => last_pan(plan, ch) is None,
        },
    decreases plan.len(),
{
    if plan.len() > 0 {
        let j = plan.len() - 1;
        assert(plan[j] matches WingAction::SetPan(c, pan) && c == s[j].1.channel_spec()
            && pan.value_spec() == pa.resolved_pan_value(config, ActorId(s[j].0)) && pan.wf());
        assert(plan.last() == plan[j]);
        assert(s.last() == s[j]);
        if s.last().1.channel_spec() == ch {
            assert(last_actor_on_channel(s, ch) == Some(j));
            assert(match plan[j] {
                WingAction::SetPan(c, pan) => last_pan(plan, ch) == Some(pan),
                _ => false,
            });
        } else {
            assert(forall|k: int|
                0 <= k < plan.drop_last().len() ==> (#[trigger] plan.drop_last()[k]) == plan[k]);
            assert(forall|k: int|
                0 <= k < s.drop_last().len() ==> (#[trigger] s.drop_last()[k]) == s[k]);
            lemma_position_last_pan(plan.drop_last(), s.drop_last(), pa, config, ch);
            assert(last_pan(plan, ch) == last_pan(plan.drop_last(), ch));
            assert(last_actor_on_channel(s, ch) == last_actor_on_channel(s.drop_last(), ch));
            lemma_last_actor_bounds(s.drop_last(), ch);
            match last_actor_on_channel(s.drop_last(), ch) {
                Some(jj) => {
                    assert(s.drop_last()[jj] == s[jj]);
                },
                None => {},
            }
        }
    }
}

proof fn lemma_pans_write_only_pans(plan: Seq<WingAction>)
    requires
        forall|j: int|
            0 <= j < plan.len() ==> (#[trigger] plan[j]) matches WingAction::SetPan(c, pan),
    ensures
        forall|ch: WingChannelId| #![trigger last_mute(plan, ch)] last_mute(plan, ch) is None,
        forall|ch: WingChannelId| #![trigger last_dcas(plan, ch)] last_dcas(plan, ch) is None,
        forall|d: WingDcaId| #![trigger last_dca_name(plan, d)] last_dca_name(plan, d) is None,
        forall|d: WingDcaId| #![trigger last_dca_color(plan, d)] last_dca_color(plan, d) is None,
    decreases plan.len(),
{
    if plan.len() > 0 {
        assert(plan.last() == plan[plan.len() - 1]);
        assert(plan[plan.len() - 1] matches WingAction::SetPan(c, pan));
        assert(forall|k: int|
            0 <= k < plan.drop_last().len() ==> (#[trigger] plan.drop_last()[k]) == plan[k]);
        lemma_pans_write_only_pans(plan.drop_last());
        assert forall|ch: WingChannelId| #![trigger last_mute(plan, ch)]
            last_mute(plan, ch) is None by {
            assert(last_mute(plan, ch) == last_mute(plan.drop_last(), ch));
        }
        assert forall|ch: WingChannelId| #![trigger last_dcas(plan, ch)]
            last_dcas(plan, ch) is None by {
            assert(last_dcas(plan, ch) == last_dcas(plan.drop_last(), ch));
        }
        assert forall|d: WingDcaId| #![trigger last_dca_name(plan, d)]
            last_dca_name(plan, d) is None by {
            assert(last_dca_name(plan, d) == last_dca_name(plan.drop_last(), d));
        }
        assert forall|d: WingDcaId| #![trigger last_dca_color(plan, d)]
            last_dca_color(plan, d) is None by {
            assert(last_dca_color(plan, d) == last_dca_color(plan.drop_last(), d));
        }
    }
}

/// The position engine's guarantee, stated over the console itself: executed
/// from any starting state, a position plan leaves every channel that has an
/// actor at that actor's resolved pan — the pan of the last actor in
/// registry order when several share the channel — leaves the pan of every
/// other channel untouched, and changes no mute, membership, name or color.
pub proof fn lemma_plan_realizes_positions(
    st: WingMixState,
    plan: Seq<WingAction>,
    pa: PositionAssignment,
    config: MixConfig,
)
    requires
        position_plan_post(plan, pa, config),
    ensures
        forall|ch: WingChannelId| #![trigger last_actor_on_channel(config.actors_seq(), ch)]
            match last_actor_on_channel(config.actors_seq(), ch) {
                Some(j) => run_actions(st, plan).pans.contains_key(ch) && run_actions(
                    st,
                    plan,
                ).pans[ch].value_spec() == pa.resolved_pan_value(
                    config,
                    ActorId(config.actors_seq()[j].0),
                ),
                None => run_actions(st, plan).pans.contains_key(ch) == st.pans.contains_key(ch) && (
                st.pans.contains_key(ch) ==> run_actions(st, plan).pans[ch] == st.pans[ch]),
            },
        forall|ch: WingChannelId|
            (#[trigger] run_actions(st, plan).muted.contains_key(ch)) == st.muted.contains_key(ch)
                && (st.muted.contains_key(ch) ==> run_actions(st, plan).muted[ch] == st.muted[ch]),
        forall|ch: WingChannelId|
            (#[trigger] run_actions(st, plan).dcas.contains_key(ch)) == st.dcas.contains_key(ch)
                && (st.dcas.contains_key(ch) ==> run_actions(st, plan).dcas[ch] == st.dcas[ch]),
        forall|d: WingDcaId|
            (#[trigger] run_actions(st, plan).dca_names.contains_key(d))
                == st.dca_names.contains_key(d) && (st.dca_names.contains_key(d) ==> run_actions(
                st,
                plan,
            ).dca_names[d] == st.dca_names[d]),
        forall|d: WingDcaId|
            (#[trigger] run_actions(st, plan).dca_colors.contains_key(d))
                == st.dca_colors.contains_key(d) && (st.dca_colors.contains_key(d) ==> run_actions(
                st,
                plan,
            ).dca_colors[d] == st.dca_colors[d]),
{
    lemma_pans_write_only_pans(plan);
    assert forall|ch: WingChannelId| #![trigger last_actor_on_channel(config.actors_seq(), ch)]
        match last_actor_on_channel(config.actors_seq(), ch) {
            Some(j) => run_actions(st, plan).pans.contains_key(ch) && run_actions(
                st,
                plan,
            ).pans[ch].value_spec() == pa.resolved_pan_value(
                config,
                ActorId(config.actors_seq()[j].0),
            ),
            None => run_actions(st, plan).pans.contains_key(ch) == st.pans.contains_key(ch) && (
            st.pans.contains_key(ch) ==> run_actions(st, plan).pans[ch] == st.pans[ch]),
        } by {
        lemma_position_last_pan(plan, config.actors_seq(), pa, config, ch);
        lemma_run_pan(st, plan, ch);
    }
    assert forall|ch: WingChannelId|
        (#[trigger] run_actions(st, plan).muted.contains_key(ch)) == st.muted.contains_key(ch) && (
    st.muted.contains_key(ch) ==> run_actions(st, plan).muted[ch] == st.muted[ch]) by {
        lemma_run_mute(st, plan, ch);
    }
    assert forall|ch: WingChannelId|
        (#[trigger] run_actions(st, plan).dcas.contains_key(ch)) == st.dcas.contains_key(ch) && (
    st.dcas.contains_key(ch) ==> run_actions(st, plan).dcas[ch] == st.dcas[ch]) by {
        lemma_run_dcas(st, plan, ch);
    }
    assert forall|d: WingDcaId|
        (#[trigger] run_actions(st, plan).dca_names.contains_key(d)) == st.dca_names.contains_key(
            d,
        ) && (st.dca_names.contains_key(d) ==> run_actions(st, plan).dca_names[d]
        == st.dca_names[d]) by {
        lemma_run_dca_name(st, plan, d);
    }
    assert forall|d: WingDcaId|
        (#[trigger] run_actions(st, plan).dca_colors.contains_key(d)) == st.dca_colors.contains_key(
            d,
        ) && (st.dca_colors.contains_key(d) ==> run_actions(st, plan).dca_colors[d]
        == st.dca_colors[d]) by {
        lemma_run_dca_color(st, plan, d);
    }
}

} // verus!
