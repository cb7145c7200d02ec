//! Cues: addressable show states, their two-part identifiers, the sorted cue
//! list, and the assignments a cue applies on activation.

pub mod dca;
pub mod list;
pub mod position;

use vstd::prelude::*;
use vstd::string::*;

use crate::clamped::ClampedValue;
use crate::cue::dca::{
    bake_name_spec, buses_labeled, claimed_by_any, dca_plan_post, effective_color_spec,
    last_claiming_slot, lemma_plan_realizes_assignment, DcaAssignment, SingleDcaAssignment,
};
use crate::cue::position::{
    last_actor_on_channel, lemma_plan_realizes_positions, position_plan_post, PositionAssignment,
};
use crate::decimal::{dec_digits, u32_to_decimal};
use crate::mix::actor::ActorId;
use crate::mix::config::MixConfig;
use crate::wing::action::WingAction;
use crate::wing::channel::WingChannelId;
use crate::wing::dca::WingDcaId;
use crate::wing::id::WingId;
use crate::wing::state::{lemma_run_concat, run_actions, WingMixState};

verus! {

/// A hierarchical cue number, written "major.minor". The minor part lets an
/// operator slip sub-cues between whole numbers.
#[derive(Copy, Clone, Debug, PartialEq, Eq, Structural, PartialOrd, Ord, Hash)]
pub struct CueId {
    pub major: u32,
    pub minor: u32,
}

/// The strict order of cue identifiers: by major part, then by minor part.
pub open spec fn cue_id_lt(a: CueId, b: CueId) -> bool {
    a.major < b.major || (a.major == b.major && a.minor < b.minor)
}

/// The non-strict order of cue identifiers.
pub open spec fn cue_id_le(a: CueId, b: CueId) -> bool {
    cue_id_lt(a, b) || a == b
}

/// The order of cue identifiers is total: any two identifiers compare, equal
/// identifiers in both directions are the same, and the order composes.
pub proof fn lemma_cue_id_total_order()
    ensures
        forall|a: CueId, b: CueId| #[trigger] cue_id_le(a, b) || #[trigger] cue_id_le(b, a),
        forall|a: CueId, b: CueId|
            #[trigger] cue_id_le(a, b) && #[trigger] cue_id_le(b, a) ==> a == b,
        forall|a: CueId, b: CueId, c: CueId|
            #[trigger] cue_id_le(a, b) && #[trigger] cue_id_le(b, c) ==> cue_id_le(a, c),
{
}

impl CueId {
    /// An identifier from its two parts.
    pub fn new(major: u32, minor: u32) -> (r: Self)
        ensures
            r == (CueId { major, minor }),
    {
        CueId { major, minor }
    }

    /// The following whole cue number: one above this major, keeping the
    /// minor, so a run of sub-cues keeps its numbering convention.
    pub fn next(&self) -> (r: Self)
        requires
            self.major < u32::MAX,
        ensures
            r.major == self.major + 1,
            r.minor == self.minor,
    {
        CueId { major: self.major + 1, minor: self.minor }
    }

    /// Whether this identifier orders strictly before another.
    pub fn lt(&self, other: &CueId) -> (r: bool)
        ensures
            r == cue_id_lt(*self, *other),
    {
        self.major < other.major || (self.major == other.major && self.minor < other.minor)
    }

    /// The identifier as text: the major part, a dot, the minor part.
    pub fn display_string(&self) -> (r: String)
        ensures
            r@ == dec_digits(self.major as nat) + "."@ + dec_digits(self.minor as nat),
    {
        let mut s = u32_to_decimal(self.major);
        s.append(".");
        s.append(u32_to_decimal(self.minor).as_str());
        proof {
            assert(s@ =~= dec_digits(self.major as nat) + "."@ + dec_digits(self.minor as nat));
        }
        s
    }
}

/// What activating a cue plans: a DCA plan followed by a position plan, each
/// meeting its engine's contract.
pub open spec fn activation_post(plan: Seq<WingAction>, cue: Cue, config: MixConfig) -> bool {
    exists|n: int|
        0 <= n <= plan.len() && (#[trigger] dca_plan_post(plan.take(n), cue.dca.slots(), config))
            && position_plan_post(plan.skip(n), cue.position, config)
}


/// Activation's whole guarantee, stated over the console itself: a plan with
/// a cue's activation shape, run from any starting state, leaves the console
/// exactly as the cue intends. Every controlled channel no slot claims ends
/// muted with its membership cleared; every claimed channel ends unmuted on
/// the bus of the last slot claiming it; every bus carries its slot's label;
/// every channel with an actor ends at that actor's resolved pan, the last
/// actor in registry order winning a shared channel; and a channel the show
/// neither controls nor claims keeps its mute state and membership.
#[verifier::spinoff_prover]
pub proof fn lemma_activation_realizes_cue(
    st: WingMixState,
    plan: Seq<WingAction>,
    cue: Cue,
    config: MixConfig,
)
    requires
        cue.wf(),
        activation_post(plan, cue, config),
    ensures
        forall|ch: WingChannelId|
            config.is_controlled(ch) && !claimed_by_any(cue.dca.slots(), config, ch)
                ==> (#[trigger] run_actions(st, plan).muted.contains_key(ch)) && run_actions(
                st,
                plan,
            ).muted[ch] == true && run_actions(st, plan).dcas.contains_key(ch) && run_actions(
                st,
                plan,
            ).dcas[ch] == Seq::<WingDcaId>::empty(),
        forall|ch: WingChannelId| #![trigger last_claiming_slot(cue.dca.slots(), config, ch)]
            match last_claiming_slot(cue.dca.slots(), config, ch) {
                Some(i) => run_actions(st, plan).muted.contains_key(ch) && run_actions(
                    st,
                    plan,
                ).muted[ch] == false && run_actions(st, plan).dcas.contains_key(ch)
                    && run_actions(st, plan).dcas[ch].len() == 1 && run_actions(
                    st,
                    plan,
                ).dcas[ch][0].id_spec() == i + 1,
                None => true,
            },
        forall|ch: WingChannelId|
            !config.is_controlled(ch) && !claimed_by_any(cue.dca.slots(), config, ch) ==> (
            #[trigger] run_actions(st, plan).muted.contains_key(ch)) == st.muted.contains_key(ch)
                && (st.muted.contains_key(ch) ==> run_actions(st, plan).muted[ch] == st.muted[ch])
                && run_actions(st, plan).dcas.contains_key(ch) == st.dcas.contains_key(ch) && (
            st.dcas.contains_key(ch) ==> run_actions(st, plan).dcas[ch] == st.dcas[ch]),
        buses_labeled(run_actions(st, plan), cue.dca.slots(), config),
        forall|ch: WingChannelId| #![trigger last_actor_on_channel(config.actors_seq(), ch)]
            match last_actor_on_channel(config.actors_seq(), ch) {
                Some(j) => run_actions(st, plan).pans.contains_key(ch) && run_actions(
                    st,
                    plan,
                ).pans[ch].value_spec() == cue.position.resolved_pan_value(
                    config,
                    ActorId(config.actors_seq()[j].0),
                ),
                None => run_actions(st, plan).pans.contains_key(ch) == st.pans.contains_key(ch) && (
                st.pans.contains_key(ch) ==> run_actions(st, plan).pans[ch] == st.pans[ch]),
            },
{
    let n = choose|n: int|
        0 <= n <= plan.len() && (#[trigger] dca_plan_post(plan.take(n), cue.dca.slots(), config))
            && position_plan_post(plan.skip(n), cue.position, config);
    let d = plan.take(n);
    let p = plan.skip(n);
    assert(plan =~= d + p);
    lemma_run_concat(st, d, p);
    let mid = run_actions(st, d);
    assert(run_actions(st, plan) == run_actions(mid, p));
    lemma_plan_realizes_assignment(st, d, cue.dca.slots(), config);
    lemma_plan_realizes_positions(mid, p, cue.position, config);
    assert forall|dd: WingDcaId|
        1 <= dd.id_spec() <= 16 implies (#[trigger] run_actions(st, plan).dca_names.contains_key(
        dd,
    )) && run_actions(st, plan).dca_names[dd] == bake_name_spec(
        cue.dca.slots()[dd.id_spec() - 1],
        config,
    ) && run_actions(st, plan).dca_colors.contains_key(dd) && run_actions(st, plan).dca_colors[dd]
        == effective_color_spec(cue.dca.slots()[dd.id_spec() - 1], config) by {
        assert(run_actions(st, d).dca_names.contains_key(dd));
        assert(run_actions(st, d).dca_names[dd] == bake_name_spec(
            cue.dca.slots()[dd.id_spec() - 1],
            config,
        ));
        assert(run_actions(st, d).dca_colors.contains_key(dd));
        assert(run_actions(st, d).dca_colors[dd] == effective_color_spec(
            cue.dca.slots()[dd.id_spec() - 1],
            config,
        ));
        assert(run_actions(run_actions(st, d), p).dca_names.contains_key(dd) == run_actions(
            st,
            d,
        ).dca_names.contains_key(dd));
        assert(run_actions(run_actions(st, d), p).dca_names[dd] == run_actions(
            st,
            d,
        ).dca_names[dd]);
        assert(run_actions(run_actions(st, d), p).dca_colors.contains_key(dd) == run_actions(
            st,
            d,
        ).dca_colors.contains_key(dd));
        assert(run_actions(run_actions(st, d), p).dca_colors[dd] == run_actions(
            st,
            d,
        ).dca_colors[dd]);
        assert(run_actions(st, plan) == run_actions(run_actions(st, d), p));
        assert(run_actions(st, plan).dca_names.contains_key(dd));
        assert(run_actions(st, plan).dca_names[dd] == bake_name_spec(
            cue.dca.slots()[dd.id_spec() - 1],
            config,
        ));
        assert(run_actions(st, plan).dca_colors.contains_key(dd));
        assert(run_actions(st, plan).dca_colors[dd] == effective_color_spec(
            cue.dca.slots()[dd.id_spec() - 1],
            config,
        ));
    }
}

/// A named, addressable show state: on activation its DCA assignment and
/// then its position assignment are applied against the console.
pub struct Cue {
    /// The cue's number; unique within a list by convention, with the first
    /// match winning on lookup.
    pub id: CueId,
    /// The display name.
    pub name: String,
    /// The fade time in milliseconds: a placeholder kept for data
    /// compatibility, never executed — activation snaps instantly.
    pub fade_time_ms: u32,
    /// The fraction of a fade at which non-faded parameters snap; inert for
    /// the same reason as the fade time.
    pub snap: ClampedValue,
    /// The cue's DCA assignment.
    pub dca: DcaAssignment,
    /// The cue's position assignment.
    pub position: PositionAssignment,
}

impl Cue {
    /// The held assignments and fractions are well formed.
    pub open spec fn wf(&self) -> bool {
        self.dca.wf() && self.position.wf() && self.snap.wf()
    }

    /// A cue with the given number and name, zero fade, zero snap fraction,
    /// and empty assignments.
    pub fn new(id: CueId, name: String) -> (r: Self)
        ensures
            r.wf(),
            r.id == id,
            r.name@ == name@,
            r.fade_time_ms == 0,
            r.snap.value_spec() == 0,
            forall|i: int| 0 <= i < 16 ==> r.dca.slots()[i] == SingleDcaAssignment::Unassigned,
            forall|a: ActorId| r.position.lookup(a) is None,
    {
        Cue {
            id,
            name,
            fade_time_ms: 0,
            snap: ClampedValue::new(0),
            dca: DcaAssignment::new(),
            position: PositionAssignment::new(),
        }
    }

    /// The display name.
    pub fn name(&self) -> (r: &str)
        ensures
            r@ == self.name@,
    {
        self.name.as_str()
    }

    /// Activates the cue against a configuration: plans the DCA writes, then
    /// the position writes. A positive fade time is a stub: the plan still
    /// snaps instantly.
    pub fn activate(&self, config: &MixConfig) -> (plan: Vec<WingAction>)
        requires
            self.wf(),
            config.wf(),
        ensures
            activation_post(plan@, *self, *config),
    {
        self.snap(config)
    }

    fn snap(&self, config: &MixConfig) -> (plan: Vec<WingAction>)
        requires
            self.wf(),
            config.wf(),
        ensures
            activation_post(plan@, *self, *config),
    {
        let mut plan = self.dca.apply(config);
        let ghost dplan = plan@;
        let ghost n = plan@.len() as int;
        let mut tail = self.position.apply(config);
        let ghost pplan = tail@;
        plan.append(&mut tail);
        proof {
            assert(plan@.take(n) =~= dplan);
            assert(plan@.skip(n) =~= pplan);
            assert(dca_plan_post(plan@.take(n), self.dca.slots(), *config));
            assert(position_plan_post(plan@.skip(n), self.position, *config));
        }
        plan
    }
}

} // verus!
