//! The meaning of a plan of console mutations.
//!
//! A plan is a sequence of [`WingAction`]s executed in order. This module
//! gives the actions a semantics over an abstract view of the console state
//! they touch, and characterizes the state after a whole plan by the last
//! action that wrote each property: a later action overrides an earlier one,
//! and a property no action wrote keeps its initial value. The engines'
//! guarantees are stated against this semantics.

use vstd::prelude::*;

use crate::clamped::ClampedValue;
use crate::wing::action::WingAction;
use crate::wing::channel::WingChannelId;
use crate::wing::color::WingColor;
use crate::wing::dca::WingDcaId;

verus! {

/// An abstract view of the console state the engines mutate: per-channel
/// mute, DCA membership and pan, and per-DCA display name and color.
pub struct WingMixState {
    pub muted: Map<WingChannelId, bool>,
    pub dcas: Map<WingChannelId, Seq<WingDcaId>>,
    pub pans: Map<WingChannelId, ClampedValue>,
    pub dca_names: Map<WingDcaId, Seq<char>>,
    pub dca_colors: Map<WingDcaId, WingColor>,
}

/// The state after one action.
pub open spec fn apply_action(st: WingMixState, a: WingAction) -> WingMixState {
    match a {
        WingAction::Mute(ch) => WingMixState { muted: st.muted.insert(ch, true), ..st },
        WingAction::Unmute(ch) => WingMixState { muted: st.muted.insert(ch, false), ..st },
        WingAction::SetDcas(ch, ids) => WingMixState { dcas: st.dcas.insert(ch, ids@), ..st },
        WingAction::SetPan(ch, p) => WingMixState { pans: st.pans.insert(ch, p), ..st },
        WingAction::SetDcaName(d, name) => WingMixState {
            dca_names: st.dca_names.insert(d, name@),
            ..st
        },
        WingAction::SetDcaColor(d, c) => WingMixState { dca_colors: st.dca_colors.insert(d, c), ..st },
    }
}

/// The state after a whole plan, executed left to right.
pub open spec fn run_actions(st: WingMixState, plan: Seq<WingAction>) -> WingMixState
    decreases plan.len(),
{
    if plan.len() == 0 {
        st
    } else {
        apply_action(run_actions(st, plan.drop_last()), plan.last())
    }
}

/// The mute value the last mute or unmute of a channel wrote, if any action
/// of the plan wrote one.
pub open spec fn last_mute(plan: Seq<WingAction>, ch: WingChannelId) -> Option<bool>
    decreases plan.len(),
{
    if plan.len() == 0 {
        None
    } else {
        match plan.last() {
            WingAction::Mute(c) => if c == ch {
                Some(true)
            } else {
                last_mute(plan.drop_last(), ch)
            },
            WingAction::Unmute(c) => if c == ch {
                Some(false)
            } else {
                last_mute(plan.drop_last(), ch)
            },
            _ => last_mute(plan.drop_last(), ch),
        }
    }
}

/// The DCA membership the last membership write of a channel set, if any.
pub open spec fn last_dcas(plan: Seq<WingAction>, ch: WingChannelId) -> Option<Seq<WingDcaId>>
    decreases plan.len(),
{
    if plan.len() == 0 {
        None
    } else {
        match plan.last() {
            WingAction::SetDcas(c, ids) => if c == ch {
                Some(ids@)
            } else {
                last_dcas(plan.drop_last(), ch)
            },
            _ => last_dcas(plan.drop_last(), ch),
        }
    }
}

/// The pan the last pan write of a channel set, if any.
pub open spec fn last_pan(plan: Seq<WingAction>, ch: WingChannelId) -> Option<ClampedValue>
    decreases plan.len(),
{
    if plan.len() == 0 {
        None
    } else {
        match plan.last() {
            WingAction::SetPan(c, p) => if c == ch {
                Some(p)
            } else {
                last_pan(plan.drop_last(), ch)
            },
            _ => last_pan(plan.drop_last(), ch),
        }
    }
}

/// The name the last name write of a DCA set, if any.
pub open spec fn last_dca_name(plan: Seq<WingAction>, d: WingDcaId) -> Option<Seq<char>>
    decreases plan.len(),
{
    if plan.len() == 0 {
        None
    } else {
        match plan.last() {
            WingAction::SetDcaName(c, name) => if c == d {
                Some(name@)
            } else {
                last_dca_name(plan.drop_last(), d)
            },
            _ => last_dca_name(plan.drop_last(), d),
        }
    }
}

/// The color the last color write of a DCA set, if any.
pub open spec fn last_dca_color(plan: Seq<WingAction>, d: WingDcaId) -> Option<WingColor>
    decreases plan.len(),
{
    if plan.len() == 0 {
        None
    } else {
        match plan.last() {
            WingAction::SetDcaColor(c, color) => if c == d {
                Some(color)
            } else {
                last_dca_color(plan.drop_last(), d)
            },
            _ => last_dca_color(plan.drop_last(), d),
        }
    }
}

/// Running a concatenated plan runs its parts in order.
pub proof fn lemma_run_concat(st: WingMixState, a: Seq<WingAction>, b: Seq<WingAction>)
    ensures
        run_actions(st, a + b) == run_actions(run_actions(st, a), b),
    decreases b.len(),
{
    if b.len() == 0 {
        assert(a + b =~= a);
    } else {
        assert((a + b).drop_last() =~= a + b.drop_last());
        assert((a + b).last() == b.last());
        lemma_run_concat(st, a, b.drop_last());
    }
}

/// A channel ends muted or unmuted as the last mute write of the plan says,
/// and keeps its initial mute state if the plan never wrote one.
pub proof fn lemma_run_mute(st: WingMixState, plan: Seq<WingAction>, ch: WingChannelId)
    ensures
        match last_mute(plan, ch) {
            Some(b) => run_actions(st, plan).muted.contains_key(ch) && run_actions(
                st,
                plan,
            ).muted[ch] == b,
            None => run_actions(st, plan).muted.contains_key(ch) == st.muted.contains_key(ch) && (
            st.muted.contains_key(ch) ==> run_actions(st, plan).muted[ch] == st.muted[ch]),
        },
    decreases plan.len(),
{
    if plan.len() > 0 {
        lemma_run_mute(st, plan.drop_last(), ch);
    }
}

/// A channel's final DCA membership is what the last membership write says,
/// and its initial membership if the plan never wrote one.
pub proof fn lemma_run_dcas(st: WingMixState, plan: Seq<WingAction>, ch: WingChannelId)
    ensures
        match last_dcas(plan, ch) {
            Some(ids) => run_actions(st, plan).dcas.contains_key(ch) && run_actions(
                st,
                plan,
            ).dcas[ch] == ids,
            None => run_actions(st, plan).dcas.contains_key(ch) == st.dcas.contains_key(ch) && (
            st.dcas.contains_key(ch) ==> run_actions(st, plan).dcas[ch] == st.dcas[ch]),
        },
    decreases plan.len(),
{
    if plan.len() > 0 {
        lemma_run_dcas(st, plan.drop_last(), ch);
    }
}

/// A channel's final pan is what the last pan write says, and its initial
/// pan if the plan never wrote one.
pub proof fn lemma_run_pan(st: WingMixState, plan: Seq<WingAction>, ch: WingChannelId)
    ensures
        match last_pan(plan, ch) {
            Some(p) => run_actions(st, plan).pans.contains_key(ch) && run_actions(
                st,
                plan,
            ).pans[ch] == p,
            None => run_actions(st, plan).pans.contains_key(ch) == st.pans.contains_key(ch) && (
            st.pans.contains_key(ch) ==> run_actions(st, plan).pans[ch] == st.pans[ch]),
        },
    decreases plan.len(),
{
    if plan.len() > 0 {
        lemma_run_pan(st, plan.drop_last(), ch);
    }
}

/// A DCA's final name is what the last name write says, and its initial name
/// if the plan never wrote one.
pub proof fn lemma_run_dca_name(st: WingMixState, plan: Seq<WingAction>, d: WingDcaId)
    ensures
        match last_dca_name(plan, d) {
            Some(name) => run_actions(st, plan).dca_names.contains_key(d) && run_actions(
                st,
                plan,
            ).dca_names[d] == name,
            None => run_actions(st, plan).dca_names.contains_key(d) == st.dca_names.contains_key(d)
                && (st.dca_names.contains_key(d) ==> run_actions(st, plan).dca_names[d]
                == st.dca_names[d]),
        },
    decreases plan.len(),
{
    if plan.len() > 0 {
        lemma_run_dca_name(st, plan.drop_last(), d);
    }
}

/// A DCA's final color is what the last color write says, and its initial
/// color if the plan never wrote one.
pub proof fn lemma_run_dca_color(st: WingMixState, plan: Seq<WingAction>, d: WingDcaId)
    ensures
        match last_dca_color(plan, d) {
            Some(c) => run_actions(st, plan).dca_colors.contains_key(d) && run_actions(
                st,
                plan,
            ).dca_colors[d] == c,
            None => run_actions(st, plan).dca_colors.contains_key(d) == st.dca_colors.contains_key(
                d,
            ) && (st.dca_colors.contains_key(d) ==> run_actions(st, plan).dca_colors[d]
                == st.dca_colors[d]),
        },
    decreases plan.len(),
{
    if plan.len() > 0 {
        lemma_run_dca_color(st, plan.drop_last(), d);
    }
}

} // verus!
