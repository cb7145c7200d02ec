//! The show: its configuration and cue list, the live activation state, and
//! cue activation itself.
//!
//! Activation is a decision layer: it looks a cue up, plans the device
//! writes, and advances the current-cue marker. Performing the writes — and
//! reporting a transport failure — belongs to the surrounding application,
//! which also emits the notification events declared here after each
//! mutation.

use vstd::prelude::*;
use vstd::string::*;

use crate::cue::list::{cue_at, lemma_first_index_with_id, CueList};
use crate::cue::{activation_post, cue_id_le, cue_id_lt, Cue, CueId};
use crate::decimal::dec_digits;
use crate::mix::config::MixConfig;
use crate::wing::action::WingAction;

verus! {

/// The live activation state: the cue the console currently sits on, if any
/// was activated since the show was opened.
#[derive(Copy, Clone, Debug, PartialEq, Eq, Structural)]
pub struct ShowState {
    pub current_cue_id: Option<CueId>,
}

impl ShowState {
    /// A state with no active cue.
    pub fn new() -> (r: Self)
        ensures
            r.current_cue_id is None,
    {
        ShowState { current_cue_id: None }
    }

    /// Clears the active cue, as when a new show is opened.
    pub fn reset(&mut self)
        ensures
            final(self).current_cue_id is None,
    {
        *self = ShowState { current_cue_id: None };
    }

    /// Records the cue the console now sits on.
    pub fn update_current_cue(&mut self, cue_id: Option<CueId>)
        ensures
            final(self).current_cue_id == cue_id,
    {
        self.current_cue_id = cue_id;
    }
}

impl Default for ShowState {
    /// A state with no active cue.
    fn default() -> (r: Self)
        ensures
            r.current_cue_id is None,
    {
        ShowState::new()
    }
}

/// A notification the surrounding shell consumes after the activation state
/// changes.
pub enum ShowStateEvent {
    Update(ShowState),
}

/// A whole show: the mix configuration and the ordered cue list.
pub struct Show {
    pub mix_config: MixConfig,
    pub cues: CueList,
}

impl Show {
    /// The configuration and the cue list are well formed.
    pub open spec fn wf(&self) -> bool {
        self.mix_config.wf() && self.cues.wf()
    }

    /// An empty show.
    pub fn new() -> (r: Self)
        ensures
            r.wf(),
            r.cues.cues_seq() == Seq::<Cue>::empty(),
            r.mix_config.actors_seq().len() == 0,
    {
        Show { mix_config: MixConfig::new(), cues: CueList::new() }
    }
}

impl Default for Show {
    /// An empty show.
    fn default() -> (r: Self)
        ensures
            r.wf(),
            r.cues.cues_seq() == Seq::<Cue>::empty(),
            r.mix_config.actors_seq().len() == 0,
    {
        Show::new()
    }
}

/// A notification the surrounding shell consumes after the show itself
/// changes.
pub enum ShowEvent {
    Loaded(Show),
    CueAdded((u32, Cue)),
}

/// Activates a cue by identifier: plans the device writes of the first cue
/// with that identifier and advances the current-cue marker to it. An
/// identifier absent from the list fails and leaves the activation state
/// exactly as it was.
pub fn goto_cue(state: &mut ShowState, show: &Show, cue_id: CueId) -> (r: Option<Vec<WingAction>>)
    requires
        show.wf(),
    ensures
        r is Some <==> show.cues.has_id(cue_id),
        !show.cues.has_id(cue_id) ==> *final(state) == *old(state),
        show.cues.has_id(cue_id) ==> final(state).current_cue_id == Some(cue_id),
        r matches Some(plan) ==> (cue_at(show.cues.cues_seq(), cue_id) matches Some(c)
            && activation_post(plan@, c, show.mix_config)),
{
    match show.cues.get(&cue_id) {
        Some(cue) => {
            proof {
                lemma_first_index_with_id(show.cues.cues_seq(), cue_id);
            }
            let plan = cue.activate(&show.mix_config);
            state.update_current_cue(Some(cue_id));
            Some(plan)
        },
        None => None,
    }
}

/// Adds a new cue at the end of the show, numbered one whole number above
/// the largest cue number (keeping its minor part), or 1.0 in an empty show,
/// and named after its number. Hands back the insertion index and the new
/// number.
pub fn add_cue(show: &mut Show) -> (r: (usize, CueId))
    requires
        old(show).wf(),
        old(show).cues.cues_seq().len() > 0 ==> old(show).cues.cues_seq().last().id.major
            < u32::MAX,
    ensures
        final(show).wf(),
        final(show).mix_config == old(show).mix_config,
        r.0 == old(show).cues.cues_seq().len(),
        r.1 == (if old(show).cues.cues_seq().len() == 0 {
            (CueId { major: 1, minor: 0 })
        } else {
            (CueId {
                major: (old(show).cues.cues_seq().last().id.major + 1) as u32,
                minor: old(show).cues.cues_seq().last().id.minor,
            })
        }),
        final(show).cues.cues_seq().len() == old(show).cues.cues_seq().len() + 1,
        forall|j: int|
            0 <= j < old(show).cues.cues_seq().len() ==> final(show).cues.cues_seq()[j] == old(
                show,
            ).cues.cues_seq()[j],
        final(show).cues.cues_seq().last().id == r.1,
        final(show).cues.cues_seq().last().name@ == "Cue "@ + dec_digits(r.1.major as nat) + "."@
            + dec_digits(r.1.minor as nat),
{
    let ghost cs = show.cues.cues_seq();
    let len = show.cues.iter().len();
    let id = if len == 0 {
        CueId::new(1, 0)
    } else {
        let cues = show.cues.iter();
        cues[len - 1].id.next()
    };
    let mut name = "Cue ".to_owned();
    name.append(id.display_string().as_str());
    let cue = Cue::new(id, name);
    let idx = show.cues.push(cue);
    proof {
        if idx < cs.len() {
            assert(cue_id_lt(id, cs[idx as int].id));
            assert(cue_id_le(cs[idx as int].id, cs[cs.len() - 1].id));
            assert(false);
        }
        assert(final(show).cues.cues_seq() =~= cs.push(cue));
        assert(final(show).cues.cues_seq().last() == cue);
        assert(cue.name@ =~= "Cue "@ + dec_digits(id.major as nat) + "."@ + dec_digits(
            id.minor as nat,
        ));
    }
    (idx, id)
}

} // verus!
