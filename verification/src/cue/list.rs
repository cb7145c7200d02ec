//! The ordered cue list: cues sorted by identifier, kept sorted by
//! insertion rather than by a separate sort pass.

use vstd::prelude::*;

use crate::cue::{cue_id_le, cue_id_lt, Cue, CueId};

verus! {

/// A sequence of cues ordered by identifier, non-strictly: duplicate
/// identifiers may sit side by side.
pub open spec fn sorted_by_id(s: Seq<Cue>) -> bool {
    forall|i: int, j: int| 0 <= i < j < s.len() ==> cue_id_le(#[trigger] s[i].id, #[trigger] s[j].id)
}

/// The first index holding a cue with the identifier, or a negative value
/// if none does.
pub open spec fn first_index_with_id(s: Seq<Cue>, id: CueId) -> int
    decreases s.len(),
{
    if s.len() == 0 {
        -1
    } else if s[0].id == id {
        0
    } else if first_index_with_id(s.drop_first(), id) < 0 {
        -1
    } else {
        first_index_with_id(s.drop_first(), id) + 1
    }
}

/// The first cue with the identifier, if any: with duplicate identifiers
/// the first match wins.
pub open spec fn cue_at(s: Seq<Cue>, id: CueId) -> Option<Cue> {
    if first_index_with_id(s, id) < 0 {
        None
    } else {
        Some(s[first_index_with_id(s, id)])
    }
}

/// A first index below zero means no cue holds the identifier; otherwise it
/// is in range, holds the identifier, and nothing before it does.
pub proof fn lemma_first_index_with_id(s: Seq<Cue>, id: CueId)
    ensures
        first_index_with_id(s, id) < 0 ==> forall|j: int| 0 <= j < s.len() ==> s[j].id != id,
        first_index_with_id(s, id) >= 0 ==> 0 <= first_index_with_id(s, id) < s.len() && s[
            first_index_with_id(s, id)].id == id && (forall|j: int|
            0 <= j < first_index_with_id(s, id) ==> s[j].id != id),
    decreases s.len(),
{
    if s.len() > 0 && s[0].id != id {
        lemma_first_index_with_id(s.drop_first(), id);
        assert(forall|j: int|
            0 <= j < s.drop_first().len() ==> (#[trigger] s.drop_first()[j]) == s[j + 1]);
        if first_index_with_id(s, id) < 0 {
            assert forall|j: int| 0 <= j < s.len() implies s[j].id != id by {
                if j > 0 {
                    assert(s.drop_first()[j - 1] == s[j]);
                }
            }
        } else {
            assert forall|j: int| 0 <= j < first_index_with_id(s, id) implies s[j].id != id by {
                if j > 0 {
                    assert(s.drop_first()[j - 1] == s[j]);
                }
            }
        }
    }
}

proof fn lemma_first_index_at(s: Seq<Cue>, i: int)
    requires
        0 <= i < s.len(),
        s[i].id == s[i].id,
        forall|j: int| 0 <= j < i ==> s[j].id != s[i].id,
    ensures
        first_index_with_id(s, s[i].id) == i,
    decreases i,
{
    if i > 0 {
        assert(forall|j: int|
            0 <= j < s.drop_first().len() ==> (#[trigger] s.drop_first()[j]) == s[j + 1]);
        assert(s.drop_first()[i - 1] == s[i]);
        lemma_first_index_at(s.drop_first(), i - 1);
    }
}

/// In a sorted list, cues between two equal identifiers hold that same
/// identifier: duplicates always sit adjacent.
pub proof fn lemma_equal_ids_adjacent(s: Seq<Cue>, i: int, m: int, j: int)
    requires
        sorted_by_id(s),
        0 <= i <= m <= j < s.len(),
        s[i].id == s[j].id,
    ensures
        s[m].id == s[i].id,
{
    assert(cue_id_le(s[i].id, s[m].id));
    assert(cue_id_le(s[m].id, s[j].id));
}

/// The ordered collection of a show's cues, sorted by identifier.
pub struct CueList {
    cues: Vec<Cue>,
}

impl CueList {
    /// The cues in list order.
    pub closed spec fn cues_seq(&self) -> Seq<Cue> {
        self.cues@
    }

    /// The cues stay sorted by identifier and each cue is well formed.
    pub open spec fn wf(&self) -> bool {
        sorted_by_id(self.cues_seq()) && (forall|i: int|
            0 <= i < self.cues_seq().len() ==> (#[trigger] self.cues_seq()[i]).wf())
    }

    /// Whether some cue holds the identifier.
    pub open spec fn has_id(&self, id: CueId) -> bool {
        exists|i: int| 0 <= i < self.cues_seq().len() && (#[trigger] self.cues_seq()[i]).id == id
    }

    /// An empty list.
    pub fn new() -> (r: Self)
        ensures
            r.wf(),
            r.cues_seq() == Seq::<Cue>::empty(),
    {
        let r = CueList { cues: Vec::new() };
        proof {
            assert(r.cues_seq() =~= Seq::<Cue>::empty());
        }
        r
    }

    /// Inserts a cue before the first cue whose identifier exceeds its own,
    /// or at the end: the list stays sorted without a sort pass, and a cue
    /// whose identifier is already present lands directly after the existing
    /// ones, keeping the insertion order of equal identifiers.
    pub fn push(&mut self, cue: Cue) -> (idx: usize)
        requires
            old(self).wf(),
            cue.wf(),
        ensures
            final(self).wf(),
            idx <= old(self).cues_seq().len(),
            final(self).cues_seq() == old(self).cues_seq().insert(idx as int, cue),
            forall|j: int|
                0 <= j < idx ==> cue_id_le((#[trigger] old(self).cues_seq()[j]).id, cue.id),
            idx < old(self).cues_seq().len() ==> cue_id_lt(
                cue.id,
                old(self).cues_seq()[idx as int].id,
            ),
    {
        let ghost cs = self.cues_seq();
        let mut i: usize = 0;
        while i < self.cues.len()
            invariant
                i <= cs.len(),
                cs == self.cues_seq(),
                self == old(self),
                old(self).wf(),
                cue.wf(),
                forall|j: int| 0 <= j < i ==> !cue_id_lt(cue.id, (#[trigger] cs[j]).id),
            decreases cs.len() - i,
        {
            if cue.id.lt(&self.cues[i].id) {
                self.cues.insert(i, cue);
                proof {
                    assert(self.cues_seq() =~= cs.insert(i as int, cue));
                    lemma_sorted_insert(cs, i as int, cue);
                }
                return i;
            }
            i += 1;
        }
        let ghost n = cs.len() as int;
        self.cues.push(cue);
        proof {
            assert(self.cues_seq() =~= cs.insert(n, cue));
            lemma_sorted_insert(cs, n, cue);
        }
        self.cues.len() - 1
    }

    /// The cues, in list order.
    pub fn iter(&self) -> (r: &Vec<Cue>)
        ensures
            r@ == self.cues_seq(),
    {
        &self.cues
    }

    /// Whether some cue holds the identifier.
    pub fn has(&self, cue_id: &CueId) -> (r: bool)
        ensures
            r == self.has_id(*cue_id),
    {
        let mut i: usize = 0;
        while i < self.cues.len()
            invariant
                i <= self.cues_seq().len(),
                forall|j: int| 0 <= j < i ==> (#[trigger] self.cues_seq()[j]).id != *cue_id,
            decreases self.cues_seq().len() - i,
        {
            if self.cues[i].id == *cue_id {
                proof {
                    assert(self.cues_seq()[i as int].id == *cue_id);
                }
                return true;
            }
            i += 1;
        }
        proof {
            if self.has_id(*cue_id) {
                let j = choose|j: int|
                    0 <= j < self.cues_seq().len() && (#[trigger] self.cues_seq()[j]).id == *cue_id;
                assert(false);
            }
        }
        false
    }

    /// The first cue with the identifier, if any.
    pub fn get(&self, cue_id: &CueId) -> (r: Option<&Cue>)
        ensures
            r is Some <==> self.has_id(*cue_id),
            r matches Some(c) ==> cue_at(self.cues_seq(), *cue_id) == Some(*c),
    {
        let ghost cs = self.cues_seq();
        let mut i: usize = 0;
        while i < self.cues.len()
            invariant
                i <= cs.len(),
                cs == self.cues_seq(),
                forall|j: int| 0 <= j < i ==> (#[trigger] cs[j]).id != *cue_id,
            decreases cs.len() - i,
        {
            if self.cues[i].id == *cue_id {
                proof {
                    lemma_first_index_at(cs, i as int);
                    assert(cs[i as int].id == *cue_id);
                }
                return Some(&self.cues[i]);
            }
            i += 1;
        }
        proof {
            if self.has_id(*cue_id) {
                let j = choose|j: int| 0 <= j < cs.len() && (#[trigger] cs[j]).id == *cue_id;
                assert(false);
            }
        }
        None
    }

    /// Replaces the first cue with the same identifier as the given cue;
    /// fails without changing anything if no cue holds that identifier.
    pub fn replace(&mut self, cue: Cue) -> (ok: bool)
        requires
            old(self).wf(),
            cue.wf(),
        ensures
            final(self).wf(),
            ok <==> old(self).has_id(cue.id),
            ok ==> final(self).cues_seq() == old(self).cues_seq().update(
                first_index_with_id(old(self).cues_seq(), cue.id),
                cue,
            ),
            !ok ==> *final(self) == *old(self),
    {
        let ghost cs = self.cues_seq();
        let mut i: usize = 0;
        while i < self.cues.len()
            invariant
                i <= cs.len(),
                cs == self.cues_seq(),
                self == old(self),
                old(self).wf(),
                cue.wf(),
                forall|j: int| 0 <= j < i ==> (#[trigger] cs[j]).id != cue.id,
            decreases cs.len() - i,
        {
            if self.cues[i].id == cue.id {
                self.cues.remove(i);
                self.cues.insert(i, cue);
                proof {
                    lemma_first_index_at(cs, i as int);
                    assert(self.cues_seq() =~= cs.update(i as int, cue));
                    assert(cs[i as int].id == cue.id);
                    assert forall|p: int, q: int|
                        0 <= p < q < self.cues_seq().len() implies cue_id_le(
                        (#[trigger] self.cues_seq()[p]).id,
                        (#[trigger] self.cues_seq()[q]).id,
                    ) by {
                        assert(cue_id_le(cs[p].id, cs[q].id));
                    }
                    assert(old(self).has_id(cue.id)) by {
                        assert((old(self).cues_seq()[i as int]).id == cue.id);
                    }
                }
                return true;
            }
            i += 1;
        }
        proof {
            if self.has_id(cue.id) {
                let j = choose|j: int| 0 <= j < cs.len() && (#[trigger] cs[j]).id == cue.id;
                assert(false);
            }
        }
        false
    }

    /// Removes and returns the first cue with the identifier, if any.
    pub fn remove(&mut self, cue_id: &CueId) -> (r: Option<Cue>)
        requires
            old(self).wf(),
        ensures
            final(self).wf(),
            r is Some <==> old(self).has_id(*cue_id),
            r matches Some(c) ==> cue_at(old(self).cues_seq(), *cue_id) == Some(c) && final(self).cues_seq()
                == old(self).cues_seq().remove(
                first_index_with_id(old(self).cues_seq(), *cue_id),
            ),
            r is None ==> *final(self) == *old(self),
    {
        let ghost cs = self.cues_seq();
        let mut i: usize = 0;
        while i < self.cues.len()
            invariant
                i <= cs.len(),
                cs == self.cues_seq(),
                self == old(self),
                old(self).wf(),
                forall|j: int| 0 <= j < i ==> (#[trigger] cs[j]).id != *cue_id,
            decreases cs.len() - i,
        {
            if self.cues[i].id == *cue_id {
                let c = self.cues.remove(i);
                proof {
                    lemma_first_index_at(cs, i as int);
                    assert(cs[i as int].id == *cue_id);
                    assert(self.cues_seq() =~= cs.remove(i as int));
                    assert forall|p: int, q: int|
                        0 <= p < q < self.cues_seq().len() implies cue_id_le(
                        (#[trigger] self.cues_seq()[p]).id,
                        (#[trigger] self.cues_seq()[q]).id,
                    ) by {
                        let sp: int = if p < i {
                            p
                        } else {
                            p + 1
                        };
                        let sq: int = if q < i {
                            q
                        } else {
                            q + 1
                        };
                        assert(self.cues_seq()[p] == cs[sp]);
                        assert(self.cues_seq()[q] == cs[sq]);
                        assert(cue_id_le(cs[sp].id, cs[sq].id));
                    }
                    assert forall|p: int|
                        0 <= p < self.cues_seq().len() implies (
                    #[trigger] self.cues_seq()[p]).wf() by {
                        let sp: int = if p < i {
                            p
                        } else {
                            p + 1
                        };
                        assert(self.cues_seq()[p] == cs[sp]);
                    }
                }
                return Some(c);
            }
            i += 1;
        }
        proof {
            if self.has_id(*cue_id) {
                let j = choose|j: int| 0 <= j < cs.len() && (#[trigger] cs[j]).id == *cue_id;
                assert(false);
            }
        }
        None
    }
}

impl Default for CueList {
    /// An empty list.
    fn default() -> (r: Self)
        ensures
            r.wf(),
            r.cues_seq() == Seq::<Cue>::empty(),
    {
        CueList::new()
    }
}

proof fn lemma_sorted_insert(s: Seq<Cue>, i: int, cue: Cue)
    requires
        0 <= i <= s.len(),
        sorted_by_id(s),
        forall|j: int| 0 <= j < i ==> !cue_id_lt(cue.id, (#[trigger] s[j]).id),
        i < s.len() ==> cue_id_lt(cue.id, s[i].id),
        forall|j: int| 0 <= j < s.len() ==> (#[trigger] s[j]).wf(),
        cue.wf(),
    ensures
        sorted_by_id(s.insert(i, cue)),
        forall|j: int| 0 <= j < s.insert(i, cue).len() ==> (#[trigger] s.insert(i, cue)[j]).wf(),
{
    let w = s.insert(i, cue);
    assert forall|p: int, q: int|
        0 <= p < q < w.len() implies cue_id_le((#[trigger] w[p]).id, (#[trigger] w[q]).id) by {
        let wp: Cue = if p < i {
            s[p]
        } else if p == i {
            cue
        } else {
            s[p - 1]
        };
        let wq: Cue = if q < i {
            s[q]
        } else if q == i {
            cue
        } else {
            s[q - 1]
        };
        assert(w[p] == wp);
        assert(w[q] == wq);
        if p < i && q == i {
            assert(!cue_id_lt(cue.id, s[p].id));
        } else if p == i && q > i {
            if i < s.len() {
                assert(cue_id_lt(cue.id, s[i].id));
                assert(cue_id_le(s[i].id, s[q - 1].id));
            }
        } else if p < i && q > i {
            assert(cue_id_le(s[p].id, s[q - 1].id));
        }
    }
    assert forall|j: int| 0 <= j < w.len() implies (#[trigger] w[j]).wf() by {
        if j < i {
            assert(w[j] == s[j]);
        } else if j > i {
            assert(w[j] == s[j - 1]);
        }
    }
}

} // verus!
