//! Groups: named collections of actors that share one treatment.

use vstd::prelude::*;
use vstd::string::*;

use crate::mix::actor::ActorId;
use crate::wing::color::WingColor;

verus! {

/// An opaque handle into the show's group registry; handles grow
/// monotonically and are never reused.
#[derive(Copy, Clone, Debug, Default, PartialEq, Eq, Structural, PartialOrd, Ord, Hash)]
pub struct GroupId(pub u32);

impl GroupId {
    /// The next handle after this one.
    pub fn next(&self) -> (r: Self)
        requires
            self.0 < u32::MAX,
        ensures
            r.0 == self.0 + 1,
    {
        GroupId(self.0 + 1)
    }
}

/// A strictly increasing sequence of actor handles: sorted, no duplicates.
pub open spec fn ids_sorted_unique(s: Seq<ActorId>) -> bool {
    forall|i: int, j: int| 0 <= i < j < s.len() ==> (#[trigger] s[i]).0 < (#[trigger] s[j]).0
}

/// A named collection of actors sharing one treatment, with an optional
/// color; the fields never change once the group is made.
pub struct Group {
    name: String,
    actors: Vec<ActorId>,
    color: Option<WingColor>,
}

impl Group {
    /// The display name.
    pub closed spec fn name_spec(&self) -> Seq<char> {
        self.name@
    }

    /// The member handles, in increasing order.
    pub closed spec fn actors_spec(&self) -> Seq<ActorId> {
        self.actors@
    }

    /// The display color, if one was chosen.
    pub closed spec fn color_spec(&self) -> Option<WingColor> {
        self.color
    }

    /// Whether an actor is a member.
    pub open spec fn has_actor(&self, id: ActorId) -> bool {
        self.actors_spec().contains(id)
    }

    /// The members are held sorted and without duplicates.
    pub open spec fn wf(&self) -> bool {
        ids_sorted_unique(self.actors_spec())
    }

    /// Builds a group from its members, name and color. The members become a
    /// set: duplicate handles collapse and order is forgotten.
    pub fn new(actors: Vec<ActorId>, name: String, color: Option<WingColor>) -> (r: Self)
        ensures
            r.wf(),
            r.name_spec() == name@,
            r.color_spec() == color,
            forall|id: ActorId| r.has_actor(id) <==> actors@.contains(id),
    {
        let mut members: Vec<ActorId> = Vec::new();
        let mut i: usize = 0;
        while i < actors.len()
            invariant
                i <= actors@.len(),
                ids_sorted_unique(members@),
                forall|id: ActorId| members@.contains(id) <==> actors@.take(i as int).contains(id),
            decreases actors@.len() - i,
        {
            insert_sorted(&mut members, actors[i]);
            proof {
                assert forall|id: ActorId|
                    members@.contains(id) <==> actors@.take(i + 1).contains(id) by {
                    lemma_ids_contains_push(actors@.take(i as int), actors@[i as int], id);
                    assert(actors@.take(i + 1) =~= actors@.take(i as int).push(actors@[i as int]));
                }
            }
            i += 1;
        }
        proof {
            assert(actors@.take(actors@.len() as int) =~= actors@);
        }
        Group { name, actors: members, color }
    }

    /// The display name.
    pub fn name(&self) -> (r: &str)
        ensures
            r@ == self.name_spec(),
    {
        self.name.as_str()
    }

    /// The member handles, in increasing order.
    pub fn actors(&self) -> (r: &Vec<ActorId>)
        ensures
            r@ == self.actors_spec(),
    {
        &self.actors
    }

    /// The display color, if one was chosen.
    pub fn color(&self) -> (r: Option<WingColor>)
        ensures
            r == self.color_spec(),
    {
        self.color
    }

    /// A group with the same fields.
    pub fn duplicate(&self) -> (r: Self)
        ensures
            r.name_spec() == self.name_spec(),
            r.actors_spec() == self.actors_spec(),
            r.color_spec() == self.color_spec(),
    {
        let mut ids: Vec<ActorId> = Vec::new();
        proof {
            assert(ids@ =~= self.actors@.take(0));
        }
        let mut i: usize = 0;
        while i < self.actors.len()
            invariant
                i <= self.actors@.len(),
                ids@ == self.actors@.take(i as int),
            decreases self.actors@.len() - i,
        {
            ids.push(self.actors[i]);
            proof {
                assert(ids@ =~= self.actors@.take(i + 1));
            }
            i += 1;
        }
        proof {
            assert(self.actors@.take(self.actors@.len() as int) =~= self.actors@);
        }
        Group { name: self.name.clone(), actors: ids, color: self.color }
    }
}

proof fn lemma_ids_contains_push(v: Seq<ActorId>, x: ActorId, t: ActorId)
    ensures
        v.push(x).contains(t) <==> (v.contains(t) || t == x),
{
    if v.push(x).contains(t) {
        let k = choose|k: int| 0 <= k < v.push(x).len() && v.push(x)[k] == t;
        if k < v.len() {
            assert(v[k] == t);
        }
    }
    if v.contains(t) {
        let k = choose|k: int| 0 <= k < v.len() && v[k] == t;
        assert(v.push(x)[k] == t);
    }
    if t == x {
        assert(v.push(x)[v.len() as int] == t);
    }
}

fn insert_sorted(v: &mut Vec<ActorId>, x: ActorId)
    requires
        ids_sorted_unique(old(v)@),
    ensures
        ids_sorted_unique(final(v)@),
        forall|t: ActorId| final(v)@.contains(t) <==> (old(v)@.contains(t) || t == x),
{
    let ghost vs = v@;
    let mut i: usize = 0;
    while i < v.len()
        invariant
            i <= vs.len(),
            vs == v@,
            vs == old(v)@,
            ids_sorted_unique(vs),
            forall|j: int| 0 <= j < i ==> (#[trigger] vs[j]).0 < x.0,
        decreases vs.len() - i,
    {
        if v[i].0 == x.0 {
            proof {
                assert(vs[i as int] == x);
                assert(vs.contains(x));
            }
            return ;
        }
        if v[i].0 > x.0 {
            v.insert(i, x);
            proof {
                assert(v@ =~= vs.take(i as int) + seq![x] + vs.skip(i as int));
                lemma_ids_insert_mid(vs, i as int, x);
            }
            return ;
        }
        i += 1;
    }
    v.push(x);
    proof {
        assert forall|t: ActorId| v@.contains(t) <==> (vs.contains(t) || t == x) by {
            lemma_ids_contains_push(vs, x, t);
        }
        assert forall|p: int, q: int|
            0 <= p < q < v@.len() implies (#[trigger] v@[p]).0 < (#[trigger] v@[q]).0 by {
            if q < vs.len() {
                assert(v@[p] == vs[p] && v@[q] == vs[q]);
            } else {
                assert(v@[p] == vs[p]);
                assert(v@[q] == x);
            }
        }
    }
}

proof fn lemma_ids_insert_mid(v: Seq<ActorId>, i: int, x: ActorId)
    requires
        0 <= i <= v.len(),
        ids_sorted_unique(v),
        forall|j: int| 0 <= j < i ==> (#[trigger] v[j]).0 < x.0,
        i < v.len() ==> v[i].0 > x.0,
    ensures
        ids_sorted_unique(v.take(i) + seq![x] + v.skip(i)),
        forall|t: ActorId| (v.take(i) + seq![x] + v.skip(i)).contains(t) <==> (v.contains(t) || t
            == x),
{
    let w = v.take(i) + seq![x] + v.skip(i);
    assert forall|p: int, q: int|
        0 <= p < q < w.len() implies (#[trigger] w[p]).0 < (#[trigger] w[q]).0 by {
        let wp = if p < i {
            v[p]
        } else if p == i {
            x
        } else {
            v[p - 1]
        };
        let wq = if q < i {
            v[q]
        } else if q == i {
            x
        } else {
            v[q - 1]
        };
        assert(w[p] == wp);
        assert(w[q] == wq);
    }
    assert forall|t: ActorId| w.contains(t) <==> (v.contains(t) || t == x) by {
        if w.contains(t) {
            let k = choose|k: int| 0 <= k < w.len() && w[k] == t;
            if k < i {
                assert(v[k] == t);
            } else if k > i {
                assert(v[k - 1] == t);
            }
        }
        if v.contains(t) {
            let k = choose|k: int| 0 <= k < v.len() && v[k] == t;
            if k < i {
                assert(w[k] == t);
            } else {
                assert(w[k + 1] == t);
            }
        }
        if t == x {
            assert(w[i] == t);
        }
    }
}

/// A notification the surrounding shell consumes after the group registry
/// changes.
pub enum GroupEvent {
    Added(GroupId, Group),
    Removed(GroupId),
}

} // verus!
