//! A keyed registry with monotonically increasing integer keys: lookups by
//! key, and inserts that allocate the next key above every key ever used.

use vstd::prelude::*;

verus! {

/// The value an association list holds for a key: the value of the first
/// entry with that key, or nothing.
pub open spec fn reg_lookup<V>(s: Seq<(u32, V)>, k: u32) -> Option<V>
    decreases s.len(),
{
    if s.len() == 0 {
        None
    } else if s[0].0 == k {
        Some(s[0].1)
    } else {
        reg_lookup(s.drop_first(), k)
    }
}

/// The largest key of an association list, or a negative value if it is
/// empty.
pub open spec fn reg_max_key<V>(s: Seq<(u32, V)>) -> int
    decreases s.len(),
{
    if s.len() == 0 {
        -1
    } else if s.last().0 as int > reg_max_key(s.drop_last()) {
        s.last().0 as int
    } else {
        reg_max_key(s.drop_last())
    }
}

pub proof fn lemma_reg_lookup_none<V>(s: Seq<(u32, V)>, k: u32)
    requires
        forall|j: int| 0 <= j < s.len() ==> (#[trigger] s[j]).0 != k,
    ensures
        reg_lookup(s, k) is None,
    decreases s.len(),
{
    if s.len() > 0 {
        assert(forall|j: int|
            0 <= j < s.drop_first().len() ==> (#[trigger] s.drop_first()[j]) == s[j + 1]);
        lemma_reg_lookup_none(s.drop_first(), k);
    }
}

pub proof fn lemma_reg_lookup_found<V>(s: Seq<(u32, V)>, i: int)
    requires
        0 <= i < s.len(),
        forall|j: int| 0 <= j < i ==> (#[trigger] s[j]).0 != s[i].0,
    ensures
        reg_lookup(s, s[i].0) == Some(s[i].1),
    decreases i,
{
    if i == 0 {
    } else {
        assert(forall|j: int|
            0 <= j < s.drop_first().len() ==> (#[trigger] s.drop_first()[j]) == s[j + 1]);
        lemma_reg_lookup_found(s.drop_first(), i - 1);
    }
}

pub proof fn lemma_reg_lookup_some_index<V>(s: Seq<(u32, V)>, k: u32)
    requires
        reg_lookup(s, k) is Some,
    ensures
        exists|j: int| 0 <= j < s.len() && #[trigger] s[j] == (k, reg_lookup(s, k)->Some_0),
    decreases s.len(),
{
    if s.len() > 0 {
        if s[0].0 == k {
            assert(s[0] == (k, reg_lookup(s, k)->Some_0));
        } else {
            lemma_reg_lookup_some_index(s.drop_first(), k);
            let j = choose|j: int|
                0 <= j < s.drop_first().len() && #[trigger] s.drop_first()[j] == (
                k,
                reg_lookup(s.drop_first(), k)->Some_0,
            );
            assert(s[j + 1] == s.drop_first()[j]);
        }
    }
}

pub proof fn lemma_reg_lookup_none_converse<V>(s: Seq<(u32, V)>, k: u32)
    requires
        reg_lookup(s, k) is None,
    ensures
        forall|j: int| 0 <= j < s.len() ==> (#[trigger] s[j]).0 != k,
    decreases s.len(),
{
    if s.len() > 0 {
        lemma_reg_lookup_none_converse(s.drop_first(), k);
        assert(forall|j: int|
            0 <= j < s.drop_first().len() ==> (#[trigger] s.drop_first()[j]) == s[j + 1]);
        assert forall|j: int| 0 <= j < s.len() implies (#[trigger] s[j]).0 != k by {
            if j > 0 {
                assert(s.drop_first()[j - 1] == s[j]);
            }
        }
    }
}

pub proof fn lemma_reg_lookup_push<V>(s: Seq<(u32, V)>, e: (u32, V), k: u32)
    requires
        e.0 != k,
    ensures
        reg_lookup(s.push(e), k) == reg_lookup(s, k),
    decreases s.len(),
{
    if s.len() == 0 {
        assert(s.push(e)[0] == e);
        assert(s.push(e).drop_first() =~= Seq::<(u32, V)>::empty());
        assert(reg_lookup(Seq::<(u32, V)>::empty(), k) is None);
        assert(reg_lookup(s.push(e), k) == reg_lookup(s.push(e).drop_first(), k));
    } else {
        assert(s.push(e)[0] == s[0]);
        assert(s.push(e).drop_first() =~= s.drop_first().push(e));
        lemma_reg_lookup_push(s.drop_first(), e, k);
        if s[0].0 == k {
            assert(reg_lookup(s.push(e), k) == Some(s[0].1));
            assert(reg_lookup(s, k) == Some(s[0].1));
        } else {
            assert(reg_lookup(s.push(e), k) == reg_lookup(s.drop_first().push(e), k));
            assert(reg_lookup(s, k) == reg_lookup(s.drop_first(), k));
        }
    }
}

/// Every key of a list is at most its largest key.
pub proof fn lemma_reg_max_key_bound<V>(s: Seq<(u32, V)>)
    ensures
        forall|j: int| 0 <= j < s.len() ==> (#[trigger] s[j]).0 <= reg_max_key(s),
    decreases s.len(),
{
    if s.len() > 0 {
        lemma_reg_max_key_bound(s.drop_last());
        assert(forall|j: int|
            0 <= j < s.drop_last().len() ==> (#[trigger] s.drop_last()[j]) == s[j]);
        assert forall|j: int| 0 <= j < s.len() implies (#[trigger] s[j]).0 <= reg_max_key(s) by {
            if j < s.len() - 1 {
                assert(s.drop_last()[j] == s[j]);
            }
        }
    }
}

/// A registry of values keyed by integer identifiers. A key, once assigned,
/// keeps its value until the registry is dropped; new keys grow strictly, so
/// no key is ever reused.
pub struct Registry<V> {
    entries: Vec<(u32, V)>,
}

impl<V> Registry<V> {
    /// The entries in insertion order.
    pub closed spec fn entries_seq(&self) -> Seq<(u32, V)> {
        self.entries@
    }

    /// The value held for a key.
    pub open spec fn lookup(&self, k: u32) -> Option<V> {
        reg_lookup(self.entries_seq(), k)
    }

    /// Each key has at most one entry.
    pub open spec fn wf(&self) -> bool {
        forall|p: int, q: int|
            0 <= p < q < self.entries_seq().len() ==> (#[trigger] self.entries_seq()[p]).0 != (
            #[trigger] self.entries_seq()[q]).0
    }

    /// An empty registry.
    pub fn new() -> (r: Self)
        ensures
            r.wf(),
            r.entries_seq() == Seq::<(u32, V)>::empty(),
            forall|k: u32| r.lookup(k) is None,
    {
        let r = Registry { entries: Vec::new() };
        proof {
            assert(r.entries_seq() =~= Seq::<(u32, V)>::empty());
        }
        r
    }

    /// The number of entries.
    pub fn len(&self) -> (r: usize)
        ensures
            r == self.entries_seq().len(),
    {
        self.entries.len()
    }

    /// The entries, in insertion order.
    pub fn entries(&self) -> (r: &Vec<(u32, V)>)
        ensures
            r@ == self.entries_seq(),
    {
        &self.entries
    }

    /// The value held for a key, if the key is in use.
    pub fn get(&self, k: u32) -> (r: Option<&V>)
        ensures
            r matches Some(v) ==> self.lookup(k) == Some(*v),
            r is None ==> self.lookup(k) is None,
    {
        let ghost es = self.entries_seq();
        let mut i: usize = 0;
        while i < self.entries.len()
            invariant
                i <= es.len(),
                es == self.entries_seq(),
                forall|j: int| 0 <= j < i ==> (#[trigger] es[j]).0 != k,
            decreases es.len() - i,
        {
            if self.entries[i].0 == k {
                proof {
                    lemma_reg_lookup_found(es, i as int);
                }
                return Some(&self.entries[i].1);
            }
            i += 1;
        }
        proof {
            lemma_reg_lookup_none(es, k);
        }
        None
    }

    /// Inserts a value under the next key: one above the largest key in use,
    /// or the zero key in an empty registry. The key is fresh — it held
    /// nothing before — and every other key keeps its value.
    pub fn insert_next(&mut self, v: V) -> (k: u32)
        requires
            old(self).wf(),
            reg_max_key(old(self).entries_seq()) < u32::MAX,
        ensures
            final(self).wf(),
            k as int == reg_max_key(old(self).entries_seq()) + 1,
            old(self).lookup(k) is None,
            final(self).lookup(k) == Some(v),
            forall|o: u32| o != k ==> final(self).lookup(o) == old(self).lookup(o),
            final(self).entries_seq() == old(self).entries_seq().push((k, v)),
    {
        let ghost es = self.entries_seq();
        let mut max: i64 = -1;
        let mut i: usize = 0;
        while i < self.entries.len()
            invariant
                i <= es.len(),
                es == self.entries_seq(),
                self == old(self),
                max == reg_max_key(es.take(i as int)),
                -1 <= max <= u32::MAX,
            decreases es.len() - i,
        {
            proof {
                assert(es.take(i + 1).drop_last() =~= es.take(i as int));
                assert(es.take(i + 1).last() == es[i as int]);
            }
            if self.entries[i].0 as i64 > max {
                max = self.entries[i].0 as i64;
            }
            i += 1;
        }
        proof {
            assert(es.take(es.len() as int) =~= es);
        }
        let k: u32 = (max + 1) as u32;
        self.entries.push((k, v));
        proof {
            assert(self.entries_seq() =~= es.push((k, v)));
            lemma_reg_max_key_bound(es);
            assert forall|j: int| 0 <= j < es.len() implies (#[trigger] es[j]).0 != k by {
                assert(es[j].0 <= reg_max_key(es));
            }
            lemma_reg_lookup_none(es, k);
            lemma_reg_lookup_found(es.push((k, v)), es.len() as int);
            assert(es.push((k, v))[es.len() as int] == (k, v));
            assert forall|o: u32| o != k implies final(self).lookup(o) == old(self).lookup(o) by {
                lemma_reg_lookup_push(es, (k, v), o);
            }
            assert forall|p: int, q: int|
                0 <= p < q < self.entries_seq().len() implies (
            #[trigger] self.entries_seq()[p]).0 != (#[trigger] self.entries_seq()[q]).0 by {
                if q < es.len() {
                    assert(es[p].0 != es[q].0);
                } else {
                    assert(self.entries_seq()[q].0 == k);
                    assert(es[p].0 <= reg_max_key(es));
                }
            }
        }
        k
    }

    /// Puts a value back under an explicit key, as when a saved registry is
    /// reloaded: succeeds exactly when the key is not yet in use, and
    /// otherwise changes nothing.
    pub fn restore(&mut self, k: u32, v: V) -> (ok: bool)
        requires
            old(self).wf(),
        ensures
            final(self).wf(),
            ok <==> old(self).lookup(k) is None,
            ok ==> final(self).lookup(k) == Some(v) && (forall|o: u32|
                o != k ==> final(self).lookup(o) == old(self).lookup(o)) && final(self).entries_seq()
                == old(self).entries_seq().push((k, v)),
            !ok ==> *final(self) == *old(self),
    {
        let ghost es = self.entries_seq();
        let taken = self.get(k).is_some();
        if taken {
            return false;
        }
        self.entries.push((k, v));
        proof {
            assert(self.entries_seq() =~= es.push((k, v)));
            lemma_reg_lookup_none_converse(es, k);
            lemma_reg_lookup_found(es.push((k, v)), es.len() as int);
            assert(es.push((k, v))[es.len() as int] == (k, v));
            assert forall|o: u32| o != k implies final(self).lookup(o) == old(self).lookup(o) by {
                lemma_reg_lookup_push(es, (k, v), o);
            }
            assert forall|p: int, q: int|
                0 <= p < q < self.entries_seq().len() implies (
            #[trigger] self.entries_seq()[p]).0 != (#[trigger] self.entries_seq()[q]).0 by {
                if q < es.len() {
                    assert(es[p].0 != es[q].0);
                } else {
                    assert(self.entries_seq()[q].0 == k);
                    assert(es[p].0 != k);
                }
            }
        }
        true
    }
}

} // verus!
