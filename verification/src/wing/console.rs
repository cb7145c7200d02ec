//! Correlation of response frames with pending read requests.
//!
//! One physical connection carries every conversation with the console. The
//! surrounding application's polling task owns the connection: it registers
//! each submitted read request here, keyed by numeric node address, and on
//! every incoming data frame asks this table which waiters the frame
//! resolves. All waiters registered for an address are resolved together by
//! the single frame for that address; a frame with no registered waiter
//! resolves nobody. Waiters are held as opaque tokens: the application maps
//! each token to the completion handle it hands the caller.

use vstd::prelude::*;

verus! {

/// The waiter queue an association list holds for an address: the queue of
/// the first entry with that key, or the empty queue if no entry has it.
pub open spec fn lookup_waiters(s: Seq<(i32, Seq<u64>)>, id: i32) -> Seq<u64>
    decreases s.len(),
{
    if s.len() == 0 {
        Seq::empty()
    } else if s[0].0 == id {
        s[0].1
    } else {
        lookup_waiters(s.drop_first(), id)
    }
}

/// A table of pending requests keyed by node address; the value of a key is
/// the queue of waiting completions, in registration order.
pub struct CorrelationTable {
    entries: Vec<(i32, Vec<u64>)>,
}

impl CorrelationTable {
    /// The table's entries, each a key with its waiter queue.
    pub closed spec fn entries_seq(&self) -> Seq<(i32, Seq<u64>)> {
        Seq::new(self.entries@.len(), |i: int| (self.entries@[i].0, self.entries@[i].1@))
    }

    /// The waiters registered for an address, in registration order.
    pub open spec fn waiters(&self, id: i32) -> Seq<u64> {
        lookup_waiters(self.entries_seq(), id)
    }

    /// Each address has at most one entry.
    pub open spec fn wf(&self) -> bool {
        forall|p: int, q: int|
            0 <= p < q < self.entries_seq().len() ==> (#[trigger] self.entries_seq()[p]).0 != (
            #[trigger] self.entries_seq()[q]).0
    }

    /// An empty table: no waiter is registered for any address.
    pub fn new() -> (r: Self)
        ensures
            r.wf(),
            forall|id: i32| r.waiters(id) == Seq::<u64>::empty(),
    {
        let r = CorrelationTable { entries: Vec::new() };
        proof {
            assert forall|id: i32| r.waiters(id) == Seq::<u64>::empty() by {
                assert(r.entries_seq().len() == 0);
            }
        }
        r
    }

    /// Appends a waiter to the queue for an address, creating the entry if
    /// the address has none. No other address's queue changes.
    pub fn register(&mut self, id: i32, tok: u64)
        requires
            old(self).wf(),
        ensures
            final(self).wf(),
            final(self).waiters(id) == old(self).waiters(id).push(tok),
            forall|o: i32| o != id ==> final(self).waiters(o) == old(self).waiters(o),
    {
        let ghost es = self.entries_seq();
        let mut i: usize = 0;
        while i < self.entries.len()
            invariant
                i <= self.entries@.len(),
                self == old(self),
                es == self.entries_seq(),
                old(self).wf(),
                forall|j: int| 0 <= j < i ==> (#[trigger] es[j]).0 != id,
            decreases self.entries@.len() - i,
        {
            if self.entries[i].0 == id {
                let mut entry = self.entries.remove(i);
                entry.1.push(tok);
                self.entries.insert(i, entry);
                proof {
                    let pre = es.take(i as int);
                    let post = es.skip(i + 1);
                    let e_old = es[i as int];
                    let e_new = (e_old.0, e_old.1.push(tok));
                    assert(es =~= pre + seq![e_old] + post);
                    assert(self.entries_seq() =~= pre + seq![e_new] + post);
                    lemma_lookup_mid(pre, e_old, post, id);
                    lemma_lookup_mid(pre, e_new, post, id);
                    assert forall|o: i32| o != id implies final(self).waiters(o) == old(
                        self,
                    ).waiters(o) by {
                        lemma_lookup_replace(pre, e_old, e_new, post, o);
                    }
                    assert forall|p: int, q: int|
                        0 <= p < q < self.entries_seq().len() implies (
                    #[trigger] self.entries_seq()[p]).0 != (#[trigger] self.entries_seq()[q]).0 by {
                        assert(self.entries_seq()[p].0 == es[p].0);
                        assert(self.entries_seq()[q].0 == es[q].0);
                        assert(old(self).entries_seq() == es);
                        assert((old(self).entries_seq()[p]).0 != (old(self).entries_seq()[q]).0);
                    }
                }
                return ;
            }
            i += 1;
        }
        let mut waiters: Vec<u64> = Vec::new();
        waiters.push(tok);
        self.entries.push((id, waiters));
        proof {
            let e_new = (id, seq![tok]);
            assert(self.entries_seq() =~= es + seq![e_new] + Seq::empty());
            lemma_lookup_none(es, id);
            lemma_lookup_mid(es, e_new, Seq::empty(), id);
            assert(final(self).waiters(id) =~= old(self).waiters(id).push(tok));
            assert forall|o: i32| o != id implies final(self).waiters(o) == old(self).waiters(
                o,
            ) by {
                lemma_lookup_drop(es, e_new, Seq::empty(), o);
                assert(es + Seq::empty() =~= es);
            }
            assert forall|p: int, q: int|
                0 <= p < q < self.entries_seq().len() implies (
            #[trigger] self.entries_seq()[p]).0 != (#[trigger] self.entries_seq()[q]).0 by {
                if q < es.len() {
                    assert(self.entries_seq()[p].0 == es[p].0);
                    assert(self.entries_seq()[q].0 == es[q].0);
                } else {
                    assert(self.entries_seq()[p].0 == es[p].0);
                    assert(self.entries_seq()[q].0 == id);
                }
            }
        }
    }

    /// Removes and returns every waiter registered for an address: the whole
    /// queue leaves the table and nothing else changes.
    pub fn take(&mut self, id: i32) -> (r: Vec<u64>)
        requires
            old(self).wf(),
        ensures
            final(self).wf(),
            r@ == old(self).waiters(id),
            final(self).waiters(id) == Seq::<u64>::empty(),
            forall|o: i32| o != id ==> final(self).waiters(o) == old(self).waiters(o),
    {
        let ghost es = self.entries_seq();
        let mut i: usize = 0;
        while i < self.entries.len()
            invariant
                i <= self.entries@.len(),
                self == old(self),
                es == self.entries_seq(),
                old(self).wf(),
                forall|j: int| 0 <= j < i ==> (#[trigger] es[j]).0 != id,
            decreases self.entries@.len() - i,
        {
            if self.entries[i].0 == id {
                let entry = self.entries.remove(i);
                proof {
                    let pre = es.take(i as int);
                    let post = es.skip(i + 1);
                    let e = es[i as int];
                    assert(es =~= pre + seq![e] + post);
                    assert(self.entries_seq() =~= pre + post);
                    lemma_lookup_mid(pre, e, post, id);
                    assert forall|k: int| 0 <= k < (pre + post).len() implies (#[trigger] (pre
                        + post)[k]).0 != id by {
                        if k < pre.len() {
                            assert((pre + post)[k] == es[k]);
                        } else {
                            assert((pre + post)[k] == es[k + 1]);
                            assert(es[i as int].0 == id);
                        }
                    }
                    lemma_lookup_none(pre + post, id);
                    assert forall|o: i32| o != id implies final(self).waiters(o) == old(
                        self,
                    ).waiters(o) by {
                        lemma_lookup_drop(pre, e, post, o);
                    }
                    assert forall|p: int, q: int|
                        0 <= p < q < self.entries_seq().len() implies (
                    #[trigger] self.entries_seq()[p]).0 != (#[trigger] self.entries_seq()[q]).0 by {
                        let sp: int = if p < i { p } else { p + 1 };
                        let sq: int = if q < i { q } else { q + 1 };
                        assert(self.entries_seq()[p].0 == es[sp].0);
                        assert(self.entries_seq()[q].0 == es[sq].0);
                    }
                }
                return entry.1;
            }
            i += 1;
        }
        proof {
            lemma_lookup_none(es, id);
        }
        Vec::new()
    }
}

proof fn lemma_lookup_none(s: Seq<(i32, Seq<u64>)>, id: i32)
    requires
        forall|k: int| 0 <= k < s.len() ==> (#[trigger] s[k]).0 != id,
    ensures
        lookup_waiters(s, id) == Seq::<u64>::empty(),
    decreases s.len(),
{
    if s.len() > 0 {
        assert(forall|k: int|
            0 <= k < s.drop_first().len() ==> (#[trigger] s.drop_first()[k]) == s[k + 1]);
        lemma_lookup_none(s.drop_first(), id);
    }
}

proof fn lemma_lookup_mid(
    pre: Seq<(i32, Seq<u64>)>,
    e: (i32, Seq<u64>),
    post: Seq<(i32, Seq<u64>)>,
    id: i32,
)
    requires
        forall|k: int| 0 <= k < pre.len() ==> (#[trigger] pre[k]).0 != id,
    ensures
        lookup_waiters(pre + seq![e] + post, id) == if e.0 == id {
            e.1
        } else {
            lookup_waiters(post, id)
        },
    decreases pre.len(),
{
    let s = pre + seq![e] + post;
    if pre.len() == 0 {
        assert(s[0] == e);
        if e.0 != id {
            assert(s.drop_first() =~= post);
        }
    } else {
        assert(s[0] == pre[0]);
        assert(s.drop_first() =~= pre.drop_first() + seq![e] + post);
        assert(forall|k: int|
            0 <= k < pre.drop_first().len() ==> (#[trigger] pre.drop_first()[k]) == pre[k + 1]);
        lemma_lookup_mid(pre.drop_first(), e, post, id);
    }
}

proof fn lemma_lookup_replace(
    pre: Seq<(i32, Seq<u64>)>,
    e1: (i32, Seq<u64>),
    e2: (i32, Seq<u64>),
    post: Seq<(i32, Seq<u64>)>,
    o: i32,
)
    requires
        e1.0 == e2.0,
        e1.0 != o,
    ensures
        lookup_waiters(pre + seq![e1] + post, o) == lookup_waiters(pre + seq![e2] + post, o),
    decreases pre.len(),
{
    let s1 = pre + seq![e1] + post;
    let s2 = pre + seq![e2] + post;
    if pre.len() == 0 {
        assert(s1[0] == e1);
        assert(s2[0] == e2);
        assert(s1.drop_first() =~= post);
        assert(s2.drop_first() =~= post);
    } else {
        assert(s1[0] == pre[0]);
        assert(s2[0] == pre[0]);
        assert(s1.drop_first() =~= pre.drop_first() + seq![e1] + post);
        assert(s2.drop_first() =~= pre.drop_first() + seq![e2] + post);
        lemma_lookup_replace(pre.drop_first(), e1, e2, post, o);
    }
}

proof fn lemma_lookup_drop(
    pre: Seq<(i32, Seq<u64>)>,
    e: (i32, Seq<u64>),
    post: Seq<(i32, Seq<u64>)>,
    o: i32,
)
    requires
        e.0 != o,
    ensures
        lookup_waiters(pre + seq![e] + post, o) == lookup_waiters(pre + post, o),
    decreases pre.len(),
{
    let s = pre + seq![e] + post;
    let t = pre + post;
    if pre.len() == 0 {
        assert(s[0] == e);
        assert(s.drop_first() =~= post);
        assert(t =~= post);
    } else {
        assert(s[0] == pre[0]);
        assert(t[0] == pre[0]);
        assert(s.drop_first() =~= pre.drop_first() + seq![e] + post);
        assert(t.drop_first() =~= pre.drop_first() + post);
        lemma_lookup_drop(pre.drop_first(), e, post, o);
    }
}

/// One read request submitted to the polling task: the node address to read
/// and the waiter token to resolve when the data arrives.
pub enum WingRequest {
    NodeData(i32, u64),
    NodeDef(i32, u64),
}

/// The kind of one incoming frame, as the correlation layer reads it: a
/// data frame or a definition frame for a node address, or the marker the
/// device sends after answering a request burst.
pub enum WingResponseKind {
    NodeData(i32),
    NodeDef(i32),
    RequestEnd,
}

/// The pending read requests of one connection: data requests and
/// definition requests, each correlated by node address.
pub struct WingRequests {
    node_data_requests: CorrelationTable,
    node_def_requests: CorrelationTable,
}

impl WingRequests {
    /// The data-request waiters registered for an address.
    pub closed spec fn data_waiters(&self, id: i32) -> Seq<u64> {
        self.node_data_requests.waiters(id)
    }

    /// The definition-request waiters registered for an address.
    pub closed spec fn def_waiters(&self, id: i32) -> Seq<u64> {
        self.node_def_requests.waiters(id)
    }

    /// Both correlation tables are well formed.
    pub closed spec fn wf(&self) -> bool {
        self.node_data_requests.wf() && self.node_def_requests.wf()
    }

    /// Registers a waiter for the data of a node address.
    pub fn request_node_data(&mut self, node_id: i32, sender: u64)
        requires
            old(self).wf(),
        ensures
            final(self).wf(),
            final(self).data_waiters(node_id) == old(self).data_waiters(node_id).push(sender),
            forall|o: i32| o != node_id ==> final(self).data_waiters(o) == old(self).data_waiters(o),
            forall|o: i32| final(self).def_waiters(o) == old(self).def_waiters(o),
    {
        self.node_data_requests.register(node_id, sender);
    }

    /// Registers a waiter for the definition of a node address.
    pub fn request_node_def(&mut self, node_id: i32, sender: u64)
        requires
            old(self).wf(),
        ensures
            final(self).wf(),
            final(self).def_waiters(node_id) == old(self).def_waiters(node_id).push(sender),
            forall|o: i32| o != node_id ==> final(self).def_waiters(o) == old(self).def_waiters(o),
            forall|o: i32| final(self).data_waiters(o) == old(self).data_waiters(o),
    {
        self.node_def_requests.register(node_id, sender);
    }

    /// Takes delivery of one incoming frame: hands back every waiter the
    /// frame resolves, all of them together, and removes them from the
    /// table. A frame for an address nobody asked about resolves nobody,
    /// and an end-of-burst marker changes nothing.
    pub fn handle(&mut self, response: WingResponseKind) -> (resolved: Vec<u64>)
        requires
            old(self).wf(),
        ensures
            final(self).wf(),
            match response {
                WingResponseKind::NodeData(id) => {
                    &&& resolved@ == old(self).data_waiters(id)
                    &&& final(self).data_waiters(id) == Seq::<u64>::empty()
                    &&& forall|o: i32|
                        o != id ==> final(self).data_waiters(o) == old(self).data_waiters(o)
                    &&& forall|o: i32| final(self).def_waiters(o) == old(self).def_waiters(o)
                },
                WingResponseKind::NodeDef(id) => {
                    &&& resolved@ == old(self).def_waiters(id)
                    &&& final(self).def_waiters(id) == Seq::<u64>::empty()
                    &&& forall|o: i32|
                        o != id ==> final(self).def_waiters(o) == old(self).def_waiters(o)
                    &&& forall|o: i32| final(self).data_waiters(o) == old(self).data_waiters(o)
                },
                WingResponseKind::RequestEnd => {
                    &&& resolved@ == Seq::<u64>::empty()
                    &&& *final(self) == *old(self)
                },
            },
    {
        match response {
            WingResponseKind::NodeData(id) => self.node_data_requests.take(id),
            WingResponseKind::NodeDef(id) => self.node_def_requests.take(id),
            WingResponseKind::RequestEnd => Vec::new(),
        }
    }
}

impl Default for WingRequests {
    /// A table with no pending request for any address.
    fn default() -> (r: Self)
        ensures
            r.wf(),
            forall|id: i32| r.data_waiters(id) == Seq::<u64>::empty(),
            forall|id: i32| r.def_waiters(id) == Seq::<u64>::empty(),
    {
        WingRequests {
            node_data_requests: CorrelationTable::new(),
            node_def_requests: CorrelationTable::new(),
        }
    }
}

/// Waiters on one address share one frame: when two read requests for the
/// same address stand registered (the queue grew by the first waiter and
/// then by the second) and the single data frame for that address resolves
/// the whole queue, both waiters are in the resolved batch, so both receive
/// the value carried by that one frame.
pub proof fn lemma_shared_frame_resolves_both(
    before: Seq<u64>,
    after_first: Seq<u64>,
    after_second: Seq<u64>,
    resolved: Seq<u64>,
    first: u64,
    second: u64,
)
    requires
        after_first == before.push(first),
        after_second == after_first.push(second),
        resolved == after_second,
    ensures
        resolved.contains(first),
        resolved.contains(second),
{
    assert(resolved[resolved.len() - 1] == second);
    assert(resolved[resolved.len() - 2] == first);
}

} // verus!
