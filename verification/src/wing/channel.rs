//! Input channels of the console: the validated channel identifier and the
//! display information a channel reports.

use itertools::Itertools;
use vstd::prelude::*;
use vstd::string::*;

use crate::decimal::{dec_digits, digit_char, u8_to_decimal};
use crate::wing::color::WingColor;
use crate::wing::dca::WingDcaId;
use crate::wing::id::WingId;

verus! {

/// A physical input channel address, in the closed range 1 to 48.
#[derive(Copy, Clone, Debug, PartialEq, Eq, Structural, PartialOrd, Ord, Hash)]
pub struct WingChannelId(u8);

impl WingId for WingChannelId {
    open spec fn min_spec() -> u8 {
        1
    }

    open spec fn max_spec() -> u8 {
        48
    }

    closed spec fn id_spec(&self) -> u8 {
        self.0
    }

    fn min_id() -> u8 {
        1
    }

    fn max_id() -> u8 {
        48
    }

    fn unchecked_new(id: u8) -> Self {
        WingChannelId(id)
    }

    fn value(&self) -> u8 {
        self.0
    }
}

/// Channel identifiers with one raw value are the same identifier.
pub proof fn lemma_channel_id_injective(a: WingChannelId, b: WingChannelId)
    requires
        a.id_spec() == b.id_spec(),
    ensures
        a == b,
{
}

/// The display name and color a channel reports.
pub struct WingChannelInfo {
    pub name: String,
    pub color: WingColor,
}

/// The views of a sequence of strings.
pub open spec fn str_views(v: Seq<String>) -> Seq<Seq<char>> {
    Seq::new(v.len(), |i: int| v[i]@)
}

/// The set of tags named by a sequence of tag texts.
pub open spec fn tag_set_of(v: Seq<Seq<char>>) -> Set<Seq<char>> {
    Set::new(|t: Seq<char>| v.contains(t))
}

/// The membership tag for a DCA bus: a `#D` prefix followed by the bus
/// number in decimal. This exact text is the device's own convention for
/// expressing DCA membership inside a channel's tag list.
pub open spec fn dca_tag_spec(n: u8) -> Seq<char> {
    "#D"@ + dec_digits(n as nat)
}

/// Whether a tag text carries the DCA membership prefix `#D`.
pub open spec fn is_dca_tag_shaped(t: Seq<char>) -> bool {
    t.len() >= 2 && t[0] == '#' && t[1] == 'D'
}

/// The set of membership tags for a sequence of DCA buses.
pub open spec fn dca_tag_set(ids: Seq<WingDcaId>) -> Set<Seq<char>> {
    Set::new(|t: Seq<char>| exists|i: int| 0 <= i < ids.len() && t == dca_tag_spec(ids[i].id_spec()))
}

/// Every DCA membership tag carries the `#D` prefix.
pub proof fn lemma_dca_tag_shaped(n: u8)
    ensures
        is_dca_tag_shaped(dca_tag_spec(n)),
{
    reveal_strlit("#D");
}

/// Distinct DCA buses have distinct membership tags.
pub proof fn lemma_dca_tag_injective(a: u8, b: u8)
    requires
        dca_tag_spec(a) == dca_tag_spec(b),
        a < 100,
        b < 100,
    ensures
        a == b,
{
    reveal_strlit("#D");
    assert(dec_digits(a as nat) =~= dca_tag_spec(a).skip(2));
    assert(dec_digits(b as nat) =~= dca_tag_spec(b).skip(2));
    lemma_two_digit_decimals_injective(a, b);
}

proof fn lemma_two_digit_decimals_injective(a: u8, b: u8)
    requires
        a < 100,
        b < 100,
        dec_digits(a as nat) == dec_digits(b as nat),
    ensures
        a == b,
{
    if a < 10 && b < 10 {
        assert(dec_digits(a as nat) == seq![digit_char(a as nat)]);
        assert(dec_digits(b as nat) == seq![digit_char(b as nat)]);
        assert(seq![digit_char(a as nat)][0] == digit_char(a as nat));
        assert(seq![digit_char(b as nat)][0] == digit_char(b as nat));
        assert(digit_char(a as nat) == digit_char(b as nat));
    } else if a >= 10 && b >= 10 {
        assert(dec_digits(a as nat) == dec_digits((a / 10) as nat).push(
            digit_char((a % 10) as nat),
        ));
        assert(dec_digits(b as nat) == dec_digits((b / 10) as nat).push(
            digit_char((b % 10) as nat),
        ));
        assert(dec_digits((a / 10) as nat) == seq![digit_char((a / 10) as nat)]);
        assert(dec_digits((b / 10) as nat) == seq![digit_char((b / 10) as nat)]);
        assert(dec_digits((a / 10) as nat).len() == 1);
        assert(dec_digits((b / 10) as nat).len() == 1);
        assert(dec_digits(a as nat)[0] == digit_char((a / 10) as nat));
        assert(dec_digits(a as nat)[1] == digit_char((a % 10) as nat));
        assert(dec_digits(b as nat)[0] == digit_char((b / 10) as nat));
        assert(dec_digits(b as nat)[1] == digit_char((b % 10) as nat));
        assert(a / 10 == b / 10 && a % 10 == b % 10);
    } else if a < 10 {
        assert(dec_digits(a as nat) == seq![digit_char(a as nat)]);
        assert(dec_digits((b / 10) as nat) == seq![digit_char((b / 10) as nat)]);
        assert(dec_digits(b as nat) == dec_digits((b / 10) as nat).push(
            digit_char((b % 10) as nat),
        ));
        assert(dec_digits(a as nat).len() != dec_digits(b as nat).len());
    } else {
        assert(dec_digits(b as nat) == seq![digit_char(b as nat)]);
        assert(dec_digits((a / 10) as nat) == seq![digit_char((a / 10) as nat)]);
        assert(dec_digits(a as nat) == dec_digits((a / 10) as nat).push(
            digit_char((a % 10) as nat),
        ));
        assert(dec_digits(a as nat).len() != dec_digits(b as nat).len());
    }
}

fn contains_tag(tags: &Vec<String>, t: &String) -> (r: bool)
    ensures
        r == str_views(tags@).contains(t@),
{
    let mut i: usize = 0;
    while i < tags.len()
        invariant
            i <= tags@.len(),
            forall|j: int| 0 <= j < i ==> str_views(tags@)[j] != t@,
        decreases tags@.len() - i,
    {
        if tags[i].eq(t) {
            assert(str_views(tags@)[i as int] == t@);
            return true;
        }
        i += 1;
    }
    false
}

fn is_dca_prefixed(tag: &String) -> (r: bool)
    ensures
        r == is_dca_tag_shaped(tag@),
{
    let s = tag.as_str();
    if s.unicode_len() < 2 {
        false
    } else {
        s.get_char(0) == '#' && s.get_char(1) == 'D'
    }
}

/// The set of short text tokens attached to one channel. The device encodes
/// a channel's DCA membership entirely through tags of the form `#D<n>`
/// inside this list; all membership operations are set operations on it.
pub struct WingChannelTagList {
    tags: Vec<String>,
}

impl WingChannelTagList {
    /// The tag texts in their held order.
    pub closed spec fn tag_seq(&self) -> Seq<Seq<char>> {
        str_views(self.tags@)
    }

    /// The tags as a set; the device attaches no meaning to their order.
    pub open spec fn tag_set(&self) -> Set<Seq<char>> {
        tag_set_of(self.tag_seq())
    }

    /// No tag text occurs twice.
    pub open spec fn wf(&self) -> bool {
        forall|i: int, j: int|
            0 <= i < j < self.tag_seq().len() ==> self.tag_seq()[i] != self.tag_seq()[j]
    }

    /// Collects tag texts into a tag list, dropping duplicates.
    pub fn new(tags: Vec<String>) -> (r: Self)
        ensures
            r.wf(),
            r.tag_set() == tag_set_of(str_views(tags@)),
    {
        let mut out: Vec<String> = Vec::new();
        let mut i: usize = 0;
        while i < tags.len()
            invariant
                i <= tags@.len(),
                forall|p: int, q: int|
                    0 <= p < q < str_views(out@).len() ==> str_views(out@)[p] != str_views(
                        out@,
                    )[q],
                forall|t: Seq<char>|
                    str_views(out@).contains(t) <==> str_views(tags@.take(i as int)).contains(t),
            decreases tags@.len() - i,
        {
            let present = contains_tag(&out, &tags[i]);
            proof {
                assert(str_views(tags@.take(i + 1)) =~= str_views(tags@.take(i as int)).push(
                    tags@[i as int]@,
                ));
            }
            if !present {
                let ghost old_out = out@;
                out.push(tags[i].clone());
                proof {
                    assert(str_views(out@) =~= str_views(old_out).push(tags@[i as int]@));
                    assert forall|t: Seq<char>|
                        str_views(out@).contains(t) <==> str_views(
                            tags@.take(i + 1),
                        ).contains(t) by {
                        lemma_contains_push(str_views(old_out), tags@[i as int]@, t);
                        lemma_contains_push(str_views(tags@.take(i as int)), tags@[i as int]@, t);
                    }
                }
            } else {
                proof {
                    assert forall|t: Seq<char>|
                        str_views(out@).contains(t) <==> str_views(
                            tags@.take(i + 1),
                        ).contains(t) by {
                        lemma_contains_push(str_views(tags@.take(i as int)), tags@[i as int]@, t);
                    }
                }
            }
            i += 1;
        }
        proof {
            assert(tags@.take(tags@.len() as int) =~= tags@);
            let r = WingChannelTagList { tags: out };
            assert(tag_set_of(str_views(out@)) =~= tag_set_of(str_views(tags@)));
        }
        WingChannelTagList { tags: out }
    }

    /// The membership tag text for a DCA bus.
    pub fn dca_tag(dca_id: WingDcaId) -> (r: String)
        ensures
            r@ == dca_tag_spec(dca_id.id_spec()),
    {
        let mut s = "#D".to_owned();
        s.append(u8_to_decimal(dca_id.to_u8()).as_str());
        s
    }

    /// Adds the channel to one DCA bus: inserts the bus's membership tag.
    pub fn add_dca(&mut self, dca_id: WingDcaId)
        requires
            old(self).wf(),
        ensures
            final(self).wf(),
            final(self).tag_set() == old(self).tag_set().insert(dca_tag_spec(dca_id.id_spec())),
    {
        let tag = Self::dca_tag(dca_id);
        let present = contains_tag(&self.tags, &tag);
        if !present {
            let ghost old_seq = self.tag_seq();
            self.tags.push(tag);
            proof {
                assert(self.tag_seq() =~= old_seq.push(dca_tag_spec(dca_id.id_spec())));
                assert forall|t: Seq<char>|
                    self.tag_set().contains(t) <==> old(self).tag_set().insert(
                        dca_tag_spec(dca_id.id_spec()),
                    ).contains(t) by {
                    lemma_contains_push(old_seq, dca_tag_spec(dca_id.id_spec()), t);
                }
                assert(self.tag_set() =~= old(self).tag_set().insert(
                    dca_tag_spec(dca_id.id_spec()),
                ));
            }
        } else {
            proof {
                assert(self.tag_set() =~= old(self).tag_set().insert(
                    dca_tag_spec(dca_id.id_spec()),
                ));
            }
        }
    }

    /// Removes the channel from one DCA bus: drops the bus's membership tag.
    pub fn remove_dca(&mut self, dca_id: WingDcaId)
        requires
            old(self).wf(),
        ensures
            final(self).wf(),
            final(self).tag_set() == old(self).tag_set().remove(dca_tag_spec(dca_id.id_spec())),
    {
        let tag = Self::dca_tag(dca_id);
        let ghost target = dca_tag_spec(dca_id.id_spec());
        let mut i: usize = 0;
        while i < self.tags.len()
            invariant
                i <= self.tags@.len(),
                self.wf(),
                self == old(self),
                forall|j: int| 0 <= j < i ==> self.tag_seq()[j] != target,
                target == dca_tag_spec(dca_id.id_spec()),
                tag@ == target,
            decreases self.tags@.len() - i,
        {
            if self.tags[i].eq(&tag) {
                let ghost old_seq = self.tag_seq();
                self.tags.remove(i);
                proof {
                    assert(self.tag_seq() =~= old_seq.take(i as int) + old_seq.skip(i + 1));
                    lemma_remove_unique(old_seq, i as int, target);
                    assert(self.tag_set() =~= old(self).tag_set().remove(target));
                }
                return ;
            }
            i += 1;
        }
        proof {
            assert(!self.tag_seq().contains(target));
            assert(self.tag_set() =~= old(self).tag_set().remove(target));
        }
    }

    /// Drops every DCA membership tag (every tag with the `#D` prefix),
    /// leaving the channel's other tags untouched.
    pub fn clear_dcas(&mut self)
        requires
            old(self).wf(),
        ensures
            final(self).wf(),
            final(self).tag_set() == old(self).tag_set().filter(
                |t: Seq<char>| !is_dca_tag_shaped(t),
            ),
    {
        let mut out: Vec<String> = Vec::new();
        let mut i: usize = 0;
        while i < self.tags.len()
            invariant
                i <= self.tags@.len(),
                self == old(self),
                self.wf(),
                forall|p: int, q: int|
                    0 <= p < q < str_views(out@).len() ==> str_views(out@)[p] != str_views(
                        out@,
                    )[q],
                forall|t: Seq<char>| #![trigger str_views(out@).contains(t)]
                    str_views(out@).contains(t) <==> (str_views(self.tags@.take(i as int)).contains(
                        t,
                    ) && !is_dca_tag_shaped(t)),
            decreases self.tags@.len() - i,
        {
            let shaped = is_dca_prefixed(&self.tags[i]);
            proof {
                assert(str_views(self.tags@.take(i + 1)) =~= str_views(
                    self.tags@.take(i as int),
                ).push(self.tags@[i as int]@));
            }
            if !shaped {
                let ghost old_out = out@;
                proof {
                    if str_views(old_out).contains(self.tags@[i as int]@) {
                        let k = choose|k: int|
                            0 <= k < str_views(self.tags@.take(i as int)).len() && str_views(
                                self.tags@.take(i as int),
                            )[k] == self.tags@[i as int]@;
                        assert(self.tag_seq()[k] == self.tag_seq()[i as int]);
                        assert(false);
                    }
                }
                out.push(self.tags[i].clone());
                proof {
                    assert(str_views(out@) =~= str_views(old_out).push(self.tags@[i as int]@));
                    assert forall|t: Seq<char>| #![trigger str_views(out@).contains(t)]
                        str_views(out@).contains(t) <==> (str_views(
                            self.tags@.take(i + 1),
                        ).contains(t) && !is_dca_tag_shaped(t)) by {
                        assert(str_views(self.tags@.take(i + 1)) =~= str_views(
                            self.tags@.take(i as int),
                        ).push(self.tags@[i as int]@));
                        assert(str_views(out@) =~= str_views(old_out).push(
                            self.tags@[i as int]@,
                        ));
                        lemma_contains_push(str_views(old_out), self.tags@[i as int]@, t);
                        lemma_contains_push(
                            str_views(self.tags@.take(i as int)),
                            self.tags@[i as int]@,
                            t,
                        );
                    }
                }
            } else {
                proof {
                    assert forall|t: Seq<char>| #![trigger str_views(out@).contains(t)]
                        str_views(out@).contains(t) <==> (str_views(
                            self.tags@.take(i + 1),
                        ).contains(t) && !is_dca_tag_shaped(t)) by {
                        assert(str_views(self.tags@.take(i + 1)) =~= str_views(
                            self.tags@.take(i as int),
                        ).push(self.tags@[i as int]@));
                        lemma_contains_push(
                            str_views(self.tags@.take(i as int)),
                            self.tags@[i as int]@,
                            t,
                        );
                        assert(str_views(self.tags@.take(i + 1)).contains(t) <==> (str_views(
                            self.tags@.take(i as int),
                        ).contains(t) || t == self.tags@[i as int]@));
                        assert(str_views(out@).contains(t) <==> (str_views(
                            self.tags@.take(i as int),
                        ).contains(t) && !is_dca_tag_shaped(t)));
                        if t == self.tags@[i as int]@ {
                            assert(is_dca_tag_shaped(t));
                        }
                    }
                }
            }
            i += 1;
        }
        proof {
            assert(self.tags@.take(self.tags@.len() as int) =~= self.tags@);
        }
        self.tags = out;
        proof {
            assert(self.tag_set() =~= old(self).tag_set().filter(
                |t: Seq<char>| !is_dca_tag_shaped(t),
            ));
        }
    }

    /// Sets the channel's DCA membership to exactly the given buses: clears
    /// every `#D`-prefixed tag, then inserts one membership tag per bus.
    pub fn set_dcas(&mut self, dcas: &Vec<WingDcaId>)
        requires
            old(self).wf(),
        ensures
            final(self).wf(),
            final(self).tag_set() == old(self).tag_set().filter(
                |t: Seq<char>| !is_dca_tag_shaped(t),
            ).union(dca_tag_set(dcas@)),
    {
        self.clear_dcas();
        let ghost cleared = self.tag_set();
        let mut i: usize = 0;
        while i < dcas.len()
            invariant
                i <= dcas@.len(),
                self.wf(),
                cleared == old(self).tag_set().filter(|t: Seq<char>| !is_dca_tag_shaped(t)),
                self.tag_set() == cleared.union(dca_tag_set(dcas@.take(i as int))),
            decreases dcas@.len() - i,
        {
            self.add_dca(dcas[i]);
            proof {
                lemma_dca_tag_set_take_step(dcas@, i as int);
                assert(self.tag_set() =~= cleared.union(dca_tag_set(dcas@.take(i + 1))));
            }
            i += 1;
        }
        proof {
            assert(dcas@.take(dcas@.len() as int) =~= dcas@);
        }
    }

    /// Hands out the tag texts, one per held tag.
    pub fn tags(self) -> (r: Vec<String>)
        ensures
            str_views(r@) == self.tag_seq(),
    {
        self.tags
    }
}

proof fn lemma_contains_push(v: Seq<Seq<char>>, x: Seq<char>, t: Seq<char>)
    ensures
        v.push(x).contains(t) <==> (v.contains(t) || t == x),
{
    if v.push(x).contains(t) {
        let k = choose|k: int| 0 <= k < v.push(x).len() && v.push(x)[k] == t;
        if k < v.len() {
            assert(v[k] == t);
        }
    }
    if v.contains(t) {
        let k = choose|k: int| 0 <= k < v.len() && v[k] == t;
        assert(v.push(x)[k] == t);
    }
    if t == x {
        assert(v.push(x)[v.len() as int] == t);
    }
}

proof fn lemma_dca_tag_set_take_step(ids: Seq<WingDcaId>, i: int)
    requires
        0 <= i < ids.len(),
    ensures
        dca_tag_set(ids.take(i + 1)) == dca_tag_set(ids.take(i)).insert(
            dca_tag_spec(ids[i].id_spec()),
        ),
{
    assert forall|t: Seq<char>|
        dca_tag_set(ids.take(i + 1)).contains(t) <==> dca_tag_set(ids.take(i)).insert(
            dca_tag_spec(ids[i].id_spec()),
        ).contains(t) by {
        if dca_tag_set(ids.take(i + 1)).contains(t) {
            let k = choose|k: int|
                0 <= k < ids.take(i + 1).len() && t == dca_tag_spec(
                    (#[trigger] ids.take(i + 1)[k]).id_spec(),
                );
            if k < i {
                assert(ids.take(i)[k] == ids.take(i + 1)[k]);
                assert(dca_tag_set(ids.take(i)).contains(t));
            } else {
                assert(ids.take(i + 1)[k] == ids[i]);
            }
        }
        if dca_tag_set(ids.take(i)).contains(t) {
            let k = choose|k: int|
                0 <= k < ids.take(i).len() && t == dca_tag_spec(
                    (#[trigger] ids.take(i)[k]).id_spec(),
                );
            assert(ids.take(i + 1)[k] == ids.take(i)[k]);
            assert(dca_tag_set(ids.take(i + 1)).contains(t));
        }
        if t == dca_tag_spec(ids[i].id_spec()) {
            assert(ids.take(i + 1)[i] == ids[i]);
            assert(dca_tag_set(ids.take(i + 1)).contains(t));
        }
    }
    assert(dca_tag_set(ids.take(i + 1)) =~= dca_tag_set(ids.take(i)).insert(
        dca_tag_spec(ids[i].id_spec()),
    ));
}

proof fn lemma_remove_unique(v: Seq<Seq<char>>, i: int, target: Seq<char>)
    requires
        0 <= i < v.len(),
        v[i] == target,
        forall|p: int, q: int| 0 <= p < q < v.len() ==> v[p] != v[q],
    ensures
        forall|t: Seq<char>|
            (v.take(i) + v.skip(i + 1)).contains(t) <==> (v.contains(t) && t != target),
        forall|p: int, q: int|
            0 <= p < q < (v.take(i) + v.skip(i + 1)).len() ==> #[trigger] (v.take(i) + v.skip(
                i + 1,
            ))[p] != #[trigger] (v.take(i) + v.skip(i + 1))[q],
{
    let w = v.take(i) + v.skip(i + 1);
    assert forall|t: Seq<char>| w.contains(t) <==> (v.contains(t) && t != target) by {
        if w.contains(t) {
            let k = choose|k: int| 0 <= k < w.len() && w[k] == t;
            if k < i {
                assert(v[k] == t);
                assert(v[k] != v[i]);
            } else {
                assert(v[k + 1] == t);
                assert(v[i] != v[k + 1]);
            }
        }
        if v.contains(t) && t != target {
            let k = choose|k: int| 0 <= k < v.len() && v[k] == t;
            if k < i {
                assert(w[k] == t);
            } else {
                assert(k > i);
                assert(w[k - 1] == t);
            }
        }
    }
}

/// The comma-joined text of a sequence of tag texts, in order.
pub open spec fn join_comma(parts: Seq<Seq<char>>) -> Seq<char>
    decreases parts.len(),
{
    if parts.len() == 0 {
        Seq::empty()
    } else if parts.len() == 1 {
        parts[0]
    } else {
        join_comma(parts.drop_last()) + ","@ + parts.last()
    }
}

/// The index of the first comma of a text, or a negative value if it has
/// none.
pub open spec fn first_comma(s: Seq<char>) -> int
    decreases s.len(),
{
    if s.len() == 0 {
        -1
    } else if s[0] == ',' {
        0
    } else if first_comma(s.drop_first()) < 0 {
        -1
    } else {
        first_comma(s.drop_first()) + 1
    }
}

/// A text split at its commas: the comma-separated pieces in order. A text
/// without commas is one piece; every comma separates two pieces, so `n`
/// commas give `n + 1` pieces, empty pieces included.
pub open spec fn split_comma(s: Seq<char>) -> Seq<Seq<char>>
    decreases s.len(),
{
    let i = first_comma(s);
    if i < 0 || i >= s.len() {
        seq![s]
    } else {
        seq![s.take(i)] + split_comma(s.skip(i + 1))
    }
}

proof fn lemma_first_comma_at(s: Seq<char>, i: int)
    requires
        0 <= i < s.len(),
        s[i] == ',',
        forall|j: int| 0 <= j < i ==> s[j] != ',',
    ensures
        first_comma(s) == i,
    decreases i,
{
    if i > 0 {
        assert(forall|j: int| 0 <= j < i - 1 ==> s.drop_first()[j] == s[j + 1]);
        assert(s.drop_first()[i - 1] == s[i]);
        lemma_first_comma_at(s.drop_first(), i - 1);
    }
}

proof fn lemma_first_comma_none(s: Seq<char>)
    requires
        forall|j: int| 0 <= j < s.len() ==> s[j] != ',',
    ensures
        first_comma(s) < 0,
    decreases s.len(),
{
    if s.len() > 0 {
        assert(forall|j: int| 0 <= j < s.drop_first().len() ==> s.drop_first()[j] == s[j + 1]);
        lemma_first_comma_none(s.drop_first());
    }
}

fn find_comma(s: &str) -> (r: Option<usize>)
    ensures
        r matches Some(i) ==> 0 <= i < s@.len() && s@[i as int] == ',' && (forall|j: int|
            0 <= j < i ==> s@[j] != ','),
        r is None ==> forall|j: int| 0 <= j < s@.len() ==> s@[j] != ',',
{
    let n = s.unicode_len();
    let mut i: usize = 0;
    while i < n
        invariant
            i <= n == s@.len(),
            forall|j: int| 0 <= j < i ==> s@[j] != ',',
        decreases n - i,
    {
        if s.get_char(i) == ',' {
            return Some(i);
        }
        i += 1;
    }
    None
}

/// Splits a raw device tag text at its commas, one piece per tag.
pub fn split_commas(s: &str) -> (r: Vec<String>)
    ensures
        str_views(r@) == split_comma(s@),
    decreases s@.len(),
{
    match find_comma(s) {
        None => {
            proof {
                lemma_first_comma_none(s@);
            }
            let mut v: Vec<String> = Vec::new();
            v.push(s.to_owned());
            proof {
                assert(str_views(v@) =~= seq![s@]);
            }
            v
        },
        Some(i) => {
            proof {
                lemma_first_comma_at(s@, i as int);
            }
            let head = s.substring_char(0, i).to_owned();
            let n = s.unicode_len();
            let tail = s.substring_char(i + 1, n);
            let mut rest = split_commas(tail);
            rest.insert(0, head);
            proof {
                assert(s@.take(i as int) =~= s@.subrange(0, i as int));
                assert(s@.skip(i + 1) =~= s@.subrange(i + 1, s@.len() as int));
                assert(str_views(rest@) =~= seq![s@.take(i as int)] + split_comma(s@.skip(i + 1)));
            }
            rest
        },
    }
}

/// Relies on itertools' `Itertools::join`: concatenates the items' display
/// texts in order, separated by the given text; a `String` item's display
/// text is the string itself.
#[verifier::external_body]
pub(crate) fn join_commas(parts: &Vec<String>) -> (r: String)
    ensures
        r@ == join_comma(str_views(parts@)),
{
    parts.iter().join(",")
}

} // verus!
