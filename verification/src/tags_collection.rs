//! A collection of tags with their counters, modelled as a map from tag name
//! to counter pair.  Supports update-or-insert of tag appearances and a
//! commutative, associative merge.

use vstd::prelude::*;

use crate::ranking::{chatty_matches, kviews, tag_rank_keys_match, top_rank_names, RankKey};
use crate::report::{tag_counts_match, TagCounts};
use crate::tag_information::{
    tag_v_merge, tag_v_new, tag_v_valid, lemma_tag_merge_associative, TagInformation, TagV,
};
use crate::text::str_eq;

verus! {

#[derive(Debug)]
struct TagEntry {
    name: String,
    info: TagInformation,
}

/// A collection of tags with their statistics; each tag name occurs once.
#[derive(Debug)]
pub struct TagsCollection {
    entries: Vec<TagEntry>,
}

spec fn entries_map(s: Seq<TagEntry>) -> Map<Seq<char>, TagV>
    decreases s.len(),
{
    if s.len() == 0 {
        Map::empty()
    } else {
        entries_map(s.drop_last()).insert(s.last().name@, s.last().info@)
    }
}

spec fn unique_names(s: Seq<TagEntry>) -> bool {
    forall|i: int, j: int| 0 <= i < j < s.len() ==> s[i].name@ != s[j].name@
}

impl View for TagsCollection {
    type V = Map<Seq<char>, TagV>;

    closed spec fn view(&self) -> Map<Seq<char>, TagV> {
        entries_map(self.entries@)
    }
}

/// The merge (join) of two tag maps: union of the keys; counters of a tag
/// present on both sides are merged pairwise.
pub open spec fn tag_map_merge(
    m1: Map<Seq<char>, TagV>,
    m2: Map<Seq<char>, TagV>,
) -> Map<Seq<char>, TagV> {
    Map::new(
        |k: Seq<char>| m1.contains_key(k) || m2.contains_key(k),
        |k: Seq<char>|
            if m1.contains_key(k) && m2.contains_key(k) {
                tag_v_merge(m1[k], m2[k])
            } else if m2.contains_key(k) {
                m2[k]
            } else {
                m1[k]
            },
    )
}

/// One appearance of tag `t` with `words` words, folded into the map:
/// update the counters if the tag is present, insert fresh ones otherwise.
pub open spec fn add_tag_map(m: Map<Seq<char>, TagV>, t: Seq<char>, words: nat) -> Map<
    Seq<char>,
    TagV,
> {
    if m.contains_key(t) {
        m.insert(t, tag_v_merge(m[t], tag_v_new(words)))
    } else {
        m.insert(t, tag_v_new(words))
    }
}

/// All tags of one question, each with `words` words, folded into the map in
/// order; a tag listed twice counts as two appearances.
pub open spec fn add_tags_map(m: Map<Seq<char>, TagV>, ts: Seq<Seq<char>>, words: nat) -> Map<
    Seq<char>,
    TagV,
>
    decreases ts.len(),
{
    if ts.len() == 0 {
        m
    } else {
        add_tag_map(add_tags_map(m, ts.drop_last(), words), ts.last(), words)
    }
}

proof fn lemma_entries_map_contains(s: Seq<TagEntry>, k: Seq<char>)
    ensures
        entries_map(s).contains_key(k) <==> (exists|i: int| 0 <= i < s.len() && s[i].name@ == k),
    decreases s.len(),
{
    if s.len() > 0 {
        lemma_entries_map_contains(s.drop_last(), k);
        if s.last().name@ == k {
            assert(s[s.len() - 1].name@ == k);
        } else {
            if exists|i: int| 0 <= i < s.len() && s[i].name@ == k {
                let i = choose|i: int| 0 <= i < s.len() && s[i].name@ == k;
                assert(s.drop_last()[i] == s[i]);
            }
        }
    }
}

proof fn lemma_entries_map_index(s: Seq<TagEntry>, i: int)
    requires
        unique_names(s),
        0 <= i < s.len(),
    ensures
        entries_map(s).contains_key(s[i].name@),
        entries_map(s)[s[i].name@] == s[i].info@,
    decreases s.len(),
{
    if i < s.len() - 1 {
        assert(unique_names(s.drop_last()));
        assert(s.drop_last()[i] == s[i]);
        lemma_entries_map_index(s.drop_last(), i);
        assert(s.last().name@ != s[i].name@);
    }
}

proof fn lemma_entries_map_dom_len(s: Seq<TagEntry>)
    requires
        unique_names(s),
    ensures
        entries_map(s).dom().finite(),
        entries_map(s).dom().len() == s.len(),
    decreases s.len(),
{
    if s.len() == 0 {
        assert(entries_map(s).dom() =~= Set::<Seq<char>>::empty());
    } else {
        assert(unique_names(s.drop_last()));
        lemma_entries_map_dom_len(s.drop_last());
        lemma_entries_map_contains(s.drop_last(), s.last().name@);
        assert(forall|j: int|
            0 <= j < s.len() - 1 ==> s.drop_last()[j].name@ != s.last().name@);
        assert(!entries_map(s.drop_last()).contains_key(s.last().name@));
    }
}

proof fn lemma_entries_map_update(s: Seq<TagEntry>, i: int, e: TagEntry)
    requires
        unique_names(s),
        0 <= i < s.len(),
        e.name@ == s[i].name@,
    ensures
        unique_names(s.update(i, e)),
        entries_map(s.update(i, e)) == entries_map(s).insert(e.name@, e.info@),
    decreases s.len(),
{
    let s2 = s.update(i, e);
    assert(unique_names(s2));
    if i == s.len() - 1 {
        assert(s2.drop_last() =~= s.drop_last());
        assert(s2.last() == e);
        assert(entries_map(s2) =~= entries_map(s).insert(e.name@, e.info@));
    } else {
        assert(unique_names(s.drop_last()));
        assert(s.drop_last()[i] == s[i]);
        lemma_entries_map_update(s.drop_last(), i, e);
        assert(s2.drop_last() =~= s.drop_last().update(i, e));
        assert(s2.last() == s.last());
        assert(s.last().name@ != e.name@);
        assert(entries_map(s2) =~= entries_map(s).insert(e.name@, e.info@));
    }
}

proof fn lemma_tag_map_merge_step(
    m1: Map<Seq<char>, TagV>,
    m2: Map<Seq<char>, TagV>,
    k: Seq<char>,
    v: TagV,
)
    requires
        !m2.contains_key(k),
    ensures
        m1.contains_key(k) ==> tag_map_merge(m1, m2.insert(k, v)) == tag_map_merge(
            m1,
            m2,
        ).insert(k, tag_v_merge(m1[k], v)),
        !m1.contains_key(k) ==> tag_map_merge(m1, m2.insert(k, v)) == tag_map_merge(
            m1,
            m2,
        ).insert(k, v),
{
    if m1.contains_key(k) {
        assert(tag_map_merge(m1, m2.insert(k, v)) =~= tag_map_merge(m1, m2).insert(
            k,
            tag_v_merge(m1[k], v),
        ));
    } else {
        assert(tag_map_merge(m1, m2.insert(k, v)) =~= tag_map_merge(m1, m2).insert(k, v));
    }
}

impl TagsCollection {
    /// True when each tag name occurs at most once; established by every
    /// constructor and preserved by every method.
    pub closed spec fn wf(&self) -> bool {
        unique_names(self.entries@)
    }

    /// Creates an empty collection: the identity element of the merge.
    pub fn new() -> (c: Self)
        ensures
            c@ == Map::<Seq<char>, TagV>::empty(),
            c.wf(),
    {
        TagsCollection { entries: Vec::new() }
    }

    /// Number of distinct tags in the collection.
    pub fn len(&self) -> (n: usize)
        requires
            self.wf(),
        ensures
            n == self@.dom().len(),
    {
        proof {
            lemma_entries_map_dom_len(self.entries@);
        }
        self.entries.len()
    }

    /// Whether the collection holds no tag at all.
    pub fn is_empty(&self) -> (r: bool)
        requires
            self.wf(),
        ensures
            r == (self@ == Map::<Seq<char>, TagV>::empty()),
    {
        let r = self.entries.len() == 0;
        proof {
            if self.entries@.len() == 0 {
                assert(self@ =~= Map::<Seq<char>, TagV>::empty());
            } else {
                let last = self.entries@.last();
                assert(self@.contains_key(last.name@));
            }
        }
        r
    }

    /// The counters stored for tag `name`, if the tag is present.
    pub fn get(&self, name: &str) -> (r: Option<TagInformation>)
        requires
            self.wf(),
        ensures
            match r {
                Some(info) => self@.contains_key(name@) && info@ == self@[name@],
                None => !self@.contains_key(name@),
            },
    {
        let r = self.find(name);
        proof {
            lemma_entries_map_contains(self.entries@, name@);
        }
        match r {
            Some(idx) => {
                proof {
                    lemma_entries_map_index(self.entries@, idx as int);
                }
                Some(self.entries[idx].info)
            },
            None => None,
        }
    }

    fn find(&self, name: &str) -> (r: Option<usize>)
        ensures
            match r {
                Some(idx) => idx < self.entries@.len() && self.entries@[idx as int].name@
                    == name@,
                None => forall|j: int|
                    0 <= j < self.entries@.len() ==> self.entries@[j].name@ != name@,
            },
    {
        let n = self.entries.len();
        let mut i: usize = 0;
        while i < n
            invariant
                i <= n,
                n == self.entries@.len(),
                forall|j: int| 0 <= j < i ==> self.entries@[j].name@ != name@,
            decreases n - i,
        {
            if str_eq(self.entries[i].name.as_str(), name) {
                return Some(i);
            }
            i = i + 1;
        }
        None
    }

    /// Folds one appearance of each tag in `tags`, each with `words` words,
    /// into the collection; a tag listed twice counts twice.
    pub fn add_tags(&mut self, tags: Vec<String>, words: u32)
        requires
            old(self).wf(),
        ensures
            final(self).wf(),
            final(self)@ == add_tags_map(old(self)@, tags.deep_view(), words as nat),
    {
        let ghost m0 = self@;
        let ghost tviews = tags.deep_view();
        let n = tags.len();
        let mut i: usize = 0;
        while i < n
            invariant
                i <= n,
                n == tags@.len(),
                tviews == tags.deep_view(),
                self.wf(),
                self@ == add_tags_map(m0, tviews.take(i as int), words as nat),
            decreases n - i,
        {
            let ghost cur = self@;
            let tag = &tags[i];
            proof {
                assert(tviews[i as int] == tags@[i as int]@);
            }
            let found = self.find(tag.as_str());
            proof {
                lemma_entries_map_contains(self.entries@, tag@);
            }
            match found {
                Some(idx) => {
                    proof {
                        lemma_entries_map_index(self.entries@, idx as int);
                    }
                    let mut updated = self.entries[idx].info;
                    updated.add_appearance(words);
                    let kept_name = self.entries[idx].name.clone();
                    let ghost old_entries = self.entries@;
                    self.entries.set(idx, TagEntry { name: kept_name, info: updated });
                    proof {
                        lemma_entries_map_update(
                            old_entries,
                            idx as int,
                            self.entries@[idx as int],
                        );
                    }
                },
                None => {
                    let ghost old_entries = self.entries@;
                    self.entries.push(TagEntry { name: tag.clone(), info: TagInformation::new(words) });
                    proof {
                        assert(self.entries@.drop_last() =~= old_entries);
                        assert(unique_names(self.entries@));
                    }
                },
            }
            proof {
                assert(self@ == add_tag_map(cur, tviews[i as int], words as nat));
                assert(tviews.take(i + 1).drop_last() =~= tviews.take(i as int));
                assert(tviews.take(i + 1).last() == tviews[i as int]);
            }
            i = i + 1;
        }
        proof {
            assert(tviews.take(n as int) =~= tviews);
        }
    }

    /// Merges another collection into this one without consuming it: union of
    /// the tags, counters merged pairwise on collision.
    pub fn merge_ref(&mut self, other: &TagsCollection)
        requires
            old(self).wf(),
            other.wf(),
        ensures
            final(self).wf(),
            final(self)@ == tag_map_merge(old(self)@, other@),
    {
        let ghost m0 = self@;
        let n = other.entries.len();
        let mut i: usize = 0;
        while i < n
            invariant
                i <= n,
                n == other.entries@.len(),
                other.wf(),
                self.wf(),
                self@ == tag_map_merge(m0, entries_map(other.entries@.take(i as int))),
            decreases n - i,
        {
            let ghost cur = self@;
            let ghost mi = entries_map(other.entries@.take(i as int));
            let name = &other.entries[i].name;
            let v = other.entries[i].info;
            proof {
                lemma_entries_map_contains(other.entries@.take(i as int), name@);
                assert(forall|j: int|
                    0 <= j < i ==> other.entries@.take(i as int)[j] == other.entries@[j]);
                assert(!mi.contains_key(name@));
                lemma_tag_map_merge_step(m0, mi, name@, v@);
            }
            let found = self.find(name.as_str());
            proof {
                lemma_entries_map_contains(self.entries@, name@);
            }
            match found {
                Some(idx) => {
                    proof {
                        lemma_entries_map_index(self.entries@, idx as int);
                    }
                    let mut updated = self.entries[idx].info;
                    updated.merge(v);
                    let kept_name = self.entries[idx].name.clone();
                    let ghost old_entries = self.entries@;
                    self.entries.set(idx, TagEntry { name: kept_name, info: updated });
                    proof {
                        lemma_entries_map_update(
                            old_entries,
                            idx as int,
                            self.entries@[idx as int],
                        );
                        assert(m0.contains_key(name@) || mi.contains_key(name@));
                        assert(cur[name@] == m0[name@]);
                    }
                },
                None => {
                    let ghost old_entries = self.entries@;
                    self.entries.push(TagEntry { name: name.clone(), info: v });
                    proof {
                        assert(self.entries@.drop_last() =~= old_entries);
                        assert(unique_names(self.entries@));
                        assert(!m0.contains_key(name@));
                    }
                },
            }
            proof {
                assert(other.entries@.take(i + 1).drop_last() =~= other.entries@.take(i as int));
                assert(other.entries@.take(i + 1).last() == other.entries@[i as int]);
                assert(entries_map(other.entries@.take(i + 1)) == mi.insert(name@, v@));
                assert(self@ == tag_map_merge(m0, entries_map(other.entries@.take(i + 1))));
            }
            i = i + 1;
        }
        proof {
            assert(other.entries@.take(n as int) =~= other.entries@);
        }
    }

    /// Reports every tag of the collection with its counters.
    pub fn generate_report(&self) -> (r: Vec<TagCounts>)
        requires
            self.wf(),
        ensures
            tag_counts_match(r@, self@),
    {
        let n = self.entries.len();
        let mut r: Vec<TagCounts> = Vec::new();
        let mut i: usize = 0;
        while i < n
            invariant
                i <= n,
                n == self.entries@.len(),
                self.wf(),
                r@.len() == i,
                forall|t: int|
                    0 <= t < i ==> {
                        &&& (#[trigger] r@[t]).name@ == self.entries@[t].name@
                        &&& r@[t].questions == self.entries@[t].info.question_count
                        &&& r@[t].words == self.entries@[t].info.word_count
                    },
            decreases n - i,
        {
            let e = &self.entries[i];
            r.push(
                TagCounts {
                    name: e.name.clone(),
                    questions: e.info.question_count,
                    words: e.info.word_count,
                },
            );
            i = i + 1;
        }
        proof {
            assert forall|t: int|
                0 <= t < r@.len() implies {
                &&& self@.contains_key((#[trigger] r@[t]).name@)
                &&& (r@[t].questions as nat) == self@[r@[t].name@].question_count
                &&& (r@[t].words as nat) == self@[r@[t].name@].word_count
            } by {
                lemma_entries_map_index(self.entries@, t);
            }
            assert forall|k: Seq<char>| #[trigger] self@.contains_key(k) implies exists|t: int|
                0 <= t < r@.len() && r@[t].name@ == k by {
                lemma_entries_map_contains(self.entries@, k);
                let t = choose|t: int|
                    0 <= t < self.entries@.len() && self.entries@[t].name@ == k;
                assert(r@[t].name@ == k);
            }
        }
        r
    }

    /// Returns the names of the at most `number_of_tags` chattiest tags:
    /// highest words-per-question ratio first, ties broken by name.
    pub fn generate_chatty_tags(&self, number_of_tags: u8) -> (r: Vec<String>)
        requires
            self.wf(),
        ensures
            chatty_matches(r.deep_view(), self@, number_of_tags as int),
    {
        let n = self.entries.len();
        let mut keys: Vec<RankKey> = Vec::new();
        let mut i: usize = 0;
        while i < n
            invariant
                i <= n,
                n == self.entries@.len(),
                self.wf(),
                keys@.len() == i,
                forall|t: int|
                    0 <= t < i ==> {
                        &&& (#[trigger] keys@[t]).name@ == self.entries@[t].name@
                        &&& keys@[t].questions == self.entries@[t].info.question_count
                        &&& keys@[t].words == self.entries@[t].info.word_count
                    },
            decreases n - i,
        {
            let e = &self.entries[i];
            keys.push(
                RankKey {
                    questions: e.info.question_count,
                    words: e.info.word_count,
                    name: e.name.clone(),
                },
            );
            i = i + 1;
        }
        proof {
            assert forall|t: int|
                0 <= t < kviews(keys@).len() implies {
                &&& self@.contains_key((#[trigger] kviews(keys@)[t]).name)
                &&& kviews(keys@)[t].questions == self@[kviews(keys@)[t].name].question_count
                &&& kviews(keys@)[t].words == self@[kviews(keys@)[t].name].word_count
            } by {
                lemma_entries_map_index(self.entries@, t);
            }
            assert forall|k: Seq<char>| #[trigger] self@.contains_key(k) implies exists|t: int|
                0 <= t < kviews(keys@).len() && kviews(keys@)[t].name == k by {
                lemma_entries_map_contains(self.entries@, k);
                let t = choose|t: int|
                    0 <= t < self.entries@.len() && self.entries@[t].name@ == k;
                assert(kviews(keys@)[t].name == k);
            }
            assert(tag_rank_keys_match(kviews(keys@), self@));
        }
        let ghost witness = kviews(keys@);
        let r = top_rank_names(keys, number_of_tags as usize);
        proof {
            assert(tag_rank_keys_match(witness, self@) && r.deep_view() == crate::ranking::top_k_names(
                witness,
                number_of_tags as int,
            ));
        }
        r
    }

    /// Merges another collection into this one, consuming it.
    pub fn merge(&mut self, other: TagsCollection)
        requires
            old(self).wf(),
            other.wf(),
        ensures
            final(self).wf(),
            final(self)@ == tag_map_merge(old(self)@, other@),
    {
        self.merge_ref(&other);
    }
}

impl Default for TagsCollection {
    /// Creates an empty collection, as [`TagsCollection::new`] does.
    fn default() -> (c: Self)
        ensures
            c@ == Map::<Seq<char>, TagV>::empty(),
            c.wf(),
    {
        Self::new()
    }
}

/// Every counter pair in the map fits in its `u32` fields.
pub open spec fn tag_map_valid(m: Map<Seq<char>, TagV>) -> bool {
    forall|k: Seq<char>| #[trigger] m.contains_key(k) ==> tag_v_valid(m[k])
}

/// Folding tag appearances preserves validity of the map.
pub proof fn lemma_add_tags_map_valid(m: Map<Seq<char>, TagV>, ts: Seq<Seq<char>>, words: nat)
    requires
        tag_map_valid(m),
        words <= u32::MAX,
    ensures
        tag_map_valid(add_tags_map(m, ts, words)),
    decreases ts.len(),
{
    if ts.len() > 0 {
        lemma_add_tags_map_valid(m, ts.drop_last(), words);
    }
}

proof fn lemma_add_tag_map_merge_exchange(
    t1: Map<Seq<char>, TagV>,
    t2: Map<Seq<char>, TagV>,
    t: Seq<char>,
    words: nat,
)
    ensures
        add_tag_map(tag_map_merge(t1, t2), t, words) == tag_map_merge(
            t1,
            add_tag_map(t2, t, words),
        ),
{
    if t1.contains_key(t) && t2.contains_key(t) {
        lemma_tag_merge_associative(t1[t], t2[t], tag_v_new(words));
    }
    assert(add_tag_map(tag_map_merge(t1, t2), t, words) =~= tag_map_merge(
        t1,
        add_tag_map(t2, t, words),
    ));
}

/// Folding tag appearances into a merged map is the same as folding them into
/// the right operand and merging afterwards.
pub proof fn lemma_add_tags_map_merge_exchange(
    t1: Map<Seq<char>, TagV>,
    t2: Map<Seq<char>, TagV>,
    ts: Seq<Seq<char>>,
    words: nat,
)
    ensures
        add_tags_map(tag_map_merge(t1, t2), ts, words) == tag_map_merge(
            t1,
            add_tags_map(t2, ts, words),
        ),
    decreases ts.len(),
{
    if ts.len() > 0 {
        lemma_add_tags_map_merge_exchange(t1, t2, ts.drop_last(), words);
        lemma_add_tag_map_merge_exchange(t1, add_tags_map(t2, ts.drop_last(), words), ts.last(), words);
    }
}

/// Merging tag maps is commutative.
pub proof fn lemma_tag_map_merge_commutative(m1: Map<Seq<char>, TagV>, m2: Map<Seq<char>, TagV>)
    ensures
        tag_map_merge(m1, m2) == tag_map_merge(m2, m1),
{
    assert(tag_map_merge(m1, m2) =~= tag_map_merge(m2, m1));
}

/// Merging tag maps is associative.
pub proof fn lemma_tag_map_merge_associative(
    m1: Map<Seq<char>, TagV>,
    m2: Map<Seq<char>, TagV>,
    m3: Map<Seq<char>, TagV>,
)
    ensures
        tag_map_merge(tag_map_merge(m1, m2), m3) == tag_map_merge(m1, tag_map_merge(m2, m3)),
{
    let l = tag_map_merge(tag_map_merge(m1, m2), m3);
    let r = tag_map_merge(m1, tag_map_merge(m2, m3));
    assert forall|k: Seq<char>| l.contains_key(k) implies l[k] == r[k] by {
        if m1.contains_key(k) && m2.contains_key(k) && m3.contains_key(k) {
            lemma_tag_merge_associative(m1[k], m2[k], m3[k]);
        }
    }
    assert(l =~= r);
}

/// The empty tag map is an identity for merging.
pub proof fn lemma_tag_map_merge_identity(m: Map<Seq<char>, TagV>)
    ensures
        tag_map_merge(m, Map::<Seq<char>, TagV>::empty()) == m,
        tag_map_merge(Map::<Seq<char>, TagV>::empty(), m) == m,
{
    assert(tag_map_merge(m, Map::<Seq<char>, TagV>::empty()) =~= m);
    assert(tag_map_merge(Map::<Seq<char>, TagV>::empty(), m) =~= m);
}

} // verus!
