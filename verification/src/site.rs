//! Per-site accumulator: question and word counts plus the site's own tag
//! collection, with the merge algebra that makes parallel reduction sound.

use vstd::prelude::*;

use crate::question_information::{QuestionInformation, QuestionV};
use crate::report::{site_report_matches, SiteReport};
use crate::tag_information::{lemma_sat32_assoc, sat32, TagV};
use crate::tags_collection::{
    add_tags_map, lemma_add_tags_map_merge_exchange, lemma_add_tags_map_valid,
    lemma_tag_map_merge_commutative, lemma_tag_map_merge_identity, tag_map_merge, tag_map_valid,
    TagsCollection,
};

verus! {

/// Mathematical value of a [`Site`].
#[verifier::ext_equal]
pub ghost struct SiteV {
    pub name: Option<Seq<char>>,
    pub question_count: nat,
    pub word_count: nat,
    pub tags: Map<Seq<char>, TagV>,
}

/// A freshly created site: the identity element of the merge.
pub open spec fn site_v_new(name: Option<Seq<char>>) -> SiteV {
    SiteV { name, question_count: 0, word_count: 0, tags: Map::empty() }
}

/// One question folded into a site: both counters grow and each of the
/// question's tags records one appearance with the question's word count.
pub open spec fn site_v_add_question(s: SiteV, q: QuestionV) -> SiteV {
    SiteV {
        name: s.name,
        question_count: sat32(s.question_count + 1),
        word_count: sat32(s.word_count + q.words),
        tags: add_tags_map(s.tags, q.tags, q.words),
    }
}

/// The merge (join) of two sites: capped sums of the counters and the merge of
/// the tag maps; the left name is kept.
pub open spec fn site_v_merge(a: SiteV, b: SiteV) -> SiteV {
    SiteV {
        name: a.name,
        question_count: sat32(a.question_count + b.question_count),
        word_count: sat32(a.word_count + b.word_count),
        tags: tag_map_merge(a.tags, b.tags),
    }
}

/// All counters fit in their `u32` fields; true of the view of every
/// materialized `Site`.
pub open spec fn site_v_valid(s: SiteV) -> bool {
    &&& s.question_count <= u32::MAX
    &&& s.word_count <= u32::MAX
    &&& tag_map_valid(s.tags)
}

/// The word count of a question fits in a `u32`; true of the view of every
/// materialized `QuestionInformation`.
pub open spec fn question_v_valid(q: QuestionV) -> bool {
    q.words <= u32::MAX
}

/// Every question in the sequence has a word count that fits in a `u32`.
pub open spec fn questions_valid(qs: Seq<QuestionV>) -> bool {
    forall|i: int| 0 <= i < qs.len() ==> question_v_valid(#[trigger] qs[i])
}

/// The site obtained by folding the questions of `qs`, in order, into a fresh
/// site named `name`.
pub open spec fn site_fold(name: Option<Seq<char>>, qs: Seq<QuestionV>) -> SiteV
    decreases qs.len(),
{
    if qs.len() == 0 {
        site_v_new(name)
    } else {
        site_v_add_question(site_fold(name, qs.drop_last()), qs.last())
    }
}

/// Statistics of one site: the aggregate of the questions of one input file.
#[derive(Debug)]
pub struct Site {
    pub name: Option<String>,
    pub question_count: u32,
    pub word_count: u32,
    pub tags: TagsCollection,
}

impl View for Site {
    type V = SiteV;

    open spec fn view(&self) -> SiteV {
        SiteV {
            name: self.name.deep_view(),
            question_count: self.question_count as nat,
            word_count: self.word_count as nat,
            tags: self.tags@,
        }
    }
}

impl DeepView for Site {
    type V = SiteV;

    open spec fn deep_view(&self) -> SiteV {
        self.view()
    }
}

impl Site {
    /// True when the owned tag collection is well formed.
    pub open spec fn wf(&self) -> bool {
        self.tags.wf()
    }

    /// Creates a new, empty site with the given name: the identity element.
    pub fn new(name: Option<String>) -> (r: Self)
        ensures
            r@ == site_v_new(name.deep_view()),
            r.wf(),
    {
        Site { name, question_count: 0, word_count: 0, tags: TagsCollection::new() }
    }

    /// Folds one question into the site.
    pub fn add_question(&mut self, question: QuestionInformation)
        requires
            old(self).wf(),
        ensures
            final(self).wf(),
            final(self)@ == site_v_add_question(old(self)@, question@),
    {
        self.question_count = self.question_count.saturating_add(1);
        self.word_count = self.word_count.saturating_add(question.words as u32);
        self.tags.add_tags(question.tags, question.words as u32);
    }

    /// Merges the information of another site into this one, consuming it; the
    /// name of `self` is kept.
    pub fn merge(&mut self, other: Self)
        requires
            old(self).wf(),
            other.wf(),
        ensures
            final(self).wf(),
            final(self)@ == site_v_merge(old(self)@, other@),
    {
        self.question_count = self.question_count.saturating_add(other.question_count);
        self.word_count = self.word_count.saturating_add(other.word_count);
        self.tags.merge(other.tags);
    }

    /// Returns a copy of the site's name.
    pub fn get_name(&self) -> (r: Option<String>)
        ensures
            r == self.name,
    {
        match &self.name {
            Some(n) => Some(n.clone()),
            None => None,
        }
    }

    /// Returns the site's tag collection, without giving up ownership.
    pub fn get_tags(&self) -> (r: &TagsCollection)
        ensures
            *r == self.tags,
    {
        &self.tags
    }

    /// Reports the site's counters, its per-tag breakdown and its own ten
    /// chattiest tags.
    pub fn generate_report(&self) -> (r: SiteReport)
        requires
            self.wf(),
        ensures
            site_report_matches(r, self@),
    {
        SiteReport {
            questions: self.question_count,
            words: self.word_count,
            tags: self.tags.generate_report(),
            chatty_tags: self.tags.generate_chatty_tags(10),
        }
    }

    /// Builds the site for one file by folding its decoded questions, in
    /// order, into a fresh site named `name`.
    pub fn from_questions(name: Option<String>, questions: Vec<QuestionInformation>) -> (r: Self)
        ensures
            r.wf(),
            r@ == site_fold(name.deep_view(), questions.deep_view()),
    {
        let ghost qviews = questions.deep_view();
        let ghost nview = name.deep_view();
        let mut remaining = questions;
        let total = remaining.len();
        let mut site = Site::new(name);
        let mut i: usize = 0;
        while remaining.len() > 0
            invariant
                i <= total,
                total == qviews.len(),
                i + remaining@.len() == qviews.len(),
                remaining.deep_view() =~= qviews.skip(i as int),
                site.wf(),
                site@ == site_fold(nview, qviews.take(i as int)),
            decreases remaining@.len(),
        {
            let ghost prev = remaining@;
            let q = remaining.remove(0);
            proof {
                assert(prev.len() > 0);
                assert(qviews.skip(i as int).len() == prev.len());
                assert(i < qviews.len());
                assert(qviews.subrange(i as int, qviews.len() as int)[0] == qviews[i as int]);
                assert(qviews.skip(i as int)[0] == qviews[i as int]) by {
                    assert(qviews.skip(i as int) == qviews.subrange(i as int, qviews.len() as int));
                }
                assert(q@ == prev[0].deep_view());
                assert(prev[0].deep_view() == qviews.skip(i as int)[0]);
                assert(q@ == qviews[i as int]);
                assert(remaining@ == prev.subrange(0, 0) + prev.subrange(1, prev.len() as int));
                assert forall|j: int| 0 <= j < remaining@.len() implies remaining.deep_view()[j]
                    == qviews.skip(i as int + 1)[j] by {
                    assert(remaining@[j] == prev[j + 1]);
                    assert(prev[j + 1].deep_view() == qviews.skip(i as int)[j + 1]);
                    assert(qviews.skip(i as int)[j + 1] == qviews[i as int + j + 1]);
                    assert(qviews.skip(i as int + 1)[j] == qviews[i as int + 1 + j]);
                }
                assert(remaining.deep_view() =~= qviews.skip(i as int + 1));
            }
            site.add_question(q);
            proof {
                assert(qviews.take(i + 1).drop_last() =~= qviews.take(i as int));
                assert(qviews.take(i + 1).last() == qviews[i as int]);
            }
            i = i + 1;
        }
        proof {
            assert(qviews.take(i as int) =~= qviews);
        }
        site
    }
}

/// Merging sites is commutative, as far as the statistics go; the name is
/// taken from the left operand, so equally named sites merge symmetrically.
pub proof fn lemma_site_merge_commutative(a: SiteV, b: SiteV)
    requires
        a.name == b.name,
    ensures
        site_v_merge(a, b) == site_v_merge(b, a),
{
    lemma_tag_map_merge_commutative(a.tags, b.tags);
}

/// Merging sites is associative.
pub proof fn lemma_site_merge_associative(a: SiteV, b: SiteV, c: SiteV)
    ensures
        site_v_merge(site_v_merge(a, b), c) == site_v_merge(a, site_v_merge(b, c)),
{
    lemma_sat32_assoc(a.question_count, b.question_count, c.question_count);
    lemma_sat32_assoc(a.word_count, b.word_count, c.word_count);
    crate::tags_collection::lemma_tag_map_merge_associative(a.tags, b.tags, c.tags);
}

/// A freshly created site is an identity for merging: merging it on either
/// side leaves the statistics unchanged.
pub proof fn lemma_site_merge_identity(a: SiteV, name: Option<Seq<char>>)
    requires
        site_v_valid(a),
    ensures
        site_v_merge(a, site_v_new(name)) == a,
        site_v_merge(site_v_new(a.name), a) == a,
{
    lemma_tag_map_merge_identity(a.tags);
}

/// A folded site is valid: all its counters fit in their fields.
pub proof fn lemma_site_fold_valid(name: Option<Seq<char>>, qs: Seq<QuestionV>)
    requires
        questions_valid(qs),
    ensures
        site_v_valid(site_fold(name, qs)),
    decreases qs.len(),
{
    if qs.len() > 0 {
        assert(questions_valid(qs.drop_last()));
        lemma_site_fold_valid(name, qs.drop_last());
        lemma_add_tags_map_valid(site_fold(name, qs.drop_last()).tags, qs.last().tags, qs.last().words);
    }
}

proof fn lemma_site_add_merge_exchange(a: SiteV, b: SiteV, q: QuestionV)
    ensures
        site_v_add_question(site_v_merge(a, b), q) == site_v_merge(a, site_v_add_question(b, q)),
{
    lemma_sat32_assoc(a.question_count, b.question_count, 1);
    lemma_sat32_assoc(a.word_count, b.word_count, q.words);
    lemma_add_tags_map_merge_exchange(a.tags, b.tags, q.tags, q.words);
}

/// Folding a stream of questions that is split in two and folded piecewise
/// gives the same site as folding it whole: partitioning the work and merging
/// the partial results loses nothing.
pub proof fn lemma_site_fold_homomorphism(
    name: Option<Seq<char>>,
    qs1: Seq<QuestionV>,
    qs2: Seq<QuestionV>,
)
    requires
        questions_valid(qs1),
    ensures
        site_fold(name, qs1 + qs2) == site_v_merge(site_fold(name, qs1), site_fold(name, qs2)),
    decreases qs2.len(),
{
    if qs2.len() == 0 {
        assert(qs1 + qs2 =~= qs1);
        lemma_site_fold_valid(name, qs1);
        lemma_site_merge_identity(site_fold(name, qs1), name);
    } else {
        let qs2p = qs2.drop_last();
        let q = qs2.last();
        assert((qs1 + qs2).drop_last() =~= qs1 + qs2p);
        assert((qs1 + qs2).last() == q);
        lemma_site_fold_homomorphism(name, qs1, qs2p);
        lemma_site_add_merge_exchange(site_fold(name, qs1), site_fold(name, qs2p), q);
    }
}

} // verus!
