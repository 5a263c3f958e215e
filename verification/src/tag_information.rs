//! Mergeable counters for a single tag: how many questions carry the tag and
//! how many words those questions hold in total.

use vstd::prelude::*;

verus! {

/// Mathematical value of a [`TagInformation`]: the pair of counters.
#[verifier::ext_equal]
pub ghost struct TagV {
    pub question_count: nat,
    pub word_count: nat,
}

/// Addition capped at the largest value a `u32` counter can hold, so that
/// merging is total and never aborts.
pub open spec fn sat32(n: nat) -> nat {
    if n > u32::MAX { u32::MAX as nat } else { n }
}

/// Counter pair for a tag that was just seen once with `words` words.
pub open spec fn tag_v_new(words: nat) -> TagV {
    TagV { question_count: 1, word_count: words }
}

/// The merge (join) of two tag counters: pairwise capped sums.
pub open spec fn tag_v_merge(a: TagV, b: TagV) -> TagV {
    TagV {
        question_count: sat32(a.question_count + b.question_count),
        word_count: sat32(a.word_count + b.word_count),
    }
}

/// Both counters fit in a `u32`; true of the view of every materialized
/// `TagInformation`.
pub open spec fn tag_v_valid(a: TagV) -> bool {
    a.question_count <= u32::MAX && a.word_count <= u32::MAX
}

/// Capped addition is associative: capping early loses nothing.
pub proof fn lemma_sat32_assoc(a: nat, b: nat, c: nat)
    ensures
        sat32(sat32(a + b) + c) == sat32(a + b + c),
        sat32(a + sat32(b + c)) == sat32(a + b + c),
{
}

/// Statistics of one tag within one scope (one site, or the whole corpus).
#[derive(Debug, Clone, Copy)]
pub struct TagInformation {
    pub question_count: u32,
    pub word_count: u32,
}

impl View for TagInformation {
    type V = TagV;

    open spec fn view(&self) -> TagV {
        TagV {
            question_count: self.question_count as nat,
            word_count: self.word_count as nat,
        }
    }
}

impl TagInformation {
    /// Creates the counters for a tag on its first appearance: one question,
    /// `word_count` words.
    pub fn new(word_count: u32) -> (r: Self)
        ensures
            r@ == tag_v_new(word_count as nat),
    {
        TagInformation { question_count: 1, word_count }
    }

    /// Records one more question carrying this tag, with `word_count` words.
    pub fn add_appearance(&mut self, word_count: u32)
        ensures
            final(self)@ == tag_v_merge(old(self)@, tag_v_new(word_count as nat)),
    {
        self.word_count = self.word_count.saturating_add(word_count);
        self.question_count = self.question_count.saturating_add(1);
    }

    /// Merges another tag's counters into this one: pairwise capped sums.
    pub fn merge(&mut self, other: Self)
        ensures
            final(self)@ == tag_v_merge(old(self)@, other@),
    {
        self.question_count = self.question_count.saturating_add(other.question_count);
        self.word_count = self.word_count.saturating_add(other.word_count);
    }
}

/// Merging tag counters is commutative.
pub proof fn lemma_tag_merge_commutative(a: TagV, b: TagV)
    ensures
        tag_v_merge(a, b) == tag_v_merge(b, a),
{
}

/// Merging tag counters is associative.
pub proof fn lemma_tag_merge_associative(a: TagV, b: TagV, c: TagV)
    ensures
        tag_v_merge(tag_v_merge(a, b), c) == tag_v_merge(a, tag_v_merge(b, c)),
{
    lemma_sat32_assoc(a.question_count, b.question_count, c.question_count);
    lemma_sat32_assoc(a.word_count, b.word_count, c.word_count);
}

/// The zero-valued counter pair is an identity for merging.
pub proof fn lemma_tag_merge_identity(a: TagV)
    requires
        tag_v_valid(a),
    ensures
        tag_v_merge(a, TagV { question_count: 0, word_count: 0 }) == a,
        tag_v_merge(TagV { question_count: 0, word_count: 0 }, a) == a,
{
}

} // verus!
