//! Ranking of sites and tags by their average words-per-question ratio.
//!
//! A ranking key carries the two counters and a display name.  Keys are
//! ordered by descending ratio; an entity with no question ranks strictly
//! below every entity with at least one question; ties are broken by name,
//! and then by the raw counters, so the order is total and the ranked output
//! is the same whatever order the keys arrive in.

use vstd::multiset::Multiset;
use vstd::prelude::*;
use vstd::relations::{sorted_by, total_ordering};

use crate::tag_information::TagV;

verus! {

/// Mathematical value of a [`RankKey`].
#[verifier::ext_equal]
pub ghost struct RankKeyV {
    pub questions: nat,
    pub words: nat,
    pub name: Seq<char>,
}

/// A ranking key: the counters of one site or tag and its display name.
#[derive(Debug)]
pub struct RankKey {
    pub questions: u32,
    pub words: u32,
    pub name: String,
}

impl View for RankKey {
    type V = RankKeyV;

    open spec fn view(&self) -> RankKeyV {
        RankKeyV {
            questions: self.questions as nat,
            words: self.words as nat,
            name: self.name@,
        }
    }
}

impl DeepView for RankKey {
    type V = RankKeyV;

    open spec fn deep_view(&self) -> RankKeyV {
        self.view()
    }
}

/// `a`'s words-per-question ratio is strictly greater than `b`'s; a key
/// without questions compares below every key with questions.  Stated without
/// division: `a.words / a.questions > b.words / b.questions` exactly when
/// `a.words * b.questions > b.words * a.questions`.
pub open spec fn ratio_gt(a: RankKeyV, b: RankKeyV) -> bool {
    ||| (a.questions > 0 && b.questions == 0)
    ||| (a.questions > 0 && b.questions > 0 && a.words * b.questions > b.words * a.questions)
}

/// The two ratios are equal; all keys without questions have equal ratio.
pub open spec fn ratio_eq(a: RankKeyV, b: RankKeyV) -> bool {
    ||| (a.questions == 0 && b.questions == 0)
    ||| (a.questions > 0 && b.questions > 0 && a.words * b.questions == b.words * a.questions)
}

/// Lexicographic comparison of the names from position `i` on, by unicode
/// scalar value; a strict prefix compares below the longer name.
pub open spec fn lex_lt_from(s: Seq<char>, t: Seq<char>, i: int) -> bool
    recommends
        0 <= i,
    decreases s.len() - i,
{
    if i >= s.len() {
        i < t.len()
    } else if i >= t.len() {
        false
    } else if (s[i] as u32) < (t[i] as u32) {
        true
    } else if (s[i] as u32) > (t[i] as u32) {
        false
    } else {
        lex_lt_from(s, t, i + 1)
    }
}

/// Strict lexicographic order on names.
pub open spec fn lex_lt(s: Seq<char>, t: Seq<char>) -> bool {
    lex_lt_from(s, t, 0)
}

/// `a` is ranked no later than `b`: strictly greater ratio first; on equal
/// ratios the lexicographically smaller name first; on equal names the raw
/// counters decide, so the relation is a total order on key values.
pub open spec fn rank_le(a: RankKeyV, b: RankKeyV) -> bool {
    ||| ratio_gt(a, b)
    ||| (ratio_eq(a, b) && lex_lt(a.name, b.name))
    ||| (ratio_eq(a, b) && a.name == b.name && (a.questions < b.questions || (a.questions
        == b.questions && a.words <= b.words)))
}

/// The ranking order as a relation value, for use with sorting.
pub open spec fn rank_order() -> spec_fn(RankKeyV, RankKeyV) -> bool {
    |a: RankKeyV, b: RankKeyV| rank_le(a, b)
}

proof fn lemma_lex_irrefl(s: Seq<char>, i: int)
    ensures
        !lex_lt_from(s, s, i),
    decreases s.len() - i,
{
    if i < s.len() {
        lemma_lex_irrefl(s, i + 1);
    }
}

proof fn lemma_lex_asym(s: Seq<char>, t: Seq<char>, i: int)
    requires
        lex_lt_from(s, t, i),
    ensures
        !lex_lt_from(t, s, i),
    decreases s.len() - i,
{
    if i < s.len() && i < t.len() && (s[i] as u32) == (t[i] as u32) {
        lemma_lex_asym(s, t, i + 1);
    }
}

proof fn lemma_char_code_injective(c1: char, c2: char)
    requires
        c1 as u32 == c2 as u32,
    ensures
        c1 == c2,
{
}

proof fn lemma_lex_connected(s: Seq<char>, t: Seq<char>, i: int)
    requires
        0 <= i <= s.len(),
        i <= t.len(),
        !lex_lt_from(s, t, i),
        !lex_lt_from(t, s, i),
    ensures
        s.len() == t.len(),
        forall|j: int| i <= j < s.len() ==> s[j] == t[j],
    decreases s.len() - i,
{
    if i >= s.len() || i >= t.len() {
    } else {
        assert((s[i] as u32) == (t[i] as u32));
        lemma_char_code_injective(s[i], t[i]);
        lemma_lex_connected(s, t, i + 1);
    }
}

proof fn lemma_lex_trans(s: Seq<char>, t: Seq<char>, u: Seq<char>, i: int)
    requires
        0 <= i,
        lex_lt_from(s, t, i),
        lex_lt_from(t, u, i),
    ensures
        lex_lt_from(s, u, i),
    decreases s.len() - i,
{
    if i >= s.len() {
        // s is exhausted and t is longer; u is longer than t at position i.
        assert(i < t.len());
        assert(i < u.len());
    } else {
        assert(i < t.len());
        assert(i < u.len());
        if (s[i] as u32) < (t[i] as u32) {
            assert((t[i] as u32) <= (u[i] as u32));
        } else {
            assert((s[i] as u32) == (t[i] as u32));
            if (t[i] as u32) == (u[i] as u32) {
                lemma_lex_trans(s, t, u, i + 1);
            }
        }
    }
}

proof fn lemma_prod_gt_gt(x1: nat, y1: nat, x2: nat, y2: nat, x3: nat, y3: nat)
    by (nonlinear_arith)
    requires
        y2 > 0,
        x1 * y2 > x2 * y1,
        x2 * y3 > x3 * y2,
    ensures
        x1 * y3 > x3 * y1,
{
}

proof fn lemma_prod_gt_eq(x1: nat, y1: nat, x2: nat, y2: nat, x3: nat, y3: nat)
    by (nonlinear_arith)
    requires
        y2 > 0,
        y3 > 0,
        x1 * y2 > x2 * y1,
        x2 * y3 == x3 * y2,
    ensures
        x1 * y3 > x3 * y1,
{
}

proof fn lemma_prod_eq_gt(x1: nat, y1: nat, x2: nat, y2: nat, x3: nat, y3: nat)
    by (nonlinear_arith)
    requires
        y1 > 0,
        y2 > 0,
        x1 * y2 == x2 * y1,
        x2 * y3 > x3 * y2,
    ensures
        x1 * y3 > x3 * y1,
{
}

proof fn lemma_prod_eq_eq(x1: nat, y1: nat, x2: nat, y2: nat, x3: nat, y3: nat)
    by (nonlinear_arith)
    requires
        y2 > 0,
        x1 * y2 == x2 * y1,
        x2 * y3 == x3 * y2,
    ensures
        x1 * y3 == x3 * y1,
{
}

proof fn lemma_ratio_gt_gt(a: RankKeyV, b: RankKeyV, c: RankKeyV)
    requires
        ratio_gt(a, b),
        ratio_gt(b, c),
    ensures
        ratio_gt(a, c),
{
    if c.questions > 0 {
        lemma_prod_gt_gt(a.words, a.questions, b.words, b.questions, c.words, c.questions);
    }
}

proof fn lemma_ratio_gt_eq(a: RankKeyV, b: RankKeyV, c: RankKeyV)
    requires
        ratio_gt(a, b),
        ratio_eq(b, c),
    ensures
        ratio_gt(a, c),
{
    if b.questions == 0 {
        assert(c.questions == 0);
    } else {
        assert(c.questions > 0);
        lemma_prod_gt_eq(a.words, a.questions, b.words, b.questions, c.words, c.questions);
    }
}

proof fn lemma_ratio_eq_gt(a: RankKeyV, b: RankKeyV, c: RankKeyV)
    requires
        ratio_eq(a, b),
        ratio_gt(b, c),
    ensures
        ratio_gt(a, c),
{
    if c.questions > 0 {
        lemma_prod_eq_gt(a.words, a.questions, b.words, b.questions, c.words, c.questions);
    }
}

proof fn lemma_ratio_eq_eq(a: RankKeyV, b: RankKeyV, c: RankKeyV)
    requires
        ratio_eq(a, b),
        ratio_eq(b, c),
    ensures
        ratio_eq(a, c),
{
    if b.questions > 0 {
        lemma_prod_eq_eq(a.words, a.questions, b.words, b.questions, c.words, c.questions);
    }
}

proof fn lemma_rank_le_trans(a: RankKeyV, b: RankKeyV, c: RankKeyV)
    requires
        rank_le(a, b),
        rank_le(b, c),
    ensures
        rank_le(a, c),
{
    if ratio_gt(a, b) {
        if ratio_gt(b, c) {
            lemma_ratio_gt_gt(a, b, c);
        } else {
            lemma_ratio_gt_eq(a, b, c);
        }
    } else if ratio_gt(b, c) {
        lemma_ratio_eq_gt(a, b, c);
    } else {
        lemma_ratio_eq_eq(a, b, c);
        if lex_lt(a.name, b.name) {
            if lex_lt(b.name, c.name) {
                lemma_lex_trans(a.name, b.name, c.name, 0);
            } else {
                assert(b.name == c.name);
            }
        } else {
            assert(a.name == b.name);
        }
    }
}

proof fn lemma_rank_le_antisymmetric(a: RankKeyV, b: RankKeyV)
    requires
        rank_le(a, b),
        rank_le(b, a),
    ensures
        a == b,
{
    assert(!(ratio_gt(a, b) && ratio_gt(b, a)));
    assert(!(ratio_gt(a, b) && ratio_eq(a, b)));
    assert(ratio_eq(a, b) == ratio_eq(b, a));
    assert(ratio_eq(a, b));
    if lex_lt(a.name, b.name) {
        lemma_lex_asym(a.name, b.name, 0);
        lemma_lex_irrefl(a.name, 0);
        assert(false);
    }
    if lex_lt(b.name, a.name) {
        lemma_lex_irrefl(b.name, 0);
        assert(false);
    }
    assert(a.name == b.name);
    assert(a.questions == b.questions);
    assert(a.words == b.words);
}

proof fn lemma_rank_le_connected(a: RankKeyV, b: RankKeyV)
    ensures
        rank_le(a, b) || rank_le(b, a),
{
    if !ratio_gt(a, b) && !ratio_gt(b, a) {
        assert(ratio_eq(a, b));
        if !lex_lt(a.name, b.name) && !lex_lt(b.name, a.name) {
            lemma_lex_connected(a.name, b.name, 0);
            assert(a.name =~= b.name);
        }
    }
}

/// The ranking order is a total order on key values.
pub proof fn lemma_rank_order_total()
    ensures
        total_ordering(rank_order()),
{
    let r = rank_order();
    assert forall|a: RankKeyV| #[trigger] r(a, a) by {
        assert(ratio_eq(a, a));
    }
    assert forall|a: RankKeyV, b: RankKeyV| #[trigger] r(a, b) && #[trigger] r(b, a) implies a
        == b by {
        lemma_rank_le_antisymmetric(a, b);
    }
    assert forall|a: RankKeyV, b: RankKeyV, c: RankKeyV|
        #[trigger] r(a, b) && #[trigger] r(b, c) implies r(a, c) by {
        lemma_rank_le_trans(a, b, c);
    }
    assert forall|a: RankKeyV, b: RankKeyV| #[trigger] r(a, b) || #[trigger] r(b, a) by {
        lemma_rank_le_connected(a, b);
    }
}

/// The keys sorted into ranking order.
pub open spec fn ranked(keys: Seq<RankKeyV>) -> Seq<RankKeyV> {
    keys.sort_by(rank_order())
}

/// The names of the at most `k` best-ranked keys, best first.
pub open spec fn top_k_names(keys: Seq<RankKeyV>, k: int) -> Seq<Seq<char>>
    recommends
        0 <= k,
{
    ranked(keys).take(if k <= keys.len() {
        k
    } else {
        keys.len() as int
    }).map_values(|x: RankKeyV| x.name)
}

/// A key with no question ranks strictly below any key with at least one
/// question, and the comparison is always defined.
pub proof fn lemma_zero_questions_rank_last(a: RankKeyV, b: RankKeyV)
    requires
        a.questions == 0,
        b.questions >= 1,
    ensures
        ratio_gt(b, a),
        rank_le(b, a),
        !rank_le(a, b),
{
}

/// The views of a sequence of ranking keys.
pub open spec fn kviews(s: Seq<RankKey>) -> Seq<RankKeyV> {
    s.map_values(|k: RankKey| k@)
}

proof fn lemma_mul_bound(x: nat, y: nat, m: nat)
    by (nonlinear_arith)
    requires
        x <= m,
        y <= m,
    ensures
        x * y <= m * m,
{
}

fn ratio_gt_exec(a: &RankKey, b: &RankKey) -> (r: bool)
    ensures
        r == ratio_gt(a@, b@),
{
    if a.questions > 0 && b.questions == 0 {
        true
    } else if a.questions > 0 && b.questions > 0 {
        proof {
            lemma_mul_bound(a.words as nat, b.questions as nat, u32::MAX as nat);
            lemma_mul_bound(b.words as nat, a.questions as nat, u32::MAX as nat);
        }
        let left = (a.words as u64) * (b.questions as u64);
        let right = (b.words as u64) * (a.questions as u64);
        left > right
    } else {
        false
    }
}

/// Character-by-character lexicographic comparison of two names.
fn lex_less(a: &str, b: &str) -> (r: bool)
    ensures
        r == lex_lt(a@, b@),
{
    let alen = a.unicode_len();
    let blen = b.unicode_len();
    let mut i: usize = 0;
    while i < alen && i < blen
        invariant
            i <= alen,
            i <= blen,
            alen == a@.len(),
            blen == b@.len(),
            lex_lt(a@, b@) == lex_lt_from(a@, b@, i as int),
        decreases alen - i,
    {
        let ca = a.get_char(i) as u32;
        let cb = b.get_char(i) as u32;
        if ca < cb {
            return true;
        }
        if ca > cb {
            return false;
        }
        i = i + 1;
    }
    alen < blen
}

/// Executable form of the ranking order.
fn rank_le_exec(a: &RankKey, b: &RankKey) -> (r: bool)
    ensures
        r == rank_le(a@, b@),
{
    if ratio_gt_exec(a, b) {
        return true;
    }
    if ratio_gt_exec(b, a) {
        return false;
    }
    proof {
        assert(ratio_eq(a@, b@));
    }
    if lex_less(a.name.as_str(), b.name.as_str()) {
        return true;
    }
    if lex_less(b.name.as_str(), a.name.as_str()) {
        proof {
            lemma_lex_irrefl(a.name@, 0);
        }
        return false;
    }
    proof {
        lemma_lex_connected(a.name@, b.name@, 0);
        assert(a.name@ =~= b.name@);
    }
    if a.questions < b.questions {
        true
    } else if a.questions > b.questions {
        false
    } else {
        a.words <= b.words
    }
}

fn sort_keys(keys: Vec<RankKey>) -> (out: Vec<RankKey>)
    ensures
        kviews(out@) == ranked(kviews(keys@)),
{
    broadcast use vstd::seq_lib::group_to_multiset_ensures;

    let ghost orig = kviews(keys@);
    let mut rem = keys;
    let mut out: Vec<RankKey> = Vec::new();
    while rem.len() > 0
        invariant
            sorted_by(kviews(out@), rank_order()),
            kviews(out@).to_multiset().add(kviews(rem@).to_multiset()) == orig.to_multiset(),
        decreases rem@.len(),
    {
        let ghost prev_rem = rem@;
        let ghost oldset = kviews(out@).to_multiset();
        let k = rem.remove(0);
        proof {
            assert(kviews(rem@) =~= kviews(prev_rem).remove(0));
            assert(kviews(prev_rem)[0] == k@);
            vstd::seq_lib::to_multiset_remove(kviews(prev_rem), 0);
            assert(kviews(rem@).to_multiset() == kviews(prev_rem).to_multiset().remove(k@));
            assert(kviews(prev_rem).contains(k@));
            vstd::seq_lib::to_multiset_contains(kviews(prev_rem), k@);
            assert(kviews(prev_rem).to_multiset().count(k@) > 0);
        }
        let mut j: usize = 0;
        while j < out.len() && rank_le_exec(&out[j], &k)
            invariant
                j <= out@.len(),
                forall|t: int| 0 <= t < j ==> rank_le(#[trigger] kviews(out@)[t], k@),
            decreases out@.len() - j,
        {
            j = j + 1;
        }
        let ghost oldout = kviews(out@);
        out.insert(j, k);
        proof {
            assert(kviews(out@) =~= oldout.insert(j as int, k@));
            assert forall|t: int| j <= t < oldout.len() implies rank_le(
                k@,
                #[trigger] oldout[t],
            ) by {
                lemma_rank_le_connected(oldout[j as int], k@);
                if t > j {
                    assert(rank_order()(oldout[j as int], oldout[t]));
                    lemma_rank_le_trans(k@, oldout[j as int], oldout[t]);
                }
            }
            oldout.insert_ensures(j as int, k@);
            assert forall|p: int, q: int|
                0 <= p < q < kviews(out@).len() implies rank_order()(
                #[trigger] kviews(out@)[p],
                #[trigger] kviews(out@)[q],
            ) by {
                if q < j {
                    assert(rank_order()(oldout[p], oldout[q]));
                } else if q == j {
                    assert(kviews(out@)[q] == k@);
                    assert(rank_le(kviews(out@)[p], k@));
                } else if p < j {
                    assert(kviews(out@)[q] == oldout[q - 1]);
                    assert(rank_order()(oldout[p], oldout[q - 1]));
                } else if p == j {
                    assert(kviews(out@)[p] == k@);
                    assert(kviews(out@)[q] == oldout[q - 1]);
                    assert(rank_le(k@, oldout[q - 1]));
                } else {
                    assert(kviews(out@)[p] == oldout[p - 1]);
                    assert(kviews(out@)[q] == oldout[q - 1]);
                    assert(rank_order()(oldout[p - 1], oldout[q - 1]));
                }
            }
            assert(sorted_by(kviews(out@), rank_order()));
            vstd::seq_lib::to_multiset_insert(oldout, j as int, k@);
            assert(kviews(out@).to_multiset() == oldout.to_multiset().insert(k@));
            assert(kviews(out@).to_multiset().add(kviews(rem@).to_multiset()) =~= orig.to_multiset());
        }
    }
    proof {
        assert(kviews(rem@) =~= Seq::<RankKeyV>::empty());
        assert(kviews(rem@).to_multiset() =~= Multiset::<RankKeyV>::empty());
        assert(kviews(out@).to_multiset() =~= orig.to_multiset());
        lemma_rank_order_total();
        orig.lemma_sort_by_ensures(rank_order());
        vstd::seq_lib::lemma_sorted_unique(kviews(out@), ranked(orig), rank_order());
    }
    out
}

/// Returns the names of the at most `limit` best-ranked keys, best first.
pub fn top_rank_names(keys: Vec<RankKey>, limit: usize) -> (r: Vec<String>)
    ensures
        r.deep_view() == top_k_names(kviews(keys@), limit as int),
{
    let ghost orig = kviews(keys@);
    let mut sorted = sort_keys(keys);
    let ghost rankedseq = ranked(orig);
    let mut r: Vec<String> = Vec::new();
    let mut i: usize = 0;
    while i < limit && sorted.len() > 0
        invariant
            i == r@.len(),
            i <= limit,
            i + sorted@.len() == rankedseq.len(),
            kviews(sorted@) =~= rankedseq.skip(i as int),
            r.deep_view() =~= rankedseq.take(i as int).map_values(|x: RankKeyV| x.name),
        decreases limit - i,
    {
        let ghost prev_sorted = sorted@;
        let ghost prev_r = r.deep_view();
        let k = sorted.remove(0);
        r.push(k.name);
        proof {
            assert(kviews(prev_sorted)[0] == k@);
            assert(rankedseq.skip(i as int)[0] == rankedseq[i as int]);
            assert(kviews(sorted@) =~= kviews(prev_sorted).remove(0));
            assert(kviews(sorted@) =~= rankedseq.skip(i as int + 1));
            assert(r.deep_view() =~= prev_r.push(k@.name));
            assert(rankedseq.take(i as int + 1).drop_last() =~= rankedseq.take(i as int));
            assert(rankedseq.take(i as int + 1).map_values(|x: RankKeyV| x.name) =~= rankedseq.take(
                i as int,
            ).map_values(|x: RankKeyV| x.name).push(rankedseq[i as int].name));
        }
        i = i + 1;
    }
    proof {
        if i < limit {
            assert(sorted@.len() == 0);
            assert(i == rankedseq.len());
            assert(rankedseq.take(i as int) =~= rankedseq);
        } else {
            assert(i == limit);
        }
        assert(orig.len() == rankedseq.len()) by {
            broadcast use vstd::seq_lib::group_to_multiset_ensures;

            lemma_rank_order_total();
            orig.lemma_sort_by_ensures(rank_order());
            assert(orig.to_multiset() == rankedseq.to_multiset());
            assert(orig.len() == orig.to_multiset().len());
            assert(rankedseq.len() == rankedseq.to_multiset().len());
        }
    }
    r
}

/// Ranking is deterministic: any two collections holding the same keys, in
/// whatever order, rank to the same list of names.
pub proof fn lemma_top_k_deterministic(s1: Seq<RankKeyV>, s2: Seq<RankKeyV>, k: int)
    requires
        s1.to_multiset() == s2.to_multiset(),
    ensures
        top_k_names(s1, k) == top_k_names(s2, k),
{
    broadcast use vstd::seq_lib::group_to_multiset_ensures;

    lemma_rank_order_total();
    s1.lemma_sort_by_ensures(rank_order());
    s2.lemma_sort_by_ensures(rank_order());
    vstd::seq_lib::lemma_sorted_unique(ranked(s1), ranked(s2), rank_order());
    assert(ranked(s1) == ranked(s2));
    assert(s1.len() == s1.to_multiset().len());
    assert(s2.len() == s2.to_multiset().len());
    assert(s1.len() == s2.len());
}

/// The key sequence `s` enumerates the tag map `m`: one key per tag, carrying
/// that tag's counters and its name, in some order.
pub open spec fn tag_rank_keys_match(s: Seq<RankKeyV>, m: Map<Seq<char>, TagV>) -> bool {
    &&& forall|i: int, j: int| 0 <= i < j < s.len() ==> s[i].name != s[j].name
    &&& forall|i: int|
        0 <= i < s.len() ==> {
            &&& m.contains_key(#[trigger] s[i].name)
            &&& s[i].questions == m[s[i].name].question_count
            &&& s[i].words == m[s[i].name].word_count
        }
    &&& forall|k: Seq<char>|
        #[trigger] m.contains_key(k) ==> exists|i: int| 0 <= i < s.len() && s[i].name == k
}

/// `names` is a chatty ranking of the tag map `m`, cut off at `k` entries.
pub open spec fn chatty_matches(names: Seq<Seq<char>>, m: Map<Seq<char>, TagV>, k: int) -> bool {
    exists|s: Seq<RankKeyV>| tag_rank_keys_match(s, m) && names == top_k_names(s, k)
}

spec fn matches_entry(x: RankKeyV, m: Map<Seq<char>, TagV>) -> bool {
    &&& m.contains_key(x.name)
    &&& x.questions == m[x.name].question_count
    &&& x.words == m[x.name].word_count
}

proof fn lemma_match_count(s: Seq<RankKeyV>, m: Map<Seq<char>, TagV>, x: RankKeyV)
    requires
        tag_rank_keys_match(s, m),
    ensures
        s.to_multiset().count(x) == if matches_entry(x, m) {
            1nat
        } else {
            0nat
        },
    decreases s.len(),
{
    if s.len() == 0 {
        vstd::seq_lib::to_multiset_contains(s, x);
        assert(!s.contains(x));
        assert(s.to_multiset().count(x) == 0);
        if matches_entry(x, m) {
            let i = choose|i: int| 0 <= i < s.len() && s[i].name == x.name;
            assert(false);
        }
    } else {
        let h = s[0];
        let rest = s.drop_first();
        let m2 = m.remove(h.name);
        assert(matches_entry(h, m));
        assert forall|k: Seq<char>| #[trigger] m2.contains_key(k) implies exists|i: int|
            0 <= i < rest.len() && rest[i].name == k by {
            let i = choose|i: int| 0 <= i < s.len() && s[i].name == k;
            assert(i != 0);
            assert(rest[i - 1].name == k);
        }
        assert(tag_rank_keys_match(rest, m2));
        lemma_match_count(rest, m2, x);
        assert(s.remove(0) =~= rest);
        vstd::seq_lib::to_multiset_remove(s, 0);
        assert(rest.to_multiset() == s.to_multiset().remove(h));
        assert(s.contains(h));
        vstd::seq_lib::to_multiset_contains(s, h);
        assert(s.to_multiset().count(h) > 0);
        if x == h {
            assert(!m2.contains_key(x.name));
            assert(s.to_multiset().count(x) == rest.to_multiset().count(x) + 1);
        } else {
            assert(s.to_multiset().count(x) == rest.to_multiset().count(x));
            if x.name == h.name {
                assert(!m2.contains_key(x.name));
                if matches_entry(x, m) {
                    assert(x.questions == h.questions);
                    assert(x.words == h.words);
                    assert(false);
                }
            } else {
                assert(matches_entry(x, m2) == matches_entry(x, m));
            }
        }
    }
}

proof fn lemma_tag_rank_keys_multiset(
    s1: Seq<RankKeyV>,
    s2: Seq<RankKeyV>,
    m: Map<Seq<char>, TagV>,
)
    requires
        tag_rank_keys_match(s1, m),
        tag_rank_keys_match(s2, m),
    ensures
        s1.to_multiset() == s2.to_multiset(),
{
    assert forall|x: RankKeyV|
        s1.to_multiset().count(x) == s2.to_multiset().count(x) by {
        lemma_match_count(s1, m, x);
        lemma_match_count(s2, m, x);
    }
    assert(s1.to_multiset() =~= s2.to_multiset());
}

/// The chatty ranking of a tag map is fully determined by the map: any two
/// enumerations of the same tags rank to the same list of names, whatever
/// order they were collected in.
pub proof fn lemma_chatty_tags_deterministic(
    s1: Seq<RankKeyV>,
    s2: Seq<RankKeyV>,
    m: Map<Seq<char>, TagV>,
    k: int,
)
    requires
        tag_rank_keys_match(s1, m),
        tag_rank_keys_match(s2, m),
    ensures
        top_k_names(s1, k) == top_k_names(s2, k),
{
    lemma_tag_rank_keys_multiset(s1, s2, m);
    lemma_top_k_deterministic(s1, s2, k);
}

} // verus!
