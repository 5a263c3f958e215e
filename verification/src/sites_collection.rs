//! The corpus: one site per input file, loaded through a parallel fold-and-
//! reduce, with cross-site tag aggregation, ranking and report assembly.

use vstd::prelude::*;

use rayon::iter::{IntoParallelIterator, IntoParallelRefIterator, ParallelIterator};
use rayon::ThreadPoolBuilder;

use crate::parsing_error::ParsingError;
use crate::question_information::{QuestionInformation, QuestionV};
use crate::ranking::{chatty_matches, top_k_names, top_rank_names, RankKey, RankKeyV};
use crate::report::{
    site_report_matches, tag_counts_match, Report, SiteEntry, TotalsReport,
};
use crate::site::{site_fold, Site, SiteV};
use crate::tag_information::TagV;
use crate::tags_collection::{
    lemma_tag_map_merge_associative, lemma_tag_map_merge_identity, tag_map_merge, TagsCollection,
};
use crate::text::{decimal_chars, usize_to_string};

verus! {

/// Mathematical value of a [`SiteInput`].
#[verifier::ext_equal]
pub ghost struct SiteInputV {
    pub name: Option<Seq<char>>,
    pub questions: Seq<QuestionV>,
}

/// The decoded content of one input file: the file's name, if it has one, and
/// its successfully decoded questions.  Lines that could not be decoded are
/// simply absent.
#[derive(Debug)]
pub struct SiteInput {
    pub name: Option<String>,
    pub questions: Vec<QuestionInformation>,
}

impl View for SiteInput {
    type V = SiteInputV;

    open spec fn view(&self) -> SiteInputV {
        SiteInputV { name: self.name.deep_view(), questions: self.questions.deep_view() }
    }
}

impl DeepView for SiteInput {
    type V = SiteInputV;

    open spec fn deep_view(&self) -> SiteInputV {
        self.view()
    }
}

#[verifier::external_type_specification]
#[verifier::external_body]
pub struct ExThreadPoolBuildError(rayon::ThreadPoolBuildError);

/// Relies on `rayon::ThreadPoolBuilder::build_global`: configures the global
/// worker pool with the requested number of threads; fails if a pool was
/// already built.
#[verifier::external_body]
fn build_global_pool(num_threads: usize) -> (r: Result<(), rayon::ThreadPoolBuildError>) {
    ThreadPoolBuilder::new().num_threads(num_threads).build_global()
}

/// Relies on the `Display` impl of `rayon::ThreadPoolBuildError` to describe
/// the failure.
#[verifier::external_body]
fn pool_error_message(e: &rayon::ThreadPoolBuildError) -> (s: String) {
    e.to_string()
}

/// Relies on rayon's `fold`/`reduce`: `fold` accumulates contiguous runs of
/// the questions, in order, into sites seeded by `Site::new`, and `reduce`
/// combines the partial sites with `Site::merge`.  `reduce` requires an
/// associative operation and a true identity; merging sites is proved
/// associative, commutative and with the fresh site as identity in this crate
/// (`lemma_site_merge_associative`, `lemma_site_merge_commutative`,
/// `lemma_site_merge_identity`), and folding a split stream piecewise equals
/// folding it whole (`lemma_site_fold_homomorphism`), so every partition and
/// reduction order yields the sequential fold.
#[verifier::external_body]
fn par_fold_site(name: Option<String>, questions: Vec<QuestionInformation>) -> (s: Site)
    ensures
        s.wf(),
        s@ == site_fold(name.deep_view(), questions.deep_view()),
{
    questions
        .into_par_iter()
        .fold(|| Site::new(name.clone()), |mut site: Site, q| { site.add_question(q); site })
        .reduce(|| Site::new(name.clone()), |mut site: Site, other| { site.merge(other); site })
}

/// The tag map obtained by merging the tag maps of all sites, in order, into
/// an empty accumulator.
pub open spec fn all_tags_fold(svs: Seq<SiteV>) -> Map<Seq<char>, TagV>
    decreases svs.len(),
{
    if svs.len() == 0 {
        Map::empty()
    } else {
        tag_map_merge(all_tags_fold(svs.drop_last()), svs.last().tags)
    }
}

/// Relies on rayon's `fold`/`reduce`: partial tag collections are built from
/// contiguous runs of the sites, in order, with `TagsCollection::merge_ref`
/// and combined with `TagsCollection::merge`.  `reduce` requires an
/// associative operation and a true identity; merging tag maps is proved
/// associative, commutative and with the empty collection as identity in this
/// crate (`lemma_tag_map_merge_associative`,
/// `lemma_tag_map_merge_commutative`, `lemma_tag_map_merge_identity`), and
/// folding a split site list piecewise equals folding it whole
/// (`lemma_all_tags_fold_homomorphism`), so every partition and reduction
/// order yields the sequential fold.
#[verifier::external_body]
fn par_merge_tags(sites: &Vec<Site>) -> (t: TagsCollection)
    requires
        forall|i: int| 0 <= i < sites@.len() ==> (#[trigger] sites@[i]).wf(),
    ensures
        t.wf(),
        t@ == all_tags_fold(sites.deep_view()),
{
    sites
        .par_iter()
        .fold(TagsCollection::new, |mut tags: TagsCollection, site| {
            tags.merge_ref(site.get_tags());
            tags
        })
        .reduce(TagsCollection::new, |mut tags: TagsCollection, other| {
            tags.merge(other);
            tags
        })
}

/// Merging the tag maps of a site list that is split in two and folded
/// piecewise gives the same map as folding the whole list: partitioning the
/// cross-site aggregation and merging the partial results loses nothing.
pub proof fn lemma_all_tags_fold_homomorphism(s1: Seq<SiteV>, s2: Seq<SiteV>)
    ensures
        all_tags_fold(s1 + s2) == tag_map_merge(all_tags_fold(s1), all_tags_fold(s2)),
    decreases s2.len(),
{
    if s2.len() == 0 {
        assert(s1 + s2 =~= s1);
        lemma_tag_map_merge_identity(all_tags_fold(s1));
    } else {
        assert((s1 + s2).drop_last() =~= s1 + s2.drop_last());
        assert((s1 + s2).last() == s2.last());
        lemma_all_tags_fold_homomorphism(s1, s2.drop_last());
        lemma_tag_map_merge_associative(
            all_tags_fold(s1),
            all_tags_fold(s2.drop_last()),
            s2.last().tags,
        );
    }
}

/// The display name a site ranks under: its own name, or a fixed fallback
/// where the file had none.
pub open spec fn site_display_name(name: Option<Seq<char>>) -> Seq<char> {
    match name {
        Some(s) => s,
        None => "Archivo sin nombre"@,
    }
}

/// The ranking keys of a sequence of sites.
pub open spec fn site_keys(svs: Seq<SiteV>) -> Seq<RankKeyV> {
    svs.map_values(
        |s: SiteV| RankKeyV {
            questions: s.question_count,
            words: s.word_count,
            name: site_display_name(s.name),
        },
    )
}

/// The ranking keys of a corpus; a corpus that was never loaded has none.
pub open spec fn site_keys_of(v: Option<Seq<SiteV>>) -> Seq<RankKeyV> {
    match v {
        Some(svs) => site_keys(svs),
        None => Seq::empty(),
    }
}

/// The global tag map of a corpus; empty when nothing was loaded.
pub open spec fn all_tags_of(v: Option<Seq<SiteV>>) -> Map<Seq<char>, TagV> {
    match v {
        Some(svs) => all_tags_fold(svs),
        None => Map::empty(),
    }
}

/// The name a site is reported under: its own name, or its position in the
/// site list rendered as decimal text where the file had none.
pub open spec fn site_entry_name(name: Option<Seq<char>>, index: int) -> Seq<char> {
    match name {
        Some(s) => s,
        None => decimal_chars(index as nat),
    }
}

/// The entries `entries` report exactly the sites of the corpus `v`, in
/// order.
pub open spec fn sites_report_matches(entries: Seq<SiteEntry>, v: Option<Seq<SiteV>>) -> bool {
    match v {
        None => entries.len() == 0,
        Some(svs) => {
            &&& entries.len() == svs.len()
            &&& forall|i: int|
                0 <= i < svs.len() ==> {
                    &&& (#[trigger] entries[i]).name@ == site_entry_name(svs[i].name, i)
                    &&& site_report_matches(entries[i].report, svs[i])
                }
        },
    }
}

/// The corpus: one aggregated site per input file, absent until loaded.
#[derive(Debug)]
pub struct SitesCollection {
    sites: Option<Vec<Site>>,
}

impl View for SitesCollection {
    type V = Option<Seq<SiteV>>;

    closed spec fn view(&self) -> Option<Seq<SiteV>> {
        match self.sites {
            Some(ref v) => Some(v.deep_view()),
            None => None,
        }
    }
}

impl SitesCollection {
    /// True when every loaded site is well formed.
    pub closed spec fn wf(&self) -> bool {
        match self.sites {
            Some(ref v) => forall|i: int| 0 <= i < v@.len() ==> (#[trigger] v@[i]).wf(),
            None => true,
        }
    }

    /// Creates a collection with no sites loaded yet.
    pub fn new() -> (r: Self)
        ensures
            r@ is None,
            r.wf(),
    {
        SitesCollection { sites: None }
    }

    /// Configures the process-wide worker pool with `num_threads` workers.
    /// Whether the pool can still be configured depends on the state of the
    /// process, so success is not promised; every failure is reported as
    /// `ErrorWhileBuildingThreadpool`.
    pub fn set_thread_amount(&self, num_threads: u8) -> (r: Result<(), ParsingError>)
        ensures
            r is Err ==> r->Err_0 is ErrorWhileBuildingThreadpool,
    {
        match build_global_pool(num_threads as usize) {
            Ok(()) => Ok(()),
            Err(e) => Err(ParsingError::ErrorWhileBuildingThreadpool(pool_error_message(&e))),
        }
    }

    /// Loads the sites from the decoded input files: each file's questions
    /// are folded, possibly in parallel, into one site named after the file.
    pub fn load_sites(&mut self, files: Vec<SiteInput>)
        ensures
            final(self).wf(),
            final(self)@ == Some(
                files.deep_view().map_values(|f: SiteInputV| site_fold(f.name, f.questions)),
            ),
    {
        let ghost fviews = files.deep_view();
        let mut remaining = files;
        let total = remaining.len();
        let mut sites: Vec<Site> = Vec::new();
        let mut i: usize = 0;
        while remaining.len() > 0
            invariant
                i <= total,
                total == fviews.len(),
                i + remaining@.len() == fviews.len(),
                remaining.deep_view() =~= fviews.skip(i as int),
                sites.deep_view() =~= fviews.take(i as int).map_values(
                    |f: SiteInputV| site_fold(f.name, f.questions),
                ),
                forall|t: int| 0 <= t < sites@.len() ==> (#[trigger] sites@[t]).wf(),
            decreases remaining@.len(),
        {
            let ghost prev = remaining@;
            let ghost prev_sites = sites.deep_view();
            let f = remaining.remove(0);
            let site = par_fold_site(f.name, f.questions);
            sites.push(site);
            proof {
                assert(f@ == prev[0].deep_view());
                assert(prev[0].deep_view() == fviews.skip(i as int)[0]);
                assert(fviews.skip(i as int)[0] == fviews[i as int]);
                assert forall|j: int| 0 <= j < remaining@.len() implies remaining.deep_view()[j]
                    == fviews.skip(i as int + 1)[j] by {
                    assert(remaining@[j] == prev[j + 1]);
                    assert(prev[j + 1].deep_view() == fviews.skip(i as int)[j + 1]);
                    assert(fviews.skip(i as int)[j + 1] == fviews[i as int + j + 1]);
                    assert(fviews.skip(i as int + 1)[j] == fviews[i as int + 1 + j]);
                }
                assert(remaining.deep_view() =~= fviews.skip(i as int + 1));
                assert(site@ == site_fold(fviews[i as int].name, fviews[i as int].questions));
                assert(sites.deep_view() =~= prev_sites.push(site@));
                assert(fviews.take(i as int + 1).drop_last() =~= fviews.take(i as int));
                assert(fviews.take(i as int + 1).last() == fviews[i as int]);
                assert(fviews.take(i as int + 1).map_values(
                    |f: SiteInputV| site_fold(f.name, f.questions),
                ) =~= prev_sites.push(site@));
            }
            i = i + 1;
        }
        proof {
            assert(fviews.take(i as int) =~= fviews);
        }
        self.sites = Some(sites);
    }

    /// Merges the tag collections of all loaded sites, possibly in parallel,
    /// into one global tag collection.
    pub fn get_all_tags(&self) -> (r: TagsCollection)
        requires
            self.wf(),
        ensures
            r.wf(),
            r@ == all_tags_of(self@),
    {
        match &self.sites {
            Some(sites) => par_merge_tags(sites),
            None => TagsCollection::new(),
        }
    }

    /// Returns the names of the at most `number_of_sites` chattiest sites:
    /// highest words-per-question ratio first, sites without questions last,
    /// ties broken by name.
    pub fn get_chatty_sites(&self, number_of_sites: u8) -> (r: Vec<String>)
        requires
            self.wf(),
        ensures
            r.deep_view() == top_k_names(site_keys_of(self@), number_of_sites as int),
    {
        match &self.sites {
            Some(sites) => {
                let n = sites.len();
                let mut keys: Vec<RankKey> = Vec::new();
                let mut i: usize = 0;
                while i < n
                    invariant
                        i <= n,
                        n == sites@.len(),
                        keys@.len() == i,
                        forall|t: int|
                            0 <= t < i ==> (#[trigger] keys@[t])@ == site_keys(
                                sites.deep_view(),
                            )[t],
                    decreases n - i,
                {
                    let site = &sites[i];
                    let name = match &site.name {
                        Some(name) => name.clone(),
                        None => String::from_str("Archivo sin nombre"),
                    };
                    keys.push(
                        RankKey {
                            questions: site.question_count,
                            words: site.word_count,
                            name,
                        },
                    );
                    i = i + 1;
                }
                let r = top_rank_names(keys, number_of_sites as usize);
                proof {
                    assert(crate::ranking::kviews(keys@) =~= site_keys(sites.deep_view()));
                }
                r
            },
            None => {
                let r: Vec<String> = Vec::new();
                proof {
                    lemma_top_k_of_empty(number_of_sites as int);
                    assert(r.deep_view() =~= Seq::<Seq<char>>::empty());
                }
                r
            },
        }
    }

    /// Reports every loaded site, in order; a site without a name is keyed by
    /// its position in the list.
    pub fn generate_sites_report(&self) -> (r: Vec<SiteEntry>)
        requires
            self.wf(),
        ensures
            sites_report_matches(r@, self@),
    {
        let mut r: Vec<SiteEntry> = Vec::new();
        match &self.sites {
            Some(sites) => {
                let n = sites.len();
                let mut i: usize = 0;
                while i < n
                    invariant
                        i <= n,
                        n == sites@.len(),
                        forall|t: int| 0 <= t < sites@.len() ==> (#[trigger] sites@[t]).wf(),
                        r@.len() == i,
                        forall|t: int|
                            0 <= t < i ==> {
                                &&& (#[trigger] r@[t]).name@ == site_entry_name(
                                    sites.deep_view()[t].name,
                                    t,
                                )
                                &&& site_report_matches(r@[t].report, sites.deep_view()[t])
                            },
                    decreases n - i,
                {
                    let site = &sites[i];
                    let name = match &site.name {
                        Some(name) => name.clone(),
                        None => usize_to_string(i),
                    };
                    let report = site.generate_report();
                    r.push(SiteEntry { name, report });
                    i = i + 1;
                }
            },
            None => {},
        }
        r
    }

    /// Assembles the totals section: the ten chattiest sites and the ten
    /// chattiest tags of the given global tag collection.
    pub fn generate_totals_report(&self, tags: TagsCollection) -> (r: TotalsReport)
        requires
            self.wf(),
            tags.wf(),
        ensures
            r.chatty_sites.deep_view() == top_k_names(site_keys_of(self@), 10),
            chatty_matches(r.chatty_tags.deep_view(), tags@, 10),
    {
        TotalsReport {
            chatty_sites: self.get_chatty_sites(10),
            chatty_tags: tags.generate_chatty_tags(10),
        }
    }

    /// Assembles the whole report: the caller's identifier, one entry per
    /// site, the global tag breakdown, and the totals section.
    pub fn generate_report_information(&self, padron: &str) -> (r: Report)
        requires
            self.wf(),
        ensures
            r.padron@ == padron@,
            sites_report_matches(r.sites@, self@),
            tag_counts_match(r.tags@, all_tags_of(self@)),
            r.totals.chatty_sites.deep_view() == top_k_names(site_keys_of(self@), 10),
            chatty_matches(r.totals.chatty_tags.deep_view(), all_tags_of(self@), 10),
    {
        let tags = self.get_all_tags();
        let sites = self.generate_sites_report();
        let tag_report = tags.generate_report();
        let totals = self.generate_totals_report(tags);
        Report { padron: String::from_str(padron), sites, tags: tag_report, totals }
    }
}

impl Default for SitesCollection {
    /// Creates a collection with no sites loaded, as [`SitesCollection::new`]
    /// does.
    fn default() -> (r: Self)
        ensures
            r@ is None,
            r.wf(),
    {
        Self::new()
    }
}

proof fn lemma_top_k_of_empty(k: int)
    requires
        0 <= k,
    ensures
        top_k_names(Seq::empty(), k) == Seq::<Seq<char>>::empty(),
{
    broadcast use vstd::seq_lib::group_to_multiset_ensures;

    crate::ranking::lemma_rank_order_total();
    let s = Seq::<RankKeyV>::empty();
    s.lemma_sort_by_ensures(crate::ranking::rank_order());
    assert(s.to_multiset().len() == 0);
    assert(crate::ranking::ranked(s).len() == 0);
    assert(top_k_names(s, k) =~= Seq::<Seq<char>>::empty());
}

} // verus!
