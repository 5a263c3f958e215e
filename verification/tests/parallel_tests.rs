//! Aggregating a fixed input with different worker-pool sizes must produce
//! identical reports.

use site_stats::question_information::QuestionInformation;
use site_stats::report::Report;
use site_stats::sites_collection::{SiteInput, SitesCollection};

fn inputs() -> Vec<SiteInput> {
    let mut files = Vec::new();
    for f in 0..4u32 {
        let mut questions = Vec::new();
        for q in 0..50u16 {
            questions.push(QuestionInformation::new(
                (q % 7) + 1,
                vec![format!("tag{}", q % 5), format!("tag{}", (q + f as u16) % 3)],
            ));
        }
        files.push(SiteInput {
            name: Some(format!("site{}.jsonl", f)),
            questions,
        });
    }
    files
}

fn aggregate_with_pool(num_threads: usize) -> Report {
    let pool = rayon::ThreadPoolBuilder::new()
        .num_threads(num_threads)
        .build()
        .unwrap();
    pool.install(|| {
        let mut sites = SitesCollection::new();
        sites.load_sites(inputs());
        sites.generate_report_information("108225")
    })
}

#[test]
fn parallelism_invariance() {
    let with_one = aggregate_with_pool(1);
    let with_two = aggregate_with_pool(2);
    let with_eight = aggregate_with_pool(8);
    assert_eq!(with_one, with_two);
    assert_eq!(with_one, with_eight);
}
