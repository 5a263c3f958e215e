//! End-to-end scenarios over the aggregation pipeline, with a line decoder
//! that mirrors the one the binary uses: a JSON object with `texts` and
//! `tags` becomes a question; anything else is dropped.

use site_stats::question::Question;
use site_stats::question_information::QuestionInformation;
use site_stats::report::Report;
use site_stats::sites_collection::{SiteInput, SitesCollection};

fn decode_line(line: &str) -> Option<QuestionInformation> {
    let value: serde_json::Value = serde_json::from_str(line).ok()?;
    let object = value.as_object()?;
    let texts = object
        .get("texts")?
        .as_array()?
        .iter()
        .map(|t| t.as_str().map(|s| s.to_string()))
        .collect::<Option<Vec<String>>>()?;
    let tags = object
        .get("tags")?
        .as_array()?
        .iter()
        .map(|t| t.as_str().map(|s| s.to_string()))
        .collect::<Option<Vec<String>>>()?;
    Some(Question { texts, tags }.into_information())
}

fn input_from_lines(name: &str, lines: &[&str]) -> SiteInput {
    SiteInput {
        name: Some(name.to_string()),
        questions: lines.iter().filter_map(|line| decode_line(line)).collect(),
    }
}

fn tag_counts<'a>(report: &'a Report, name: &str) -> (u32, u32) {
    let entry = report.tags.iter().find(|t| t.name == name).unwrap();
    (entry.questions, entry.words)
}

const SCENARIO_A_LINES: [&str; 2] = [
    r#"{"texts":["uno dos tres"],"tags":["a","b"]}"#,
    r#"{"texts":["uno dos","tres cuatro cinco"],"tags":["a"]}"#,
];

#[test]
fn scenario_one_file_two_questions() {
    let mut sites = SitesCollection::new();
    sites.load_sites(vec![input_from_lines("site1.jsonl", &SCENARIO_A_LINES)]);
    let report = sites.generate_report_information("108225");

    assert_eq!(report.padron, "108225");
    assert_eq!(report.sites.len(), 1);
    assert_eq!(report.sites[0].name, "site1.jsonl");
    assert_eq!(report.sites[0].report.questions, 2);
    assert_eq!(report.sites[0].report.words, 8);
    assert_eq!(tag_counts(&report, "a"), (2, 8));
    assert_eq!(tag_counts(&report, "b"), (1, 3));
}

#[test]
fn scenario_two_identical_files() {
    let mut sites = SitesCollection::new();
    sites.load_sites(vec![
        input_from_lines("site1.jsonl", &SCENARIO_A_LINES),
        input_from_lines("site2.jsonl", &SCENARIO_A_LINES),
    ]);
    let report = sites.generate_report_information("108225");

    // Every global tag count doubles.
    assert_eq!(tag_counts(&report, "a"), (4, 16));
    assert_eq!(tag_counts(&report, "b"), (2, 6));
    // Both sites have ratio 4.0; the tie is broken by name, ascending.
    assert_eq!(
        report.totals.chatty_sites,
        vec!["site1.jsonl".to_string(), "site2.jsonl".to_string()]
    );
}

#[test]
fn scenario_invalid_line_is_dropped() {
    let lines = [
        r#"{"texts":["uno"],"tags":"#,
        r#"{"texts":["uno dos tres cuatro"],"tags":["x"]}"#,
    ];
    let mut sites = SitesCollection::new();
    sites.load_sites(vec![input_from_lines("site.jsonl", &lines)]);
    let report = sites.generate_report_information("108225");

    assert_eq!(report.sites.len(), 1);
    assert_eq!(report.sites[0].report.questions, 1);
    assert_eq!(report.sites[0].report.words, 4);
    assert_eq!(tag_counts(&report, "x"), (1, 4));
}

#[test]
fn malformed_lines_change_no_counters() {
    let valid = [
        r#"{"texts":["one two"],"tags":["x"]}"#,
        r#"{"texts":["three four five"],"tags":["y","x"]}"#,
    ];
    let with_noise = [
        "this is not json",
        r#"{"texts":["one two"],"tags":["x"]}"#,
        r#"{"texts":3,"tags":["z"]}"#,
        r#"[1,2,3]"#,
        r#"{"texts":["three four five"],"tags":["y","x"]}"#,
        r#"{"texts":["missing tags"]}"#,
    ];

    let mut clean = SitesCollection::new();
    clean.load_sites(vec![input_from_lines("s.jsonl", &valid)]);
    let mut noisy = SitesCollection::new();
    noisy.load_sites(vec![input_from_lines("s.jsonl", &with_noise)]);

    let clean_report = clean.generate_report_information("108225");
    let noisy_report = noisy.generate_report_information("108225");
    assert_eq!(clean_report, noisy_report);
}

#[test]
fn unnamed_sites_fall_back_to_positional_keys() {
    let mut sites = SitesCollection::new();
    sites.load_sites(vec![
        SiteInput { name: None, questions: vec![QuestionInformation::new(2, vec![])] },
        SiteInput { name: None, questions: vec![] },
    ]);
    let report = sites.generate_report_information("108225");
    assert_eq!(report.sites.len(), 2);
    assert_eq!(report.sites[0].name, "0");
    assert_eq!(report.sites[1].name, "1");
    // In the chatty ranking, unnamed sites appear under the fixed fallback.
    assert_eq!(report.totals.chatty_sites[0], "Archivo sin nombre");
}

#[test]
fn positional_keys_render_multi_digit_indices() {
    let mut sites = SitesCollection::new();
    let files: Vec<SiteInput> = (0..12)
        .map(|_| SiteInput { name: None, questions: vec![] })
        .collect();
    sites.load_sites(files);
    let report = sites.generate_report_information("108225");
    assert_eq!(report.sites[9].name, "9");
    assert_eq!(report.sites[10].name, "10");
    assert_eq!(report.sites[11].name, "11");
}

#[test]
fn zero_question_site_ranks_strictly_last() {
    let mut sites = SitesCollection::new();
    sites.load_sites(vec![
        SiteInput { name: Some("empty.jsonl".to_string()), questions: vec![] },
        SiteInput {
            name: Some("full.jsonl".to_string()),
            questions: vec![QuestionInformation::new(1, vec![])],
        },
    ]);
    let chatty = sites.get_chatty_sites(10);
    assert_eq!(
        chatty,
        vec!["full.jsonl".to_string(), "empty.jsonl".to_string()]
    );
}

#[test]
fn empty_collection_reports_nothing() {
    let sites = SitesCollection::new();
    let report = sites.generate_report_information("108225");
    assert_eq!(report.padron, "108225");
    assert!(report.sites.is_empty());
    assert!(report.tags.is_empty());
    assert!(report.totals.chatty_sites.is_empty());
    assert!(report.totals.chatty_tags.is_empty());
}
