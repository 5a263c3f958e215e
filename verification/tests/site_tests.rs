use site_stats::question_information::QuestionInformation;
use site_stats::site::Site;

#[test]
fn site_test_new() {
    let site = Site::new(Some("site".to_string()));
    assert_eq!(site.name, Some("site".to_string()));
    assert_eq!(site.question_count, 0);
    assert_eq!(site.word_count, 0);
}

#[test]
fn site_test_merge() {
    let mut site1 = Site::new(Some("site1".to_string()));
    site1.question_count = 10;
    site1.word_count = 100;
    site1.tags.add_tags(vec!["tag1".to_string()], 10);

    let mut site2 = Site::new(Some("site2".to_string()));
    site2.question_count = 20;
    site2.word_count = 200;
    site2.tags.add_tags(vec!["tag2".to_string()], 20);

    site1.merge(site2);

    assert_eq!(site1.question_count, 30);
    assert_eq!(site1.word_count, 300);
}

#[test]
fn test_add_question() {
    let mut site = Site::new(Some("site".to_string()));
    let question = QuestionInformation {
        words: 10,
        tags: vec!["tag1".to_string()],
    };
    site.add_question(question);

    assert_eq!(site.question_count, 1);
    assert_eq!(site.word_count, 10);
}

#[test]
fn test_get_name() {
    let site = Site::new(Some("site".to_string()));
    assert_eq!(site.get_name(), Some("site".to_string()));
}

#[test]
fn test_generate_json() {
    let mut site = Site::new(Some("site".to_string()));
    let question = QuestionInformation {
        words: 10,
        tags: vec!["tag1".to_string()],
    };
    site.add_question(question);

    let site_data = site.generate_report();
    assert_eq!(site_data.questions, 1);
    assert_eq!(site_data.words, 10);
    assert_eq!(site_data.tags.len(), 1);
    assert_eq!(site_data.tags[0].name, "tag1");
    assert_eq!(site_data.tags[0].questions, 1);
    assert_eq!(site_data.tags[0].words, 10);
    assert_eq!(site_data.chatty_tags, vec!["tag1".to_string()]);
}

#[test]
fn from_questions_folds_in_order() {
    let questions = vec![
        QuestionInformation::new(3, vec!["a".to_string(), "b".to_string()]),
        QuestionInformation::new(5, vec!["a".to_string()]),
    ];
    let site = Site::from_questions(Some("site".to_string()), questions);
    assert_eq!(site.question_count, 2);
    assert_eq!(site.word_count, 8);
    let a = site.tags.get("a").unwrap();
    assert_eq!(a.question_count, 2);
    assert_eq!(a.word_count, 8);
    let b = site.tags.get("b").unwrap();
    assert_eq!(b.question_count, 1);
    assert_eq!(b.word_count, 3);
}

#[test]
fn merge_saturates_instead_of_overflowing() {
    let mut site1 = Site::new(None);
    site1.question_count = u32::MAX - 1;
    site1.word_count = u32::MAX;
    let mut site2 = Site::new(None);
    site2.question_count = 5;
    site2.word_count = 7;
    site1.merge(site2);
    assert_eq!(site1.question_count, u32::MAX);
    assert_eq!(site1.word_count, u32::MAX);
}
