use site_stats::question::Question;
use site_stats::question_information::QuestionInformation;

#[test]
fn into_information() {
    let question = Question {
        texts: vec!["Hello".to_string(), "World".to_string()],
        tags: vec!["tag1".to_string(), "tag2".to_string()],
    };
    let question_information = question.into_information();
    assert_eq!(question_information.words, 2);
    assert_eq!(
        question_information.tags,
        vec!["tag1".to_string(), "tag2".to_string()]
    );
}

#[test]
fn new() {
    let question_information =
        QuestionInformation::new(10, vec!["tag1".to_string(), "tag2".to_string()]);
    assert_eq!(question_information.words, 10);
    assert_eq!(
        question_information.tags,
        vec!["tag1".to_string(), "tag2".to_string()]
    );
}

#[test]
fn word_count_is_capped_at_the_field_maximum() {
    let question = Question {
        texts: vec!["a ".repeat(100); 700],
        tags: vec![],
    };
    let info = question.into_information();
    assert_eq!(info.words, u16::MAX);
}

#[test]
fn word_count_ignores_extra_whitespace() {
    let question = Question {
        texts: vec!["  one   two\tthree ".to_string(), "".to_string(), "four".to_string()],
        tags: vec![],
    };
    let info = question.into_information();
    assert_eq!(info.words, 4);
}
