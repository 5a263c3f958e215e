use site_stats::tag_information::TagInformation;
use site_stats::tags_collection::TagsCollection;

#[test]
fn tag_information_test_new() {
    let tag_info = TagInformation::new(10);
    assert_eq!(tag_info.question_count, 1);
    assert_eq!(tag_info.word_count, 10);
}

#[test]
fn test_add_appearance() {
    let mut tag_info = TagInformation::new(10);
    tag_info.add_appearance(5);
    assert_eq!(tag_info.question_count, 2);
    assert_eq!(tag_info.word_count, 15);
}

#[test]
fn tag_information_test_merge() {
    let mut tag_info = TagInformation::new(10);
    tag_info.merge(TagInformation::new(5));
    assert_eq!(tag_info.question_count, 2);
    assert_eq!(tag_info.word_count, 15);
}

#[test]
fn new_tag_collection_is_empty() {
    let collection = TagsCollection::new();
    assert!(collection.is_empty());
}

#[test]
fn add_tags_to_collection() {
    let mut collection = TagsCollection::new();
    collection.add_tags(vec!["tag1".to_string(), "tag2".to_string()], 10);
    assert_eq!(collection.len(), 2);
    assert_eq!(collection.get("tag1").unwrap().word_count, 10);
    assert_eq!(collection.get("tag2").unwrap().word_count, 10);
}

#[test]
fn merge_collections() {
    let mut collection1 = TagsCollection::new();
    collection1.add_tags(vec!["tag1".to_string(), "tag2".to_string()], 10);

    let mut collection2 = TagsCollection::new();
    collection2.add_tags(vec!["tag1".to_string(), "tag3".to_string()], 20);

    collection1.merge(collection2);

    assert_eq!(collection1.len(), 3);
    assert_eq!(collection1.get("tag2").unwrap().word_count, 10);
    assert_eq!(collection1.get("tag3").unwrap().word_count, 20);
    assert_eq!(collection1.get("tag1").unwrap().word_count, 30);
}

#[test]
fn duplicate_tags_in_one_question_count_twice() {
    let mut collection = TagsCollection::new();
    collection.add_tags(vec!["dup".to_string(), "dup".to_string()], 4);
    assert_eq!(collection.len(), 1);
    let info = collection.get("dup").unwrap();
    assert_eq!(info.question_count, 2);
    assert_eq!(info.word_count, 8);
}

#[test]
fn get_missing_tag_is_none() {
    let mut collection = TagsCollection::new();
    collection.add_tags(vec!["tag1".to_string()], 10);
    assert!(collection.get("tag2").is_none());
}

#[test]
fn merge_ref_keeps_the_source_usable() {
    let mut collection1 = TagsCollection::new();
    collection1.add_tags(vec!["a".to_string()], 1);
    let mut collection2 = TagsCollection::new();
    collection2.add_tags(vec!["a".to_string(), "b".to_string()], 2);

    collection1.merge_ref(&collection2);

    assert_eq!(collection1.get("a").unwrap().word_count, 3);
    assert_eq!(collection1.get("b").unwrap().word_count, 2);
    assert_eq!(collection2.len(), 2);
    assert_eq!(collection2.get("a").unwrap().word_count, 2);
}
