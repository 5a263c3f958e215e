use site_stats::tags_collection::TagsCollection;

#[test]
fn chatty_tags_rank_by_descending_ratio() {
    let mut collection = TagsCollection::new();
    // ratios: hi -> 9.0, mid -> 4.0, low -> 1.0
    collection.add_tags(vec!["low".to_string()], 1);
    collection.add_tags(vec!["hi".to_string()], 9);
    collection.add_tags(vec!["mid".to_string()], 4);
    assert_eq!(
        collection.generate_chatty_tags(10),
        vec!["hi".to_string(), "mid".to_string(), "low".to_string()]
    );
}

#[test]
fn chatty_tags_break_ties_by_name() {
    let mut collection = TagsCollection::new();
    // "b" has ratio 3.0 from one question; "a" has ratio 3.0 from two.
    collection.add_tags(vec!["b".to_string()], 3);
    collection.add_tags(vec!["a".to_string()], 2);
    collection.add_tags(vec!["a".to_string()], 4);
    assert_eq!(
        collection.generate_chatty_tags(10),
        vec!["a".to_string(), "b".to_string()]
    );
}

#[test]
fn chatty_tags_are_deterministic_across_insertion_orders() {
    let mut first = TagsCollection::new();
    first.add_tags(vec!["x".to_string(), "y".to_string(), "z".to_string()], 5);
    first.add_tags(vec!["y".to_string()], 5);

    let mut second = TagsCollection::new();
    second.add_tags(vec!["z".to_string()], 5);
    second.add_tags(vec!["y".to_string(), "x".to_string()], 5);
    second.add_tags(vec!["y".to_string()], 5);

    let once = first.generate_chatty_tags(10);
    let again = first.generate_chatty_tags(10);
    assert_eq!(once, again);
    assert_eq!(once, second.generate_chatty_tags(10));
}

#[test]
fn chatty_tags_cuts_off_at_the_requested_count() {
    let mut collection = TagsCollection::new();
    collection.add_tags(
        vec!["a".to_string(), "b".to_string(), "c".to_string(), "d".to_string()],
        2,
    );
    assert_eq!(collection.generate_chatty_tags(2).len(), 2);
    assert_eq!(collection.generate_chatty_tags(9).len(), 4);
    assert!(TagsCollection::new().generate_chatty_tags(10).is_empty());
}
