use twitch_data::pager::{first_page_size, PageCollector};

#[test]
fn page_size_is_given_for_short_lists() {
    assert_eq!(first_page_size(0), Some(0));
    assert_eq!(first_page_size(100), Some(100));
    assert_eq!(first_page_size(101), None);
}

#[test]
fn enough_items_end_the_list() {
    let collector = PageCollector::start(vec![1, 2, 3], 3);
    assert!(!collector.wants_more());
    assert_eq!(collector.into_items(), vec![1, 2, 3]);
    let collector = PageCollector::start(vec![1, 2, 3], 2);
    assert!(!collector.wants_more());
    assert_eq!(collector.into_items(), vec![1, 2, 3]);
    assert!(!PageCollector::<u8>::start(vec![], 0).wants_more());
}

#[test]
fn all_further_pages_are_collected() {
    let mut collector = PageCollector::start(vec![1, 2], 3);
    assert!(collector.wants_more());
    collector.add_page(Some(vec![3, 4]));
    assert!(collector.wants_more());
    collector.add_page(Some(vec![]));
    assert!(collector.wants_more());
    collector.add_page(Some(vec![5]));
    collector.add_page(None);
    assert!(!collector.wants_more());
    assert_eq!(collector.into_items(), vec![1, 2, 3, 4, 5]);
}
