use zmp::filter::Filter;
use zmp::filter_sync::{desired_filter_names, filter_id_by_name, plan_song_filter_sync};
use zmp::song_filter::SongFilter;

fn filter(id: i32, name: &str) -> Filter {
    Filter { id, name: name.to_string() }
}

#[test]
fn desired_names_are_trimmed_unique_and_non_empty() {
    let names = desired_filter_names(&[
        filter(0, " ambient "),
        filter(0, ""),
        filter(0, "favorites"),
        filter(0, "ambient"),
        filter(0, "   "),
    ]);
    assert_eq!(names, vec!["ambient", "favorites"]);
}

#[test]
fn filter_ids_are_found_by_name() {
    let known = vec![filter(1, "ambient"), filter(2, "electronic")];
    assert_eq!(filter_id_by_name(&known, &"electronic".to_string()), Some(2));
    assert_eq!(filter_id_by_name(&known, &"jazz".to_string()), None);
}

#[test]
fn plan_removes_unwanted_links_and_adds_missing_filters() {
    let existing = vec![
        SongFilter { id: 10, song_id: 1, filter_id: 1 },
        SongFilter { id: 11, song_id: 1, filter_id: 2 },
    ];
    let plan = plan_song_filter_sync(&existing, &vec![2, 3, 3]);
    assert_eq!(plan.remove_song_filter_ids, vec![10]);
    assert_eq!(plan.add_filter_ids, vec![3]);
    assert!(plan.changes());
}

#[test]
fn plan_is_empty_when_links_already_match() {
    let existing = vec![SongFilter { id: 10, song_id: 1, filter_id: 1 }];
    let plan = plan_song_filter_sync(&existing, &vec![1]);
    assert!(plan.remove_song_filter_ids.is_empty());
    assert!(plan.add_filter_ids.is_empty());
    assert!(!plan.changes());
}
