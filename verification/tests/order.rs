use twitch_data::order::{part_number, sort_video_part_filenames, try_sort_video_part_filenames};

fn names(list: &[&str]) -> Vec<String> {
    list.iter().map(|name| name.to_string()).collect()
}

#[test]
fn plain_part_has_the_number_in_its_name() {
    assert_eq!(part_number("7", "12.ts"), Some(12));
    assert_eq!(part_number("7", "0012.ts"), Some(12));
    assert_eq!(part_number("7", "12"), Some(12));
    assert_eq!(part_number("7", "+12.ts"), Some(12));
    assert_eq!(part_number("7", "1.ts2.ts"), Some(12));
    assert_eq!(part_number("7", "4294967295.ts"), Some(4_294_967_295));
    assert_eq!(part_number("7", "4294967296.ts"), None);
}

#[test]
fn muted_part_has_the_number_of_the_part() {
    assert_eq!(part_number("7", "12-muted.ts"), part_number("7", "12.ts"));
    assert_eq!(part_number("7", "7v1-12-muted.ts"), Some(12));
    assert_eq!(part_number("7", "video-muted.ts"), None);
    assert_eq!(part_number("7", "1-mu-muted2"), None);
}

#[test]
fn part_of_a_revision_has_the_number_behind_the_hyphen() {
    assert_eq!(part_number("1792000647", "1792000647v1-34.ts"), Some(34));
    assert_eq!(part_number("1792000647", "1792000647v-34-56.ts"), Some(34));
    assert_eq!(part_number("", "v1-2.ts"), Some(2));
}

#[test]
fn other_names_have_no_number() {
    for name in ["", ".ts", "video.ts", "8v1-34.ts", "7-34.ts", "7v34.ts", "7v1-.ts", "7v1-x.ts", "-1.ts"] {
        assert_eq!(part_number("7", name), None, "{}", name);
    }
}

#[test]
fn parts_are_sorted_by_number() {
    let list = names(&["10.ts", "2-muted.ts", "1.ts", "7v1-3.ts"]);
    assert_eq!(sort_video_part_filenames("7", &list), vec![2, 1, 3, 0]);
    assert_eq!(try_sort_video_part_filenames("7", &list), Some(vec![2, 1, 3, 0]));
}

#[test]
fn parts_with_the_same_number_stay_as_they_are() {
    let list = names(&["1-muted.ts", "0.ts", "1.ts", "01.ts", "0-muted.ts"]);
    assert_eq!(try_sort_video_part_filenames("7", &list), Some(vec![1, 4, 0, 2, 3]));
}

#[test]
fn order_does_not_need_numbers_where_nothing_is_compared() {
    assert_eq!(try_sort_video_part_filenames("7", &names(&[])), Some(vec![]));
    assert_eq!(try_sort_video_part_filenames("7", &names(&["video.ts"])), Some(vec![0]));
    assert_eq!(sort_video_part_filenames("7", &names(&["video.ts"])), vec![0]);
    assert_eq!(try_sort_video_part_filenames("7", &names(&["1.ts", "video.ts"])), None);
    assert_eq!(try_sort_video_part_filenames("7", &names(&["video.ts", "1.ts"])), None);
}
