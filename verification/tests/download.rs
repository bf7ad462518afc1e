use twitch_data::download::{assembly_steps, combine_steps, convert_steps, finished_file};
use twitch_data::download::is_part_file;
use twitch_data::download::{may_unmute, part_addresses, part_downloads, plan_batches, require_part};
use twitch_data::download::{AssemblyStep, CONVERTED_FILE, JOINED_FILE};
use twitch_data::order::sort_video_part_filenames;
use twitch_data::parts::Part;
use twitch_data::url::get_base_url;

fn part(name: &str) -> Part {
    Part { name: name.to_string(), duration: "10.000".to_string() }
}

#[test]
fn videos_of_the_last_day_may_be_unmuted() {
    assert!(may_unmute(0));
    assert!(may_unmute(23));
    assert!(!may_unmute(24));
    assert!(!may_unmute(25));
    assert!(!may_unmute(u64::MAX));
}

#[test]
fn batches_keep_the_order_of_the_parts() {
    assert_eq!(plan_batches(vec![1, 2, 3, 4], 2).unwrap(), vec![vec![1, 2], vec![3, 4]]);
    assert_eq!(plan_batches(vec!['a', 'b', 'c'], 3).unwrap(), vec![vec!['a', 'b', 'c']]);
    assert_eq!(plan_batches(vec![1, 2], 1).unwrap(), vec![vec![1], vec![2]]);
}

#[test]
fn batches_have_at_least_one_part_and_no_more_than_there_are() {
    assert_eq!(plan_batches(vec![1, 2], 0).unwrap(), vec![vec![1], vec![2]]);
    assert_eq!(plan_batches(vec![1, 2], 9).unwrap(), vec![vec![1, 2]]);
    assert_eq!(plan_batches(vec![1, 2], u64::MAX).unwrap(), vec![vec![1, 2]]);
}

#[test]
fn parts_that_do_not_fill_a_batch_are_left_out() {
    assert_eq!(plan_batches(vec![1, 2, 3, 4, 5], 2).unwrap(), vec![vec![1, 2], vec![3, 4]]);
    assert_eq!(plan_batches(vec![1, 2, 3], 2).unwrap(), vec![vec![1, 2]]);
}

#[test]
fn all_parts_are_in_batches_that_divide_them() {
    let batches = plan_batches((0..12).collect::<Vec<i32>>(), 4).unwrap();
    let all: Vec<i32> = batches.into_iter().flatten().collect();
    assert_eq!(all, (0..12).collect::<Vec<i32>>());
}

#[test]
fn no_parts_are_an_error() {
    let error = plan_batches(Vec::<u8>::new(), 4).unwrap_err();
    assert_eq!(error.to_string(), "DownloadError: No parts found");
}

#[test]
fn listed_address_is_tried_last() {
    assert_eq!(part_addresses("https://a/", "1.ts", false), vec!["https://a/1.ts"]);
    assert_eq!(part_addresses("b/", "1.ts", true), vec!["b/1.ts", "b/1.ts"]);
    assert_eq!(part_addresses("https://a/", "1-muted.ts", false), vec!["https://a/1-muted.ts"]);
}

#[test]
fn muted_part_is_first_tried_unmuted() {
    assert_eq!(
        part_addresses("https://a-muted/", "1-muted.ts", true),
        vec!["https://a-muted/1.ts", "https://a-muted/1-muted.ts"]
    );
    assert_eq!(part_addresses("", "-muted-muted", true)[0], "");
}

#[test]
fn parts_lie_beside_their_playlist() {
    let base = get_base_url("https://a.example/chunked/index-dvr.m3u8");
    assert_eq!(part_addresses(&base, "1.ts", false), vec!["https://a.example/chunked/1.ts"]);
}

#[test]
fn downloads_of_a_young_video_try_to_unmute() {
    let downloads = part_downloads("b/", &vec![part("1-muted.ts"), part("2.ts")], 23);
    assert_eq!(downloads.len(), 2);
    assert_eq!(downloads[0].name, "1-muted.ts");
    assert_eq!(downloads[0].urls, vec!["b/1.ts", "b/1-muted.ts"]);
    assert_eq!(downloads[1].name, "2.ts");
    assert_eq!(downloads[1].urls, vec!["b/2.ts", "b/2.ts"]);
}

#[test]
fn downloads_of_an_old_video_do_not() {
    let downloads = part_downloads("b/", &vec![part("1-muted.ts")], 24);
    assert_eq!(downloads[0].name, "1-muted.ts");
    assert_eq!(downloads[0].urls, vec!["b/1-muted.ts"]);
}

#[test]
fn missing_part_is_an_error() {
    assert_eq!(require_part(Some("1.ts")).unwrap(), "1.ts");
    let error = require_part::<u8>(None).unwrap_err();
    assert_eq!(error.to_string(), "DownloadError: Error while downloading all parts");
}

#[test]
fn part_is_given_up_when_all_addresses_failed() {
    let downloads = part_downloads("b/", &vec![part("1-muted.ts")], 0);
    assert_eq!(downloads[0].address_after(0), Some(&"b/1.ts".to_string()));
    assert_eq!(downloads[0].address_after(1), Some(&"b/1-muted.ts".to_string()));
    assert_eq!(downloads[0].address_after(2), None);
    assert_eq!(downloads[0].address_after(usize::MAX), None);
}

#[test]
fn joined_file_is_no_part() {
    assert!(is_part_file("1.ts"));
    assert!(is_part_file("video.mp4"));
    assert!(is_part_file(""));
    assert!(!is_part_file("video.ts"));
}

#[test]
fn names_of_the_files() {
    assert_eq!(JOINED_FILE, "video.ts");
    assert_eq!(CONVERTED_FILE, "video.mp4");
    assert_eq!(finished_file("1792000647"), "1792000647.mp4");
}

#[test]
fn parts_are_added_in_order_and_removed_afterwards() {
    assert_eq!(
        combine_steps(&vec![1, 0]),
        vec![
            AssemblyStep::CreateJoined,
            AssemblyStep::AppendPart(1),
            AssemblyStep::RemovePart(1),
            AssemblyStep::AppendPart(0),
            AssemblyStep::RemovePart(0),
        ]
    );
    assert_eq!(combine_steps(&vec![]), vec![AssemblyStep::CreateJoined]);
}

#[test]
fn parts_are_added_by_their_numbers() {
    let names = vec!["10.ts".to_string(), "9-muted.ts".to_string(), "9.ts".to_string()];
    let added: Vec<AssemblyStep> = assembly_steps(&sort_video_part_filenames("1", &names))
        .into_iter()
        .filter(|step| matches!(step, AssemblyStep::AppendPart(_)))
        .collect();
    assert_eq!(
        added,
        vec![AssemblyStep::AppendPart(1), AssemblyStep::AppendPart(2), AssemblyStep::AppendPart(0)]
    );
}

#[test]
fn folder_is_removed_last() {
    assert_eq!(convert_steps(), vec![AssemblyStep::RemoveConverted, AssemblyStep::Convert]);
    assert_eq!(
        assembly_steps(&vec![0]),
        vec![
            AssemblyStep::CreateJoined,
            AssemblyStep::AppendPart(0),
            AssemblyStep::RemovePart(0),
            AssemblyStep::RemoveConverted,
            AssemblyStep::Convert,
            AssemblyStep::Publish,
            AssemblyStep::RemoveFolder,
        ]
    );
}
