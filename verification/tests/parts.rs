use twitch_data::parts::{age_at, creation_time, get_parts, get_parts_at, try_get_parts, Part};
use twitch_data::time::{try_convert_twitch_time, UtcDateTime};

const PLAYLIST: &str = "#EXTM3U
#EXT-X-VERSION:3
#ID3-EQUIV-TDTG:2021-01-01T00:00:00
#EXT-X-PLAYLIST-TYPE:EVENT
#EXTINF:10.000,
0.ts
#EXTINF:9.500,
1-muted.ts
#EXTINF:8.250,
2.ts
#EXT-X-ENDLIST
";

fn listed(parts: &[Part]) -> Vec<(String, String)> {
    parts.iter().map(|part| (part.name.clone(), part.duration.clone())).collect()
}

fn read(playlist: &str) -> Option<Vec<(String, String)>> {
    try_get_parts(playlist).map(|(_, parts)| listed(&parts))
}

fn pairs(list: &[(&str, &str)]) -> Vec<(String, String)> {
    list.iter().map(|(name, duration)| (name.to_string(), duration.to_string())).collect()
}

fn moment(time: &str) -> UtcDateTime {
    try_convert_twitch_time(time).unwrap()
}

#[test]
fn announced_parts_are_listed() {
    let (age, parts) = get_parts(PLAYLIST);
    assert!(age > 24);
    let expected = pairs(&[("0.ts", "10.000"), ("1-muted.ts", "9.500"), ("2.ts", "8.250")]);
    assert_eq!(listed(&parts), expected);
}

#[test]
fn part_made_of_ranges_is_listed_once_with_its_first_duration() {
    let playlist = "#EXTINF:1.5,
#EXT-X-BYTERANGE:9@0
a.ts
#EXTINF:2.5,
#EXT-X-BYTERANGE:9@9
a.ts
#EXTINF:3.5,
b.ts";
    assert_eq!(read(playlist), Some(pairs(&[("a.ts", "1.5"), ("b.ts", "3.5")])));
}

#[test]
fn part_that_is_listed_again_gets_the_later_duration() {
    let playlist = "#EXTINF:1.5,\na.ts\n#EXTINF:3.5,\nb.ts\n#EXTINF:2.5,\na.ts\n";
    assert_eq!(read(playlist), Some(pairs(&[("a.ts", "2.5"), ("b.ts", "3.5")])));
}

#[test]
fn whole_part_counts_more_than_its_ranges() {
    let range = "#EXTINF:1,\n#EXT-X-BYTERANGE:9@0\na.ts\n";
    let whole = "#EXTINF:2,\na.ts\n";
    assert_eq!(read(&format!("{}{}", range, whole)), Some(pairs(&[("a.ts", "2")])));
    assert_eq!(read(&format!("{}{}", whole, range)), Some(pairs(&[("a.ts", "2")])));
}

#[test]
fn known_part_of_a_range_needs_no_duration() {
    let playlist = "#EXTINF:1.5,\na.ts\n#EXTINF\n#EXT-X-BYTERANGE:9@9\na.ts";
    assert_eq!(read(playlist), Some(pairs(&[("a.ts", "1.5")])));
}

#[test]
fn announcing_lines_can_follow_one_another() {
    assert_eq!(
        read("#EXTINF:1,\n#EXTINF:2,\na.ts"),
        Some(pairs(&[("#EXTINF:2,", "1"), ("a.ts", "2")]))
    );
}

#[test]
fn playlist_without_parts_is_read() {
    assert_eq!(read(""), Some(vec![]));
    assert_eq!(read("#EXTM3U\n"), Some(vec![]));
}

#[test]
fn duration_stands_behind_eight_bytes() {
    assert_eq!(read("#EXTINF:1,\na"), Some(pairs(&[("a", "1")])));
    assert_eq!(read("#EXTINF21,\na"), Some(pairs(&[("a", "1")])));
    assert_eq!(read("\u{e4}#EXTINF:1,\na"), None);
    assert_eq!(read("#EXTINF\u{e4}1,\na"), None);
    assert_eq!(read("1234567\u{e4}#EXTINF:1,\na"), None);
}

#[test]
fn duration_is_what_std_reads_as_a_number() {
    for text in [
        "1", "007", "10.000", "1.", ".5", "-1.5", "+1.5", "1e3", "1E3", "1e+3", "1.e-3", ".5E07",
        "inf", "INF", "-Infinity", "+iNfInItY", "NaN", "-nan", "1e999999999999", "0e0",
        "99999999999999999999999999999999999999999999999999",
    ] {
        assert!(text.parse::<f32>().is_ok(), "{}", text);
        assert_eq!(read(&format!("#EXTINF:{},\na", text)), Some(pairs(&[("a", text)])));
    }
    for text in [
        "", ".", "-", "+", "-.", "e3", "1e", "1e+", "1e-", "1e3.5", ".e3", "1.2.3", "1..2", "--1",
        "+-1", "1-", "abc", "in", "infi", "infinityy", "nano", "1f", "0x10", " 1", "1 ", "1_0",
        "1,5", "1ee3", "1e3e3", "\u{e4}", "\u{661}", "1\u{e4}", "e", "E", "1.5e", "1.5.e3",
    ] {
        assert!(text.parse::<f32>().is_err(), "{}", text);
        assert_eq!(read(&format!("#EXTINF:{},\na", text)), None, "{}", text);
    }
}

#[test]
fn part_without_a_name_or_a_duration_is_refused() {
    assert_eq!(read("#EXTINF:1,"), None);
    assert_eq!(read("#EXTINF:1,\n#EXT-X-BYTERANGE:9@0"), None);
    assert_eq!(read("#EXTINF:1\na"), None);
    assert_eq!(read("#EXTINF:1,title\na"), None);
    assert_eq!(read("#EXTINF\na"), None);
    assert_eq!(read("#EXTINF:\na"), None);
    assert_eq!(read("#EXTINF:abc,\na"), None);
    assert_eq!(read("#EXTINF\n#EXT-X-BYTERANGE:9@0\na"), None);
}

#[test]
fn creation_time_is_the_first_one() {
    assert_eq!(creation_time(PLAYLIST), Some("2021-01-01T00:00:00".to_string()));
    assert_eq!(creation_time("a\r\n#ID3-EQUIV-TDTG:b\r\n#ID3-EQUIV-TDTG:c"), Some("b".to_string()));
    assert_eq!(creation_time("#ID3-EQUIV-TDTG:bID3-EQUIV-TDTG:c"), Some("b".to_string()));
    assert_eq!(creation_time("#ID3-EQUIV-TDTG:"), Some(String::new()));
    assert_eq!(creation_time(" #ID3-EQUIV-TDTG:b"), None);
    assert_eq!(creation_time(""), None);
}

#[test]
fn playlist_with_an_unreadable_time_is_refused() {
    assert!(try_get_parts("#ID3-EQUIV-TDTG:yesterday\n").is_none());
    assert!(try_get_parts("#ID3-EQUIV-TDTG:\n").is_none());
    assert!(try_get_parts(" #ID3-EQUIV-TDTG:yesterday\n").is_some());
}

#[test]
fn age_is_counted_in_hours() {
    let created = moment("2021-01-01T00:00:00Z");
    assert_eq!(age_at(Some(created), &moment("2021-01-01T23:59:59Z")), 23);
    assert_eq!(age_at(Some(created), &moment("2021-01-02T00:00:00Z")), 24);
    assert_eq!(age_at(Some(created), &created), 0);
}

#[test]
fn age_and_parts_at_a_given_time() {
    let (age, parts) = get_parts_at(PLAYLIST, &moment("2021-01-01T05:30:00Z"));
    assert_eq!(age, 5);
    assert_eq!(parts.len(), 3);
    assert_eq!(get_parts_at("#EXTM3U", &moment("2021-01-01T05:30:00Z")).0, 25);
}

#[test]
fn video_of_the_future_is_old() {
    let created = moment("2021-01-01T00:00:01Z");
    assert_eq!(age_at(Some(created), &moment("2021-01-01T00:00:00Z")), 5_124_095_576_030_431);
}

#[test]
fn age_without_a_creation_time() {
    assert_eq!(age_at(None, &moment("2021-01-01T00:00:00Z")), 25);
    assert_eq!(try_get_parts("#EXTM3U").unwrap().0, 25);
}

#[test]
fn age_is_counted_to_the_current_time() {
    let made = chrono::Utc::now() - chrono::TimeDelta::hours(5);
    let playlist = format!("#ID3-EQUIV-TDTG:{}\n", made.format("%Y-%m-%dT%H:%M:%S"));
    assert_eq!(try_get_parts(&playlist).unwrap().0, 5);
}
