use twitch_data::playlist::{select_quality, try_select_quality};

const PLAYLIST: &str = "#EXTM3U
#EXT-X-TWITCH-INFO:ORIGIN=\"s3\"
#EXT-X-MEDIA:TYPE=VIDEO,GROUP-ID=\"chunked\",NAME=\"1080p60\",AUTOSELECT=YES
#EXT-X-STREAM-INF:BANDWIDTH=6000000
https://a.example/chunked/index-dvr.m3u8
#EXT-X-MEDIA:TYPE=VIDEO,GROUP-ID=\"720p60\",NAME=\"720p60\",AUTOSELECT=YES
#EXT-X-STREAM-INF:BANDWIDTH=3000000
https://a.example/720p60/index-dvr.m3u8
#EXT-X-MEDIA:TYPE=VIDEO,GROUP-ID=\"again\",NAME=\"1080p60\",AUTOSELECT=NO
#EXT-X-STREAM-INF:BANDWIDTH=1
https://a.example/again/index-dvr.m3u8
";

fn choice(playlist: &str, quality: &str) -> Option<(String, Option<String>)> {
    try_select_quality(playlist, quality).map(|selection| (selection.url, selection.fallback))
}

#[test]
fn listed_quality_is_chosen() {
    let selection = select_quality(PLAYLIST, "720p60");
    assert_eq!(selection.url, "https://a.example/720p60/index-dvr.m3u8");
    assert_eq!(selection.fallback, None);
}

#[test]
fn quality_keeps_its_first_address() {
    assert_eq!(
        choice(PLAYLIST, "1080p60"),
        Some(("https://a.example/chunked/index-dvr.m3u8".to_string(), None))
    );
}

#[test]
fn unlisted_quality_falls_back_to_the_first() {
    assert_eq!(
        choice(PLAYLIST, "source"),
        Some(("https://a.example/chunked/index-dvr.m3u8".to_string(), Some("1080p60".to_string())))
    );
    assert_eq!(choice(PLAYLIST, "").unwrap().1, Some("1080p60".to_string()));
}

#[test]
fn carriage_returns_belong_to_no_address() {
    let playlist = PLAYLIST.replace('\n', "\r\n");
    assert_eq!(choice(&playlist, "720p60").unwrap().0, "https://a.example/720p60/index-dvr.m3u8");
}

#[test]
fn name_ends_at_a_quotation_mark_or_with_the_line() {
    assert_eq!(choice("#EXT-X-MEDIA NAME=\"a\nb\nc", "a"), Some(("c".to_string(), None)));
    assert_eq!(choice("#EXT-X-MEDIA NAME=\"\"\nb\nc", ""), Some(("c".to_string(), None)));
    assert_eq!(choice("#EXT-X-MEDIA NAME=\"aNAME=\"b\nb\nc", "a"), Some(("c".to_string(), None)));
}

#[test]
fn one_carriage_return_ends_a_line() {
    assert_eq!(choice(" x#EXT-X-MEDIA NAME=\"a\"\n\n\r\n", "a"), Some((String::new(), None)));
    assert_eq!(choice("#EXT-X-MEDIA NAME=\"a\"\n\n\r\r\n", "a"), Some(("\r".to_string(), None)));
    assert_eq!(choice("#EXT-X-MEDIA NAME=\"a\"\n\nc\r", "a"), Some(("c\r".to_string(), None)));
}

#[test]
fn known_quality_needs_no_address() {
    let playlist = "#EXT-X-MEDIA NAME=\"a\"\nb\nc\n#EXT-X-MEDIA NAME=\"a\"";
    assert_eq!(choice(playlist, "a"), Some(("c".to_string(), None)));
}

#[test]
fn playlist_without_a_choice_is_refused() {
    assert!(choice("", "a").is_none());
    assert!(choice("#EXTM3U\nhttps://a.example", "a").is_none());
    assert!(choice("#EXT-X-MEDIA\nb\nc", "a").is_none());
    assert!(choice("#EXT-X-MEDIA NAME=\"a\"\nb", "a").is_none());
    assert!(choice("#EXT-X-MEDIA NAME=\"a\"\nb\n", "a").is_none());
    assert!(choice("#EXT-X-MEDIA NAME=\"a\"\nb\nc\n#EXT-X-MEDIA", "a").is_none());
}
