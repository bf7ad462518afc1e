use twitch_data::url::{get_base_url, playlist_url, try_get_base_url};

#[test]
fn test_get_base_url() {
    let url = "https://dqrpb9wgowsf5.cloudfront.net/5f3ee3729979d8e1eab3_halfwayhardcore_42051664507_1680818535/chunked/index-dvr.m3u8";
    let base_url = get_base_url(url);
    assert_eq!(base_url, "https://dqrpb9wgowsf5.cloudfront.net/5f3ee3729979d8e1eab3_halfwayhardcore_42051664507_1680818535/chunked/");
}

#[test]
fn base_url_is_the_folder() {
    assert_eq!(get_base_url("a/b/c"), "a/b/");
    assert_eq!(get_base_url("a/b/"), "a/b/");
    assert_eq!(try_get_base_url("a/b/c"), Some("a/b/".to_string()));
}

#[test]
fn base_url_is_its_own_base() {
    for url in ["a", "/", "//", "a/", "/a", "a/b", "https://a.example/b?c=d/e"] {
        let base = get_base_url(url);
        assert_eq!(get_base_url(&base), base);
    }
}

#[test]
fn slash_in_the_first_place_does_not_count() {
    assert_eq!(get_base_url("/a"), "/");
    assert_eq!(get_base_url("abc"), "a");
    assert_eq!(get_base_url("//a"), "//");
}

#[test]
fn base_url_needs_ascii() {
    assert_eq!(try_get_base_url(""), None);
    assert_eq!(try_get_base_url("a/\u{e4}/b"), None);
}

#[test]
fn playlist_url_holds_the_token() {
    assert_eq!(
        playlist_url("1", "{\"a\":2}", "f00"),
        "http://usher.twitch.tv/vod/1?nauth={\"a\":2}&nauthsig=f00&allow_source=true&player=twitchweb"
    );
}
