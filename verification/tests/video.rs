use twitch_data::time::try_convert_twitch_time;
use twitch_data::video::{channel_title, convert_videos, try_convert_videos, video_created_at};
use twitch_data::video::{try_convert_twitch_video_to_twitch_data_video, video_limit};
use twitch_data::video::{TwitchVideo, VideoPrivacy};
use twitch_data::{convert_twitch_video_to_twitch_data_video, VideoQuality};

fn video(id: &str, viewable: VideoPrivacy, created_at: &str, duration: &str) -> TwitchVideo {
    TwitchVideo {
        id: id.to_string(),
        title: "a title".to_string(),
        description: "a description".to_string(),
        user_name: "BananaBrea".to_string(),
        created_at: created_at.to_string(),
        url: "https://www.twitch.tv/videos/1".to_string(),
        viewable,
        language: "de".to_string(),
        view_count: 42,
        duration: duration.to_string(),
        thumbnail_url: "https://a.example/thumb".to_string(),
    }
}

#[test]
fn video_is_converted() {
    let source = video("1", VideoPrivacy::Public, "2021-01-01T00:00:00Z", "2h49m47s");
    let video = convert_twitch_video_to_twitch_data_video(source);
    assert_eq!(video.id, "1");
    assert_eq!(video.title, "a title");
    assert_eq!(video.description, "a description");
    assert_eq!(video.user_login, "BananaBrea");
    assert_eq!(video.created_at.to_string(), "2021-01-01 00:00:00 UTC");
    assert_eq!(video.url, "https://www.twitch.tv/videos/1");
    assert_eq!(video.viewable, "public");
    assert_eq!(video.language, "de");
    assert_eq!(video.view_count, 42);
    assert_eq!(video.video_type, "archive");
    assert_eq!(video.duration, 10187);
    assert_eq!(video.thumbnail_url, "https://a.example/thumb");
}

#[test]
fn private_video_is_converted() {
    let source = video("1", VideoPrivacy::Private, "2021-01-01T00:00:00Z", "1s");
    assert_eq!(try_convert_twitch_video_to_twitch_data_video(source).unwrap().viewable, "private");
}

#[test]
fn video_gets_the_given_time() {
    let created_at = try_convert_twitch_time("2020-01-01T00:00:00Z").unwrap();
    let source = video("1", VideoPrivacy::Public, "never", "1s");
    assert_eq!(video_created_at(source, created_at).created_at.timestamp(), 1_577_836_800);
}

#[test]
fn unreadable_video_is_refused() {
    let time = video("1", VideoPrivacy::Public, "never", "1s");
    assert!(try_convert_twitch_video_to_twitch_data_video(time).is_none());
    let duration = video("1", VideoPrivacy::Public, "2021-01-01T00:00:00Z", "long");
    assert!(try_convert_twitch_video_to_twitch_data_video(duration).is_none());
}

#[test]
fn videos_are_converted_in_order() {
    let sources = || {
        vec![
            video("2", VideoPrivacy::Public, "2021-01-01T00:00:00Z", "2s"),
            video("1", VideoPrivacy::Private, "2021-01-01T00:00:01Z", "1s"),
        ]
    };
    for videos in [convert_videos(sources()), try_convert_videos(sources()).unwrap()] {
        assert_eq!(videos.len(), 2);
        assert_eq!((videos[0].id.as_str(), videos[0].duration), ("2", 2));
        assert_eq!((videos[1].id.as_str(), videos[1].duration), ("1", 1));
        assert_eq!(videos[1].created_at.timestamp(), 1_609_459_201);
    }
    let mut bad = sources();
    bad.push(video("3", VideoPrivacy::Public, "never", "1s"));
    assert!(try_convert_videos(bad).is_none());
    assert_eq!(try_convert_videos(vec![]).unwrap().len(), 0);
}

#[test]
fn quality_has_the_name_of_the_playlist() {
    assert_eq!(VideoQuality::Source.name(), "source");
    assert_eq!(VideoQuality::VeryHigh.name(), "1440p60");
    assert_eq!(VideoQuality::High.name(), "1080p60");
    assert_eq!(VideoQuality::Medium.try_name(), Some("720p60".to_string()));
    assert_eq!(VideoQuality::Low.try_name(), Some("480p60".to_string()));
    assert_eq!(VideoQuality::Other("160p30".to_string()).try_name(), Some("160p30".to_string()));
    assert_eq!(VideoQuality::AudioOnly.try_name(), None);
}

#[test]
fn limit_of_a_list() {
    assert_eq!(video_limit(None), 10000);
    assert_eq!(video_limit(Some(3)), 3);
}

#[test]
fn title_of_a_channel() {
    assert_eq!(channel_title(Some("a title".to_string())), Ok("a title".to_string()));
    assert_eq!(channel_title(None), Err("No channel info found".to_string()));
}
