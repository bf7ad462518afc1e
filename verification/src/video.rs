//! Videos, and what Twitch tells of them.
use vstd::pervasive::unreached;
use vstd::prelude::*;

use crate::duration::{adds_up, convert_twitch_duration, duration_read};
use crate::duration::{law_hours_minutes_seconds_are_read, try_convert_twitch_duration};
use crate::number::{decimal_value, is_number};
use crate::time::{convert_twitch_timestamp, is_instant, time_read, truncated_quotient};
use crate::time::{try_convert_twitch_time, UtcDateTime, TWITCH_TIME_FORMAT};

verus! {

/// The quality in which a video is asked for.
#[derive(Debug)]
pub enum VideoQuality {
    Source,
    VeryHigh,
    High,
    Medium,
    Low,
    AudioOnly,
    Other(String),
}

impl VideoQuality {
    /// The name of the quality in a playlist. There is none for sound without pictures.
    pub open spec fn spec_name(&self) -> Option<Seq<char>> {
        match self {
            VideoQuality::Source => Some("source"@),
            VideoQuality::VeryHigh => Some("1440p60"@),
            VideoQuality::High => Some("1080p60"@),
            VideoQuality::Medium => Some("720p60"@),
            VideoQuality::Low => Some("480p60"@),
            VideoQuality::AudioOnly => None,
            VideoQuality::Other(name) => Some(name@),
        }
    }

    /// The name of the quality in a playlist.
    pub fn name(&self) -> (name: String)
        requires
            !(self is AudioOnly),
        ensures
            Some(name@) == self.spec_name(),
    {
        match self {
            VideoQuality::Source => String::from("source"),
            VideoQuality::VeryHigh => String::from("1440p60"),
            VideoQuality::High => String::from("1080p60"),
            VideoQuality::Medium => String::from("720p60"),
            VideoQuality::Low => String::from("480p60"),
            VideoQuality::AudioOnly => unreached(),
            VideoQuality::Other(name) => name.clone(),
        }
    }

    /// The name of the quality in a playlist, if it has one.
    pub fn try_name(&self) -> (name: Option<String>)
        ensures
            match name {
                Some(name) => self.spec_name() == Some(name@),
                None => self.spec_name() is None,
            },
    {
        match self {
            VideoQuality::AudioOnly => None,
            _ => Some(self.name()),
        }
    }
}

/// Who may see a video.
#[derive(Debug, Clone, Copy, PartialEq, Eq, Structural)]
pub enum VideoPrivacy {
    Public,
    Private,
}

/// A video as Twitch describes it.
#[derive(Debug)]
pub struct TwitchVideo {
    pub id: String,
    pub title: String,
    pub description: String,
    pub user_name: String,
    pub created_at: String,
    pub url: String,
    pub viewable: VideoPrivacy,
    pub language: String,
    pub view_count: i64,
    pub duration: String,
    pub thumbnail_url: String,
}

/// A video.
#[derive(Debug)]
pub struct Video {
    pub id: String,
    pub title: String,
    pub description: String,
    pub user_login: String,
    pub created_at: UtcDateTime,
    pub url: String,
    pub viewable: String,
    pub language: String,
    pub view_count: i64,
    pub video_type: String,
    /// The whole seconds that the video lasts.
    pub duration: i64,
    pub thumbnail_url: String,
}

/// The word for who may see a video.
pub open spec fn privacy_word(viewable: VideoPrivacy) -> Seq<char> {
    match viewable {
        VideoPrivacy::Public => "public"@,
        VideoPrivacy::Private => "private"@,
    }
}

/// Whether the time and the duration of a video can be read.
pub open spec fn is_convertible(video: TwitchVideo) -> bool {
    &&& time_read(video.created_at@, TWITCH_TIME_FORMAT@) is Some
    &&& duration_read(video.duration@) is Some
}

/// Whether `video` is the video that `source` describes, made at the point in time `created_at`.
pub open spec fn is_conversion(source: TwitchVideo, created_at: (i64, u32), video: Video) -> bool {
    &&& video.id == source.id
    &&& video.title == source.title
    &&& video.description == source.description
    &&& video.user_login == source.user_name
    &&& video.created_at@ == created_at
    &&& is_instant(created_at)
    &&& video.url == source.url
    &&& video.viewable@ == privacy_word(source.viewable)
    &&& video.language == source.language
    &&& video.view_count == source.view_count
    &&& video.video_type@ == "archive"@
    &&& video.duration == truncated_quotient(duration_read(source.duration@)->0, 1000)
    &&& video.thumbnail_url == source.thumbnail_url
}

/// The video that `twitch_video` describes, made at the point in time `created_at`.
pub fn video_created_at(twitch_video: TwitchVideo, created_at: UtcDateTime) -> (video: Video)
    requires
        duration_read(twitch_video.duration@) is Some,
    ensures
        is_conversion(twitch_video, created_at@, video),
{
    proof {
        use_type_invariant(&created_at);
    }
    let viewable = match twitch_video.viewable {
        VideoPrivacy::Public => String::from("public"),
        VideoPrivacy::Private => String::from("private"),
    };
    let duration: i64 = convert_twitch_duration(twitch_video.duration.as_str()).num_seconds();
    Video {
        id: twitch_video.id,
        title: twitch_video.title,
        description: twitch_video.description,
        user_login: twitch_video.user_name,
        created_at,
        url: twitch_video.url,
        viewable,
        language: twitch_video.language,
        view_count: twitch_video.view_count,
        video_type: String::from("archive"),
        duration,
        thumbnail_url: twitch_video.thumbnail_url,
    }
}

/// The video that `twitch_video` describes.
pub fn convert_twitch_video_to_twitch_data_video(twitch_video: TwitchVideo) -> (video: Video)
    requires
        is_convertible(twitch_video),
    ensures
        is_conversion(
            twitch_video,
            time_read(twitch_video.created_at@, TWITCH_TIME_FORMAT@)->0,
            video,
        ),
{
    let created_at = convert_twitch_timestamp(twitch_video.created_at.clone());
    video_created_at(twitch_video, created_at)
}

/// Whether the time and the duration of a video can be read.
fn can_convert(video: &TwitchVideo) -> (can: bool)
    ensures
        can == is_convertible(*video),
{
    try_convert_twitch_time(video.created_at.as_str()).is_some() && try_convert_twitch_duration(
        video.duration.as_str(),
    ).is_some()
}

/// The video that `twitch_video` describes, where its time and its duration can be read.
pub fn try_convert_twitch_video_to_twitch_data_video(twitch_video: TwitchVideo) -> (video: Option<
    Video,
>)
    ensures
        match video {
            Some(video) => is_convertible(twitch_video) && is_conversion(
                twitch_video,
                time_read(twitch_video.created_at@, TWITCH_TIME_FORMAT@)->0,
                video,
            ),
            None => !is_convertible(twitch_video),
        },
{
    if can_convert(&twitch_video) {
        Some(convert_twitch_video_to_twitch_data_video(twitch_video))
    } else {
        None
    }
}

/// Whether all videos can be converted.
pub open spec fn are_convertible(videos: Seq<TwitchVideo>) -> bool {
    forall|i: int| 0 <= i < videos.len() ==> is_convertible(#[trigger] videos[i])
}

/// Whether `videos` are the videos that `sources` describe, in the same order.
pub open spec fn are_conversions(sources: Seq<TwitchVideo>, videos: Seq<Video>) -> bool {
    &&& videos.len() == sources.len()
    &&& forall|i: int|
        0 <= i < sources.len() ==> is_conversion(
            #[trigger] sources[i],
            time_read(sources[i].created_at@, TWITCH_TIME_FORMAT@)->0,
            #[trigger] videos[i],
        )
}

/// The videos that `twitch_videos` describe.
pub fn convert_videos(twitch_videos: Vec<TwitchVideo>) -> (videos: Vec<Video>)
    requires
        are_convertible(twitch_videos@),
    ensures
        are_conversions(twitch_videos@, videos@),
{
    let mut videos: Vec<Video> = Vec::new();
    for video in it: twitch_videos
        invariant
            it.seq() == twitch_videos@,
            are_convertible(twitch_videos@),
            are_conversions(it.seq().take(it.index()), videos@),
    {
        videos.push(convert_twitch_video_to_twitch_data_video(video));
    }
    assert(twitch_videos@.take(twitch_videos@.len() as int) == twitch_videos@);
    videos
}

/// The videos that `twitch_videos` describe, where all of them can be converted.
pub fn try_convert_videos(twitch_videos: Vec<TwitchVideo>) -> (videos: Option<Vec<Video>>)
    ensures
        match videos {
            Some(videos) => are_convertible(twitch_videos@) && are_conversions(
                twitch_videos@,
                videos@,
            ),
            None => !are_convertible(twitch_videos@),
        },
{
    for i in 0..twitch_videos.len()
        invariant
            forall|j: int| 0 <= j < i ==> is_convertible(#[trigger] twitch_videos@[j]),
    {
        if !can_convert(&twitch_videos[i]) {
            return None;
        }
    }
    Some(convert_videos(twitch_videos))
}

/// How many videos are listed where no limit is given.
pub const DEFAULT_VIDEO_LIMIT: usize = 10000;

/// How many videos are listed.
pub fn video_limit(limit: Option<usize>) -> (n: usize)
    ensures
        n == match limit {
            Some(limit) => limit,
            None => DEFAULT_VIDEO_LIMIT,
        },
{
    limit.unwrap_or(DEFAULT_VIDEO_LIMIT)
}

/// The title of a channel, if the channel is known.
pub fn channel_title(title: Option<String>) -> (result: Result<String, String>)
    ensures
        match title {
            Some(title) => result == Ok::<String, String>(title),
            None => result matches Err(error) && error@ == "No channel info found"@,
        },
{
    match title {
        Some(title) => Ok(title),
        None => Err(String::from("No channel info found")),
    }
}

/// A converted video has what its source tells of it, the given time, the word for who may see it
/// and the whole seconds that it lasts.
pub proof fn law_conversion_keeps_what_is_told(
    source: TwitchVideo,
    created_at: (i64, u32),
    video: Video,
)
    requires
        is_conversion(source, created_at, video),
    ensures
        video.id == source.id,
        video.title == source.title,
        video.description == source.description,
        video.user_login == source.user_name,
        video.created_at@ == created_at,
        video.url == source.url,
        source.viewable is Public ==> video.viewable@ == "public"@,
        source.viewable is Private ==> video.viewable@ == "private"@,
        video.language == source.language,
        video.view_count == source.view_count,
        video.video_type@ == "archive"@,
        duration_read(source.duration@) matches Some(ms) ==> {
            &&& ms >= 0 ==> video.duration * 1000 <= ms < (video.duration + 1) * 1000
            &&& ms <= 0 ==> (video.duration - 1) * 1000 < ms <= video.duration * 1000
        },
        video.thumbnail_url == source.thumbnail_url,
{
}

/// A video whose duration is given in hours, minutes and seconds lasts as many seconds.
pub proof fn law_video_lasts_as_long_as_is_told(
    source: TwitchVideo,
    created_at: (i64, u32),
    video: Video,
    hours: Seq<char>,
    minutes: Seq<char>,
    seconds: Seq<char>,
)
    requires
        is_conversion(source, created_at, video),
        is_number(hours),
        is_number(minutes),
        is_number(seconds),
        adds_up(
            decimal_value(hours) as int,
            decimal_value(minutes) as int,
            decimal_value(seconds) as int,
        ),
        source.duration@ == hours + "h"@ + minutes + "m"@ + seconds + "s"@,
    ensures
        video.duration == decimal_value(hours) * 3600 + decimal_value(minutes) * 60
            + decimal_value(seconds),
{
    law_hours_minutes_seconds_are_read(hours, minutes, seconds);
}

/// A list of videos is converted one by one and in order.
pub proof fn law_videos_are_converted_one_by_one(
    sources: Seq<TwitchVideo>,
    videos: Seq<Video>,
    i: int,
)
    requires
        are_conversions(sources, videos),
        0 <= i < sources.len(),
    ensures
        videos.len() == sources.len(),
        is_conversion(
            sources[i],
            time_read(sources[i].created_at@, "%Y-%m-%dT%H:%M:%S%z"@)->0,
            videos[i],
        ),
{
    assert(is_conversion(
        sources[i],
        time_read(sources[i].created_at@, TWITCH_TIME_FORMAT@)->0,
        videos[i],
    ));
}

/// A video can be converted if and only if its time and its duration can be read, and a list of
/// videos if and only if each of them can.
pub proof fn law_videos_with_time_and_duration_are_convertible(videos: Seq<TwitchVideo>)
    ensures
        are_convertible(videos) <==> forall|i: int|
            0 <= i < videos.len() ==> {
                &&& time_read((#[trigger] videos[i]).created_at@, "%Y-%m-%dT%H:%M:%S%z"@) is Some
                &&& duration_read(videos[i].duration@) is Some
            },
{
    if forall|i: int|
        0 <= i < videos.len() ==> {
            &&& time_read((#[trigger] videos[i]).created_at@, "%Y-%m-%dT%H:%M:%S%z"@) is Some
            &&& duration_read(videos[i].duration@) is Some
        } {
        assert forall|i: int| 0 <= i < videos.len() implies is_convertible(
            #[trigger] videos[i],
        ) by {
            assert(duration_read(videos[i].duration@) is Some);
        }
    }
    if are_convertible(videos) {
        assert forall|i: int| 0 <= i < videos.len() implies {
            &&& time_read((#[trigger] videos[i]).created_at@, "%Y-%m-%dT%H:%M:%S%z"@) is Some
            &&& duration_read(videos[i].duration@) is Some
        } by {
            assert(is_convertible(videos[i]));
        }
    }
}

/// Each quality has its own name in a playlist, a quality of another name has that name, and sound
/// without pictures has none.
pub proof fn law_quality_has_its_name(quality: VideoQuality)
    ensures
        quality is AudioOnly <==> quality.spec_name() is None,
        quality is Source ==> quality.spec_name() == Some("source"@),
        quality is VeryHigh ==> quality.spec_name() == Some("1440p60"@),
        quality is High ==> quality.spec_name() == Some("1080p60"@),
        quality is Medium ==> quality.spec_name() == Some("720p60"@),
        quality is Low ==> quality.spec_name() == Some("480p60"@),
        quality matches VideoQuality::Other(name) ==> quality.spec_name() == Some(name@),
{
}

} // verus!
