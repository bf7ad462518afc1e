//! The rules behind listing and downloading Twitch videos.
//!
//! The crate decides and computes; it does not talk to a network or a disk. It reads the playlists,
//! times and durations that Twitch writes, chooses a quality, plans which addresses are fetched in
//! which batches, orders the downloaded files and lists the steps that turn them into one video.
pub mod download;
pub mod duration;
pub mod error;
pub mod number;
pub mod order;
pub mod pager;
pub mod parts;
pub mod playlist;
pub mod table;
pub mod text;
pub mod text_laws;
pub mod text_lemmas;
pub mod time;
pub mod token;
pub mod url;
pub mod video;

pub use error::DownloadError;
pub use token::TwitchVideoAccessTokenResponse;
pub use token::VideoAccessTokenResponseData;
pub use token::VideoAccessTokenResponseDataAccessToken;
pub use video::{convert_twitch_video_to_twitch_data_video, Video, VideoQuality};
