//! The request for a playback token, and its reply.
use vstd::prelude::*;
use vstd::string::StringExecFns;

verus! {

/// The reply to a request for a playback token.
#[derive(Debug)]
pub struct TwitchVideoAccessTokenResponse {
    pub data: VideoAccessTokenResponseData,
}

/// The payload of the reply.
#[derive(Debug)]
#[allow(non_snake_case)]
pub struct VideoAccessTokenResponseData {
    pub videoPlaybackAccessToken: VideoAccessTokenResponseDataAccessToken,
}

/// A playback token and its signature.
#[derive(Debug)]
pub struct VideoAccessTokenResponseDataAccessToken {
    pub value: String,
    pub signature: String,
}

/// The address that playback tokens are asked of.
pub const TOKEN_URL: &'static str = "https://gql.twitch.tv/gql";

/// What stands before the video id in the body of a token request.
pub const TOKEN_BODY_HEAD: &'static str = r#"{
  "operationName": "PlaybackAccessToken_Template",
  "query": "query PlaybackAccessToken_Template($login: String!, $isLive: Boolean!, $vodID: ID!, $isVod: Boolean!, $playerType: String!) {  streamPlaybackAccessToken(channelName: $login, params: {platform: \"web\", playerBackend: \"mediaplayer\", playerType: $playerType}) @include(if: $isLive) {    value    signature    __typename  }  videoPlaybackAccessToken(id: $vodID, params: {platform: \"web\", playerBackend: \"mediaplayer\", playerType: $playerType}) @include(if: $isVod) {    value    signature    __typename  }}",
  "variables": {
    "isLive": false,
    "login": "",
    "isVod": true,
    "vodID": ""#;

/// What stands behind the video id in the body of a token request.
pub const TOKEN_BODY_TAIL: &'static str = r#"",
    "playerType": "embed"
  }
}"#;

/// The body of a request for the playback token of the video `video_id`.
pub fn token_request_body(video_id: &str) -> (body: String)
    ensures
        body@ == TOKEN_BODY_HEAD@ + video_id@ + TOKEN_BODY_TAIL@,
        body@ == r#"{
  "operationName": "PlaybackAccessToken_Template",
  "query": "query PlaybackAccessToken_Template($login: String!, $isLive: Boolean!, $vodID: ID!, $isVod: Boolean!, $playerType: String!) {  streamPlaybackAccessToken(channelName: $login, params: {platform: \"web\", playerBackend: \"mediaplayer\", playerType: $playerType}) @include(if: $isLive) {    value    signature    __typename  }  videoPlaybackAccessToken(id: $vodID, params: {platform: \"web\", playerBackend: \"mediaplayer\", playerType: $playerType}) @include(if: $isVod) {    value    signature    __typename  }}",
  "variables": {
    "isLive": false,
    "login": "",
    "isVod": true,
    "vodID": ""#@ + video_id@ + r#"",
    "playerType": "embed"
  }
}"#@,
{
    let mut body = String::from(TOKEN_BODY_HEAD);
    body.append(video_id);
    body.append(TOKEN_BODY_TAIL);
    body
}

/// The token and the signature in a reply.
pub fn token_and_signature(response: TwitchVideoAccessTokenResponse) -> (pair: (String, String))
    ensures
        pair.0 == response.data.videoPlaybackAccessToken.value,
        pair.1 == response.data.videoPlaybackAccessToken.signature,
{
    let token = response.data.videoPlaybackAccessToken;
    (token.value, token.signature)
}

} // verus!
