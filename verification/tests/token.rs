use twitch_data::token::{token_and_signature, token_request_body, TOKEN_URL};
use twitch_data::{
    TwitchVideoAccessTokenResponse, VideoAccessTokenResponseData,
    VideoAccessTokenResponseDataAccessToken,
};

#[test]
fn request_names_the_video() {
    assert_eq!(TOKEN_URL, "https://gql.twitch.tv/gql");
    let body: serde_json::Value = serde_json::from_str(&token_request_body("1677206253")).unwrap();
    assert_eq!(body["operationName"], "PlaybackAccessToken_Template");
    assert_eq!(body["variables"]["vodID"], "1677206253");
    assert_eq!(body["variables"]["login"], "");
    assert_eq!(body["variables"]["isLive"], false);
    assert_eq!(body["variables"]["isVod"], true);
    assert_eq!(body["variables"]["playerType"], "embed");
    assert!(body["query"].as_str().unwrap().contains("videoPlaybackAccessToken(id: $vodID"));
}

#[test]
fn reply_holds_the_token_and_the_signature() {
    let response = TwitchVideoAccessTokenResponse {
        data: VideoAccessTokenResponseData {
            videoPlaybackAccessToken: VideoAccessTokenResponseDataAccessToken {
                value: "v".to_string(),
                signature: "s".to_string(),
            },
        },
    };
    assert_eq!(token_and_signature(response), ("v".to_string(), "s".to_string()));
}
