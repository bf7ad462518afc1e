use twitch_data::DownloadError;

#[test]
fn error_is_shown_with_its_name() {
    assert_eq!(DownloadError::new("No parts found").to_string(), "DownloadError: No parts found");
    assert_eq!(DownloadError::new(String::new()).to_string(), "DownloadError: ");
}

#[test]
fn error_holds_its_text() {
    for text in ["", "a", " DownloadError: a \n"] {
        let expected = format!("DownloadError: {}", text);
        assert_eq!(DownloadError::new(text).to_string(), expected);
        assert_eq!(DownloadError::new(text.to_string()).to_string(), expected);
        assert_eq!(DownloadError::new(text).clone().to_string(), expected);
    }
}
