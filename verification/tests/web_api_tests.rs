use autofy::web_api::{
    authorization_code_body, basic_authorization, basic_header, client_credentials_body, next_step, page_tracks,
    parse_secrets, playlist_url, PageStep, Secrets, Track, TrackEntry, TracksPage,
};

#[test]
fn parse_secrets_reads_three_lines() {
    assert_eq!(
        parse_secrets("my-id\r\nmy-secret\r\nmy-code"),
        Some(Secrets { id: "my-id".to_string(), secret: "my-secret".to_string(), auth_code: "my-code".to_string() })
    );
    assert_eq!(
        parse_secrets("a\r\nb\r\nc\r\nd\r\n"),
        Some(Secrets { id: "a".to_string(), secret: "b".to_string(), auth_code: "c".to_string() })
    );
    assert_eq!(
        parse_secrets("a\r\n\r\n"),
        Some(Secrets { id: "a".to_string(), secret: String::new(), auth_code: String::new() })
    );
}

#[test]
fn parse_secrets_splits_only_on_crlf() {
    assert_eq!(
        parse_secrets("a\nb\r\nc\rd\r\ne"),
        Some(Secrets { id: "a\nb".to_string(), secret: "c\rd".to_string(), auth_code: "e".to_string() })
    );
    assert_eq!(parse_secrets("a\nb\nc"), None);
}

#[test]
fn parse_secrets_needs_two_line_breaks() {
    assert_eq!(parse_secrets(""), None);
    assert_eq!(parse_secrets("only"), None);
    assert_eq!(parse_secrets("id\r\nsecret"), None);
    assert_eq!(parse_secrets("id\r\nsecret\r"), None);
}

#[test]
fn request_bodies_and_urls() {
    assert_eq!(client_credentials_body("ID", "SECRET"), "grant_type=client_credentials&client_id=ID&client_secret=SECRET");
    assert_eq!(
        authorization_code_body("C0DE"),
        "grant_type=authorization_code&code=C0DE&redirect_uri=https://open.spotify.com/"
    );
    assert_eq!(playlist_url("1VhaQKU3TNk1EFfOtCtCbD"), "https://api.spotify.com/v1/playlists/1VhaQKU3TNk1EFfOtCtCbD");
}

#[test]
fn basic_authorization_encodes_id_and_secret() {
    assert_eq!(basic_authorization("id", "secret"), "Basic aWQ6c2VjcmV0");
    assert_eq!(basic_authorization("a", "??>"), "Basic YTo_Pz4=");
    assert_eq!(basic_authorization("client", "s3cr3t~~"), "Basic Y2xpZW50OnMzY3IzdH5-");
    assert_eq!(basic_header("abc"), "Basic abc");
}

fn entry(name: &str, artists: Vec<Option<&str>>) -> TrackEntry {
    TrackEntry { name: name.to_string(), artists: artists.into_iter().map(|a| a.map(|s| s.to_string())).collect() }
}

#[test]
fn page_tracks_skips_items_without_track() {
    let page = TracksPage {
        items: vec![Some(entry("one", vec![Some("A"), None])), None, Some(entry("two", vec![]))],
        total: 3,
        next: None,
    };
    assert_eq!(
        page_tracks(&page),
        vec![
            Track { name: "one".to_string(), artists: vec!["A".to_string(), "Unknown Artist".to_string()] },
            Track { name: "two".to_string(), artists: vec![] },
        ]
    );
}

#[test]
fn next_step_follows_pages_until_complete() {
    let mut page = TracksPage { items: vec![], total: 2, next: Some("https://next".to_string()) };
    assert_eq!(next_step(&page, 2), PageStep::Complete);
    assert_eq!(next_step(&page, 1), PageStep::Fetch("https://next".to_string()));
    page.next = None;
    assert_eq!(next_step(&page, 1), PageStep::NoNextPage);
    assert_eq!(next_step(&page, 2), PageStep::Complete);
}
