use ndownloader::listing::{listing_url, parse_listing, skipped_lines, parse_video_line, record_from_members, JsonMember, VideoMetadata};

fn video(id: &str, title: &str, url: &str, duration_us: Option<u64>) -> VideoMetadata {
    VideoMetadata {
        id: id.to_string(),
        title: title.to_string(),
        url: url.to_string(),
        duration_us,
        upload_date: None,
        uploader: None,
    }
}

#[test]
fn malformed_line_is_skipped_and_valid_ones_kept() {
    let out = b"{\"id\":\"a\",\"title\":\"First\",\"url\":\"https://v/a\",\"duration\":120.5}\n\
{\"id\": \"b\", \"title\": broken\n\
{\"id\":\"c\",\"title\":\"Third\",\"url\":\"https://v/c\"}\n";
    let videos = parse_listing(out);
    assert_eq!(
        videos,
        vec![
            video("a", "First", "https://v/a", Some(120_500_000)),
            video("c", "Third", "https://v/c", None),
        ]
    );
    assert_eq!(skipped_lines(out), vec![1]);
}

#[test]
fn blank_lines_and_last_line_without_newline() {
    let out = b"\n   \n{\"id\":\"x\",\"title\":\"X\",\"url\":\"u\",\"duration\":60}";
    assert_eq!(parse_listing(out), vec![video("x", "X", "u", Some(60_000_000))]);
    assert_eq!(parse_listing(b""), vec![]);
    assert_eq!(skipped_lines(out), Vec::<usize>::new());
    assert_eq!(skipped_lines(b"x\n\n{}\n"), vec![0, 2]);
}

#[test]
fn optional_members_are_read() {
    let line = b"{\"id\":\"1\",\"title\":\"T\",\"url\":\"U\",\"duration\":null,\"upload_date\":\"20240101\",\"uploader\":\"Someone\",\"extra\":[1,2]}";
    let v = parse_video_line(line).unwrap();
    assert_eq!(v.duration_us, None);
    assert_eq!(v.upload_date, Some("20240101".to_string()));
    assert_eq!(v.uploader, Some("Someone".to_string()));
}

#[test]
fn escaped_strings_are_decoded() {
    let line = r#"{"id":"1","title":"Café \"live\" \u00e9","url":"U"}"#.as_bytes();
    assert_eq!(parse_video_line(line).unwrap().title, "Café \"live\" é".to_string());
}

#[test]
fn record_needs_string_id_title_and_url() {
    assert_eq!(parse_video_line(b"{\"id\":1,\"title\":\"T\",\"url\":\"U\"}"), None);
    assert_eq!(parse_video_line(b"{\"title\":\"T\",\"url\":\"U\"}"), None);
    assert_eq!(parse_video_line(b"[1,2,3]"), None);
    assert_eq!(parse_video_line(b"not json"), None);
}

#[test]
fn record_from_given_members() {
    let members = vec![
        JsonMember { key: "url".to_string(), text: Some("U".to_string()), raw: b"\"U\"".to_vec() },
        JsonMember { key: "duration".to_string(), text: None, raw: b"95.25".to_vec() },
        JsonMember { key: "id".to_string(), text: Some("i".to_string()), raw: b"\"i\"".to_vec() },
        JsonMember { key: "title".to_string(), text: Some("T".to_string()), raw: b"\"T\"".to_vec() },
    ];
    assert_eq!(record_from_members(&members), Some(video("i", "T", "U", Some(95_250_000))));
    let missing_title = vec![
        JsonMember { key: "id".to_string(), text: Some("i".to_string()), raw: b"\"i\"".to_vec() },
        JsonMember { key: "url".to_string(), text: Some("U".to_string()), raw: b"\"U\"".to_vec() },
    ];
    assert_eq!(record_from_members(&missing_title), None);
}

#[test]
fn members_of_the_wrong_type_reject_the_line() {
    let text_duration = b"{\"id\":\"1\",\"title\":\"T\",\"url\":\"U\",\"duration\":\"120\"}";
    assert_eq!(parse_video_line(text_duration), None);
    let number_uploader = b"{\"id\":\"1\",\"title\":\"T\",\"url\":\"U\",\"uploader\":5}";
    assert_eq!(parse_video_line(number_uploader), None);
    let list_date = b"{\"id\":\"1\",\"title\":\"T\",\"url\":\"U\",\"upload_date\":[]}";
    assert_eq!(parse_video_line(list_date), None);
}

#[test]
fn null_members_and_unusual_numbers_read_as_absent() {
    let line = b"{\"id\":\"1\",\"title\":\"T\",\"url\":\"U\",\"duration\":-1,\"uploader\":null,\"upload_date\":null}";
    let v = parse_video_line(line).unwrap();
    assert_eq!(v.duration_us, None);
    assert_eq!(v.uploader, None);
    assert_eq!(v.upload_date, None);
}

#[test]
fn twitch_channel_gets_videos_path() {
    assert_eq!(listing_url("https://www.twitch.tv/someone"), "https://www.twitch.tv/someone/videos");
    assert_eq!(listing_url("https://www.twitch.tv/someone//"), "https://www.twitch.tv/someone/videos");
}

#[test]
fn other_addresses_are_kept() {
    assert_eq!(listing_url("https://www.twitch.tv/someone/videos"), "https://www.twitch.tv/someone/videos");
    assert_eq!(listing_url("https://www.youtube.com/@someone/"), "https://www.youtube.com/@someone/");
    assert_eq!(listing_url(""), "");
}
