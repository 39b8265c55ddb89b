use ndownloader::channels::{
    add_channel_from_url, delete_channel, download_destination, video_status, youtube_rss_url, Channel, Platform,
    VideoStatus,
};

#[test]
fn platform_from_address() {
    assert_eq!(Platform::from_url("https://www.youtube.com/@someone"), Some(Platform::YouTube));
    assert_eq!(Platform::from_url("https://youtu.be/abc"), Some(Platform::YouTube));
    assert_eq!(Platform::from_url("https://www.twitch.tv/someone"), Some(Platform::Twitch));
    assert_eq!(Platform::from_url("https://example.com/x"), None);
}

#[test]
fn youtube_channel_names() {
    assert_eq!(Platform::extract_channel_name("https://www.youtube.com/@someone/videos"), Some("someone".to_string()));
    assert_eq!(Platform::extract_channel_name("https://www.youtube.com/c/Other"), Some("Other".to_string()));
    assert_eq!(
        Platform::extract_channel_name("https://www.youtube.com/channel/UC1234/featured"),
        Some("UC1234".to_string())
    );
    assert_eq!(Platform::extract_channel_name("https://www.youtube.com/@"), Some("".to_string()));
    assert_eq!(Platform::extract_channel_name("https://www.youtube.com/watch?v=x"), None);
}

#[test]
fn twitch_channel_names() {
    assert_eq!(Platform::extract_channel_name("https://www.twitch.tv/streamer"), Some("streamer".to_string()));
    assert_eq!(Platform::extract_channel_name("https://www.twitch.tv/streamer/videos"), Some("streamer".to_string()));
    assert_eq!(Platform::extract_channel_name("https://www.twitch.tv/videos/123"), None);
    assert_eq!(Platform::extract_channel_name("https://www.twitch.tv/"), None);
    assert_eq!(Platform::extract_channel_name("https://example.com/someone"), None);
}

#[test]
fn rss_address_by_id_or_user() {
    assert_eq!(
        youtube_rss_url("UCabcdefghijklmnopqrstuv"),
        "https://www.youtube.com/feeds/videos.xml?channel_id=UCabcdefghijklmnopqrstuv"
    );
    assert_eq!(youtube_rss_url("UCshort"), "https://www.youtube.com/feeds/videos.xml?user=UCshort");
    assert_eq!(youtube_rss_url("someone"), "https://www.youtube.com/feeds/videos.xml?user=someone");
}

#[test]
fn channels_are_added_once() {
    let mut channels: Vec<Channel> = Vec::new();
    assert!(add_channel_from_url(&mut channels, "https://www.twitch.tv/streamer".to_string()));
    assert!(!add_channel_from_url(&mut channels, "https://www.twitch.tv/streamer".to_string()));
    assert!(!add_channel_from_url(&mut channels, "https://example.com/x".to_string()));
    assert!(add_channel_from_url(&mut channels, "https://www.youtube.com/@someone".to_string()));
    assert_eq!(
        channels,
        vec![
            Channel {
                name: "streamer".to_string(),
                platform: Platform::Twitch,
                url: "https://www.twitch.tv/streamer".to_string()
            },
            Channel {
                name: "someone".to_string(),
                platform: Platform::YouTube,
                url: "https://www.youtube.com/@someone".to_string()
            },
        ]
    );
}

#[test]
fn deleting_channels_moves_selection() {
    let mut channels: Vec<Channel> = Vec::new();
    for u in ["https://www.twitch.tv/a", "https://www.twitch.tv/b", "https://www.twitch.tv/c"] {
        add_channel_from_url(&mut channels, u.to_string());
    }
    assert_eq!(delete_channel(&mut channels, Some(2), 0), Some(1));
    assert_eq!(channels.len(), 2);
    assert_eq!(delete_channel(&mut channels, Some(1), 1), None);
    assert_eq!(delete_channel(&mut channels, Some(0), 5), Some(0));
    assert_eq!(delete_channel(&mut channels, None, 0), None);
    assert!(channels.is_empty());
}

#[test]
fn local_copy_wins_over_download() {
    assert_eq!(video_status(true, true), VideoStatus::Downloaded);
    assert_eq!(video_status(false, true), VideoStatus::Downloading);
    assert_eq!(video_status(false, false), VideoStatus::NotDownloaded);
}

#[test]
fn destination_uses_trimmed_name() {
    assert_eq!(
        download_destination("/run/mount/ve_stock_1", "chan", "  My video \n"),
        Some("/run/mount/ve_stock_1/chan/My video.mp4".to_string())
    );
    assert_eq!(download_destination("/s", "c", " \t "), None);
    assert_eq!(download_destination("/s", "c", "\u{3000}x\u{a0}"), Some("/s/c/x.mp4".to_string()));
}
