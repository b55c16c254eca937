use music_index::{Album, MusicIndexer, PlaybackTarget, Track};

fn track(path: &str) -> Track {
    Track { band: String::new(), name: String::new(), text: String::new(), path: path.to_string() }
}

#[test]
fn playlist_lists_tracks_sorted_by_path() {
    let album = Album {
        name: "A".to_string(),
        text: "a".to_string(),
        tracks: vec![track("/m/b/2.mp3"), track("C:\\m\\1.mp3"), track("/m/a/3.mp3")],
    };
    let text = MusicIndexer::playlist_text(PlaybackTarget::Album(vec![&album]));
    assert_eq!(
        text,
        "#EXTM3U\n#EXTINF:-1,3.mp3\n/m/a/3.mp3\n#EXTINF:-1,2.mp3\n/m/b/2.mp3\n#EXTINF:-1,C:\\m\\1.mp3\nC:/m/1.mp3\n"
    );
}

#[test]
fn playlist_of_nothing_is_the_header() {
    assert_eq!(MusicIndexer::playlist_text(PlaybackTarget::Nothing), "#EXTM3U\n");
}

#[test]
fn playlist_skips_paths_without_file_name() {
    let t = track("/");
    let text = MusicIndexer::playlist_text(PlaybackTarget::Tracks(vec![&t]));
    assert_eq!(text, "#EXTM3U\n");
}
