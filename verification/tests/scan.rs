use music_index::{Album, Band, FileTags, MusicCache, RawTrack, Track};

fn tags(artist: Option<&str>, album: Option<&str>, title: Option<&str>, genre: Option<&str>) -> FileTags {
    FileTags {
        artist: artist.map(|s| s.to_string()),
        album: album.map(|s| s.to_string()),
        title: title.map(|s| s.to_string()),
        genre: genre.map(|s| s.to_string()),
    }
}

fn dirs(list: &[(&str, u64)]) -> Vec<(String, u64)> {
    list.iter().map(|(d, t)| (d.to_string(), *t)).collect()
}

#[test]
fn supported_audio_by_lower_cased_extension() {
    assert!(MusicCache::is_supported_audio("/m/a/song.MP3"));
    assert!(MusicCache::is_supported_audio("/m/a/song.flac"));
    assert!(MusicCache::is_supported_audio("x.Opus"));
    assert!(!MusicCache::is_supported_audio("/m/a/cover.jpg"));
    assert!(!MusicCache::is_supported_audio("/m/a/README"));
    assert!(!MusicCache::is_supported_audio("/m/a/mp3"));
}

#[test]
fn raw_track_band_from_two_levels_below_root() {
    let r = MusicCache::raw_track("/music", "/music/Nirvana/Nevermind/01 Smells.mp3", &tags(None, None, None, None));
    assert_eq!(r.path_artist, "Nirvana");
    assert_eq!(r.band_dir, "/music/Nirvana");
    assert_eq!(r.path, "/music/Nirvana/Nevermind/01 Smells.mp3");
}

#[test]
fn raw_track_band_from_deeper_place() {
    let r = MusicCache::raw_track("/music", "/music/Rock/Nirvana/Nevermind/01.mp3", &tags(None, None, None, None));
    assert_eq!(r.path_artist, "Nirvana");
    assert_eq!(r.band_dir, "/music/Rock/Nirvana");
}

#[test]
fn raw_track_band_from_folder_when_shallow() {
    let r = MusicCache::raw_track("/music", "/music/Singles/01.mp3", &tags(None, None, None, None));
    assert_eq!(r.path_artist, "Singles");
    assert_eq!(r.band_dir, "/music/Singles");
    let r = MusicCache::raw_track("/other", "song.mp3", &tags(None, None, None, None));
    assert_eq!(r.path_artist, "Unknown Artist");
    assert_eq!(r.band_dir, "");
}

#[test]
fn raw_track_trims_tags() {
    let r = MusicCache::raw_track("/m", "/m/a/b/c.mp3", &tags(Some("  Nirvana "), Some("\tBleach"), Some(" Polly "), Some(" Grunge ")));
    assert_eq!(r.meta_artist.as_deref(), Some("Nirvana"));
    assert_eq!(r.meta_album.as_deref(), Some("Bleach"));
    assert_eq!(r.meta_title.as_deref(), Some("Polly"));
    assert_eq!(r.meta_genre.as_deref(), Some("Grunge"));
}

fn raw(path: &str, artist: Option<&str>, album: Option<&str>, title: Option<&str>, genre: Option<&str>) -> RawTrack {
    MusicCache::raw_track("/music", path, &tags(artist, album, title, genre))
}

#[test]
fn finish_scan_files_tracks_into_bands_and_albums() {
    let mut cache = MusicCache::default();
    let current = dirs(&[("/music", 1), ("/music/Nirvana/Bleach", 2)]);
    let raws = vec![
        raw("/music/Nirvana/Bleach/02.mp3", Some("Nirvana"), Some("Bleach"), Some("Floyd the Barber"), Some("Grunge, Rock,grunge")),
        raw("/music/Nirvana/Bleach/01.mp3", Some("NIRVANA"), Some("Bleach"), Some("Blew"), Some("unknown")),
        raw("/music/Zed/Misc/x.mp3", Some("unknown"), None, None, None),
        raw("/music/Abba/Gold/y.mp3", Some("ABBA"), Some(""), None, Some("Pop")),
    ];
    cache.finish_scan(raws, current.clone());
    assert_eq!(cache.dirs, current);
    let names: Vec<&str> = cache.bands.iter().map(|b| b.name.as_str()).collect();
    assert_eq!(names, vec!["ABBA", "Nirvana", "Zed"]);
    let nirvana = &cache.bands[1];
    assert_eq!(nirvana.text, "nirvana");
    assert_eq!(nirvana.genres, vec!["grunge", "rock"]);
    assert_eq!(nirvana.albums.len(), 1);
    let bleach = &nirvana.albums[0];
    let tracks: Vec<&str> = bleach.tracks.iter().map(|t| t.name.as_str()).collect();
    assert_eq!(tracks, vec!["Blew", "Floyd the Barber"]);
    assert_eq!(bleach.tracks[1].text, "floyd the barber");
    assert_eq!(bleach.tracks[0].band, "Nirvana");
    let zed = &cache.bands[2];
    assert_eq!(zed.genres, vec!["unknown"]);
    assert_eq!(zed.albums[0].name, "Misc");
    assert_eq!(zed.albums[0].tracks[0].name, "x");
    let abba = &cache.bands[0];
    assert_eq!(abba.albums[0].name, "Gold");
    assert_eq!(abba.genres, vec!["pop"]);
}

#[test]
fn split_chars_keeps_empty_pieces() {
    assert_eq!(music_index::music::scan::split_chars("a,,b", ','), vec!["a", "", "b"]);
    assert_eq!(music_index::music::scan::split_chars("", ','), vec![""]);
}

fn cached_band(name: &str, tracks: Vec<(&str, &str)>) -> Band {
    Band {
        dir: format!("/music/{}", name),
        name: name.to_string(),
        text: music_index::text::prepare_name(name),
        genres: vec!["rock".to_string()],
        albums: vec![Album {
            name: "A".to_string(),
            text: "a".to_string(),
            tracks: tracks
                .into_iter()
                .map(|(n, p)| Track { band: name.to_string(), name: n.to_string(), text: n.to_lowercase(), path: p.to_string() })
                .collect(),
        }],
    }
}

#[test]
fn begin_scan_with_a_new_root_reads_everything() {
    let mut cache = MusicCache::default();
    cache.bands.push(cached_band("Old", vec![("t", "/old/Old/A/t.mp3")]));
    let current = dirs(&[("/music", 1), ("/music/X", 2)]);
    let updated = cache.begin_scan("/music", &current);
    assert_eq!(updated, Some(vec!["/music".to_string(), "/music/X".to_string()]));
    assert!(cache.bands.is_empty());
    assert_eq!(cache.root_path.as_deref(), Some("/music"));
}

#[test]
fn begin_scan_with_nothing_changed_does_nothing() {
    let mut cache = MusicCache::default();
    cache.root_path = Some("/music".to_string());
    cache.dirs = dirs(&[("/music", 1), ("/music/A", 2)]);
    cache.bands.push(cached_band("A", vec![("t", "/music/A/x/t.mp3")]));
    let before = cache.clone();
    assert_eq!(cache.begin_scan("/music/", &dirs(&[("/music/A", 2), ("/music", 1)])), None);
    assert_eq!(cache, before);
}

#[test]
fn begin_scan_evicts_changed_and_deleted_directories() {
    let mut cache = MusicCache::default();
    cache.root_path = Some("/music".to_string());
    cache.dirs = dirs(&[("/music", 1), ("/music/A/x", 2), ("/music/B/y", 3), ("/music/C", 4)]);
    cache.bands.push(cached_band("A", vec![("a1", "/music/A/x/1.mp3"), ("a2", "/music/A/z/2.mp3")]));
    cache.bands.push(cached_band("B", vec![("b1", "/music/B/y/1.mp3")]));
    cache.bands.push(cached_band("C", vec![("c1", "/music/C/w/1.mp3")]));
    let current = dirs(&[("/music", 1), ("/music/A/x", 9), ("/music/C", 4)]);
    let updated = cache.begin_scan("/music", &current);
    assert_eq!(updated, Some(vec!["/music/A/x".to_string()]));
    let names: Vec<&str> = cache.bands.iter().map(|b| b.name.as_str()).collect();
    assert_eq!(names, vec!["A", "C"]);
    assert_eq!(cache.bands[0].albums[0].tracks.len(), 1);
    assert_eq!(cache.bands[0].albums[0].tracks[0].name, "a2");
    assert_eq!(cache.dirs.len(), 4);
}

#[test]
fn evict_removes_tracks_under_deleted_ancestors() {
    let mut cache = MusicCache::default();
    cache.bands.push(cached_band("A", vec![("a1", "/music/A/x/1.mp3"), ("a2", "/music/B/2.mp3")]));
    cache.evict_obsolete_data(&vec!["/music/A".to_string()], &vec![]);
    assert_eq!(cache.bands[0].albums[0].tracks.len(), 1);
    assert_eq!(cache.bands[0].albums[0].tracks[0].name, "a2");
    cache.evict_obsolete_data(&vec![], &vec!["/music/B/".to_string()]);
    assert!(cache.bands.is_empty());
}

#[test]
fn finish_scan_files_every_track_once() {
    let mut cache = MusicCache::default();
    let raws = vec![
        raw("/music/A/X/1.mp3", Some("A"), Some("X"), Some("one"), None),
        raw("/music/A/X/2.mp3", Some("a"), Some("x"), Some("two"), None),
        raw("/music/A/Y/3.mp3", Some("A"), Some("Y"), Some("three"), None),
        raw("/music/B/Z/4.mp3", Some("B"), Some("Z"), Some("four"), None),
        raw("/music/B/Z/5.mp3", Some("B"), Some("Z"), Some("four"), None),
    ];
    cache.finish_scan(raws, dirs(&[("/music", 1)]));
    let total: usize = cache.bands.iter().map(|b| b.albums.iter().map(|a| a.tracks.len()).sum::<usize>()).sum();
    assert_eq!(total, 5);
    assert_eq!(cache.bands.len(), 2);
    assert_eq!(cache.bands[0].albums.len(), 2);
}

#[test]
fn evicting_twice_is_evicting_once() {
    let mut cache = MusicCache::default();
    cache.bands.push(cached_band("A", vec![("a1", "/music/A/x/1.mp3"), ("a2", "/music/A/y/2.mp3")]));
    cache.bands.push(cached_band("B", vec![("b1", "/music/B/z/1.mp3")]));
    let deleted = vec!["/music/A/x".to_string()];
    let updated = vec!["/music/B/z".to_string()];
    cache.evict_obsolete_data(&deleted, &updated);
    let once = cache.clone();
    cache.evict_obsolete_data(&deleted, &updated);
    assert_eq!(cache, once);
    assert_eq!(once.bands.len(), 1);
    assert_eq!(once.bands[0].albums[0].tracks[0].name, "a2");
}

#[test]
fn finish_scan_lists_each_directory_once() {
    let mut cache = MusicCache::default();
    cache.finish_scan(vec![], dirs(&[("/music", 1), ("/music/A", 2), ("/music", 3)]));
    assert_eq!(cache.dirs, dirs(&[("/music/A", 2), ("/music", 3)]));
}

#[test]
fn rescan_after_finish_with_the_same_tree_does_nothing() {
    let mut cache = MusicCache::default();
    let current = dirs(&[("/music", 1), ("/music/A/x", 2)]);
    assert_eq!(cache.begin_scan("/music", &current), Some(vec!["/music".to_string(), "/music/A/x".to_string()]));
    cache.finish_scan(vec![raw("/music/A/x/1.mp3", Some("A"), Some("x"), Some("one"), None)], current.clone());
    let before = cache.clone();
    let reordered = dirs(&[("/music/A/x", 2), ("/music", 1)]);
    assert_eq!(cache.begin_scan("/music", &reordered), None);
    assert_eq!(cache, before);
}

fn all_paths(cache: &MusicCache) -> Vec<String> {
    let mut v: Vec<String> = cache
        .bands
        .iter()
        .flat_map(|b| b.albums.iter().flat_map(|a| a.tracks.iter().map(|t| t.path.clone())))
        .collect();
    v.sort();
    v
}

#[test]
fn rescan_keeps_unchanged_tracks_and_adds_the_files_read() {
    let mut cache = MusicCache::default();
    let first = dirs(&[("/music", 1), ("/music/A/x", 2), ("/music/B/y", 3)]);
    cache.begin_scan("/music", &first);
    cache.finish_scan(
        vec![
            raw("/music/A/x/1.mp3", Some("A"), Some("x"), Some("one"), None),
            raw("/music/B/y/2.mp3", Some("B"), Some("y"), Some("two"), None),
        ],
        first,
    );
    let second = dirs(&[("/music", 1), ("/music/A/x", 5), ("/music/B/y", 3)]);
    assert_eq!(cache.begin_scan("/music", &second), Some(vec!["/music/A/x".to_string()]));
    assert_eq!(all_paths(&cache), vec!["/music/B/y/2.mp3"]);
    cache.finish_scan(vec![raw("/music/A/x/3.mp3", Some("A"), Some("x"), Some("three"), None)], second);
    assert_eq!(all_paths(&cache), vec!["/music/A/x/3.mp3", "/music/B/y/2.mp3"]);
}

#[test]
fn finish_scan_files_only_audio_files() {
    let mut cache = MusicCache::default();
    let raws = vec![
        raw("/music/A/x/cover.jpg", Some("A"), Some("x"), Some("cover"), None),
        raw("/music/A/x/1.FLAC", Some("A"), Some("x"), Some("one"), None),
        raw("/music/A/x/notes", Some("A"), Some("x"), Some("notes"), None),
    ];
    cache.finish_scan(raws, dirs(&[("/music", 1)]));
    assert_eq!(all_paths(&cache), vec!["/music/A/x/1.FLAC"]);
}
