//! The player: lyrics, library, layout and pages.
use astro_plugins::player::lyrics::{
    parse_api_lyrics, parse_lrc, parse_timestamp, LyricEnvelope, LyricError,
};
use astro_plugins::player::model::{AlbumRef, ArtistRef, Song};
use astro_plugins::player::persistence::{
    is_safe_audio_path, is_safe_background_path, is_safe_cover_path, is_safe_lyrics_path,
    load_library, normalize_legacy_path, physical_path, LibraryFile, PersistenceError, IMPORT_ROOT,
    LEGACY_IMPORT_ROOT,
};
use astro_plugins::player::player_layout::{
    PlayerLayout, BACKGROUND_HEIGHT, LEGACY_BACKGROUND_WIDTH,
};
use astro_plugins::player::ui::{
    image_resource_id, playback_label, render, LyraApp, Node, PlaybackState, Route, Snapshot,
    UiEvent, EVENT_BACK, EVENT_LIBRARY_NEXT, EVENT_LIBRARY_PREV, EVENT_LOCAL_SONG_BASE,
    PLAYER_BACKGROUND_KEY, PLAYER_COVER_KEY, UI_MAX_ROWS,
};

#[test]
fn parses_and_locates_lrc_lines() {
    let lyrics = parse_lrc("[00:01.20]first\n[00:03.500][00:05.00]next");
    assert_eq!(lyrics.lines.len(), 3);
    assert_eq!(lyrics.lines[0].at_ms, 1_200);
    assert_eq!(lyrics.active_index(4_000), Some(1));
}

#[test]
fn merges_translation_by_timestamp() {
    let lyrics = parse_api_lyrics(Some(LyricEnvelope {
        code: 200,
        lrc: "[00:01.00]hello".into(),
        tlyric: "[00:01.00]你好".into(),
    }))
    .unwrap();
    assert_eq!(lyrics.lines[0].translation.as_deref(), Some("你好"));
}

#[test]
fn refused_lyrics_name_their_reason() {
    assert_eq!(parse_api_lyrics(None), Err(LyricError::Json));
    let refused = LyricEnvelope { code: 403, lrc: String::new(), tlyric: String::new() };
    assert_eq!(parse_api_lyrics(Some(refused)), Err(LyricError::Server(403)));
}

#[test]
fn timestamps_are_read_to_the_millisecond() {
    assert_eq!(parse_timestamp("01:02.345"), Some(62_345));
    assert_eq!(parse_timestamp("00:03.5"), Some(3_500));
    assert_eq!(parse_timestamp("00:03"), Some(3_000));
    assert_eq!(parse_timestamp("ti:title"), None);
}

#[test]
fn lines_are_sorted_and_the_window_surrounds_the_active_one() {
    let lyrics = parse_lrc("[00:09.00]c\n[00:01.00]a\n[00:05.00]b\n[00:12.00]d");
    let times: Vec<u32> = lyrics.lines.iter().map(|l| l.at_ms).collect();
    assert_eq!(times, vec![1_000, 5_000, 9_000, 12_000]);
    assert_eq!(lyrics.active_index(999), None);
    assert_eq!(lyrics.active_index(20_000), Some(3));
    let texts: Vec<&str> =
        lyrics.active_window(5_000, 1).iter().map(|l| l.text.as_str()).collect();
    assert_eq!(texts, vec!["a", "b", "c"]);
}

#[test]
fn quickapp_library_round_trips() {
    let song = Song {
        id: 7,
        name: "Local".into(),
        local_path: Some(format!("{IMPORT_ROOT}/tracks/7/audio.mp3")),
        lyrics_path: Some(format!("{IMPORT_ROOT}/tracks/7/lyrics.lrc")),
        album: AlbumRef {
            background_url: format!("{IMPORT_ROOT}/tracks/7/background.bin"),
            ..AlbumRef::default()
        },
        ..Song::default()
    };
    let file = LibraryFile { version: 1, tracks: vec![song.clone()] };
    assert_eq!(load_library::<()>(Ok(Some(Some(file)))).unwrap(), vec![song]);
}

#[test]
fn legacy_manifest_paths_are_normalized_to_real_storage_root() {
    let legacy_audio = format!("{LEGACY_IMPORT_ROOT}/tracks/7/audio.mp3");
    let legacy_cover = format!("{LEGACY_IMPORT_ROOT}/tracks/7/cover.jpg");
    let legacy_background = format!("{LEGACY_IMPORT_ROOT}/tracks/7/background.bin");
    let legacy_lyrics = format!("{LEGACY_IMPORT_ROOT}/tracks/7/lyrics.json");
    let song = Song {
        id: 7,
        name: "Legacy".into(),
        local_path: Some(legacy_audio),
        lyrics_path: Some(legacy_lyrics),
        album: AlbumRef {
            cover_url: legacy_cover,
            background_url: legacy_background,
            ..AlbumRef::default()
        },
        ..Song::default()
    };
    let file = LibraryFile { version: 1, tracks: vec![song] };
    let loaded = load_library::<()>(Ok(Some(Some(file)))).unwrap();
    assert_eq!(
        loaded[0].local_path.as_deref(),
        Some("/data/files/com.canopus.lyraimport/lyra/tracks/7/audio.mp3")
    );
    assert_eq!(
        loaded[0].album.cover_url,
        "/data/files/com.canopus.lyraimport/lyra/tracks/7/cover.jpg"
    );
    assert_eq!(
        loaded[0].album.background_url,
        "/data/files/com.canopus.lyraimport/lyra/tracks/7/background.bin"
    );
    assert_eq!(
        loaded[0].lyrics_path.as_deref(),
        Some("/data/files/com.canopus.lyraimport/lyra/tracks/7/lyrics.json")
    );
}

#[test]
fn rejects_paths_outside_quickapp_sandbox() {
    assert!(is_safe_audio_path(&format!("{IMPORT_ROOT}/tracks/1/audio.mp3")));
    assert!(!is_safe_audio_path("/data/canopus/audio.mp3"));
    assert!(!is_safe_audio_path(&format!("{IMPORT_ROOT}/../escape.mp3")));
    assert!(!is_safe_cover_path(&format!("{IMPORT_ROOT}/tracks/1/audio.mp3")));
    assert!(is_safe_background_path(&format!("{IMPORT_ROOT}/tracks/1/background.bin")));
    assert!(!is_safe_background_path(&format!("{IMPORT_ROOT}/tracks/1/background.jpg")));
}

#[test]
fn every_library_fault_has_its_error() {
    assert_eq!(load_library(Err("disk")), Err(PersistenceError::Storage("disk")));
    assert_eq!(load_library::<()>(Ok(None)), Ok(vec![]));
    assert_eq!(load_library::<()>(Ok(Some(None))), Err(PersistenceError::Json));
    let newer = LibraryFile { version: 2, tracks: vec![] };
    assert_eq!(load_library::<()>(Ok(Some(Some(newer)))), Err(PersistenceError::Version));
    let outside = Song { local_path: Some("/etc/audio.mp3".into()), ..Song::default() };
    let file = LibraryFile { version: 1, tracks: vec![outside] };
    assert_eq!(load_library::<()>(Ok(Some(Some(file)))), Err(PersistenceError::UnsafePath));
}

#[test]
fn physical_paths_stay_under_the_import_root() {
    assert_eq!(physical_path("tracks/1/a.mp3"), Some(format!("{IMPORT_ROOT}/tracks/1/a.mp3")));
    for bad in ["", "/abs", ".hidden", "a/../b", "a\\b", "a\0b"] {
        assert_eq!(physical_path(bad), None);
    }
    assert!(is_safe_lyrics_path(&format!("{IMPORT_ROOT}/tracks/1/lyrics.lrc")));
    let moved = normalize_legacy_path(&format!("{LEGACY_IMPORT_ROOT}/x"));
    assert_eq!(moved, format!("{IMPORT_ROOT}/x"));
    assert_eq!(normalize_legacy_path(&moved), moved);
}

#[test]
fn player_regions_and_touch_targets_fit_both_displays() {
    for layout in [PlayerLayout::band_10_pro(), PlayerLayout::band_11()] {
        assert!(layout.cover_top >= 64);
        assert!(layout.cover_top + 180 <= layout.title_top);
        assert!(layout.title_top + layout.title_height <= layout.author_top);
        assert!(layout.author_top + layout.author_height <= layout.controls_top);
        assert!(layout.controls_top + 64 <= layout.height - 24);
        assert!(layout.text_width <= layout.width);
        assert!(layout.controls_spacing >= layout.hitbox_size);
        for key in [7, 6, 8] {
            let center = layout.width / 2 + layout.control_x(key);
            assert!(center - layout.hitbox_size / 2 >= 8);
            assert!(center + layout.hitbox_size / 2 <= layout.width - 8);
        }
    }
}

/// MiSans spans 1.326 em (hhea ascender 1044, descender -282 per 1000
/// units); allow one extra pixel for the rasterizer rounding each side up.
fn misans_line_height(px: i32) -> i32 {
    (px * 1_326 + 999) / 1_000 + 1
}

#[test]
fn scrolling_labels_are_at_least_one_line_tall() {
    for (layout, title_px, author_px) in [
        (PlayerLayout::band_10_pro(), 32, 32),
        (PlayerLayout::band_11(), 28, 24),
    ] {
        assert!(layout.title_height >= misans_line_height(title_px));
        assert!(layout.author_height >= misans_line_height(author_px));
    }
}

#[test]
fn background_fills_the_player_viewport() {
    for layout in [PlayerLayout::band_10_pro(), PlayerLayout::band_11()] {
        assert_eq!(layout.background_width, layout.width);
        assert!(BACKGROUND_HEIGHT >= layout.height);
        assert!(LEGACY_BACKGROUND_WIDTH >= layout.width);
    }
}

fn app(route: Route) -> LyraApp {
    LyraApp {
        route,
        generation: 3,
        track_count: 0,
        current: None,
        state: PlaybackState::Idle,
        volume_percent: 50,
        mode_label: "loop".into(),
        library_page: 0,
        library_page_count: 1,
        library_page_songs: vec![],
        has_previous: false,
        has_next: false,
        error: None,
    }
}

#[test]
fn every_local_route_renders() {
    for route in [Route::Home, Route::Library, Route::Player] {
        let snapshot = render(&app(route));
        assert_eq!(snapshot.generation, 3);
        assert!(matches!(snapshot.nodes[0], Node::NavigationPage { .. }));
    }
}

#[test]
fn imported_cover_is_rendered_on_player() {
    let mut app = app(Route::Player);
    app.current = Some(Song {
        id: 1,
        name: "Test".into(),
        album: AlbumRef {
            cover_url: format!("{}/tracks/1/cover.jpg", IMPORT_ROOT),
            background_url: format!("{}/tracks/1/background.bin", IMPORT_ROOT),
            ..AlbumRef::default()
        },
        ..Song::default()
    });
    let snapshot = render(&app);
    let images: Vec<(u32, u32)> = snapshot
        .nodes
        .iter()
        .filter_map(|node| match node {
            Node::Image { key, corner_radius, .. } => Some((*key, *corner_radius)),
            _ => None,
        })
        .collect();
    let image_keys: Vec<u32> = images.iter().map(|(key, _)| *key).collect();
    assert_eq!(image_keys, vec![PLAYER_BACKGROUND_KEY, PLAYER_COVER_KEY]);
    assert_eq!(images[1].1, 24);
}

fn events(snapshot: &Snapshot) -> Vec<(u32, bool)> {
    snapshot
        .nodes
        .iter()
        .filter_map(|node| match node {
            Node::ActionRow { event, enabled, .. } => Some((*event, *enabled)),
            _ => None,
        })
        .collect()
}

#[test]
fn library_rows_carry_their_place_on_the_page() {
    let mut app = app(Route::Library);
    app.library_page = 1;
    app.library_page_count = 2;
    app.track_count = 23;
    app.library_page_songs = (0..3)
        .map(|index| Song { id: index, name: format!("track {index}"), ..Song::default() })
        .collect();
    app.has_previous = true;
    let rows = events(&render(&app));
    for place in 0..3 {
        assert!(rows.contains(&(EVENT_LOCAL_SONG_BASE + place, true)));
    }
    assert!(!rows.iter().any(|(event, _)| *event == EVENT_LOCAL_SONG_BASE + 3));
    assert!(rows.contains(&(EVENT_LIBRARY_PREV, true)));
    assert!(rows.contains(&(EVENT_LIBRARY_NEXT, false)));
}

#[test]
fn states_have_their_labels() {
    assert_eq!(playback_label(PlaybackState::Draining), "即将结束");
    assert_eq!(playback_label(PlaybackState::Finished), "无可播放歌曲");
    assert_eq!(playback_label(PlaybackState::Playing), "播放中");
}

#[test]
fn artists_are_joined_for_display() {
    let song = Song {
        artists: vec![
            ArtistRef { id: 1, name: "A".into() },
            ArtistRef { id: 2, name: "B".into() },
        ],
        ..Song::default()
    };
    assert_eq!(song.artist_line(), "A / B");
    assert_ne!(image_resource_id("a", 1), image_resource_id("b", 1));
    assert_eq!(u32::from(UiEvent(EVENT_BACK)), EVENT_BACK);
}

#[test]
fn pages_fit_the_rows() {
    let rows = |app: &LyraApp| {
        let nodes = render(app).nodes;
        nodes
            .iter()
            .filter(|node| matches!(node, Node::ActionRow { .. } | Node::StatusRow { .. }))
            .count()
    };
    for count in [0, 1, UI_MAX_ROWS - 3] {
        let mut full = app(Route::Library);
        full.library_page_songs = vec![Song::default(); count];
        full.error = Some("fault".into());
        assert_eq!(rows(&full), count + 3);
        assert!(rows(&full) <= UI_MAX_ROWS);
    }
    assert_eq!(rows(&app(Route::Home)), 3);
}
