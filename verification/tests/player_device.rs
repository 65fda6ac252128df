//! The player on the watch: its audio device, its storage and its screen.
use astro_plugins::lyra_import::artwork::{encode_lvgl_v9, RgbaImage};
use astro_plugins::player::audio::{
    classify_generic_write_failure, find_mp3_seek_point, headset_control, monotonic_ms, neg_errno,
    parse_mp3_frame, write_outcome, AudioStatus, MediaControl, PositionClock, SeekStep,
    WriteOutcome, AUDIO_STATE_BUFFERING, AUDIO_STATE_CONFIGURED, AUDIO_STATE_ERROR,
    AUDIO_STATE_PAUSED, AUDIO_STATE_PLAYING, EAGAIN, EINVAL, EIO, EPIPE,
};
use astro_plugins::player::persistence::{PersistenceError, IMPORT_ROOT, LEGACY_IMPORT_ROOT};
use astro_plugins::player::screen::{
    event_survives_restale, find_row, hash_text, hash_word, layout_fingerprint, row_content_hash,
    smoothstep, sync_resumed_page, volume_after, wrapped_label_height, ControlAnimation,
    Navigation, RowKind, RowSlot, HASH_SEED,
};
use astro_plugins::player::storage::{
    c_path, former_path, map_error, read_bounded, resolve_path, validate_lvgl_v9_image, ReadStep,
};
use astro_plugins::player::ui::{
    Node, Route, TextStyle, EVENT_BACK, EVENT_LOCAL_SONG_BASE, EVENT_VOLUME_DOWN, EVENT_VOLUME_UP,
    PLAYER_BACKGROUND_KEY, PLAYER_COVER_KEY,
};

#[test]
fn parses_mpeg1_layer3_frame_header() {
    let frame = parse_mp3_frame([0xff, 0xfb, 0x90, 0x64]).unwrap();
    assert_eq!(frame.bytes, 417);
    assert_eq!(frame.samples, 1_152);
    assert_eq!(frame.sample_rate, 44_100);
}

#[test]
fn generic_write_failure_is_transient_only_for_live_input_states() {
    for state in [
        AUDIO_STATE_CONFIGURED,
        AUDIO_STATE_BUFFERING,
        AUDIO_STATE_PLAYING,
        AUDIO_STATE_PAUSED,
    ] {
        let status = AudioStatus { state, last_error: 0 };
        assert_eq!(classify_generic_write_failure(Some(status)), Ok(0));
    }

    let failed = AudioStatus { state: AUDIO_STATE_ERROR, last_error: -77 };
    assert_eq!(classify_generic_write_failure(Some(failed)), Err(-77));
    assert_eq!(classify_generic_write_failure(None), Err(-1));
}

#[test]
fn rejects_non_layer3_and_invalid_bitrate() {
    assert!(parse_mp3_frame([0xff, 0xfd, 0x90, 0x64]).is_none());
    assert!(parse_mp3_frame([0xff, 0xfb, 0x00, 0x64]).is_none());
}

#[test]
fn frames_of_the_other_versions_are_shorter() {
    let second = parse_mp3_frame([0xff, 0xf3, 0x82, 0x00]).unwrap();
    assert_eq!((second.bytes, second.samples, second.sample_rate), (209, 576, 22_050));
    let half = parse_mp3_frame([0xff, 0xe3, 0x18, 0x00]).unwrap();
    assert_eq!((half.bytes, half.samples, half.sample_rate), (72, 576, 8_000));
    assert!(parse_mp3_frame([0xff, 0xeb, 0x90, 0x64]).is_none());
    assert!(parse_mp3_frame([0xff, 0xfb, 0xf0, 0x64]).is_none());
    assert!(parse_mp3_frame([0xff, 0xfb, 0x9c, 0x64]).is_none());
    assert!(parse_mp3_frame([0xfe, 0xfb, 0x90, 0x64]).is_none());
}

#[test]
fn failures_without_a_reason_get_one() {
    let failed = AudioStatus { state: AUDIO_STATE_ERROR, last_error: 0 };
    assert_eq!(classify_generic_write_failure(Some(failed)), Err(EIO));
    let closed = AudioStatus { state: 0, last_error: 3 };
    assert_eq!(classify_generic_write_failure(Some(closed)), Err(EPIPE));
    let closed = AudioStatus { state: 1, last_error: -9 };
    assert_eq!(classify_generic_write_failure(Some(closed)), Err(-9));
}

fn seek(file: &[u8], target_ms: u32) -> Result<(u64, u32), i32> {
    let mut scan = find_mp3_seek_point(target_ms);
    loop {
        let at = scan.wanted() as usize;
        let header = file.get(at..at + 4).map(|h| [h[0], h[1], h[2], h[3]]);
        match scan.step(header) {
            SeekStep::Next(next) => scan = next,
            SeekStep::Found(offset, ms) => return Ok((offset, ms)),
            SeekStep::Failed(error) => return Err(error),
        }
    }
}

#[test]
fn seeking_lands_on_the_frame_at_the_target() {
    let mut file = vec![0u8; 10];
    for _ in 0..4 {
        let mut frame = vec![0u8; 417];
        frame[..4].copy_from_slice(&[0xff, 0xfb, 0x90, 0x64]);
        file.extend_from_slice(&frame);
    }
    assert_eq!(seek(&file, 0), Ok((10, 0)));
    assert_eq!(seek(&file, 26), Ok((10, 0)));
    assert_eq!(seek(&file, 27), Ok((427, 26)));
    assert_eq!(seek(&file, 60), Ok((844, 52)));
    assert_eq!(seek(&file, 100_000), Ok((1261, 78)));
    assert_eq!(seek(&[0u8; 40], 5), Err(EINVAL));
    assert_eq!(seek(&file[..200], 9_000), Ok((10, 0)));
}

#[test]
fn answers_of_the_device_are_read() {
    assert_eq!(neg_errno(-1, 5), -5);
    assert_eq!(neg_errno(-1, 0), -1);
    assert_eq!(neg_errno(-7, 5), -7);
    assert_eq!(write_outcome(100, 0), WriteOutcome::Taken(100));
    assert_eq!(write_outcome(EAGAIN, 0), WriteOutcome::Taken(0));
    assert_eq!(write_outcome(-1, 11), WriteOutcome::Taken(0));
    assert_eq!(write_outcome(-1, 32), WriteOutcome::Failed(-32));
    assert_eq!(write_outcome(-1, 0), WriteOutcome::Unclear);
    assert_eq!(write_outcome(-9, 0), WriteOutcome::Failed(-9));
    assert_eq!(headset_control(16, 0, 1), Ok(Some(MediaControl::Play)));
    assert_eq!(headset_control(16, 0, 2), Ok(Some(MediaControl::Pause)));
    assert_eq!(headset_control(16, 0, 3), Ok(Some(MediaControl::Next)));
    assert_eq!(headset_control(16, 0, 4), Ok(Some(MediaControl::Previous)));
    assert_eq!(headset_control(16, 0, 9), Ok(None));
    assert_eq!(headset_control(8, 0, 1), Err(EIO));
    assert_eq!(headset_control(-1, 11, 1), Ok(None));
    assert_eq!(headset_control(-1, 9, 1), Err(-9));
}

#[test]
fn pausing_keeps_the_position() {
    assert_eq!(monotonic_ms(0, 2, 345_000_000), Some(2_345));
    assert_eq!(monotonic_ms(-1, 2, 0), None);
    assert_eq!(monotonic_ms(0, 2, 1_000_000_000), None);
    assert_eq!(monotonic_ms(0, -1, 0), None);
    let clock = PositionClock::new().run(Some(1_000));
    assert_eq!(clock.playback_position_ms(true, Some(4_000)), Some(3_000));
    assert_eq!(clock.playback_position_ms(false, Some(4_000)), None);
    let rest = clock.freeze_position_clock(Some(4_000));
    assert_eq!(rest.playback_position_ms(true, Some(9_000)), None);
    assert_eq!(rest.run(Some(9_000)).playback_position_ms(true, Some(9_500)), Some(3_500));
    assert_eq!(rest.run(Some(9_000)).playback_position_ms(true, Some(1)), Some(3_000));
}

#[test]
fn files_are_found_where_they_stood() {
    let path = format!("{IMPORT_ROOT}/a.mp3");
    let former = format!("{LEGACY_IMPORT_ROOT}/a.mp3");
    assert_eq!(former_path(&path), Some(former.clone()));
    assert_eq!(former_path("/tmp/a.mp3"), None);
    assert_eq!(former_path(&former), None);
    assert_eq!(resolve_path(&path, true, true), Some(path.clone()));
    assert_eq!(resolve_path(&path, false, true), Some(former.clone()));
    assert_eq!(resolve_path(&path, false, false), None);
    assert_eq!(resolve_path(&former, true, false), Some(former));
    assert_eq!(resolve_path("/tmp/a.mp3", true, true), None);
    assert_eq!(c_path("/a"), Ok(vec![b'/', b'a', 0]));
    assert_eq!(c_path("/a\0b"), Err(-1));
}

#[test]
fn reading_stops_at_the_limit() {
    match read_bounded(vec![1, 2], &[3, 4, 5], 2, 4) {
        ReadStep::More(v) => assert_eq!(v, vec![1, 2, 3, 4]),
        _ => panic!("the chunk fits"),
    }
    assert!(matches!(read_bounded(vec![1, 2], &[3, 4, 5], 3, 4), ReadStep::Failed(-2)));
    assert!(matches!(read_bounded(vec![1, 2], &[], -9, 4), ReadStep::Failed(-9)));
    match read_bounded(vec![1, 2], &[3], 0, 4) {
        ReadStep::Done(v) => assert_eq!(v, vec![1, 2]),
        _ => panic!("the file has ended"),
    }
    assert_eq!(map_error(PersistenceError::Storage(-3)), -3);
    assert_eq!(map_error(PersistenceError::Json), -5);
    assert_eq!(map_error(PersistenceError::Version), -6);
    assert_eq!(map_error(PersistenceError::UnsafePath), -7);
}

#[test]
fn encoded_images_are_shown() {
    let image = RgbaImage { width: 180, height: 180, pixels: vec![7; 180 * 180 * 4] };
    let file = encode_lvgl_v9(&image).unwrap();
    let length = file.len() as i64;
    assert!(validate_lvgl_v9_image(&file[..12], length, 180, 180));
    assert!(!validate_lvgl_v9_image(&file[..12], length, 336, 520));
    assert!(!validate_lvgl_v9_image(&file[..12], length - 1, 180, 180));
    let mut header = file[..12].to_vec();
    header[11] = 1;
    assert!(!validate_lvgl_v9_image(&header, length, 180, 180));
    assert!(!validate_lvgl_v9_image(&file[..12], 12, 20_000, 0));
}

#[test]
fn labels_wrap_at_twenty_units() {
    assert_eq!(wrapped_label_height(""), 44);
    assert_eq!(wrapped_label_height("aaaaaaaaaaaaaaaaaaaa"), 44);
    assert_eq!(wrapped_label_height("aaaaaaaaaaaaaaaaaaaaa"), 88);
    assert_eq!(wrapped_label_height("一二三四五六七八九十"), 44);
    assert_eq!(wrapped_label_height("一二三四五六七八九十一"), 88);
    assert_eq!(wrapped_label_height("a\nb\nc"), 132);
    assert_eq!(wrapped_label_height("1\n2\n3\n4\n5\n6\n7\n8"), 264);
}

#[test]
fn hashes_are_fnv() {
    assert_eq!(hash_word(HASH_SEED, 0), 0x4b95_f515);
    assert_eq!(hash_text(HASH_SEED, ""), hash_word(HASH_SEED, 0));
    assert_ne!(row_content_hash("a", "b", 1), row_content_hash("a", "b", 0));
    assert_ne!(row_content_hash("ab", "", 1), row_content_hash("a", "b", 1));
}

fn page() -> Vec<Node> {
    vec![
        Node::NavigationPage { key: 1, title: "t".into() },
        Node::Text { key: 2, text: "x".into(), style: TextStyle::Title },
        Node::StatusRow { key: 3, label: "l".into(), value: "v".into() },
        Node::ActionRow {
            key: 4,
            label: "l".into(),
            detail: "d".into(),
            event: 9,
            enabled: true,
        },
        Node::Image {
            key: PLAYER_BACKGROUND_KEY,
            resource: 1,
            path: "p".into(),
            width: 336,
            height: 520,
            corner_radius: 0,
        },
        Node::Image {
            key: PLAYER_COVER_KEY,
            resource: 1,
            path: "p".into(),
            width: 180,
            height: 180,
            corner_radius: 0,
        },
    ]
}

#[test]
fn only_placement_changes_a_fingerprint() {
    let (hash, count) = layout_fingerprint(&page());
    assert_eq!(count, 4);
    let mut other = page();
    other.remove(4);
    assert_eq!(layout_fingerprint(&other), (hash, 4));
    other[2] = Node::StatusRow { key: 3, label: "m".into(), value: "w".into() };
    assert_eq!(layout_fingerprint(&other), (hash, 4));
    other[1] = Node::Text { key: 2, text: "y".into(), style: TextStyle::Title };
    assert_ne!(layout_fingerprint(&other).0, hash);
    assert_eq!(layout_fingerprint(&Vec::new()), (HASH_SEED, 0));
}

#[test]
fn rows_are_used_again_where_they_can_be() {
    let row = |kind, key, used| Some(RowSlot { kind, key, used });
    let nodes = page();
    let slots = vec![
        None,
        row(RowKind::Action, 77, false),
        row(RowKind::Action, 4, false),
        row(RowKind::Status, 3, false),
    ];
    assert_eq!(find_row(&slots, &nodes, RowKind::Action, 4), Some(2));
    assert_eq!(find_row(&slots, &nodes, RowKind::Action, 5), Some(1));
    assert_eq!(find_row(&slots, &nodes, RowKind::Status, 8), Some(0));
    let taken = vec![row(RowKind::Action, 77, true), row(RowKind::Status, 3, false)];
    assert_eq!(find_row(&taken, &nodes, RowKind::Action, 77), None);
    assert_eq!(find_row(&taken, &nodes, RowKind::Status, 9), None);
    assert_eq!(find_row(&taken, &nodes, RowKind::ImageButton, 6), None);
}

#[test]
fn movements_end_where_they_were_sent() {
    assert_eq!(smoothstep(0), 0);
    assert_eq!(smoothstep(4), 256);
    assert_eq!(smoothstep(8), 512);
    assert_eq!(smoothstep(90), 512);
    let mut control = ControlAnimation::new().start_control_animation(true);
    assert!(control.animating);
    let mut sizes = Vec::new();
    while control.animating {
        control = control.advance_control_animation();
        sizes.push(control.size);
    }
    assert_eq!(sizes, vec![189, 178, 163, 146, 130, 115, 104, 100]);
    assert_eq!(control.start_control_animation(true), control);
    let mut back = control.start_control_animation(false);
    for _ in 0..8 {
        back = back.advance_control_animation();
    }
    assert_eq!((back.size, back.animating), (192, false));
}

#[test]
fn touches_are_understood() {
    assert!(event_survives_restale(EVENT_BACK));
    assert!(!event_survives_restale(EVENT_LOCAL_SONG_BASE));
    assert_eq!(volume_after(55, EVENT_VOLUME_UP), Some(65));
    assert_eq!(volume_after(95, EVENT_VOLUME_UP), Some(100));
    assert_eq!(volume_after(55, EVENT_VOLUME_DOWN), Some(45));
    assert_eq!(volume_after(5, EVENT_VOLUME_DOWN), Some(0));
    assert_eq!(volume_after(5, EVENT_BACK), None);
    let mut nav = Navigation {
        route: Route::Player,
        history: vec![Route::Home, Route::Library, Route::Home],
        generation: u32::MAX,
    };
    sync_resumed_page(&mut nav, Route::Player);
    assert_eq!((nav.history.len(), nav.generation), (3, u32::MAX));
    sync_resumed_page(&mut nav, Route::Library);
    assert_eq!((nav.route, nav.generation), (Route::Library, 1));
    assert_eq!(nav.history, vec![Route::Home]);
    sync_resumed_page(&mut nav, Route::Player);
    assert_eq!((nav.route, nav.generation), (Route::Player, 2));
    assert!(nav.history.is_empty());
}
