//! Whole imports over the link, the page that starts them, and the cloud login.
use astro_plugins::json::Json;
use astro_plugins::lyra_import::actions::{
    cloud_request, delete_question, local_request, logged_out, on_event, on_load, pick_extensions,
    picked, playlist_opened, playlists_loaded, qr_begun, qr_polled, searched, start_failed,
    UiEffect,
};
use astro_plugins::lyra_import::artwork::{
    assemble, unique_output_directory, PreparedArtwork, BACKGROUND_BIN_BYTES, COVER_BIN_BYTES,
    LVGL_V9_FORMAT,
};
use astro_plugins::lyra_import::import::{
    accepts_file, cancel, handle, inspect_file, new_id, pace, send_next_chunk, start,
    validate_assets, ChunkMode, ImportAsset, ImportRequest, ImportStep, Transfer,
    DEFAULT_CHUNK_BYTES, ROUTE_PACKAGE,
};
use astro_plugins::lyra_import::netease::{
    accept_download, accept_response, account_user, begin_qr_login, check_login, cookie_pair,
    cookie_value, count_download, device_id, download_directory, eapi, eapi_encipher, eapi_sign, finish_download,
    gather_assets, lyric_data, normalized_audio_bitrate, playlist_tracks, poll_cookie,
    poll_qr_login,
    qr_check_data, random_secret, response_cookies, search_data, search_result, song_address,
    song_url_data, url_encode, user_playlists, weapi_encipher, QrSession, SongAddress,
    MAX_LYRICS_BYTES,
};
use astro_plugins::lyra_import::preparation::{prepare, Preparation, Progress, Reply, Task};
use astro_plugins::lyra_import::state::{
    load_netease_session, save_netease_session, CloudPlaylist, CloudSong, DeviceLibraryTrack,
    NeteaseView, SelectedFile, TransferMode, UiState,
};
use astro_plugins::lyra_import::ui::{
    asset_label, build_root, duration_text, file_summary, progress, SizeTexts,
};

// ---------------------------------------------------------------- transfers

fn request(assets: Vec<ImportAsset>) -> ImportRequest {
    ImportRequest {
        addr: "aa".into(),
        track_id: 5,
        name: "Song".into(),
        artists: vec!["A".into()],
        album: "Album".into(),
        album_id: 0,
        duration_ms: 1000,
        assets,
    }
}

struct Session {
    transfer: Option<Transfer>,
    ui: UiState,
}

impl Session {
    fn begin(assets: Vec<ImportAsset>, mode: TransferMode) -> Session {
        let mut session = Session { transfer: None, ui: UiState::default() };
        session.ui.transfer_mode = mode;
        let hello =
            start(&mut session.transfer, &mut session.ui, request(assets), "id-1".into(), 0)
                .unwrap();
        assert_eq!(hello.to_text(), r#"{"tag":"lyra-import-hello","version":2}"#);
        session
    }

    fn receive(&mut self, payload: &str) -> ImportStep {
        handle(&mut self.transfer, &mut self.ui, "aa", ROUTE_PACKAGE, payload, 10, 100)
    }

    fn sent(&mut self, payload: &str) -> Json {
        match self.receive(payload) {
            ImportStep::Send(message) => message,
            _ => panic!("nothing sent: {}", self.ui.status),
        }
    }

    fn feed(&mut self, step: ImportStep) -> Json {
        let (offset, count) = match step {
            ImportStep::Read { offset, count, .. } => (offset as usize, count),
            _ => panic!("nothing read: {}", self.ui.status),
        };
        let bytes = (offset..offset + count).map(|i| i as u8).collect();
        match send_next_chunk(&mut self.transfer, &mut self.ui, "aa", Ok(bytes)) {
            ImportStep::Send(message) => message,
            _ => panic!("nothing sent: {}", self.ui.status),
        }
    }
}

const HELLO: &str = r#"{"tag":"lyra-import-hello","version":2,"window":1,"encodings":["base64"],"checksums":["none"],"chunkModes":["none-48k"],"assets":["cover","background"],"imageFormats":["lvgl-v9-argb8888-bin"],"maxChunkBytes":4}"#;

fn ready(asset: &str, extra: &str) -> String {
    format!(
        r#"{{"tag":"lyra-import-ready","id":"id-1","asset":"{asset}","nextSeq":0,"nextOffset":0,"window":1,"maxChunkBytes":4{extra}}}"#
    )
}

fn ack(asset: &str, seq: u64, offset: u64, received: u64) -> String {
    format!(
        r#"{{"tag":"lyra-import-ack","id":"id-1","asset":"{asset}","nextSeq":{seq},"nextOffset":{offset},"receivedBytes":{received}}}"#
    )
}

#[test]
fn an_import_sends_every_asset_and_finishes() {
    let mut session = Session::begin(
        vec![
            ImportAsset::audio("a.mp3".into(), 6),
            ImportAsset::lyrics("l.lrc".into(), 3, "lrc"),
        ],
        TransferMode::Crc32,
    );
    assert!(session.ui.active);
    assert_eq!(session.ui.total, 9);
    let begin = session.sent(HELLO);
    assert_eq!(begin.str_at("tag"), Some("lyra-import-begin"));
    assert_eq!(begin.str_at("checksum"), Some("crc32"));
    assert_eq!(begin.get("track").unwrap().str_at("name"), Some("Song"));
    let step = session.receive(&ready("audio", ""));
    let chunk = session.feed(step);
    assert_eq!(chunk.str_at("data"), Some("AAECAw=="));
    assert_eq!(chunk.str_at("crc32"), Some("8bb98613"));
    assert_eq!(session.ui.status, "正在传输音频…");
    let retry = r#"{"tag":"lyra-import-retry","id":"id-1","asset":"audio","seq":0,"offset":0}"#;
    assert_eq!(session.sent(retry).to_text(), chunk.to_text());
    assert_eq!(session.ui.status, "分片校验失败，正在进行第 1/2 次重传…");
    let step = session.receive(&ack("audio", 1, 4, 4));
    assert_eq!(session.ui.sent, 4);
    assert_eq!(session.ui.speed_bytes_per_second, 100);
    let chunk = session.feed(step);
    assert_eq!(chunk.u64_at("seq"), Some(1));
    assert_eq!(chunk.str_at("data"), Some("BAU="));
    let end = session.sent(&ack("audio", 2, 6, 6));
    assert_eq!(end.str_at("tag"), Some("lyra-import-asset-end"));
    let step = session.receive(&ready("lyrics", ""));
    session.feed(step);
    session.sent(&ack("lyrics", 1, 3, 9));
    let commit = session.sent(r#"{"tag":"lyra-import-assets-done","id":"id-1"}"#);
    assert_eq!(commit.to_text(), r#"{"id":"id-1","tag":"lyra-import-commit"}"#);
    assert!(matches!(
        session.receive(r#"{"tag":"lyra-import-done","id":"id-1"}"#),
        ImportStep::Finished
    ));
    assert!(session.transfer.is_none());
    assert!(!session.ui.active);
    assert_eq!(session.ui.sent, 9);
    assert_eq!(session.ui.status, "导入完成；Lyra Player 将自动刷新音乐库。");
}

#[test]
fn the_fastest_mode_both_sides_know_is_used() {
    let audio = || vec![ImportAsset::audio("a.mp3".into(), 6)];
    let mut session = Session::begin(audio(), TransferMode::Ultra);
    let begin = session.sent(HELLO);
    assert_eq!(begin.str_at("checksum"), Some("none"));
    assert_eq!(begin.str_at("chunkMode"), Some(ChunkMode::NoneUltra.as_str()));
    let step =
        session.receive(&ready("audio", r#","checksum":"none","chunkMode":"none-48k""#));
    assert!(session.feed(step).get("crc32").is_none());
    let mut session = Session::begin(audio(), TransferMode::Ultra);
    session.sent(HELLO);
    assert!(matches!(session.receive(&ready("audio", "")), ImportStep::Failed));
    assert_eq!(session.ui.status, "导入失败：快应用返回的校验模式不一致");
}

#[test]
fn artwork_is_left_out_where_the_watch_cannot_show_it() {
    let mut session = Session::begin(
        vec![
            ImportAsset::audio("a.mp3".into(), 6),
            ImportAsset::cover_bin("c.bin".into(), COVER_BIN_BYTES),
            ImportAsset::background_bin("b.bin".into(), BACKGROUND_BIN_BYTES),
        ],
        TransferMode::Crc32,
    );
    let begin = session.sent(
        r#"{"tag":"lyra-import-hello","version":2,"window":1,"encodings":["base64"]}"#,
    );
    assert_eq!(begin.get("assets").unwrap().as_array().unwrap().len(), 1);
    assert_eq!(session.ui.total, 6);
    assert_eq!(session.transfer.as_ref().unwrap().chunk_bytes, DEFAULT_CHUNK_BYTES);
}

fn failure(payload: &str) -> String {
    let mut session =
        Session::begin(vec![ImportAsset::audio("a.mp3".into(), 6)], TransferMode::Crc32);
    assert!(matches!(session.receive(payload), ImportStep::Failed));
    assert!(session.transfer.is_none());
    session.ui.status
}

#[test]
fn faults_of_the_watch_end_the_import() {
    assert_eq!(
        failure(r#"{"tag":"lyra-import-hello","version":1,"window":1}"#),
        "导入失败：快应用不支持 Lyra Import v2 单窗口协议"
    );
    assert_eq!(
        failure(r#"{"tag":"lyra-import-hello","version":2,"window":1,"encodings":["hex"]}"#),
        "导入失败：快应用不支持 base64 分片"
    );
    assert_eq!(
        failure(r#"{"tag":"lyra-import-error","id":"id-1","code":"full","message":"no space"}"#),
        "导入失败：full: no space"
    );
    assert_eq!(
        failure(r#"{"tag":"lyra-import-cancelled","id":"id-1"}"#),
        "导入失败：快应用已取消导入"
    );
    assert_eq!(failure(&ready("audio", "")), "导入失败：意外的导入响应状态");
}

#[test]
fn other_messages_are_ignored() {
    let mut session =
        Session::begin(vec![ImportAsset::audio("a.mp3".into(), 6)], TransferMode::Crc32);
    for payload in [
        "no json",
        r#"{"tag":"else"}"#,
        r#"{"tag":"lyra-import-done","id":"other"}"#,
        r#"{"version":2}"#,
    ] {
        assert!(matches!(session.receive(payload), ImportStep::Ignore));
    }
    let step = handle(
        &mut session.transfer, &mut session.ui, "bb", ROUTE_PACKAGE, HELLO, 1, 0,
    );
    assert!(matches!(step, ImportStep::Ignore));
    let step = handle(&mut session.transfer, &mut session.ui, "aa", "com.other", HELLO, 1, 0);
    assert!(matches!(step, ImportStep::Ignore));
    assert!(session.transfer.is_some());
    let refused = start(
        &mut session.transfer,
        &mut session.ui,
        request(vec![ImportAsset::audio("b.mp3".into(), 6)]),
        "id-2".into(),
        0,
    );
    assert_eq!(refused.unwrap_err(), "已有导入任务正在运行");
    let (addr, message) = cancel(&mut session.transfer, &mut session.ui).unwrap();
    assert_eq!(addr, "aa");
    assert_eq!(message.to_text(), r#"{"id":"id-1","tag":"lyra-import-cancel"}"#);
    assert!(cancel(&mut session.transfer, &mut session.ui).is_none());
}

#[test]
fn a_file_that_cannot_be_read_ends_the_import() {
    let mut session =
        Session::begin(vec![ImportAsset::audio("a.mp3".into(), 6)], TransferMode::Crc32);
    session.sent(HELLO);
    session.receive(&ready("audio", ""));
    assert_eq!(pace(session.transfer.as_ref().unwrap(), 7), Some((0, 7)));
    let step = send_next_chunk(
        &mut session.transfer,
        &mut session.ui,
        "aa",
        Err("cannot read audio chunk: gone".into()),
    );
    assert!(matches!(step, ImportStep::Failed));
    assert_eq!(session.ui.status, "导入失败：cannot read audio chunk: gone");
}

#[test]
fn assets_are_refused_with_a_reason() {
    let audio = || ImportAsset::audio("a.mp3".into(), 6);
    let fault = |assets: &[ImportAsset]| validate_assets(assets).unwrap_err();
    assert_eq!(fault(&[]), "导入必须以一个音频资源开始");
    assert_eq!(fault(&[ImportAsset::audio("a".into(), 0)]), "导入资源为空或重复");
    let mut other = audio();
    other.kind = "video";
    assert_eq!(fault(&[audio(), other]), "导入包含未知资源");
    let mut cover = ImportAsset::cover_bin("c".into(), COVER_BIN_BYTES);
    assert_eq!(
        fault(&[audio(), ImportAsset::lyrics("l".into(), 1, "lrc"), cover.clone()]),
        "导入资源顺序无效"
    );
    cover.width = Some(1);
    assert_eq!(fault(&[audio(), cover]), "LVGL 图片资源元数据无效");
    let mut background = ImportAsset::background_bin("b".into(), BACKGROUND_BIN_BYTES);
    assert_eq!(background.format, Some(LVGL_V9_FORMAT));
    background.format = None;
    assert_eq!(fault(&[audio(), background]), "背景必须是 LVGL v9 BIN");
}

#[test]
fn picked_files_are_inspected() {
    let file = inspect_file("media/a.MP3", "a.MP3", "audio", "mp3", true, 10, Some(1 << 40));
    assert_eq!(file.unwrap().duration_ms, u32::MAX);
    assert_eq!(accepts_file("audio", "mp3", true, 0).unwrap_err(), "selected file is empty");
    assert_eq!(accepts_file("film", "mp3", true, 1).unwrap_err(), "unknown asset kind");
    assert_eq!(
        accepts_file("cover", "gif", true, 1).unwrap_err(),
        "unsupported cover file extension"
    );
    assert_eq!(
        accepts_file("lyrics", "lrc", true, 2 * 1024 * 1024 + 1).unwrap_err(),
        "selected lyrics file exceeds import limit"
    );
    assert_eq!(new_id(0xabc), format!("{:032x}", 0xabc));
}

// ---------------------------------------------------------------- page

fn event(state: &mut UiState, id: &str, value: &str) -> UiEffect {
    on_event(state, id, Some(value.to_string()))
}

fn selected(name: &str) -> SelectedFile {
    SelectedFile { name: name.into(), path: format!("media/{name}"), size: 9, duration_ms: 70_000 }
}

#[test]
fn a_local_import_is_put_together_on_the_page() {
    let mut state = UiState::default();
    assert!(matches!(event(&mut state, "action:file.audio", ""), UiEffect::Pick("audio")));
    assert_eq!(pick_extensions("cover"), vec!["jpg", "jpeg", "png"]);
    event(&mut state, "action:import.local", "");
    assert_eq!(state.status, "请先选择 MP3。");
    picked(&mut state, "audio", Ok(selected("my.song.mp3")));
    assert_eq!(state.track_name, "my.song");
    assert_eq!(state.duration_ms, 70_000);
    assert_eq!(state.status, "已选择音频。");
    picked(&mut state, "lyrics", Ok(selected("l.JSON")));
    picked(&mut state, "cover", Err("gone".into()));
    assert_eq!(state.status, "文件读取失败：gone");
    event(&mut state, "input:artist", " A ");
    event(&mut state, "input:device", "aa");
    event(&mut state, "input:duration", "1234");
    assert!(matches!(event(&mut state, "action:import.local", ""), UiEffect::StartLocal));
    let images = PreparedArtwork {
        cover_path: "c.bin".into(),
        cover_size: COVER_BIN_BYTES,
        background_path: Some("b.bin".into()),
        background_size: Some(BACKGROUND_BIN_BYTES),
    };
    let request = local_request(&mut state, Some(Ok(images)), 42);
    assert_eq!(request.artists, vec!["A"]);
    assert_eq!(request.duration_ms, 1234);
    let kinds: Vec<&str> = request.assets.iter().map(|a| a.kind).collect();
    assert_eq!(kinds, vec!["audio", "cover", "background", "lyrics"]);
    assert_eq!(request.assets[3].format, Some("json"));
    let request = local_request(&mut state, Some(Err("blurred".into())), 42);
    assert_eq!(request.assets.len(), 2);
    assert_eq!(state.status, "封面处理失败，将仅导入音频：blurred");
    start_failed(&mut state, "x");
    assert_eq!(state.status, "无法开始导入：x");
    event(&mut state, "input:name", "  ");
    event(&mut state, "action:import.local", "");
    assert_eq!(state.status, "曲名不能为空。");
}

fn song(id: u64) -> CloudSong {
    CloudSong {
        id,
        name: "S".into(),
        artists: vec![],
        album: "L".into(),
        album_id: 2,
        duration_ms: 3,
        cover_url: String::new(),
    }
}

#[test]
fn cloud_songs_are_chosen_by_their_place() {
    let mut state = UiState::default();
    event(&mut state, "action:netease.search", "");
    assert_eq!(state.status, "请输入网易云搜索关键词。");
    event(&mut state, "input:netease.query", "q");
    assert!(matches!(event(&mut state, "action:netease.search", ""), UiEffect::Search));
    searched(&mut state, Ok(vec![song(1), song(2)]));
    assert_eq!(state.netease_view, NeteaseView::SearchResults);
    assert_eq!(state.status, "找到 2 首歌曲。");
    state.selected_addr = "aa".into();
    match event(&mut state, "action:netease.result.1", "") {
        UiEffect::StartSong(chosen) => assert_eq!(chosen.id, 2),
        _ => panic!("no song: {}", state.status),
    }
    assert!(matches!(event(&mut state, "action:netease.playlist.9", ""), UiEffect::OpenPlaylist(9)));
    playlist_opened(&mut state, Ok(("P".into(), (0..60).map(song).collect())));
    event(&mut state, "action:netease.playlist.page.next", "");
    assert_eq!(state.netease_playlist_page, 1);
    event(&mut state, "action:netease.playlist.page.next", "");
    assert_eq!(state.netease_playlist_page, 1);
    match event(&mut state, "action:netease.track.59", "") {
        UiEffect::StartSong(chosen) => assert_eq!(chosen.id, 59),
        _ => panic!("no song: {}", state.status),
    }
    playlists_loaded(&mut state, Err("why".into()));
    assert_eq!(state.status, "why");
    event(&mut state, "input:transfer.checksum", "none-48k");
    assert_eq!(state.transfer_mode, TransferMode::Ultra);
    event(&mut state, "input:netease.audio-quality", "7");
    assert_eq!(state.netease_audio_bitrate, 128_000);
}

#[test]
fn library_events_name_their_track() {
    let mut state = UiState::default();
    state.device_library = vec![DeviceLibraryTrack {
        id: 4,
        name: "Old".into(),
        artists: vec![],
        album: String::new(),
        duration_ms: 0,
    }];
    assert!(matches!(
        event(&mut state, "action:library.move.up.4", ""),
        UiEffect::MoveTrack { id: 4, up: true }
    ));
    match event(&mut state, "action:library.delete.4", "") {
        UiEffect::ConfirmDelete { id, name } => assert_eq!((id, name.as_str()), (4, "Old")),
        _ => panic!("no question"),
    }
    assert_eq!(
        delete_question("Old"),
        "确定删除《Old》吗？音频、封面、背景和歌词都会被永久删除。"
    );
    event(&mut state, "input:device", "bb");
    assert!(state.device_library.is_empty());
}

#[test]
fn the_login_is_restored_and_removed() {
    let mut state = UiState::default();
    on_load(&mut state, Ok(Some("MUSIC_U=1".into())));
    assert_eq!(state.netease_cookie, "MUSIC_U=1");
    assert_eq!(state.status, "已恢复网易云登录状态。");
    assert_eq!(state.netease_audio_bitrate, 128_000);
    qr_begun(&mut state, Ok(("key".into(), "http://x".into())));
    assert_eq!((state.qr_key.as_str(), state.qr_url.as_str()), ("key", "http://x"));
    assert!(!qr_polled(&mut state, Ok(None)));
    assert!(qr_polled(&mut state, Ok(Some("MUSIC_U=2".into()))));
    assert_eq!(state.netease_cookie, "MUSIC_U=2");
    logged_out(&mut state, Ok(()));
    assert_eq!(state.netease_cookie, "");
    assert_eq!(save_netease_session(" MUSIC_U=1 ").unwrap(), "MUSIC_U=1");
    assert_eq!(load_netease_session(b"MUSIC_U=1\n").unwrap().as_deref(), Some("MUSIC_U=1"));
    assert_eq!(load_netease_session(b" ").unwrap(), None);
    assert_eq!(load_netease_session(b"").unwrap_err(), "网易云登录状态文件为空或过大");
    assert_eq!(load_netease_session(&[0xff]).unwrap_err(), "网易云登录状态文件不是有效 UTF-8");
    assert_eq!(save_netease_session(" ").unwrap_err(), "网易云登录数据为空或过大");
}

#[test]
fn the_page_shows_what_it_knows() {
    let mut state = UiState::default();
    state.status = "ready-to-go".into();
    let sizes = SizeTexts {
        sent: "1.0".into(),
        total: "2.0".into(),
        audio: "0.5".into(),
        cover: String::new(),
        lyrics: String::new(),
    };
    let shown = format!("{:?}", build_root(&state, &sizes));
    assert!(shown.contains("ready-to-go"));
    assert!(shown.contains("action:import.local"));
    assert_eq!(duration_text(61_000), "01:01");
    assert_eq!(asset_label("cover"), "封面");
    assert_eq!(progress(1, 4), 25);
    assert_eq!(progress(1, 0), 0);
    assert!(file_summary("Audio", &Some(selected("a.mp3")), "0.5").contains("a.mp3"));
}

// ---------------------------------------------------------------- service

#[test]
fn cookies_are_read_and_joined() {
    assert_eq!(cookie_pair(" a=1 ; Path=/"), "a=1");
    assert_eq!(cookie_value("x=1; __csrf=t; y=2", "__csrf"), "t");
    assert_eq!(cookie_value("x=1", "__csrf"), "");
    assert_eq!(response_cookies(&vec!["a=1; Path=/".into(), " ".into()]), vec!["a=1"]);
    assert_eq!(url_encode("a b/é~"), "a%20b%2F%C3%A9~");
    assert_eq!(normalized_audio_bitrate(192_000), 192_000);
    assert_eq!(normalized_audio_bitrate(1), 128_000);
}

#[test]
fn a_login_by_code_goes_through_its_states() {
    let mut session = QrSession { key: String::new(), cookies: vec![] };
    assert_eq!(
        begin_qr_login(&mut session, 500, String::new(), None, "D", vec![], 1).unwrap_err(),
        "二维码登录初始化失败：500"
    );
    assert_eq!(
        begin_qr_login(&mut session, 200, String::new(), None, "D", vec![], 1).unwrap_err(),
        "网易云未返回二维码 key"
    );
    let (key, url) = begin_qr_login(
        &mut session,
        200,
        String::new(),
        Some("k 1".into()),
        "D",
        vec!["a=1; Path=/".into()],
        17,
    )
    .unwrap();
    assert_eq!(key, "k 1");
    assert_eq!(url, "http://music.163.com/login?codekey=k%201&chainId=v1_D_web_login_17");
    assert_eq!(poll_cookie(&session, "k 1").unwrap(), "sDeviceId=D; a=1");
    assert_eq!(
        poll_cookie(&session, "else").unwrap_err(),
        "二维码登录会话已失效，请重新生成"
    );
    let mut poll = |code: i32, cookie: Option<&str>| {
        poll_qr_login(&mut session, code, cookie.map(str::to_string), vec![])
    };
    assert_eq!(poll(801, None), Ok(None));
    assert_eq!(poll(800, None).unwrap_err(), "二维码已过期，请重新生成");
    assert_eq!(poll(1, None).unwrap_err(), "扫码登录失败：1");
    assert!(poll(8821, None).is_err());
    assert_eq!(poll(803, Some("a=2; b=3")), Ok(Some("sDeviceId=D; a=2; b=3".into())));
    assert_eq!(session.key, "");
}

#[test]
fn answers_of_the_service_are_checked() {
    assert_eq!(search_result(301, vec![]).unwrap_err(), "网易云搜索失败：301");
    assert_eq!(account_user(200, Some(7)), Ok(7));
    assert_eq!(account_user(200, None).unwrap_err(), "Cookie 已失效或未登录网易云账号。");
    assert_eq!(account_user(-1, None).unwrap_err(), "网易云账号请求失败：-1");
    assert!(user_playlists(500, vec![]).is_err());
    assert_eq!(user_playlists(200, Vec::<CloudPlaylist>::new()).unwrap().len(), 0);
    assert_eq!(
        playlist_tracks(404, String::new(), vec![]).unwrap_err(),
        "歌单详情请求失败：404"
    );
    assert!(check_login(" ").is_err());
    assert_eq!(accept_response(503).unwrap_err(), "网易云 HTTP 503");
    assert_eq!(accept_download(404).unwrap_err(), "下载 HTTP 404");
    assert_eq!(count_download(5, 6, 11), Ok(11));
    assert_eq!(count_download(5, 7, 11).unwrap_err(), "下载内容超过导入上限");
    assert_eq!(finish_download(0).unwrap_err(), "下载内容为空");
    let direct = SongAddress { url: Some("u".into()), proxy_url: String::new() };
    let proxied = SongAddress { url: None, proxy_url: "p".into() };
    assert_eq!(song_address(200, &vec![direct]), Ok("u".into()));
    assert_eq!(song_address(200, &vec![proxied]), Ok("p".into()));
    assert_eq!(song_address(200, &vec![]).unwrap_err(), "网易云未返回歌曲地址");
    assert_eq!(song_address(403, &vec![]).unwrap_err(), "歌曲地址请求失败：403");
    let none = SongAddress { url: None, proxy_url: String::new() };
    assert_eq!(song_address(200, &vec![none]).unwrap_err(), "歌曲因版权或区域限制无法下载");
}

#[test]
fn requests_carry_their_data() {
    let text = |object| Json::Object(object).to_text();
    assert_eq!(text(search_data("q")), r#"{"limit":20,"offset":0,"s":"q","type":1}"#);
    assert_eq!(text(song_url_data(7, 128_000)), r#"{"br":128000,"ids":"[\"7\"]"}"#);
    assert_eq!(text(qr_check_data("k")), r#"{"key":"k","noCheckToken":true,"type":1}"#);
    assert!(text(lyric_data(7)).contains(r#""id":7"#));
    assert_eq!(
        eapi_sign("/p", "{}"),
        "/p-36cd479b6b5-{}-36cd479b6b5-ad423c59a2005591ee6149fb04b2d166"
    );
    assert_eq!(eapi_encipher("hello"), b"params=3329CABA8FB561FF0086A5823D14F529");
    let one = eapi("/api/x", search_data("q"), "", "D", 1_000, 1);
    let two = eapi("/api/x", search_data("q"), "", "D", 1_000, 2);
    assert_ne!(one.body, two.body);
    assert_eq!(one.url, "https://interfacepc.music.163.com/eapi/x");
    assert_eq!(random_secret(1, 2), b"K62NtfcaUYnd2NMG");
    assert_eq!(device_id(1, 2), "F4F6EC6968C56591D34A6D58ACAE82457641AED82D59894CD976");
    let secret = b"abcdefghijklmnop".to_vec();
    let body = String::from_utf8(weapi_encipher("{}", &secret).unwrap()).unwrap();
    assert!(body.starts_with("params="));
    assert!(body.ends_with(sealed_key()));
}

/// The key `abcdefghijklmnop`, reversed and raised to the public exponent.
fn sealed_key() -> &'static str {
    "&encSecKey=d15a1683c992095d0c234c19966605c5c5964911268bbeda8cb8d08d834913e59d53b32358903a121b5fca784c1f5ae44951fd02524df58ecc98e52cc7cf8689b42c2e93ddf05b0592512d87f5960467e2f086c018849d76014d323500e30f13ef4cafbb0cf5a66731a3f1776c75ca35d0062dac70a3e33245afabcf47938487"
}

#[test]
fn gathered_assets_pass_their_own_check() {
    let images = PreparedArtwork {
        cover_path: "c.bin".into(),
        cover_size: COVER_BIN_BYTES,
        background_path: None,
        background_size: None,
    };
    let audio = || ImportAsset::audio("a.mp3".into(), 6);
    let lyrics = || Some(ImportAsset::lyrics("l.json".into(), 1, "json"));
    let assets = gather_assets(audio(), Some(images), lyrics());
    assert_eq!(assets.len(), 3);
    assert!(validate_assets(&assets).is_ok());
    assert_eq!(download_directory(7, 99), "media/netease-7-99");
}

fn next(preparation: Preparation, reply: Reply) -> (Preparation, Task) {
    match preparation.step(reply) {
        Progress::Next(preparation, task) => (preparation, task),
        Progress::Finished(_) => panic!("finished"),
        Progress::Failed(why) => panic!("{why}"),
    }
}

fn address() -> Reply {
    Reply::Address {
        code: 200,
        data: vec![SongAddress { url: Some("http://audio".into()), proxy_url: String::new() }],
    }
}

fn loaded(path: &str) -> Reply {
    Reply::Loaded { path: path.into(), size: 6 }
}

#[test]
fn a_cloud_song_is_loaded_part_by_part() {
    let mut wanted = song(7);
    wanted.cover_url = "http://cover".into();
    let (p, task) = prepare(wanted, 1);
    assert!(matches!(task, Task::Ask { path: "/api/song/enhance/player/url", .. }));
    let (p, task) = next(p, address());
    assert!(matches!(
        task,
        Task::Download { url, name: "audio.mp3", limit: 67108864 } if url == "http://audio"
    ));
    let (p, task) = next(p, loaded("m/audio.mp3"));
    assert!(matches!(
        task,
        Task::Download { url, name: "cover-source.jpg", limit: 4194304 } if url == "http://cover"
    ));
    let (p, task) = next(p, loaded("m/cover-source.jpg"));
    assert!(matches!(task, Task::MakeArtwork { source: "cover-source.jpg" }));
    let images = assemble("c.bin".into(), COVER_BIN_BYTES, None).unwrap();
    let (p, task) = next(p, Reply::Artwork(images));
    assert!(matches!(task, Task::Ask { path: "/api/song/lyric/v1", .. }));
    let (p, task) = next(p, Reply::Lyrics { size: 5 });
    assert!(matches!(task, Task::Save { name: "lyrics.json" }));
    let prepared = match p.step(Reply::Saved { path: "m/lyrics.json".into() }) {
        Progress::Finished(prepared) => prepared,
        _ => panic!("not finished"),
    };
    let kinds: Vec<&str> = prepared.assets.iter().map(|a| a.kind).collect();
    assert_eq!(kinds, vec!["audio", "cover", "lyrics"]);
    assert!(validate_assets(&prepared.assets).is_ok());
    let mut state = UiState::default();
    state.selected_addr = "aa".into();
    let request = cloud_request(&state, prepared);
    assert_eq!((request.track_id, request.addr.as_str()), (7, "aa"));
    assert_eq!(request.assets.len(), 3);
}

#[test]
fn images_may_fail_but_nothing_else() {
    let mut wanted = song(7);
    wanted.cover_url = "http://cover".into();
    let (p, _) = prepare(wanted, 1);
    let (p, _) = next(p, address());
    let (p, _) = next(p, loaded("m/audio.mp3"));
    let (p, task) = next(p, Reply::Fault("no cover".into()));
    assert!(matches!(task, Task::Ask { .. }));
    match p.step(Reply::Lyrics { size: MAX_LYRICS_BYTES + 1 }) {
        Progress::Finished(prepared) => assert_eq!(prepared.assets.len(), 1),
        _ => panic!("not finished"),
    }
    let (p, _) = prepare(song(7), 1);
    assert!(matches!(p.step(Reply::Fault("why".into())), Progress::Failed(m) if m == "why"));
    let (p, _) = prepare(song(7), 1);
    let (p, _) = next(p, address());
    assert!(matches!(p.step(Reply::Fault("why".into())), Progress::Failed(m) if m == "why"));
    let (p, _) = prepare(song(7), 1);
    let refused = Reply::Address { code: 403, data: vec![] };
    assert!(matches!(p.step(refused), Progress::Failed(m) if m == "歌曲地址请求失败：403"));
    let (p, _) = prepare(song(7), 1);
    let (p, _) = next(p, address());
    let (_, task) = next(p, loaded("m/audio.mp3"));
    assert!(matches!(task, Task::Ask { path: "/api/song/lyric/v1", .. }));
}

#[test]
fn written_images_are_measured() {
    let background = || Some(("b.bin".to_string(), BACKGROUND_BIN_BYTES));
    let images = assemble("c.bin".into(), COVER_BIN_BYTES, background()).unwrap();
    assert_eq!(images.background_path.as_deref(), Some("b.bin"));
    let images = assemble("c.bin".into(), COVER_BIN_BYTES, Some(("b.bin".into(), 1))).unwrap();
    assert_eq!(images.background_path, None);
    assert_eq!(
        assemble("c.bin".into(), 1, background()).err().unwrap(),
        "封面 BIN 长度校验失败"
    );
    assert_eq!(unique_output_directory("local-artwork", 5), "media/local-artwork-5");
}
