//! An import over the link, and the cloud service behind it.
use astro_plugins::json::{Json, JsonObject};
use astro_plugins::lyra_import::artwork::{BACKGROUND_BIN_BYTES, COVER_BIN_BYTES};
use astro_plugins::lyra_import::import::{
    chunk_packet, claim_chunk_retry, validate_assets, ImportAsset, PendingChunk,
    DEFAULT_CHUNK_BYTES, FAST_CHUNK_BYTES, INCOMING_FRAME_CAPACITY, OUTGOING_FRAME_CAPACITY,
    ULTRA_CHUNK_BYTES,
};
use astro_plugins::lyra_import::netease::{
    aes_cbc_base64, begin_qr_login, cloud_song, device_id, eapi, merge_cookies, playlist_tracks,
    random_secret, search_result, split_cookie_header, user_playlists, weapi, AlbumWire,
    QrSession, SongWire, WEAPI_NONCE, WEB_USER_AGENT,
};
use astro_plugins::lyra_import::state::CloudPlaylist;
use astro_plugins::lyra_import::ui::qr_image_url;
use base64::Engine;

#[test]
fn transfer_requires_audio_first_and_unique_assets() {
    let audio = ImportAsset::audio("audio.mp3".into(), 10);
    let cover = ImportAsset {
        kind: "cover",
        path: "cover.jpg".into(),
        size: 5,
        extension: Some("jpg"),
        format: None,
        width: None,
        height: None,
    };
    assert!(validate_assets(&[audio.clone(), cover]).is_ok());
    assert!(validate_assets(&[audio.clone(), audio]).is_err());
    assert!(validate_assets(&[ImportAsset::lyrics("lyrics.lrc".into(), 4, "lrc")]).is_err());
}

#[test]
fn accepts_fixed_lvgl_cover_and_background_assets() {
    let assets = [
        ImportAsset::audio("audio.mp3".into(), 10),
        ImportAsset::cover_bin("cover.bin".into(), COVER_BIN_BYTES),
        ImportAsset::background_bin("background.bin".into(), BACKGROUND_BIN_BYTES),
    ];
    assert!(validate_assets(&assets).is_ok());
}

#[test]
fn chunk_retry_is_exact_and_limited_to_two_attempts() {
    let mut pending = PendingChunk {
        asset: "audio",
        seq: 7,
        offset: 24_576,
        bytes: vec![1, 2, 3],
        crc32: Some("55bc801d".to_string()),
        retries: 0,
    };
    assert_eq!(
        claim_chunk_retry(&mut pending, Some("audio"), Some(7), Some(24_576)),
        Ok(1)
    );
    assert_eq!(
        claim_chunk_retry(&mut pending, Some("audio"), Some(7), Some(24_576)),
        Ok(2)
    );
    assert!(claim_chunk_retry(&mut pending, Some("audio"), Some(7), Some(24_576)).is_err());
    assert!(claim_chunk_retry(&mut pending, Some("cover"), Some(7), Some(24_576)).is_err());
}

fn frame(asset: &'static str, size: usize, crc32: Option<&str>) -> String {
    let pending = PendingChunk {
        asset,
        seq: 99_999_999,
        offset: 67_108_864,
        bytes: vec![0xff; size],
        crc32: crc32.map(str::to_string),
        retries: 0,
    };
    chunk_packet("0123456789abcdef0123456789abcdef", &pending).to_text()
}

#[test]
fn no_checksum_fast_chunk_fits_outgoing_frame() {
    let frame = frame("audio", FAST_CHUNK_BYTES, None);
    assert!(frame.len() <= OUTGOING_FRAME_CAPACITY);
}

#[test]
fn no_checksum_ultra_chunk_fits_expanded_outgoing_frame() {
    let frame = frame("audio", ULTRA_CHUNK_BYTES, None);
    assert!(frame.len() <= OUTGOING_FRAME_CAPACITY);
    assert_eq!(frame.len(), OUTGOING_FRAME_CAPACITY - 2);
}

#[test]
fn configured_base64_chunk_fits_outgoing_frame() {
    let frame = frame("lyrics", DEFAULT_CHUNK_BYTES, Some("ffffffff"));
    assert!(frame.len() > INCOMING_FRAME_CAPACITY);
    assert!(frame.len() <= OUTGOING_FRAME_CAPACITY);
}

fn object(text: &str) -> JsonObject {
    match Json::parse(text) {
        Ok(Json::Object(object)) => object,
        _ => panic!("no object"),
    }
}

#[test]
fn eapi_encrypts_search_and_attaches_cookie() {
    let request = eapi(
        "/api/search/get",
        object(r#"{"s":"测试","type":1}"#),
        "MUSIC_U=abc",
        "0123456789ABCDEF",
        1_700_000_000_123,
        7,
    );
    assert_eq!(
        request.url,
        "https://interfacepc.music.163.com/eapi/search/get"
    );
    let body = String::from_utf8(request.body).unwrap();
    assert!(body.starts_with("params="));
    assert!(!body.contains("测试"));
    assert!(request.headers.iter().any(|(name, value)| {
        name == "Cookie" && value.contains("MUSIC_U=abc") && value.contains("deviceId=")
    }));
}

#[test]
fn qr_requests_match_go_musicfox_weapi_shape() {
    let request = weapi(
        "/api/login/qrcode/unikey",
        object(r#"{"type":1,"noCheckToken":true}"#),
        "sDeviceId=ABCDEF",
        &random_secret(12345, 6),
    )
    .unwrap();
    assert_eq!(
        request.url,
        "https://music.163.com/weapi/login/qrcode/unikey"
    );
    assert!(request
        .headers
        .iter()
        .any(|(name, value)| { name == "User-Agent" && value == WEB_USER_AGENT }));
    assert!(request
        .headers
        .iter()
        .any(|(name, value)| { name == "Referer" && value == "https://music.163.com" }));
    assert!(request
        .headers
        .iter()
        .any(|(name, value)| { name == "Cookie" && value == "sDeviceId=ABCDEF" }));
    let body = String::from_utf8(request.body).unwrap();
    let enc_sec_key = body.split("encSecKey=").nth(1).unwrap();
    assert!(body.starts_with("params="));
    assert_eq!(enc_sec_key.len(), 256);
    assert!(enc_sec_key.bytes().all(|byte| byte.is_ascii_hexdigit()));
}

#[test]
fn weapi_aes_matches_openssl_vector() {
    assert_eq!(
        aes_cbc_base64(b"hello", WEAPI_NONCE.as_bytes()).unwrap(),
        "+J9Q3vLzLGFuqlWFQh3T3A=="
    );
}

#[test]
fn generated_device_identity_matches_upstream_shape() {
    let id = device_id(1_700_000_000_123_456_789, 3);
    assert_eq!(id.len(), 52);
    assert!(id
        .bytes()
        .all(|byte| byte.is_ascii_hexdigit() && !byte.is_ascii_lowercase()));
}

#[test]
fn web_qr_chain_id_shape_is_url_safe() {
    let timestamp = 1_700_000_000_123u128;
    let mut session = QrSession { key: String::new(), cookies: vec![] };
    let (_, url) = begin_qr_login(
        &mut session, 200, "key".into(), None, "ABCDEF", vec![], timestamp,
    )
    .unwrap();
    assert!(url.contains("v1_ABCDEF_web_login_1700000000123"));
}

#[test]
fn qr_cookie_jar_replaces_values_and_ignores_attributes() {
    let mut cookies = vec!["sDeviceId=ABC".to_string(), "MUSIC_A=old".to_string()];
    merge_cookies(
        &mut cookies,
        split_cookie_header("MUSIC_A=new; Path=/; HttpOnly; __csrf=token"),
    );
    assert!(cookies.contains(&"sDeviceId=ABC".to_string()));
    assert!(cookies.contains(&"MUSIC_A=new".to_string()));
    assert!(cookies.contains(&"__csrf=token".to_string()));
    assert!(!cookies.iter().any(|item| item.starts_with("Path=")));
}

fn track(pic_url: &str) -> SongWire {
    SongWire {
        id: 7,
        name: "Track".into(),
        ar: vec!["Artist".into()],
        al: AlbumWire { id: 8, name: "Album".into(), pic_url: pic_url.into() },
        dt: 1234,
    }
}

#[test]
fn playlist_shapes_map_user_and_tracks() {
    let playlists = user_playlists(
        200,
        vec![CloudPlaylist {
            id: 9,
            name: "Favorites".into(),
            creator: "User".into(),
            track_count: 2,
        }],
    )
    .unwrap();
    assert_eq!(playlists[0].id, 9);
    assert_eq!(playlists[0].track_count, 2);
    let (_, songs) = playlist_tracks(200, "Favorites".into(), vec![track("")]).unwrap();
    let song = songs.into_iter().next().unwrap();
    assert_eq!(song.id, 7);
    assert_eq!(song.artists, vec!["Artist"]);
    assert_eq!(song.duration_ms, 1234);
}

#[test]
fn playlist_tracks_accept_null_optional_metadata() {
    let song = cloud_song(SongWire {
        id: 7,
        name: String::new(),
        ar: vec![String::new()],
        al: AlbumWire { id: 8, name: String::new(), pic_url: String::new() },
        dt: 1234,
    });
    assert_eq!(song.name, "");
    assert_eq!(song.artists, vec![""]);
    assert_eq!(song.album, "");
    assert_eq!(song.cover_url, "");
}

#[test]
fn search_shape_maps_cover_and_metadata() {
    let songs = search_result(200, vec![track("https://cover")]).unwrap();
    let song = songs.into_iter().next().unwrap();
    assert_eq!(song.id, 7);
    assert_eq!(song.cover_url, "https://cover");
    assert_eq!(song.duration_ms, 1234);
}

#[test]
fn qr_login_image_is_embedded_data_uri() {
    let uri = qr_image_url("https://music.163.com/login?codekey=test");
    assert!(uri.starts_with("data:image/svg+xml;base64,"));
    let encoded = uri.split_once(',').unwrap().1;
    let svg = base64::engine::general_purpose::STANDARD.decode(encoded).unwrap();
    assert!(svg.starts_with(b"<?xml"));
}
