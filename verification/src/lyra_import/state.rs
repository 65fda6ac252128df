//! What the import page shows, and the stored login.
use vstd::prelude::*;
use vstd::string::*;
use vstd::utf8::*;

use crate::text::{self, utf8_text};

verus! {

/// The size that a stored login may have.
pub const MAX_SESSION_BYTES: usize = 65536;

#[derive(Clone, Debug)]
pub struct DeviceInfo {
    pub addr: String,
    pub name: String,
}

#[derive(Clone, Debug)]
pub struct SelectedFile {
    pub name: String,
    pub path: String,
    pub size: u64,
    pub duration_ms: u32,
}

#[derive(Clone, Debug)]
pub struct CloudSong {
    pub id: u64,
    pub name: String,
    pub artists: Vec<String>,
    pub album: String,
    pub album_id: u64,
    pub duration_ms: u32,
    pub cover_url: String,
}

#[derive(Clone, Debug)]
pub struct CloudPlaylist {
    pub id: u64,
    pub name: String,
    pub creator: String,
    pub track_count: u32,
}

#[derive(Clone, Debug)]
pub struct DeviceLibraryTrack {
    pub id: u64,
    pub name: String,
    pub artists: Vec<String>,
    pub album: String,
    pub duration_ms: u32,
}

#[derive(Clone, Copy, Debug, PartialEq, Eq, Structural)]
pub enum NeteaseView {
    Home,
    SearchResults,
    Playlists,
    PlaylistTracks,
}

#[derive(Clone, Copy, Debug, PartialEq, Eq, Structural)]
pub enum TransferMode {
    Crc32,
    Fast,
    Ultra,
}

impl Default for NeteaseView {
    fn default() -> (r: Self)
        ensures
            r == NeteaseView::Home,
    {
        NeteaseView::Home
    }
}

impl Default for TransferMode {
    fn default() -> (r: Self)
        ensures
            r == TransferMode::Crc32,
    {
        TransferMode::Crc32
    }
}

#[derive(Clone, Debug)]
pub struct UiState {
    pub root: Option<String>,
    pub devices: Vec<DeviceInfo>,
    pub selected_addr: String,
    pub audio: Option<SelectedFile>,
    pub cover: Option<SelectedFile>,
    pub lyrics: Option<SelectedFile>,
    pub track_name: String,
    pub artist: String,
    pub album: String,
    pub duration_ms: u32,
    pub status: String,
    pub sent: u64,
    pub total: u64,
    pub speed_bytes_per_second: u64,
    pub transfer_mode: TransferMode,
    pub active: bool,
    pub device_library: Vec<DeviceLibraryTrack>,
    pub library_request_id: String,
    pub library_revision: String,
    pub library_total: usize,
    pub library_busy: bool,
    pub library_target: Option<u64>,
    pub library_nonce: u64,
    pub netease_cookie: String,
    pub netease_view: NeteaseView,
    pub netease_audio_bitrate: u32,
    pub netease_query: String,
    pub netease_results: Vec<CloudSong>,
    pub netease_playlists: Vec<CloudPlaylist>,
    pub netease_playlist_name: String,
    pub netease_playlist_tracks: Vec<CloudSong>,
    pub netease_playlist_page: usize,
    pub qr_key: String,
    pub qr_url: String,
}

/// Whether nothing was entered, chosen or loaded yet.
pub open spec fn blank(s: UiState) -> bool {
    &&& s.root is None
    &&& s.devices@.len() == 0
    &&& s.selected_addr@.len() == 0
    &&& s.audio is None
    &&& s.cover is None
    &&& s.lyrics is None
    &&& s.track_name@.len() == 0
    &&& s.artist@.len() == 0
    &&& s.album@.len() == 0
    &&& s.duration_ms == 0
    &&& s.status@.len() == 0
    &&& s.sent == 0
    &&& s.total == 0
    &&& s.speed_bytes_per_second == 0
    &&& s.transfer_mode == TransferMode::Crc32
    &&& !s.active
    &&& s.device_library@.len() == 0
    &&& s.library_request_id@.len() == 0
    &&& s.library_revision@.len() == 0
    &&& s.library_total == 0
    &&& !s.library_busy
    &&& s.library_target is None
    &&& s.library_nonce == 0
    &&& s.netease_cookie@.len() == 0
    &&& s.netease_view == NeteaseView::Home
    &&& s.netease_audio_bitrate == 0
    &&& s.netease_query@.len() == 0
    &&& s.netease_results@.len() == 0
    &&& s.netease_playlists@.len() == 0
    &&& s.netease_playlist_name@.len() == 0
    &&& s.netease_playlist_tracks@.len() == 0
    &&& s.netease_playlist_page == 0
    &&& s.qr_key@.len() == 0
    &&& s.qr_url@.len() == 0
}

impl Default for UiState {
    fn default() -> (r: Self)
        ensures
            blank(r),
    {
        UiState {
            root: None,
            devices: Vec::new(),
            selected_addr: String::new(),
            audio: None,
            cover: None,
            lyrics: None,
            track_name: String::new(),
            artist: String::new(),
            album: String::new(),
            duration_ms: 0,
            status: String::new(),
            sent: 0,
            total: 0,
            speed_bytes_per_second: 0,
            transfer_mode: TransferMode::Crc32,
            active: false,
            device_library: Vec::new(),
            library_request_id: String::new(),
            library_revision: String::new(),
            library_total: 0,
            library_busy: false,
            library_target: None,
            library_nonce: 0,
            netease_cookie: String::new(),
            netease_view: NeteaseView::Home,
            netease_audio_bitrate: 0,
            netease_query: String::new(),
            netease_results: Vec::new(),
            netease_playlists: Vec::new(),
            netease_playlist_name: String::new(),
            netease_playlist_tracks: Vec::new(),
            netease_playlist_page: 0,
            qr_key: String::new(),
            qr_url: String::new(),
        }
    }
}

// ---------------------------------------------------------------- login

/// Whether a login of some bytes may be stored.
pub open spec fn session_fits(bytes: nat) -> bool {
    0 < bytes <= MAX_SESSION_BYTES
}

/// Reads a stored login; none where the file holds white space alone.
pub fn load_netease_session(bytes: &[u8]) -> (r: Result<Option<String>, String>)
    ensures
        if !session_fits(bytes@.len()) {
            r matches Err(e) && e@ == "网易云登录状态文件为空或过大"@
        } else if !valid_utf8(bytes@) {
            r matches Err(e) && e@ == "网易云登录状态文件不是有效 UTF-8"@
        } else {
            let cookie = text::trimmed(decode_utf8(bytes@));
            match r {
                Ok(Some(c)) => cookie.len() > 0 && c@ == cookie,
                Ok(None) => cookie.len() == 0,
                Err(_) => false,
            }
        },
{
    if bytes.len() == 0 || bytes.len() > MAX_SESSION_BYTES {
        return Err("网易云登录状态文件为空或过大".to_owned());
    }
    match utf8_text(bytes) {
        None => Err("网易云登录状态文件不是有效 UTF-8".to_owned()),
        Some(stored) => {
            let cookie = text::trim(stored.as_str());
            if cookie.as_str().is_empty() {
                Ok(None)
            } else {
                Ok(Some(cookie))
            }
        },
    }
}

/// The text to store for a login.
pub fn save_netease_session(cookie: &str) -> (r: Result<String, String>)
    ensures
        match r {
            Ok(c) => c@ == text::trimmed(cookie@) && session_fits(encode_utf8(c@).len()),
            Err(e) => !session_fits(encode_utf8(text::trimmed(cookie@)).len()) && e@
                == "网易云登录数据为空或过大"@,
        },
{
    let kept = text::trim(cookie);
    let size: usize = kept.as_str().as_bytes().len();
    if size == 0 || size > MAX_SESSION_BYTES {
        Err("网易云登录数据为空或过大".to_owned())
    } else {
        Ok(kept)
    }
}

/// What is stored for a login reads back as the login without the white space
/// around it.
pub proof fn stored_login_reads_back(cookie: Seq<char>)
    requires
        session_fits(encode_utf8(text::trimmed(cookie)).len()),
    ensures
        valid_utf8(encode_utf8(text::trimmed(cookie))),
        text::trimmed(decode_utf8(encode_utf8(text::trimmed(cookie)))) == text::trimmed(cookie),
{
    encode_utf8_valid_utf8(text::trimmed(cookie));
    encode_utf8_decode_utf8(text::trimmed(cookie));
    text::trimming_is_idempotent(cookie);
}

/// A login is kept where it has something to keep, up to sixty-four kibibytes.
pub proof fn logins_of_any_use_are_kept(bytes: nat)
    ensures
        session_fits(bytes) <==> 0 < bytes <= 64 * 1024,
{
}

} // verus!
