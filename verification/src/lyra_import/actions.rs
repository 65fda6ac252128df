//! What the events of the import page do.
use vstd::prelude::*;
use vstd::string::*;

use crate::lyra_import::artwork::PreparedArtwork;
use crate::lyra_import::import::{ImportAsset, ImportRequest};
use crate::lyra_import::netease::{self, PreparedCloud};
use crate::lyra_import::state::{
    CloudPlaylist, CloudSong, NeteaseView, SelectedFile, TransferMode, UiState,
};
use crate::lyra_import::ui::{
    self, EVENT_ALBUM, EVENT_ARTIST, EVENT_AUDIO_QUALITY, EVENT_CANCEL, EVENT_CHECKSUM_MODE,
    EVENT_CLOSE_PLAYLIST, EVENT_DEVICE, EVENT_DURATION, EVENT_LIBRARY_DELETE_PREFIX,
    EVENT_LIBRARY_MOVE_DOWN_PREFIX, EVENT_LIBRARY_MOVE_UP_PREFIX, EVENT_LIBRARY_REFRESH,
    EVENT_LOAD_PLAYLISTS, EVENT_LOGOUT, EVENT_NAME, EVENT_PICK_AUDIO, EVENT_PICK_COVER,
    EVENT_PICK_LYRICS, EVENT_PLAYLIST_PAGE_NEXT, EVENT_PLAYLIST_PAGE_PREVIOUS,
    EVENT_PLAYLIST_PREFIX, EVENT_PLAYLIST_TRACK_PREFIX, EVENT_QR_BEGIN, EVENT_QR_POLL,
    EVENT_QUERY, EVENT_REFRESH, EVENT_SEARCH_CLOUD, EVENT_SEARCH_RESULT_PREFIX,
    EVENT_START_LOCAL, PLAYLIST_PAGE_SIZE,
};
use crate::text::{self, str_eq};

verus! {

/// What the host is to do after an event. But for [`UiEffect::Stay`], the page is
/// rendered afterwards.
pub enum UiEffect {
    /// Nothing, not even rendering.
    Stay,
    Render,
    /// Let the user pick a file of a kind, and report to [`picked`].
    Pick(&'static str),
    RefreshDevices,
    /// Prepare the cover, if any, and start with [`local_request`].
    StartLocal,
    /// Search, and report to [`searched`].
    Search,
    /// Load the playlists, and report to [`playlists_loaded`].
    LoadPlaylists,
    /// Load a playlist, and report to [`playlist_opened`].
    OpenPlaylist(u64),
    /// Load a song and start with [`cloud_request`].
    StartSong(CloudSong),
    /// Ask for a login code, and report to [`qr_begun`].
    BeginQr,
    /// Ask for the state of the login code, and report to [`qr_polled`].
    PollQr,
    /// Forget the stored login, and report to [`logged_out`].
    Logout,
    RefreshLibrary,
    /// Move a song of the watch up or down.
    MoveTrack { id: u64, up: bool },
    /// Ask whether a song is to be deleted, and delete it where it is.
    ConfirmDelete { id: u64, name: String },
    Cancel,
}

// ---------------------------------------------------------------- parts

pub open spec fn value_or_empty(value: Option<String>) -> Seq<char> {
    text::or_else_text(text::opt_text(value), Seq::empty())
}

fn or_empty(value: Option<String>) -> (r: String)
    ensures
        r@ == value_or_empty(value),
{
    match value {
        Some(v) => v,
        None => {
            let none = String::new();
            assert(none@ =~= Seq::empty());
            none
        },
    }
}

/// The number that a value spells, or another one.
pub open spec fn number_or(value: Option<String>, other: u32) -> nat {
    match value {
        Some(v) => match text::parsed_uint(v@, u32::MAX as nat) {
            Some(n) => n,
            None => other as nat,
        },
        None => other as nat,
    }
}

fn number(value: &Option<String>, other: u32) -> (r: u32)
    ensures
        r == number_or(*value, other),
{
    match value {
        Some(v) => match text::parse_uint(v.as_str(), u32::MAX as u64) {
            Some(n) => n as u32,
            None => other,
        },
        None => other,
    }
}

/// The number behind a prefix of an event.
pub open spec fn event_number(event: Seq<char>, prefix: Seq<char>, max: nat) -> Option<nat> {
    text::parsed_uint(event.skip(prefix.len() as int), max)
}

fn number_behind(event: &str, prefix: &str, max: u64) -> (r: Option<u64>)
    requires
        text::begins_with(event@, prefix@),
    ensures
        match r {
            Some(n) => event_number(event@, prefix@, max as nat) == Some(n as nat),
            None => event_number(event@, prefix@, max as nat) is None,
        },
{
    match text::strip_prefix(event, prefix) {
        Some(rest) => text::parse_uint(rest.as_str(), max),
        None => None,
    }
}

pub open spec fn mode_named(value: Option<String>) -> TransferMode {
    match value {
        Some(v) => if v@ == "none-48k"@ {
            TransferMode::Ultra
        } else if v@ == "none"@ {
            TransferMode::Fast
        } else {
            TransferMode::Crc32
        },
        None => TransferMode::Crc32,
    }
}

fn mode_of(value: &Option<String>) -> (r: TransferMode)
    ensures
        r == mode_named(*value),
{
    match value {
        Some(v) => if str_eq(v.as_str(), "none-48k") {
            TransferMode::Ultra
        } else if str_eq(v.as_str(), "none") {
            TransferMode::Fast
        } else {
            TransferMode::Crc32
        },
        None => TransferMode::Crc32,
    }
}

pub open spec fn mode_status(mode: TransferMode) -> Seq<char> {
    match mode {
        TransferMode::Crc32 => "已启用 CRC32 分片校验。"@,
        TransferMode::Fast => "已选择无校验高速模式；损坏分片可能无法被发现。"@,
        TransferMode::Ultra => "已选择无校验超高速模式（48 KiB 单包上限）；强烈不建议用于重要文件。"@,
    }
}

fn mode_text(mode: TransferMode) -> (r: String)
    ensures
        r@ == mode_status(mode),
{
    match mode {
        TransferMode::Crc32 => "已启用 CRC32 分片校验。".to_owned(),
        TransferMode::Fast => "已选择无校验高速模式；损坏分片可能无法被发现。".to_owned(),
        TransferMode::Ultra => "已选择无校验超高速模式（48 KiB 单包上限）；强烈不建议用于重要文件。".to_owned(),
    }
}

/// Whether only the status changed, to a text.
pub open spec fn says(before: UiState, after: UiState, status: Seq<char>) -> bool {
    after.status@ == status && after == (UiState { status: after.status, ..before })
}

fn say(s: &mut UiState, status: &str)
    ensures
        says(*old(s), *final(s), status@),
{
    s.status = status.to_owned();
}

/// Whether a device was chosen: the songs of another one are forgotten.
pub open spec fn device_chosen(before: UiState, after: UiState, addr: Seq<char>) -> bool {
    &&& after.selected_addr@ == addr
    &&& if before.selected_addr@ == addr {
        after == (UiState { selected_addr: after.selected_addr, ..before })
    } else {
        &&& after.device_library@.len() == 0
        &&& after.library_request_id@.len() == 0
        &&& after.library_revision@.len() == 0
        &&& after == (UiState {
            selected_addr: after.selected_addr,
            device_library: after.device_library,
            library_request_id: after.library_request_id,
            library_revision: after.library_revision,
            library_total: 0,
            library_busy: false,
            library_target: None,
            ..before
        })
    }
}

fn choose_device(s: &mut UiState, addr: String)
    ensures
        device_chosen(*old(s), *final(s), addr@),
{
    if !str_eq(s.selected_addr.as_str(), addr.as_str()) {
        s.device_library = Vec::new();
        s.library_request_id = String::new();
        s.library_revision = String::new();
        s.library_total = 0;
        s.library_busy = false;
        s.library_target = None;
    }
    s.selected_addr = addr;
}

pub open spec fn playlist_closed(before: UiState, after: UiState) -> bool {
    &&& after.netease_playlist_name@.len() == 0
    &&& after.netease_playlist_tracks@.len() == 0
    &&& after.status@ == "已返回个人歌单。"@
    &&& after == (UiState {
        netease_playlist_name: after.netease_playlist_name,
        netease_playlist_tracks: after.netease_playlist_tracks,
        netease_playlist_page: 0,
        netease_view: NeteaseView::Playlists,
        status: after.status,
        ..before
    })
}

/// The page after the next one was asked for: the same where there is none.
pub open spec fn next_page(s: UiState) -> int {
    if (s.netease_playlist_page + 1) * PLAYLIST_PAGE_SIZE < s.netease_playlist_tracks@.len() {
        s.netease_playlist_page + 1
    } else {
        s.netease_playlist_page as int
    }
}

pub open spec fn previous_page(s: UiState) -> int {
    if s.netease_playlist_page > 0 {
        s.netease_playlist_page - 1
    } else {
        0
    }
}

fn turn_page(s: &mut UiState)
    ensures
        final(s).netease_playlist_page == next_page(*old(s)),
        *final(s) == (UiState { netease_playlist_page: final(s).netease_playlist_page, ..*old(s) }),
{
    let next: u128 = (s.netease_playlist_page as u128 + 1) * 50;
    if next < s.netease_playlist_tracks.len() as u128 {
        s.netease_playlist_page = s.netease_playlist_page + 1;
    }
}

/// The name of a song of the watch.
pub open spec fn track_name_at(s: UiState, id: u64, i: int) -> bool {
    0 <= i < s.device_library@.len() && s.device_library@[i].id == id
}

/// Whether a name is that of the first song of the watch with an id, or a general
/// one where there is none.
pub open spec fn is_track_name(s: UiState, id: u64, name: Seq<char>) -> bool {
    if exists|i: int| track_name_at(s, id, i) {
        exists|i: int|
            #![trigger s.device_library@[i]]
            track_name_at(s, id, i) && name == s.device_library@[i].name@ && forall|j: int|
                track_name_at(s, id, j) ==> i <= j
    } else {
        name == "这首音乐"@
    }
}

fn track_name(s: &UiState, id: u64) -> (r: String)
    ensures
        is_track_name(*s, id, r@),
{
    let mut i: usize = 0;
    while i < s.device_library.len()
        invariant
            i <= s.device_library@.len(),
            forall|j: int| 0 <= j < i ==> !track_name_at(*s, id, j),
        decreases s.device_library.len() - i,
    {
        if s.device_library[i].id == id {
            assert(track_name_at(*s, id, i as int));
            return s.device_library[i].name.clone();
        }
        i = i + 1;
    }
    "这首音乐".to_owned()
}

/// Whether an effect starts a song of a list, or says that the list is outdated.
pub open spec fn song_started(
    before: UiState,
    after: UiState,
    songs: Seq<CloudSong>,
    index: nat,
    outdated: Seq<char>,
    effect: UiEffect,
) -> bool {
    if index < songs.len() {
        &&& effect matches UiEffect::StartSong(song)
        &&& same_song(song, songs[index as int])
        &&& says(before, after, "正在准备《"@ + songs[index as int].name@ + "》…"@)
    } else {
        effect is Render && says(before, after, outdated)
    }
}

/// Whether two songs have the same content.
pub open spec fn same_song(a: CloudSong, b: CloudSong) -> bool {
    &&& a.id == b.id
    &&& a.name == b.name
    &&& text::texts(a.artists@) == text::texts(b.artists@)
    &&& a.album == b.album
    &&& a.album_id == b.album_id
    &&& a.duration_ms == b.duration_ms
    &&& a.cover_url == b.cover_url
}

fn copy_texts(items: &Vec<String>) -> (r: Vec<String>)
    ensures
        text::texts(r@) == text::texts(items@),
{
    let mut out: Vec<String> = Vec::new();
    let mut i: usize = 0;
    while i < items.len()
        invariant
            i <= items@.len(),
            out@.len() == i,
            forall|j: int| 0 <= j < i ==> #[trigger] out@[j]@ == items@[j]@,
        decreases items.len() - i,
    {
        out.push(items[i].clone());
        i = i + 1;
    }
    assert(text::texts(out@) =~= text::texts(items@));
    out
}

fn copy_song(song: &CloudSong) -> (r: CloudSong)
    ensures
        same_song(r, *song),
{
    CloudSong {
        id: song.id,
        name: song.name.clone(),
        artists: copy_texts(&song.artists),
        album: song.album.clone(),
        album_id: song.album_id,
        duration_ms: song.duration_ms,
        cover_url: song.cover_url.clone(),
    }
}

fn start_search_result(s: &mut UiState, index: usize) -> (effect: UiEffect)
    ensures
        song_started(
            *old(s),
            *final(s),
            old(s).netease_results@,
            index as nat,
            "搜索结果已失效，请重新搜索。"@,
            effect,
        ),
{
    if index < s.netease_results.len() {
        let song = copy_song(&s.netease_results[index]);
        s.status = text::cat3("正在准备《", song.name.as_str(), "》…");
        UiEffect::StartSong(song)
    } else {
        say(s, "搜索结果已失效，请重新搜索。");
        UiEffect::Render
    }
}

fn start_playlist_track(s: &mut UiState, index: usize) -> (effect: UiEffect)
    ensures
        song_started(
            *old(s),
            *final(s),
            old(s).netease_playlist_tracks@,
            index as nat,
            "歌单歌曲已失效，请重新打开歌单。"@,
            effect,
        ),
{
    if index < s.netease_playlist_tracks.len() {
        let song = copy_song(&s.netease_playlist_tracks[index]);
        s.status = text::cat3("正在准备《", song.name.as_str(), "》…");
        UiEffect::StartSong(song)
    } else {
        say(s, "歌单歌曲已失效，请重新打开歌单。");
        UiEffect::Render
    }
}

/// Why a local import cannot start.
pub open spec fn local_fault(s: UiState) -> Option<Seq<char>> {
    if s.audio is None {
        Some("请先选择 MP3。"@)
    } else if text::trimmed(s.track_name@).len() == 0 {
        Some("曲名不能为空。"@)
    } else {
        None
    }
}

fn check_local(s: &mut UiState) -> (effect: UiEffect)
    ensures
        match local_fault(*old(s)) {
            Some(e) => effect is Render && says(*old(s), *final(s), e),
            None => effect is StartLocal && *final(s) == *old(s),
        },
{
    if s.audio.is_none() {
        say(s, "请先选择 MP3。");
        return UiEffect::Render;
    }
    let name = text::trim(s.track_name.as_str());
    if name.as_str().is_empty() {
        say(s, "曲名不能为空。");
        return UiEffect::Render;
    }
    UiEffect::StartLocal
}

fn check_search(s: &mut UiState) -> (effect: UiEffect)
    ensures
        if text::trimmed(old(s).netease_query@).len() == 0 {
            effect is Render && says(*old(s), *final(s), "请输入网易云搜索关键词。"@)
        } else {
            effect is Search && says(*old(s), *final(s), "正在搜索网易云音乐…"@)
        },
{
    let query = text::trim(s.netease_query.as_str());
    if query.as_str().is_empty() {
        say(s, "请输入网易云搜索关键词。");
        UiEffect::Render
    } else {
        say(s, "正在搜索网易云音乐…");
        UiEffect::Search
    }
}

// ---------------------------------------------------------------- events

/// What an input or choice does.
pub open spec fn input_handled(
    before: UiState,
    after: UiState,
    event: Seq<char>,
    value: Option<String>,
    effect: UiEffect,
) -> bool {
    if event == EVENT_DEVICE@ {
        effect is Stay && device_chosen(before, after, value_or_empty(value))
    } else if event == EVENT_NAME@ {
        effect is Stay && after.track_name@ == value_or_empty(value) && after == (UiState {
            track_name: after.track_name,
            ..before
        })
    } else if event == EVENT_ARTIST@ {
        effect is Stay && after.artist@ == value_or_empty(value) && after == (UiState {
            artist: after.artist,
            ..before
        })
    } else if event == EVENT_ALBUM@ {
        effect is Stay && after.album@ == value_or_empty(value) && after == (UiState {
            album: after.album,
            ..before
        })
    } else if event == EVENT_DURATION@ {
        effect is Stay && after == (UiState { duration_ms: number_or(value, 0) as u32, ..before })
    } else if event == EVENT_QUERY@ {
        effect is Stay && after.netease_query@ == value_or_empty(value) && after == (UiState {
            netease_query: after.netease_query,
            ..before
        })
    } else if event == EVENT_AUDIO_QUALITY@ {
        effect is Render && after == (UiState {
            netease_audio_bitrate: netease::offered_bitrate(
                number_or(value, netease::AUDIO_BITRATE_LOW) as u32,
            ),
            ..before
        })
    } else {
        &&& event == EVENT_CHECKSUM_MODE@
        &&& effect is Render
        &&& after.status@ == mode_status(mode_named(value))
        &&& after == (UiState {
            transfer_mode: mode_named(value),
            status: after.status,
            ..before
        })
    }
}

pub open spec fn is_input(event: Seq<char>) -> bool {
    event == EVENT_DEVICE@ || event == EVENT_NAME@ || event == EVENT_ARTIST@ || event == EVENT_ALBUM@
        || event == EVENT_DURATION@ || event == EVENT_QUERY@ || event == EVENT_AUDIO_QUALITY@
        || event == EVENT_CHECKSUM_MODE@
}

/// Takes an input or choice, where the event is one.
fn on_input(s: &mut UiState, event: &str, value: Option<String>) -> (r: Option<UiEffect>)
    ensures
        match r {
            Some(effect) => is_input(event@) && input_handled(
                *old(s),
                *final(s),
                event@,
                value,
                effect,
            ),
            None => !is_input(event@) && *final(s) == *old(s),
        },
{
    if str_eq(event, EVENT_DEVICE) {
        choose_device(s, or_empty(value));
        Some(UiEffect::Stay)
    } else if str_eq(event, EVENT_NAME) {
        s.track_name = or_empty(value);
        Some(UiEffect::Stay)
    } else if str_eq(event, EVENT_ARTIST) {
        s.artist = or_empty(value);
        Some(UiEffect::Stay)
    } else if str_eq(event, EVENT_ALBUM) {
        s.album = or_empty(value);
        Some(UiEffect::Stay)
    } else if str_eq(event, EVENT_DURATION) {
        s.duration_ms = number(&value, 0);
        Some(UiEffect::Stay)
    } else if str_eq(event, EVENT_QUERY) {
        s.netease_query = or_empty(value);
        Some(UiEffect::Stay)
    } else if str_eq(event, EVENT_AUDIO_QUALITY) {
        let bitrate = number(&value, netease::AUDIO_BITRATE_LOW);
        s.netease_audio_bitrate = netease::normalized_audio_bitrate(bitrate);
        Some(UiEffect::Render)
    } else if str_eq(event, EVENT_CHECKSUM_MODE) {
        let mode = mode_of(&value);
        s.transfer_mode = mode;
        s.status = mode_text(mode);
        Some(UiEffect::Render)
    } else {
        None
    }
}

/// What an action without an argument does.
pub open spec fn action_handled(
    before: UiState,
    after: UiState,
    event: Seq<char>,
    effect: UiEffect,
) -> bool {
    if event == EVENT_PICK_AUDIO@ {
        effect matches UiEffect::Pick(kind) && kind@ == "audio"@ && after == before
    } else if event == EVENT_PICK_COVER@ {
        effect matches UiEffect::Pick(kind) && kind@ == "cover"@ && after == before
    } else if event == EVENT_PICK_LYRICS@ {
        effect matches UiEffect::Pick(kind) && kind@ == "lyrics"@ && after == before
    } else if event == EVENT_REFRESH@ {
        effect is RefreshDevices && says(before, after, "已刷新连接设备。"@)
    } else if event == EVENT_START_LOCAL@ {
        match local_fault(before) {
            Some(e) => effect is Render && says(before, after, e),
            None => effect is StartLocal && after == before,
        }
    } else if event == EVENT_SEARCH_CLOUD@ {
        if text::trimmed(before.netease_query@).len() == 0 {
            effect is Render && says(before, after, "请输入网易云搜索关键词。"@)
        } else {
            effect is Search && says(before, after, "正在搜索网易云音乐…"@)
        }
    } else if event == EVENT_LOAD_PLAYLISTS@ {
        effect is LoadPlaylists && says(before, after, "正在读取个人歌单…"@)
    } else if event == EVENT_CLOSE_PLAYLIST@ {
        effect is Render && playlist_closed(before, after)
    } else if event == EVENT_PLAYLIST_PAGE_PREVIOUS@ {
        effect is Render && after == (UiState {
            netease_playlist_page: previous_page(before) as usize,
            ..before
        })
    } else if event == EVENT_PLAYLIST_PAGE_NEXT@ {
        effect is Render && after == (UiState {
            netease_playlist_page: next_page(before) as usize,
            ..before
        })
    } else if event == EVENT_QR_BEGIN@ {
        effect is BeginQr && says(before, after, "正在生成网易云登录二维码…"@)
    } else if event == EVENT_QR_POLL@ {
        after == before && if before.qr_key@.len() == 0 {
            effect is Render
        } else {
            effect is PollQr
        }
    } else if event == EVENT_LOGOUT@ {
        effect is Logout && after == before
    } else if event == EVENT_LIBRARY_REFRESH@ {
        effect is RefreshLibrary && after == before
    } else {
        event == EVENT_CANCEL@ && effect is Cancel && after == before
    }
}

pub open spec fn is_action(event: Seq<char>) -> bool {
    event == EVENT_PICK_AUDIO@ || event == EVENT_PICK_COVER@ || event == EVENT_PICK_LYRICS@ || event
        == EVENT_REFRESH@ || event == EVENT_START_LOCAL@ || event == EVENT_SEARCH_CLOUD@ || event
        == EVENT_LOAD_PLAYLISTS@ || event == EVENT_CLOSE_PLAYLIST@ || event
        == EVENT_PLAYLIST_PAGE_PREVIOUS@ || event == EVENT_PLAYLIST_PAGE_NEXT@ || event
        == EVENT_QR_BEGIN@ || event == EVENT_QR_POLL@ || event == EVENT_LOGOUT@ || event
        == EVENT_LIBRARY_REFRESH@ || event == EVENT_CANCEL@
}

fn on_action(s: &mut UiState, event: &str) -> (r: Option<UiEffect>)
    ensures
        match r {
            Some(effect) => is_action(event@) && action_handled(
                *old(s),
                *final(s),
                event@,
                effect,
            ),
            None => !is_action(event@) && *final(s) == *old(s),
        },
{
    if str_eq(event, EVENT_PICK_AUDIO) {
        Some(UiEffect::Pick("audio"))
    } else if str_eq(event, EVENT_PICK_COVER) {
        Some(UiEffect::Pick("cover"))
    } else if str_eq(event, EVENT_PICK_LYRICS) {
        Some(UiEffect::Pick("lyrics"))
    } else if str_eq(event, EVENT_REFRESH) {
        say(s, "已刷新连接设备。");
        Some(UiEffect::RefreshDevices)
    } else if str_eq(event, EVENT_START_LOCAL) {
        Some(check_local(s))
    } else if str_eq(event, EVENT_SEARCH_CLOUD) {
        Some(check_search(s))
    } else if str_eq(event, EVENT_LOAD_PLAYLISTS) {
        say(s, "正在读取个人歌单…");
        Some(UiEffect::LoadPlaylists)
    } else if str_eq(event, EVENT_CLOSE_PLAYLIST) {
        s.netease_playlist_name = String::new();
        s.netease_playlist_tracks = Vec::new();
        s.netease_playlist_page = 0;
        s.netease_view = NeteaseView::Playlists;
        s.status = "已返回个人歌单。".to_owned();
        Some(UiEffect::Render)
    } else if str_eq(event, EVENT_PLAYLIST_PAGE_PREVIOUS) {
        if s.netease_playlist_page > 0 {
            s.netease_playlist_page = s.netease_playlist_page - 1;
        }
        Some(UiEffect::Render)
    } else if str_eq(event, EVENT_PLAYLIST_PAGE_NEXT) {
        turn_page(s);
        Some(UiEffect::Render)
    } else if str_eq(event, EVENT_QR_BEGIN) {
        say(s, "正在生成网易云登录二维码…");
        Some(UiEffect::BeginQr)
    } else if str_eq(event, EVENT_QR_POLL) {
        if s.qr_key.as_str().is_empty() {
            Some(UiEffect::Render)
        } else {
            Some(UiEffect::PollQr)
        }
    } else if str_eq(event, EVENT_LOGOUT) {
        Some(UiEffect::Logout)
    } else if str_eq(event, EVENT_LIBRARY_REFRESH) {
        Some(UiEffect::RefreshLibrary)
    } else if str_eq(event, EVENT_CANCEL) {
        Some(UiEffect::Cancel)
    } else {
        None
    }
}

/// What an action on a song or a playlist does: one whose number cannot be read
/// does nothing.
pub open spec fn item_handled(
    before: UiState,
    after: UiState,
    event: Seq<char>,
    effect: UiEffect,
) -> bool {
    let max = u64::MAX as nat;
    if text::begins_with(event, EVENT_LIBRARY_MOVE_UP_PREFIX@) {
        after == before && match event_number(event, EVENT_LIBRARY_MOVE_UP_PREFIX@, max) {
            Some(n) => effect == (UiEffect::MoveTrack { id: n as u64, up: true }),
            None => effect is Render,
        }
    } else if text::begins_with(event, EVENT_LIBRARY_MOVE_DOWN_PREFIX@) {
        after == before && match event_number(event, EVENT_LIBRARY_MOVE_DOWN_PREFIX@, max) {
            Some(n) => effect == (UiEffect::MoveTrack { id: n as u64, up: false }),
            None => effect is Render,
        }
    } else if text::begins_with(event, EVENT_LIBRARY_DELETE_PREFIX@) {
        after == before && match event_number(event, EVENT_LIBRARY_DELETE_PREFIX@, max) {
            Some(n) => effect matches UiEffect::ConfirmDelete { id, name } && id == n
                && is_track_name(before, id, name@),
            None => effect is Render,
        }
    } else if text::begins_with(event, EVENT_SEARCH_RESULT_PREFIX@) {
        match event_number(event, EVENT_SEARCH_RESULT_PREFIX@, usize::MAX as nat) {
            Some(n) => song_started(
                before,
                after,
                before.netease_results@,
                n,
                "搜索结果已失效，请重新搜索。"@,
                effect,
            ),
            None => effect is Render && after == before,
        }
    } else if text::begins_with(event, EVENT_PLAYLIST_TRACK_PREFIX@) {
        match event_number(event, EVENT_PLAYLIST_TRACK_PREFIX@, usize::MAX as nat) {
            Some(n) => song_started(
                before,
                after,
                before.netease_playlist_tracks@,
                n,
                "歌单歌曲已失效，请重新打开歌单。"@,
                effect,
            ),
            None => effect is Render && after == before,
        }
    } else if text::begins_with(event, EVENT_PLAYLIST_PREFIX@) {
        match event_number(event, EVENT_PLAYLIST_PREFIX@, max) {
            Some(n) => effect == UiEffect::OpenPlaylist(n as u64) && says(
                before,
                after,
                "正在读取歌单歌曲…"@,
            ),
            None => effect is Render && after == before,
        }
    } else {
        effect is Render && after == before
    }
}

fn on_item(s: &mut UiState, event: &str) -> (effect: UiEffect)
    ensures
        item_handled(*old(s), *final(s), event@, effect),
{
    if text::starts_with(event, EVENT_LIBRARY_MOVE_UP_PREFIX) {
        match number_behind(event, EVENT_LIBRARY_MOVE_UP_PREFIX, u64::MAX) {
            Some(id) => UiEffect::MoveTrack { id, up: true },
            None => UiEffect::Render,
        }
    } else if text::starts_with(event, EVENT_LIBRARY_MOVE_DOWN_PREFIX) {
        match number_behind(event, EVENT_LIBRARY_MOVE_DOWN_PREFIX, u64::MAX) {
            Some(id) => UiEffect::MoveTrack { id, up: false },
            None => UiEffect::Render,
        }
    } else if text::starts_with(event, EVENT_LIBRARY_DELETE_PREFIX) {
        match number_behind(event, EVENT_LIBRARY_DELETE_PREFIX, u64::MAX) {
            Some(id) => UiEffect::ConfirmDelete { id, name: track_name(s, id) },
            None => UiEffect::Render,
        }
    } else if text::starts_with(event, EVENT_SEARCH_RESULT_PREFIX) {
        match number_behind(event, EVENT_SEARCH_RESULT_PREFIX, usize::MAX as u64) {
            Some(index) => start_search_result(s, index as usize),
            None => UiEffect::Render,
        }
    } else if text::starts_with(event, EVENT_PLAYLIST_TRACK_PREFIX) {
        match number_behind(event, EVENT_PLAYLIST_TRACK_PREFIX, usize::MAX as u64) {
            Some(index) => start_playlist_track(s, index as usize),
            None => UiEffect::Render,
        }
    } else if text::starts_with(event, EVENT_PLAYLIST_PREFIX) {
        match number_behind(event, EVENT_PLAYLIST_PREFIX, u64::MAX) {
            Some(id) => {
                say(s, "正在读取歌单歌曲…");
                UiEffect::OpenPlaylist(id)
            },
            None => UiEffect::Render,
        }
    } else {
        UiEffect::Render
    }
}

/// Handles an event of the page; `value` is what was entered or chosen.
pub fn on_event(s: &mut UiState, event: &str, value: Option<String>) -> (effect: UiEffect)
    ensures
        if is_input(event@) {
            input_handled(*old(s), *final(s), event@, value, effect)
        } else if is_action(event@) {
            action_handled(*old(s), *final(s), event@, effect)
        } else {
            item_handled(*old(s), *final(s), event@, effect)
        },
{
    match on_input(s, event, value) {
        Some(effect) => effect,
        None => match on_action(s, event) {
            Some(effect) => effect,
            None => on_item(s, event),
        },
    }
}

// ---------------------------------------------------------------- files

/// The file extensions that are offered for a kind.
pub fn pick_extensions(kind: &str) -> (r: Vec<&'static str>)
    ensures
        r@ == if kind@ == "audio"@ {
            seq!["mp3"]
        } else if kind@ == "cover"@ {
            seq!["jpg", "jpeg", "png"]
        } else {
            seq!["lrc", "json", "txt"]
        },
{
    if str_eq(kind, "audio") {
        let v: Vec<&'static str> = vec!["mp3"];
        assert(v@ =~= seq!["mp3"]);
        v
    } else if str_eq(kind, "cover") {
        let v: Vec<&'static str> = vec!["jpg", "jpeg", "png"];
        assert(v@ =~= seq!["jpg", "jpeg", "png"]);
        v
    } else {
        let v: Vec<&'static str> = vec!["lrc", "json", "txt"];
        assert(v@ =~= seq!["lrc", "json", "txt"]);
        v
    }
}

/// A file name without its extension.
pub open spec fn stem(name: Seq<char>) -> Seq<char> {
    if name.contains('.') {
        name.take(name.len() - text::tail(name, '.').len() - 1)
    } else {
        name
    }
}

fn stem_of(name: &str) -> (r: String)
    ensures
        r@ == stem(name@),
{
    match text::rsplit_once(name, '.') {
        Some((a, _)) => a,
        None => name.to_owned(),
    }
}

/// What a picked file changes.
pub open spec fn file_taken(before: UiState, after: UiState, kind: Seq<char>, f: SelectedFile) -> bool {
    &&& after.status@ == "已选择"@ + ui::asset_label_view(kind) + "。"@
    &&& if kind == "audio"@ {
        &&& after.track_name@ == stem(f.name@)
        &&& after == (UiState {
            track_name: after.track_name,
            duration_ms: if f.duration_ms != 0 {
                f.duration_ms
            } else {
                before.duration_ms
            },
            audio: Some(f),
            status: after.status,
            ..before
        })
    } else if kind == "cover"@ {
        after == (UiState { cover: Some(f), status: after.status, ..before })
    } else {
        after == (UiState { lyrics: Some(f), status: after.status, ..before })
    }
}

/// Takes a picked file, or why it cannot be taken.
pub fn picked(s: &mut UiState, kind: &str, result: Result<SelectedFile, String>)
    ensures
        match result {
            Ok(f) => file_taken(*old(s), *final(s), kind@, f),
            Err(e) => says(*old(s), *final(s), "文件读取失败："@ + e@),
        },
{
    match result {
        Ok(f) => {
            s.status = text::cat3("已选择", ui::asset_label(kind), "。");
            if str_eq(kind, "audio") {
                s.track_name = stem_of(f.name.as_str());
                if f.duration_ms != 0 {
                    s.duration_ms = f.duration_ms;
                }
                s.audio = Some(f);
            } else if str_eq(kind, "cover") {
                s.cover = Some(f);
            } else {
                s.lyrics = Some(f);
            }
        },
        Err(e) => {
            s.status = text::cat("文件读取失败：", e.as_str());
        },
    }
}

/// The format of picked lyrics, told by the name of their file.
pub open spec fn lyrics_name_format(name: Seq<char>) -> &'static str {
    if name.contains('.') && text::lowered(text::tail(name, '.')) == text::lowered("json"@) {
        "json"
    } else {
        "lrc"
    }
}

fn format_of_name(name: &str) -> (r: &'static str)
    ensures
        r == lyrics_name_format(name@),
{
    match text::rsplit_once(name, '.') {
        Some((_, ext)) => if text::eq_ignore_case(ext.as_str(), "json") {
            "json"
        } else {
            "lrc"
        },
        None => "lrc",
    }
}

/// The assets of a local import; `images` were made from the chosen cover.
pub open spec fn local_assets(s: UiState, images: Option<PreparedArtwork>) -> Seq<ImportAsset> {
    let audio = s.audio->0;
    netease::song_assets(
        netease::audio_asset(audio.path, audio.size),
        images,
        match s.lyrics {
            Some(l) => Some(netease::lyrics_asset(l.path, l.size, lyrics_name_format(l.name@))),
            None => None,
        },
    )
}

/// The request for a local import.
pub open spec fn local_requested(
    r: ImportRequest,
    s: UiState,
    images: Option<PreparedArtwork>,
    track_id: u64,
) -> bool {
    &&& r.addr == s.selected_addr
    &&& r.track_id == track_id
    &&& r.name@ == text::trimmed(s.track_name@)
    &&& text::texts(r.artists@) == if text::trimmed(s.artist@).len() == 0 {
        Seq::empty()
    } else {
        seq![text::trimmed(s.artist@)]
    }
    &&& r.album@ == text::trimmed(s.album@)
    &&& r.album_id == 0
    &&& r.duration_ms == s.duration_ms
    &&& r.assets@ == local_assets(s, images)
}

pub open spec fn made(images: Option<Result<PreparedArtwork, String>>) -> Option<PreparedArtwork> {
    match images {
        Some(Ok(a)) => Some(a),
        _ => None,
    }
}

/// Makes the request for a local import. `images` is what was made from the
/// chosen cover, or why nothing was; `track_id` is the time in milliseconds.
pub fn local_request(
    s: &mut UiState,
    images: Option<Result<PreparedArtwork, String>>,
    track_id: u64,
) -> (r: ImportRequest)
    requires
        local_fault(*old(s)) is None,
    ensures
        local_requested(r, *old(s), made(images), track_id),
        match images {
            Some(Err(e)) => says(*old(s), *final(s), "封面处理失败，将仅导入音频："@ + e@),
            _ => *final(s) == *old(s),
        },
{
    let images = match images {
        Some(Ok(a)) => Some(a),
        Some(Err(e)) => {
            s.status = text::cat("封面处理失败，将仅导入音频：", e.as_str());
            None
        },
        None => None,
    };
    let audio = match &s.audio {
        Some(f) => ImportAsset::audio(f.path.clone(), f.size),
        None => ImportAsset::audio(String::new(), 0),
    };
    let lyrics = match &s.lyrics {
        Some(f) => Some(
            ImportAsset::lyrics(f.path.clone(), f.size, format_of_name(f.name.as_str())),
        ),
        None => None,
    };
    let artist = text::trim(s.artist.as_str());
    let artists: Vec<String> = if artist.as_str().is_empty() {
        Vec::new()
    } else {
        vec![artist]
    };
    assert(text::texts(artists@) =~= if text::trimmed(s.artist@).len() == 0 {
        Seq::empty()
    } else {
        seq![text::trimmed(s.artist@)]
    });
    ImportRequest {
        addr: s.selected_addr.clone(),
        track_id,
        name: text::trim(s.track_name.as_str()),
        artists,
        album: text::trim(s.album.as_str()),
        album_id: 0,
        duration_ms: s.duration_ms,
        assets: netease::gather_assets(audio, images, lyrics),
    }
}

/// Makes the request for a song of the cloud service.
pub fn cloud_request(s: &UiState, prepared: PreparedCloud) -> (r: ImportRequest)
    ensures
        r == (ImportRequest {
            addr: s.selected_addr,
            track_id: prepared.song.id,
            name: prepared.song.name,
            artists: prepared.song.artists,
            album: prepared.song.album,
            album_id: prepared.song.album_id,
            duration_ms: prepared.song.duration_ms,
            assets: prepared.assets,
        }),
{
    ImportRequest {
        addr: s.selected_addr.clone(),
        track_id: prepared.song.id,
        name: prepared.song.name,
        artists: prepared.song.artists,
        album: prepared.song.album,
        album_id: prepared.song.album_id,
        duration_ms: prepared.song.duration_ms,
        assets: prepared.assets,
    }
}

/// Says that an import could not start.
pub fn start_failed(s: &mut UiState, error: &str)
    ensures
        says(*old(s), *final(s), "无法开始导入："@ + error@),
{
    s.status = text::cat("无法开始导入：", error);
}

/// Says what went wrong.
pub fn failed(s: &mut UiState, error: &str)
    ensures
        says(*old(s), *final(s), error@),
{
    say(s, error);
}

// ---------------------------------------------------------------- answers

fn counted(before: &str, n: usize, after: &str) -> (r: String)
    ensures
        r@ == before@ + text::decimal(n as nat) + after@,
{
    let d = text::u64_text(n as u64);
    text::cat3(before, d.as_str(), after)
}

/// Shows what a search found.
pub fn searched(s: &mut UiState, result: Result<Vec<CloudSong>, String>)
    ensures
        match result {
            Ok(songs) => {
                &&& final(s).status@ == "找到 "@ + text::decimal(songs@.len()) + " 首歌曲。"@
                &&& *final(s) == (UiState {
                    netease_results: songs,
                    netease_view: NeteaseView::SearchResults,
                    status: final(s).status,
                    ..*old(s)
                })
            },
            Err(e) => says(*old(s), *final(s), e@),
        },
{
    match result {
        Ok(songs) => {
            s.status = counted("找到 ", songs.len(), " 首歌曲。");
            s.netease_results = songs;
            s.netease_view = NeteaseView::SearchResults;
        },
        Err(e) => {
            s.status = e;
        },
    }
}

/// Whether the playlists of the user are shown.
pub open spec fn playlists_shown(before: UiState, after: UiState, playlists: Vec<CloudPlaylist>) -> bool {
    &&& after.status@ == "已加载 "@ + text::decimal(playlists@.len()) + " 个个人歌单。"@
    &&& after.netease_playlist_name@.len() == 0
    &&& after.netease_playlist_tracks@.len() == 0
    &&& after == (UiState {
        netease_playlists: playlists,
        netease_playlist_name: after.netease_playlist_name,
        netease_playlist_tracks: after.netease_playlist_tracks,
        netease_playlist_page: 0,
        netease_view: NeteaseView::Playlists,
        status: after.status,
        ..before
    })
}

/// Shows the playlists of the user.
pub fn playlists_loaded(s: &mut UiState, result: Result<Vec<CloudPlaylist>, String>)
    ensures
        match result {
            Ok(playlists) => playlists_shown(*old(s), *final(s), playlists),
            Err(e) => says(*old(s), *final(s), e@),
        },
{
    match result {
        Ok(playlists) => {
            s.status = counted("已加载 ", playlists.len(), " 个个人歌单。");
            s.netease_playlists = playlists;
            s.netease_playlist_name = String::new();
            s.netease_playlist_tracks = Vec::new();
            s.netease_playlist_page = 0;
            s.netease_view = NeteaseView::Playlists;
        },
        Err(e) => {
            s.status = e;
        },
    }
}

/// Shows the songs of a playlist.
pub fn playlist_opened(s: &mut UiState, result: Result<(String, Vec<CloudSong>), String>)
    ensures
        match result {
            Ok((name, tracks)) => {
                &&& final(s).status@ == "歌单中有 "@ + text::decimal(tracks@.len()) + " 首歌曲。"@
                &&& *final(s) == (UiState {
                    netease_playlist_name: name,
                    netease_playlist_tracks: tracks,
                    netease_playlist_page: 0,
                    netease_view: NeteaseView::PlaylistTracks,
                    status: final(s).status,
                    ..*old(s)
                })
            },
            Err(e) => says(*old(s), *final(s), e@),
        },
{
    match result {
        Ok((name, tracks)) => {
            s.status = counted("歌单中有 ", tracks.len(), " 首歌曲。");
            s.netease_playlist_name = name;
            s.netease_playlist_tracks = tracks;
            s.netease_playlist_page = 0;
            s.netease_view = NeteaseView::PlaylistTracks;
        },
        Err(e) => {
            s.status = e;
        },
    }
}

/// Shows a login code.
pub fn qr_begun(s: &mut UiState, result: Result<(String, String), String>)
    ensures
        match result {
            Ok((key, url)) => {
                &&& final(s).status@ == "请用网易云音乐扫码并确认，然后点击检查状态。"@
                &&& *final(s) == (UiState {
                    qr_key: key,
                    qr_url: url,
                    status: final(s).status,
                    ..*old(s)
                })
            },
            Err(e) => says(*old(s), *final(s), e@),
        },
{
    match result {
        Ok((key, url)) => {
            s.qr_key = key;
            s.qr_url = url;
            s.status = "请用网易云音乐扫码并确认，然后点击检查状态。".to_owned();
        },
        Err(e) => {
            s.status = e;
        },
    }
}

/// Takes the state of the login code; after a login the playlists are to be
/// loaded.
pub fn qr_polled(s: &mut UiState, result: Result<Option<String>, String>) -> (load: bool)
    ensures
        match result {
            Ok(Some(cookie)) => {
                &&& load
                &&& final(s).status@ == "正在读取个人歌单…"@
                &&& final(s).qr_key@.len() == 0
                &&& final(s).qr_url@.len() == 0
                &&& *final(s) == (UiState {
                    netease_cookie: cookie,
                    qr_key: final(s).qr_key,
                    qr_url: final(s).qr_url,
                    status: final(s).status,
                    ..*old(s)
                })
            },
            Ok(None) => !load && says(*old(s), *final(s), "等待扫码或手机确认…"@),
            Err(e) => !load && says(*old(s), *final(s), e@),
        },
{
    match result {
        Ok(Some(cookie)) => {
            s.netease_cookie = cookie;
            s.qr_key = String::new();
            s.qr_url = String::new();
            s.status = "正在读取个人歌单…".to_owned();
            true
        },
        Ok(None) => {
            say(s, "等待扫码或手机确认…");
            false
        },
        Err(e) => {
            s.status = e;
            false
        },
    }
}

/// Forgets the login and all that was loaded with it.
pub fn logged_out(s: &mut UiState, cleared: Result<(), String>)
    ensures
        final(s).netease_cookie@.len() == 0,
        final(s).netease_results@.len() == 0,
        final(s).netease_playlists@.len() == 0,
        final(s).netease_playlist_name@.len() == 0,
        final(s).netease_playlist_tracks@.len() == 0,
        final(s).qr_key@.len() == 0,
        final(s).qr_url@.len() == 0,
        final(s).status@ == match cleared {
            Ok(_) => "已退出网易云登录。"@,
            Err(e) => e@,
        },
        *final(s) == (UiState {
            netease_cookie: final(s).netease_cookie,
            netease_view: NeteaseView::Home,
            netease_results: final(s).netease_results,
            netease_playlists: final(s).netease_playlists,
            netease_playlist_name: final(s).netease_playlist_name,
            netease_playlist_tracks: final(s).netease_playlist_tracks,
            netease_playlist_page: 0,
            qr_key: final(s).qr_key,
            qr_url: final(s).qr_url,
            status: final(s).status,
            ..*old(s)
        }),
{
    s.netease_cookie = String::new();
    s.netease_view = NeteaseView::Home;
    s.netease_results = Vec::new();
    s.netease_playlists = Vec::new();
    s.netease_playlist_name = String::new();
    s.netease_playlist_tracks = Vec::new();
    s.netease_playlist_page = 0;
    s.qr_key = String::new();
    s.qr_url = String::new();
    s.status =
    match cleared {
        Ok(_) => "已退出网易云登录。".to_owned(),
        Err(e) => e,
    };
}

/// Takes the stored login when the page is loaded.
pub fn on_load(s: &mut UiState, restored: Result<Option<String>, String>)
    ensures
        final(s).status@ == match restored {
            Err(e) => e@,
            Ok(Some(_)) => "已恢复网易云登录状态。"@,
            Ok(None) => if old(s).devices@.len() == 0 {
                "未发现已连接设备。"@
            } else {
                "请打开手表上的 Lyra Import，然后选择本地或网易云音乐。"@
            },
        },
        *final(s) == (UiState {
            netease_audio_bitrate: netease::offered_bitrate(old(s).netease_audio_bitrate),
            netease_cookie: match restored {
                Ok(Some(c)) => c,
                _ => old(s).netease_cookie,
            },
            status: final(s).status,
            ..*old(s)
        }),
{
    s.netease_audio_bitrate = netease::normalized_audio_bitrate(s.netease_audio_bitrate);
    match restored {
        Err(e) => {
            s.status = e;
        },
        Ok(Some(cookie)) => {
            s.netease_cookie = cookie;
            s.status = "已恢复网易云登录状态。".to_owned();
        },
        Ok(None) => {
            s.status =
            if s.devices.len() == 0 {
                "未发现已连接设备。".to_owned()
            } else {
                "请打开手表上的 Lyra Import，然后选择本地或网易云音乐。".to_owned()
            };
        },
    }
}

/// The question that is asked before a song is deleted.
pub fn delete_question(name: &str) -> (r: String)
    ensures
        r@ == "确定删除《"@ + name@ + "》吗？音频、封面、背景和歌词都会被永久删除。"@,
{
    text::cat3("确定删除《", name, "》吗？音频、封面、背景和歌词都会被永久删除。")
}

// ---------------------------------------------------------------- laws

proof fn lemma_behind(prefix: Seq<char>, n: nat, max: nat)
    requires
        n <= max,
    ensures
        text::begins_with(prefix + text::decimal(n), prefix),
        event_number(prefix + text::decimal(n), prefix, max) == Some(n),
{
    let e = prefix + text::decimal(n);
    assert(e.subrange(0, prefix.len() as int) =~= prefix);
    assert(e.skip(prefix.len() as int) =~= text::decimal(n));
    text::decimal_round_trip(n, max);
}

proof fn lemma_numbered(prefix: Seq<char>, n: nat)
    ensures
        !is_input(prefix + text::decimal(n)),
        !is_action(prefix + text::decimal(n)),
{
    let e = prefix + text::decimal(n);
    text::decimal_is_digits(n);
    assert(e.last() == text::decimal(n).last());
    assert(text::is_digit(e.last()));
    reveal_strlit("action:file.audio");
    reveal_strlit("action:file.cover");
    reveal_strlit("action:file.lyrics");
    reveal_strlit("action:devices.refresh");
    reveal_strlit("action:import.local");
    reveal_strlit("action:import.cancel");
    reveal_strlit("input:device");
    reveal_strlit("input:name");
    reveal_strlit("input:artist");
    reveal_strlit("input:album");
    reveal_strlit("input:duration");
    reveal_strlit("input:netease.query");
    reveal_strlit("input:netease.audio-quality");
    reveal_strlit("input:transfer.checksum");
    reveal_strlit("action:netease.search");
    reveal_strlit("action:netease.playlists");
    reveal_strlit("action:netease.playlist.close");
    reveal_strlit("action:netease.playlist.page.previous");
    reveal_strlit("action:netease.playlist.page.next");
    reveal_strlit("action:netease.qr.begin");
    reveal_strlit("action:netease.qr.poll");
    reveal_strlit("action:netease.logout");
    reveal_strlit("action:library.refresh");
    assert(EVENT_PICK_AUDIO@.last() == 'o');
    assert(EVENT_PICK_COVER@.last() == 'r');
    assert(EVENT_PICK_LYRICS@.last() == 's');
    assert(EVENT_REFRESH@.last() == 'h');
    assert(EVENT_START_LOCAL@.last() == 'l');
    assert(EVENT_CANCEL@.last() == 'l');
    assert(EVENT_DEVICE@.last() == 'e');
    assert(EVENT_NAME@.last() == 'e');
    assert(EVENT_ARTIST@.last() == 't');
    assert(EVENT_ALBUM@.last() == 'm');
    assert(EVENT_DURATION@.last() == 'n');
    assert(EVENT_QUERY@.last() == 'y');
    assert(EVENT_AUDIO_QUALITY@.last() == 'y');
    assert(EVENT_CHECKSUM_MODE@.last() == 'm');
    assert(EVENT_SEARCH_CLOUD@.last() == 'h');
    assert(EVENT_LOAD_PLAYLISTS@.last() == 's');
    assert(EVENT_CLOSE_PLAYLIST@.last() == 'e');
    assert(EVENT_PLAYLIST_PAGE_PREVIOUS@.last() == 's');
    assert(EVENT_PLAYLIST_PAGE_NEXT@.last() == 't');
    assert(EVENT_QR_BEGIN@.last() == 'n');
    assert(EVENT_QR_POLL@.last() == 'l');
    assert(EVENT_LOGOUT@.last() == 't');
    assert(EVENT_LIBRARY_REFRESH@.last() == 'h');
}

/// Whether an event is taken as one on a numbered item, with a prefix that none of
/// the earlier ones hides.
pub open spec fn understood(event: Seq<char>, prefix: Seq<char>, n: nat, max: nat) -> bool {
    &&& !is_input(event)
    &&& !is_action(event)
    &&& text::begins_with(event, prefix)
    &&& event_number(event, prefix, max) == Some(n)
}

/// The events of the buttons on songs and playlists are taken as what they are:
/// each leads to its own action, with the number that it was made with.
pub proof fn generated_ids_are_understood(n: nat)
    requires
        n <= u64::MAX,
    ensures
        ({
            let d = text::decimal(n);
            let max = u64::MAX as nat;
            let up = EVENT_LIBRARY_MOVE_UP_PREFIX@;
            let down = EVENT_LIBRARY_MOVE_DOWN_PREFIX@;
            let delete = EVENT_LIBRARY_DELETE_PREFIX@;
            let result = EVENT_SEARCH_RESULT_PREFIX@;
            let track = EVENT_PLAYLIST_TRACK_PREFIX@;
            let playlist = EVENT_PLAYLIST_PREFIX@;
            &&& understood(up + d, up, n, max)
            &&& understood(down + d, down, n, max) && !text::begins_with(down + d, up)
            &&& understood(delete + d, delete, n, max) && !text::begins_with(delete + d, up)
                && !text::begins_with(delete + d, down)
            &&& n <= usize::MAX ==> understood(result + d, result, n, usize::MAX as nat)
                && !text::begins_with(result + d, up) && !text::begins_with(result + d, down)
                && !text::begins_with(result + d, delete)
            &&& n <= usize::MAX ==> understood(track + d, track, n, usize::MAX as nat)
                && !text::begins_with(track + d, up) && !text::begins_with(track + d, down)
                && !text::begins_with(track + d, delete) && !text::begins_with(track + d, result)
            &&& understood(playlist + d, playlist, n, max) && !text::begins_with(playlist + d, up)
                && !text::begins_with(playlist + d, down) && !text::begins_with(
                playlist + d,
                delete,
            ) && !text::begins_with(playlist + d, result) && !text::begins_with(playlist + d, track)
        }),
{
    let d = text::decimal(n);
    let max = u64::MAX as nat;
    reveal_strlit("action:library.move.up.");
    reveal_strlit("action:library.move.down.");
    reveal_strlit("action:library.delete.");
    reveal_strlit("action:netease.result.");
    reveal_strlit("action:netease.track.");
    reveal_strlit("action:netease.playlist.");
    lemma_behind(EVENT_LIBRARY_MOVE_UP_PREFIX@, n, max);
    lemma_numbered(EVENT_LIBRARY_MOVE_UP_PREFIX@, n);
    lemma_behind(EVENT_LIBRARY_MOVE_DOWN_PREFIX@, n, max);
    lemma_numbered(EVENT_LIBRARY_MOVE_DOWN_PREFIX@, n);
    lemma_behind(EVENT_LIBRARY_DELETE_PREFIX@, n, max);
    lemma_numbered(EVENT_LIBRARY_DELETE_PREFIX@, n);
    lemma_behind(EVENT_SEARCH_RESULT_PREFIX@, n, max);
    lemma_numbered(EVENT_SEARCH_RESULT_PREFIX@, n);
    lemma_behind(EVENT_PLAYLIST_TRACK_PREFIX@, n, max);
    lemma_numbered(EVENT_PLAYLIST_TRACK_PREFIX@, n);
    lemma_behind(EVENT_PLAYLIST_PREFIX@, n, max);
    lemma_numbered(EVENT_PLAYLIST_PREFIX@, n);
    if n <= usize::MAX {
        lemma_behind(EVENT_SEARCH_RESULT_PREFIX@, n, usize::MAX as nat);
        lemma_behind(EVENT_PLAYLIST_TRACK_PREFIX@, n, usize::MAX as nat);
    }
    assert(!text::begins_with(EVENT_LIBRARY_MOVE_DOWN_PREFIX@ + d, EVENT_LIBRARY_MOVE_UP_PREFIX@)) by {
        let e = EVENT_LIBRARY_MOVE_DOWN_PREFIX@ + d;
        if text::begins_with(e, EVENT_LIBRARY_MOVE_UP_PREFIX@) {
            assert(e.subrange(0, EVENT_LIBRARY_MOVE_UP_PREFIX@.len() as int)[20] == e[20]);
        }
    }
    assert(!text::begins_with(EVENT_LIBRARY_DELETE_PREFIX@ + d, EVENT_LIBRARY_MOVE_UP_PREFIX@)) by {
        let e = EVENT_LIBRARY_DELETE_PREFIX@ + d;
        if text::begins_with(e, EVENT_LIBRARY_MOVE_UP_PREFIX@) {
            assert(e.subrange(0, EVENT_LIBRARY_MOVE_UP_PREFIX@.len() as int)[15] == e[15]);
        }
    }
    assert(!text::begins_with(EVENT_LIBRARY_DELETE_PREFIX@ + d, EVENT_LIBRARY_MOVE_DOWN_PREFIX@)) by {
        let e = EVENT_LIBRARY_DELETE_PREFIX@ + d;
        if text::begins_with(e, EVENT_LIBRARY_MOVE_DOWN_PREFIX@) {
            assert(e.subrange(0, EVENT_LIBRARY_MOVE_DOWN_PREFIX@.len() as int)[15] == e[15]);
        }
    }
    assert(!text::begins_with(EVENT_SEARCH_RESULT_PREFIX@ + d, EVENT_LIBRARY_MOVE_UP_PREFIX@)) by {
        let e = EVENT_SEARCH_RESULT_PREFIX@ + d;
        if text::begins_with(e, EVENT_LIBRARY_MOVE_UP_PREFIX@) {
            assert(e.subrange(0, EVENT_LIBRARY_MOVE_UP_PREFIX@.len() as int)[7] == e[7]);
        }
    }
    assert(!text::begins_with(EVENT_SEARCH_RESULT_PREFIX@ + d, EVENT_LIBRARY_MOVE_DOWN_PREFIX@)) by {
        let e = EVENT_SEARCH_RESULT_PREFIX@ + d;
        if text::begins_with(e, EVENT_LIBRARY_MOVE_DOWN_PREFIX@) {
            assert(e.subrange(0, EVENT_LIBRARY_MOVE_DOWN_PREFIX@.len() as int)[7] == e[7]);
        }
    }
    assert(!text::begins_with(EVENT_SEARCH_RESULT_PREFIX@ + d, EVENT_LIBRARY_DELETE_PREFIX@)) by {
        let e = EVENT_SEARCH_RESULT_PREFIX@ + d;
        if text::begins_with(e, EVENT_LIBRARY_DELETE_PREFIX@) {
            assert(e.subrange(0, EVENT_LIBRARY_DELETE_PREFIX@.len() as int)[7] == e[7]);
        }
    }
    assert(!text::begins_with(EVENT_PLAYLIST_TRACK_PREFIX@ + d, EVENT_LIBRARY_MOVE_UP_PREFIX@)) by {
        let e = EVENT_PLAYLIST_TRACK_PREFIX@ + d;
        if text::begins_with(e, EVENT_LIBRARY_MOVE_UP_PREFIX@) {
            assert(e.subrange(0, EVENT_LIBRARY_MOVE_UP_PREFIX@.len() as int)[7] == e[7]);
        }
    }
    assert(!text::begins_with(EVENT_PLAYLIST_TRACK_PREFIX@ + d, EVENT_LIBRARY_MOVE_DOWN_PREFIX@)) by {
        let e = EVENT_PLAYLIST_TRACK_PREFIX@ + d;
        if text::begins_with(e, EVENT_LIBRARY_MOVE_DOWN_PREFIX@) {
            assert(e.subrange(0, EVENT_LIBRARY_MOVE_DOWN_PREFIX@.len() as int)[7] == e[7]);
        }
    }
    assert(!text::begins_with(EVENT_PLAYLIST_TRACK_PREFIX@ + d, EVENT_LIBRARY_DELETE_PREFIX@)) by {
        let e = EVENT_PLAYLIST_TRACK_PREFIX@ + d;
        if text::begins_with(e, EVENT_LIBRARY_DELETE_PREFIX@) {
            assert(e.subrange(0, EVENT_LIBRARY_DELETE_PREFIX@.len() as int)[7] == e[7]);
        }
    }
    assert(!text::begins_with(EVENT_PLAYLIST_TRACK_PREFIX@ + d, EVENT_SEARCH_RESULT_PREFIX@)) by {
        let e = EVENT_PLAYLIST_TRACK_PREFIX@ + d;
        if text::begins_with(e, EVENT_SEARCH_RESULT_PREFIX@) {
            assert(e.subrange(0, EVENT_SEARCH_RESULT_PREFIX@.len() as int)[15] == e[15]);
        }
    }
    assert(!text::begins_with(EVENT_PLAYLIST_PREFIX@ + d, EVENT_LIBRARY_MOVE_UP_PREFIX@)) by {
        let e = EVENT_PLAYLIST_PREFIX@ + d;
        if text::begins_with(e, EVENT_LIBRARY_MOVE_UP_PREFIX@) {
            assert(e.subrange(0, EVENT_LIBRARY_MOVE_UP_PREFIX@.len() as int)[7] == e[7]);
        }
    }
    assert(!text::begins_with(EVENT_PLAYLIST_PREFIX@ + d, EVENT_LIBRARY_MOVE_DOWN_PREFIX@)) by {
        let e = EVENT_PLAYLIST_PREFIX@ + d;
        if text::begins_with(e, EVENT_LIBRARY_MOVE_DOWN_PREFIX@) {
            assert(e.subrange(0, EVENT_LIBRARY_MOVE_DOWN_PREFIX@.len() as int)[7] == e[7]);
        }
    }
    assert(!text::begins_with(EVENT_PLAYLIST_PREFIX@ + d, EVENT_LIBRARY_DELETE_PREFIX@)) by {
        let e = EVENT_PLAYLIST_PREFIX@ + d;
        if text::begins_with(e, EVENT_LIBRARY_DELETE_PREFIX@) {
            assert(e.subrange(0, EVENT_LIBRARY_DELETE_PREFIX@.len() as int)[7] == e[7]);
        }
    }
    assert(!text::begins_with(EVENT_PLAYLIST_PREFIX@ + d, EVENT_SEARCH_RESULT_PREFIX@)) by {
        let e = EVENT_PLAYLIST_PREFIX@ + d;
        if text::begins_with(e, EVENT_SEARCH_RESULT_PREFIX@) {
            assert(e.subrange(0, EVENT_SEARCH_RESULT_PREFIX@.len() as int)[15] == e[15]);
        }
    }
    assert(!text::begins_with(EVENT_PLAYLIST_PREFIX@ + d, EVENT_PLAYLIST_TRACK_PREFIX@)) by {
        let e = EVENT_PLAYLIST_PREFIX@ + d;
        if text::begins_with(e, EVENT_PLAYLIST_TRACK_PREFIX@) {
            assert(e.subrange(0, EVENT_PLAYLIST_TRACK_PREFIX@.len() as int)[15] == e[15]);
        }
    }
}

proof fn lemma_input_ids()
    ensures
        "input:device"@ != "input:name"@,
        "input:device"@ != "input:artist"@,
        "input:device"@ != "input:album"@,
        "input:device"@ != "input:duration"@,
        "input:device"@ != "input:netease.query"@,
        "input:device"@ != "input:netease.audio-quality"@,
        "input:device"@ != "input:transfer.checksum"@,
        "input:name"@ != "input:artist"@,
        "input:name"@ != "input:album"@,
        "input:name"@ != "input:duration"@,
        "input:name"@ != "input:netease.query"@,
        "input:name"@ != "input:netease.audio-quality"@,
        "input:name"@ != "input:transfer.checksum"@,
        "input:artist"@ != "input:album"@,
        "input:artist"@ != "input:duration"@,
        "input:artist"@ != "input:netease.query"@,
        "input:artist"@ != "input:netease.audio-quality"@,
        "input:artist"@ != "input:transfer.checksum"@,
        "input:album"@ != "input:duration"@,
        "input:album"@ != "input:netease.query"@,
        "input:album"@ != "input:netease.audio-quality"@,
        "input:album"@ != "input:transfer.checksum"@,
        "input:duration"@ != "input:netease.query"@,
        "input:duration"@ != "input:netease.audio-quality"@,
        "input:duration"@ != "input:transfer.checksum"@,
        "input:netease.query"@ != "input:netease.audio-quality"@,
        "input:netease.query"@ != "input:transfer.checksum"@,
        "input:netease.audio-quality"@ != "input:transfer.checksum"@,
{
    reveal_strlit("input:device");
    reveal_strlit("input:name");
    reveal_strlit("input:artist");
    reveal_strlit("input:album");
    reveal_strlit("input:duration");
    reveal_strlit("input:netease.query");
    reveal_strlit("input:netease.audio-quality");
    reveal_strlit("input:transfer.checksum");
    assert("input:device"@.len() != "input:name"@.len());
    assert("input:device"@[6] != "input:artist"@[6]);
    assert("input:device"@.len() != "input:album"@.len());
    assert("input:device"@.len() != "input:duration"@.len());
    assert("input:device"@.len() != "input:netease.query"@.len());
    assert("input:device"@.len() != "input:netease.audio-quality"@.len());
    assert("input:device"@.len() != "input:transfer.checksum"@.len());
    assert("input:name"@.len() != "input:artist"@.len());
    assert("input:name"@.len() != "input:album"@.len());
    assert("input:name"@.len() != "input:duration"@.len());
    assert("input:name"@.len() != "input:netease.query"@.len());
    assert("input:name"@.len() != "input:netease.audio-quality"@.len());
    assert("input:name"@.len() != "input:transfer.checksum"@.len());
    assert("input:artist"@.len() != "input:album"@.len());
    assert("input:artist"@.len() != "input:duration"@.len());
    assert("input:artist"@.len() != "input:netease.query"@.len());
    assert("input:artist"@.len() != "input:netease.audio-quality"@.len());
    assert("input:artist"@.len() != "input:transfer.checksum"@.len());
    assert("input:album"@.len() != "input:duration"@.len());
    assert("input:album"@.len() != "input:netease.query"@.len());
    assert("input:album"@.len() != "input:netease.audio-quality"@.len());
    assert("input:album"@.len() != "input:transfer.checksum"@.len());
    assert("input:duration"@.len() != "input:netease.query"@.len());
    assert("input:duration"@.len() != "input:netease.audio-quality"@.len());
    assert("input:duration"@.len() != "input:transfer.checksum"@.len());
    assert("input:netease.query"@.len() != "input:netease.audio-quality"@.len());
    assert("input:netease.query"@.len() != "input:transfer.checksum"@.len());
    assert("input:netease.audio-quality"@.len() != "input:transfer.checksum"@.len());
}

proof fn lemma_mode_names()
    ensures
        "none-48k"@ != "none"@,
        "none-48k"@ != "crc32"@,
        "none"@ != "crc32"@,
{
    reveal_strlit("none-48k");
    reveal_strlit("none");
    reveal_strlit("crc32");
    assert("none-48k"@.len() != "none"@.len());
    assert("none-48k"@.len() != "crc32"@.len());
    assert("none"@.len() != "crc32"@.len());
}

/// A field takes what is typed into it, and only that field does.
pub proof fn fields_take_their_input(
    before: UiState,
    after: UiState,
    event: Seq<char>,
    value: Option<String>,
    effect: UiEffect,
)
    requires
        input_handled(before, after, event, value, effect),
        value is Some,
    ensures
        event == "input:name"@ ==> after.track_name@ == value->0@ && after.artist == before.artist
            && after.album == before.album,
        event == "input:artist"@ ==> after.artist@ == value->0@ && after.track_name
            == before.track_name && after.album == before.album,
        event == "input:album"@ ==> after.album@ == value->0@ && after.track_name == before.track_name
            && after.artist == before.artist,
        event == "input:netease.query"@ ==> after.netease_query@ == value->0@ && after.track_name
            == before.track_name,
        event == "input:device"@ ==> after.selected_addr@ == value->0@,
        event == "input:duration"@ ==> {
            &&& text::parsed_uint(value->0@, u32::MAX as nat) matches Some(n) ==> after.duration_ms
                == n
            &&& text::parsed_uint(value->0@, u32::MAX as nat) is None ==> after.duration_ms == 0
        },
        event == "input:transfer.checksum"@ ==> after.transfer_mode == mode_named(value)
            && after.netease_audio_bitrate == before.netease_audio_bitrate,
        event == "input:netease.audio-quality"@ ==> after.transfer_mode == before.transfer_mode,
        after.audio == before.audio && after.cover == before.cover && after.lyrics == before.lyrics,
        after.netease_cookie == before.netease_cookie && after.active == before.active,
{
    lemma_input_ids();
}

/// The way of sending that is chosen is the one that the page then shows as chosen.
pub proof fn chosen_modes_are_shown(mode: TransferMode, value: String)
    requires
        ui::checksum_select_view(mode).props[0] == ("default-value"@, value@),
    ensures
        mode_named(Some(value)) == mode,
{
    lemma_mode_names();
    let e = ui::select_view(
        if mode == TransferMode::Crc32 {
            "crc32"@
        } else if mode == TransferMode::Fast {
            "none"@
        } else {
            "none-48k"@
        },
        ui::EVENT_CHECKSUM_MODE@,
    );
    assert(ui::checksum_select_view(mode).props == e.props);
    assert(e.props[0].1 == value@);
}

/// Turning a page forth and back leads to the same page; no page beyond the last
/// song or before the first is turned to.
pub proof fn pages_turn_forth_and_back(s: UiState, t: UiState)
    requires
        t.netease_playlist_page == next_page(s),
        t.netease_playlist_tracks == s.netease_playlist_tracks,
    ensures
        next_page(s) == s.netease_playlist_page || next_page(s) == s.netease_playlist_page + 1,
        next_page(s) > s.netease_playlist_page ==> previous_page(t) == s.netease_playlist_page,
        next_page(s) > s.netease_playlist_page <==> (s.netease_playlist_page + 1) * 50
            < s.netease_playlist_tracks@.len(),
        s.netease_playlist_page == 0 ==> previous_page(s) == 0,
        s.netease_playlist_page > 0 ==> previous_page(s) == s.netease_playlist_page - 1,
{
}

/// A song is named after its file, without the last extension.
pub proof fn songs_are_named_after_their_file(name: Seq<char>, extension: Seq<char>)
    requires
        !extension.contains('.'),
    ensures
        stem(name + seq!['.'] + extension) == name,
        !name.contains('.') ==> stem(name) == name,
{
    text::cutting_finds_the_last(name, '.', extension);
    let s = name + seq!['.'] + extension;
    assert(s[name.len() as int] == '.');
    assert(s.take(name.len() as int) =~= name);
}

/// Lyrics are taken for what the end of their name says, in upper or lower case.
pub proof fn lyrics_are_told_by_their_name(name: Seq<char>, extension: Seq<char>)
    requires
        !extension.contains('.'),
    ensures
        text::lowered(extension) == text::lowered("json"@) ==> lyrics_name_format(
            name + seq!['.'] + extension,
        )@ == "json"@,
        text::lowered(extension) != text::lowered("json"@) ==> lyrics_name_format(
            name + seq!['.'] + extension,
        )@ == "lrc"@,
        !name.contains('.') ==> lyrics_name_format(name)@ == "lrc"@,
{
    text::cutting_finds_the_last(name, '.', extension);
    let s = name + seq!['.'] + extension;
    assert(s[name.len() as int] == '.');
}

/// A picked file takes its own place: sound, with its name and its length, a
/// picture, or lyrics, and leaves the others.
pub proof fn picked_files_take_their_place(
    before: UiState,
    after: UiState,
    kind: Seq<char>,
    f: SelectedFile,
)
    requires
        file_taken(before, after, kind, f),
    ensures
        kind == "audio"@ ==> after.audio == Some(f) && after.cover == before.cover && after.lyrics
            == before.lyrics && after.track_name@ == stem(f.name@),
        kind == "cover"@ ==> after.cover == Some(f) && after.audio == before.audio && after.lyrics
            == before.lyrics && after.track_name == before.track_name,
        kind == "lyrics"@ ==> after.lyrics == Some(f) && after.audio == before.audio && after.cover
            == before.cover && after.track_name == before.track_name,
        kind == "audio"@ && f.duration_ms > 0 ==> after.duration_ms == f.duration_ms,
        kind == "audio"@ && f.duration_ms == 0 ==> after.duration_ms == before.duration_ms,
        after.selected_addr == before.selected_addr,
{
    reveal_strlit("audio");
    reveal_strlit("cover");
    reveal_strlit("lyrics");
    assert("audio"@[0] != "cover"@[0]);
    assert("audio"@.len() != "lyrics"@.len());
    assert("cover"@.len() != "lyrics"@.len());
}

/// What is imported from files is what was filled in: the names without the white
/// space around them, and the files that were picked.
pub proof fn local_songs_are_what_was_filled_in(
    r: ImportRequest,
    s: UiState,
    images: Option<PreparedArtwork>,
    id: u64,
)
    requires
        local_requested(r, s, images, id),
        local_fault(s) is None,
    ensures
        r.addr == s.selected_addr,
        r.track_id == id,
        r.name@ == text::trimmed(s.track_name@) && r.name@.len() > 0,
        r.album@ == text::trimmed(s.album@),
        text::trimmed(s.artist@).len() > 0 ==> r.artists@.len() == 1 && r.artists@[0]@
            == text::trimmed(s.artist@),
        text::trimmed(s.artist@).len() == 0 ==> r.artists@.len() == 0,
        r.duration_ms == s.duration_ms,
        r.assets@.len() >= 1 && r.assets@[0].kind@ == "audio"@ && r.assets@[0].path
            == s.audio->0.path && r.assets@[0].size == s.audio->0.size,
        s.lyrics matches Some(l) ==> r.assets@.last().kind@ == "lyrics"@ && r.assets@.last().path
            == l.path,
{
    let audio = s.audio->0;
    let lyrics = match s.lyrics {
        Some(l) => Some(netease::lyrics_asset(l.path, l.size, lyrics_name_format(l.name@))),
        None => None,
    };
    netease::assets_stand_in_their_order(
        netease::audio_asset(audio.path, audio.size),
        images,
        lyrics,
    );
    assert(text::texts(r.artists@).len() == r.artists@.len());
    if text::trimmed(s.artist@).len() > 0 {
        assert(text::texts(r.artists@)[0] == r.artists@[0]@);
    }
}

/// The song that is started is the one at the place that was asked for; a place
/// that is gone starts none.
pub proof fn listed_songs_are_started(
    before: UiState,
    after: UiState,
    songs: Seq<CloudSong>,
    index: nat,
    outdated: Seq<char>,
    effect: UiEffect,
)
    requires
        song_started(before, after, songs, index, outdated, effect),
    ensures
        effect is StartSong <==> index < songs.len(),
        effect matches UiEffect::StartSong(song) ==> song.id == songs[index as int].id && song.name
            == songs[index as int].name && song.cover_url == songs[index as int].cover_url,
        after.netease_results == before.netease_results,
{
}

/// Choosing another device forgets what was known of the songs on the one before;
/// choosing the same one keeps it.
pub proof fn another_device_has_another_library(before: UiState, after: UiState, addr: Seq<char>)
    requires
        device_chosen(before, after, addr),
    ensures
        after.selected_addr@ == addr,
        before.selected_addr@ == addr ==> after.device_library == before.device_library
            && after.library_busy == before.library_busy,
        before.selected_addr@ != addr ==> after.device_library@.len() == 0 && !after.library_busy
            && after.library_target is None,
        after.audio == before.audio && after.netease_cookie == before.netease_cookie,
{
}

proof fn lemma_action_ids()
    ensures
        "action:file.audio"@ != "action:file.cover"@,
        "action:file.audio"@ != "action:file.lyrics"@,
        "action:file.audio"@ != "action:devices.refresh"@,
        "action:file.audio"@ != "action:import.local"@,
        "action:file.audio"@ != "action:netease.search"@,
        "action:file.audio"@ != "action:netease.playlists"@,
        "action:file.audio"@ != "action:netease.playlist.close"@,
        "action:file.audio"@ != "action:netease.playlist.page.previous"@,
        "action:file.audio"@ != "action:netease.playlist.page.next"@,
        "action:file.audio"@ != "action:netease.qr.begin"@,
        "action:file.audio"@ != "action:netease.qr.poll"@,
        "action:file.audio"@ != "action:netease.logout"@,
        "action:file.audio"@ != "action:library.refresh"@,
        "action:file.audio"@ != "action:import.cancel"@,
        "action:file.cover"@ != "action:file.lyrics"@,
        "action:file.cover"@ != "action:devices.refresh"@,
        "action:file.cover"@ != "action:import.local"@,
        "action:file.cover"@ != "action:netease.search"@,
        "action:file.cover"@ != "action:netease.playlists"@,
        "action:file.cover"@ != "action:netease.playlist.close"@,
        "action:file.cover"@ != "action:netease.playlist.page.previous"@,
        "action:file.cover"@ != "action:netease.playlist.page.next"@,
        "action:file.cover"@ != "action:netease.qr.begin"@,
        "action:file.cover"@ != "action:netease.qr.poll"@,
        "action:file.cover"@ != "action:netease.logout"@,
        "action:file.cover"@ != "action:library.refresh"@,
        "action:file.cover"@ != "action:import.cancel"@,
        "action:file.lyrics"@ != "action:devices.refresh"@,
        "action:file.lyrics"@ != "action:import.local"@,
        "action:file.lyrics"@ != "action:netease.search"@,
        "action:file.lyrics"@ != "action:netease.playlists"@,
        "action:file.lyrics"@ != "action:netease.playlist.close"@,
        "action:file.lyrics"@ != "action:netease.playlist.page.previous"@,
        "action:file.lyrics"@ != "action:netease.playlist.page.next"@,
        "action:file.lyrics"@ != "action:netease.qr.begin"@,
        "action:file.lyrics"@ != "action:netease.qr.poll"@,
        "action:file.lyrics"@ != "action:netease.logout"@,
        "action:file.lyrics"@ != "action:library.refresh"@,
        "action:file.lyrics"@ != "action:import.cancel"@,
        "action:devices.refresh"@ != "action:import.local"@,
        "action:devices.refresh"@ != "action:netease.search"@,
        "action:devices.refresh"@ != "action:netease.playlists"@,
        "action:devices.refresh"@ != "action:netease.playlist.close"@,
        "action:devices.refresh"@ != "action:netease.playlist.page.previous"@,
        "action:devices.refresh"@ != "action:netease.playlist.page.next"@,
        "action:devices.refresh"@ != "action:netease.qr.begin"@,
        "action:devices.refresh"@ != "action:netease.qr.poll"@,
        "action:devices.refresh"@ != "action:netease.logout"@,
        "action:devices.refresh"@ != "action:library.refresh"@,
        "action:devices.refresh"@ != "action:import.cancel"@,
        "action:import.local"@ != "action:netease.search"@,
        "action:import.local"@ != "action:netease.playlists"@,
        "action:import.local"@ != "action:netease.playlist.close"@,
        "action:import.local"@ != "action:netease.playlist.page.previous"@,
        "action:import.local"@ != "action:netease.playlist.page.next"@,
        "action:import.local"@ != "action:netease.qr.begin"@,
        "action:import.local"@ != "action:netease.qr.poll"@,
        "action:import.local"@ != "action:netease.logout"@,
        "action:import.local"@ != "action:library.refresh"@,
        "action:import.local"@ != "action:import.cancel"@,
        "action:netease.search"@ != "action:netease.playlists"@,
        "action:netease.search"@ != "action:netease.playlist.close"@,
        "action:netease.search"@ != "action:netease.playlist.page.previous"@,
        "action:netease.search"@ != "action:netease.playlist.page.next"@,
        "action:netease.search"@ != "action:netease.qr.begin"@,
        "action:netease.search"@ != "action:netease.qr.poll"@,
        "action:netease.search"@ != "action:netease.logout"@,
        "action:netease.search"@ != "action:library.refresh"@,
        "action:netease.search"@ != "action:import.cancel"@,
        "action:netease.playlists"@ != "action:netease.playlist.close"@,
        "action:netease.playlists"@ != "action:netease.playlist.page.previous"@,
        "action:netease.playlists"@ != "action:netease.playlist.page.next"@,
        "action:netease.playlists"@ != "action:netease.qr.begin"@,
        "action:netease.playlists"@ != "action:netease.qr.poll"@,
        "action:netease.playlists"@ != "action:netease.logout"@,
        "action:netease.playlists"@ != "action:library.refresh"@,
        "action:netease.playlists"@ != "action:import.cancel"@,
        "action:netease.playlist.close"@ != "action:netease.playlist.page.previous"@,
        "action:netease.playlist.close"@ != "action:netease.playlist.page.next"@,
        "action:netease.playlist.close"@ != "action:netease.qr.begin"@,
        "action:netease.playlist.close"@ != "action:netease.qr.poll"@,
        "action:netease.playlist.close"@ != "action:netease.logout"@,
        "action:netease.playlist.close"@ != "action:library.refresh"@,
        "action:netease.playlist.close"@ != "action:import.cancel"@,
        "action:netease.playlist.page.previous"@ != "action:netease.playlist.page.next"@,
        "action:netease.playlist.page.previous"@ != "action:netease.qr.begin"@,
        "action:netease.playlist.page.previous"@ != "action:netease.qr.poll"@,
        "action:netease.playlist.page.previous"@ != "action:netease.logout"@,
        "action:netease.playlist.page.previous"@ != "action:library.refresh"@,
        "action:netease.playlist.page.previous"@ != "action:import.cancel"@,
        "action:netease.playlist.page.next"@ != "action:netease.qr.begin"@,
        "action:netease.playlist.page.next"@ != "action:netease.qr.poll"@,
        "action:netease.playlist.page.next"@ != "action:netease.logout"@,
        "action:netease.playlist.page.next"@ != "action:library.refresh"@,
        "action:netease.playlist.page.next"@ != "action:import.cancel"@,
        "action:netease.qr.begin"@ != "action:netease.qr.poll"@,
        "action:netease.qr.begin"@ != "action:netease.logout"@,
        "action:netease.qr.begin"@ != "action:library.refresh"@,
        "action:netease.qr.begin"@ != "action:import.cancel"@,
        "action:netease.qr.poll"@ != "action:netease.logout"@,
        "action:netease.qr.poll"@ != "action:library.refresh"@,
        "action:netease.qr.poll"@ != "action:import.cancel"@,
        "action:netease.logout"@ != "action:library.refresh"@,
        "action:netease.logout"@ != "action:import.cancel"@,
        "action:library.refresh"@ != "action:import.cancel"@,
{
    reveal_strlit("action:file.audio");
    reveal_strlit("action:file.cover");
    reveal_strlit("action:file.lyrics");
    reveal_strlit("action:devices.refresh");
    reveal_strlit("action:import.local");
    reveal_strlit("action:netease.search");
    reveal_strlit("action:netease.playlists");
    reveal_strlit("action:netease.playlist.close");
    reveal_strlit("action:netease.playlist.page.previous");
    reveal_strlit("action:netease.playlist.page.next");
    reveal_strlit("action:netease.qr.begin");
    reveal_strlit("action:netease.qr.poll");
    reveal_strlit("action:netease.logout");
    reveal_strlit("action:library.refresh");
    reveal_strlit("action:import.cancel");
    assert("action:file.audio"@[12] != "action:file.cover"@[12]);
    assert("action:file.audio"@.len() != "action:file.lyrics"@.len());
    assert("action:file.audio"@.len() != "action:devices.refresh"@.len());
    assert("action:file.audio"@.len() != "action:import.local"@.len());
    assert("action:file.audio"@.len() != "action:netease.search"@.len());
    assert("action:file.audio"@.len() != "action:netease.playlists"@.len());
    assert("action:file.audio"@.len() != "action:netease.playlist.close"@.len());
    assert("action:file.audio"@.len() != "action:netease.playlist.page.previous"@.len());
    assert("action:file.audio"@.len() != "action:netease.playlist.page.next"@.len());
    assert("action:file.audio"@.len() != "action:netease.qr.begin"@.len());
    assert("action:file.audio"@.len() != "action:netease.qr.poll"@.len());
    assert("action:file.audio"@.len() != "action:netease.logout"@.len());
    assert("action:file.audio"@.len() != "action:library.refresh"@.len());
    assert("action:file.audio"@.len() != "action:import.cancel"@.len());
    assert("action:file.cover"@.len() != "action:file.lyrics"@.len());
    assert("action:file.cover"@.len() != "action:devices.refresh"@.len());
    assert("action:file.cover"@.len() != "action:import.local"@.len());
    assert("action:file.cover"@.len() != "action:netease.search"@.len());
    assert("action:file.cover"@.len() != "action:netease.playlists"@.len());
    assert("action:file.cover"@.len() != "action:netease.playlist.close"@.len());
    assert("action:file.cover"@.len() != "action:netease.playlist.page.previous"@.len());
    assert("action:file.cover"@.len() != "action:netease.playlist.page.next"@.len());
    assert("action:file.cover"@.len() != "action:netease.qr.begin"@.len());
    assert("action:file.cover"@.len() != "action:netease.qr.poll"@.len());
    assert("action:file.cover"@.len() != "action:netease.logout"@.len());
    assert("action:file.cover"@.len() != "action:library.refresh"@.len());
    assert("action:file.cover"@.len() != "action:import.cancel"@.len());
    assert("action:file.lyrics"@.len() != "action:devices.refresh"@.len());
    assert("action:file.lyrics"@.len() != "action:import.local"@.len());
    assert("action:file.lyrics"@.len() != "action:netease.search"@.len());
    assert("action:file.lyrics"@.len() != "action:netease.playlists"@.len());
    assert("action:file.lyrics"@.len() != "action:netease.playlist.close"@.len());
    assert("action:file.lyrics"@.len() != "action:netease.playlist.page.previous"@.len());
    assert("action:file.lyrics"@.len() != "action:netease.playlist.page.next"@.len());
    assert("action:file.lyrics"@.len() != "action:netease.qr.begin"@.len());
    assert("action:file.lyrics"@.len() != "action:netease.qr.poll"@.len());
    assert("action:file.lyrics"@.len() != "action:netease.logout"@.len());
    assert("action:file.lyrics"@.len() != "action:library.refresh"@.len());
    assert("action:file.lyrics"@.len() != "action:import.cancel"@.len());
    assert("action:devices.refresh"@.len() != "action:import.local"@.len());
    assert("action:devices.refresh"@.len() != "action:netease.search"@.len());
    assert("action:devices.refresh"@.len() != "action:netease.playlists"@.len());
    assert("action:devices.refresh"@.len() != "action:netease.playlist.close"@.len());
    assert("action:devices.refresh"@.len() != "action:netease.playlist.page.previous"@.len());
    assert("action:devices.refresh"@.len() != "action:netease.playlist.page.next"@.len());
    assert("action:devices.refresh"@.len() != "action:netease.qr.begin"@.len());
    assert("action:devices.refresh"@[7] != "action:netease.qr.poll"@[7]);
    assert("action:devices.refresh"@.len() != "action:netease.logout"@.len());
    assert("action:devices.refresh"@[7] != "action:library.refresh"@[7]);
    assert("action:devices.refresh"@.len() != "action:import.cancel"@.len());
    assert("action:import.local"@.len() != "action:netease.search"@.len());
    assert("action:import.local"@.len() != "action:netease.playlists"@.len());
    assert("action:import.local"@.len() != "action:netease.playlist.close"@.len());
    assert("action:import.local"@.len() != "action:netease.playlist.page.previous"@.len());
    assert("action:import.local"@.len() != "action:netease.playlist.page.next"@.len());
    assert("action:import.local"@.len() != "action:netease.qr.begin"@.len());
    assert("action:import.local"@.len() != "action:netease.qr.poll"@.len());
    assert("action:import.local"@.len() != "action:netease.logout"@.len());
    assert("action:import.local"@.len() != "action:library.refresh"@.len());
    assert("action:import.local"@.len() != "action:import.cancel"@.len());
    assert("action:netease.search"@.len() != "action:netease.playlists"@.len());
    assert("action:netease.search"@.len() != "action:netease.playlist.close"@.len());
    assert("action:netease.search"@.len() != "action:netease.playlist.page.previous"@.len());
    assert("action:netease.search"@.len() != "action:netease.playlist.page.next"@.len());
    assert("action:netease.search"@.len() != "action:netease.qr.begin"@.len());
    assert("action:netease.search"@.len() != "action:netease.qr.poll"@.len());
    assert("action:netease.search"@[15] != "action:netease.logout"@[15]);
    assert("action:netease.search"@.len() != "action:library.refresh"@.len());
    assert("action:netease.search"@.len() != "action:import.cancel"@.len());
    assert("action:netease.playlists"@.len() != "action:netease.playlist.close"@.len());
    assert("action:netease.playlists"@.len() != "action:netease.playlist.page.previous"@.len());
    assert("action:netease.playlists"@.len() != "action:netease.playlist.page.next"@.len());
    assert("action:netease.playlists"@.len() != "action:netease.qr.begin"@.len());
    assert("action:netease.playlists"@.len() != "action:netease.qr.poll"@.len());
    assert("action:netease.playlists"@.len() != "action:netease.logout"@.len());
    assert("action:netease.playlists"@.len() != "action:library.refresh"@.len());
    assert("action:netease.playlists"@.len() != "action:import.cancel"@.len());
    assert("action:netease.playlist.close"@.len() != "action:netease.playlist.page.previous"@.len());
    assert("action:netease.playlist.close"@.len() != "action:netease.playlist.page.next"@.len());
    assert("action:netease.playlist.close"@.len() != "action:netease.qr.begin"@.len());
    assert("action:netease.playlist.close"@.len() != "action:netease.qr.poll"@.len());
    assert("action:netease.playlist.close"@.len() != "action:netease.logout"@.len());
    assert("action:netease.playlist.close"@.len() != "action:library.refresh"@.len());
    assert("action:netease.playlist.close"@.len() != "action:import.cancel"@.len());
    assert("action:netease.playlist.page.previous"@.len() != "action:netease.playlist.page.next"@.len());
    assert("action:netease.playlist.page.previous"@.len() != "action:netease.qr.begin"@.len());
    assert("action:netease.playlist.page.previous"@.len() != "action:netease.qr.poll"@.len());
    assert("action:netease.playlist.page.previous"@.len() != "action:netease.logout"@.len());
    assert("action:netease.playlist.page.previous"@.len() != "action:library.refresh"@.len());
    assert("action:netease.playlist.page.previous"@.len() != "action:import.cancel"@.len());
    assert("action:netease.playlist.page.next"@.len() != "action:netease.qr.begin"@.len());
    assert("action:netease.playlist.page.next"@.len() != "action:netease.qr.poll"@.len());
    assert("action:netease.playlist.page.next"@.len() != "action:netease.logout"@.len());
    assert("action:netease.playlist.page.next"@.len() != "action:library.refresh"@.len());
    assert("action:netease.playlist.page.next"@.len() != "action:import.cancel"@.len());
    assert("action:netease.qr.begin"@.len() != "action:netease.qr.poll"@.len());
    assert("action:netease.qr.begin"@.len() != "action:netease.logout"@.len());
    assert("action:netease.qr.begin"@.len() != "action:library.refresh"@.len());
    assert("action:netease.qr.begin"@.len() != "action:import.cancel"@.len());
    assert("action:netease.qr.poll"@.len() != "action:netease.logout"@.len());
    assert("action:netease.qr.poll"@[7] != "action:library.refresh"@[7]);
    assert("action:netease.qr.poll"@.len() != "action:import.cancel"@.len());
    assert("action:netease.logout"@.len() != "action:library.refresh"@.len());
    assert("action:netease.logout"@.len() != "action:import.cancel"@.len());
    assert("action:library.refresh"@.len() != "action:import.cancel"@.len());
}

/// Each button does what it is for: the three of the files pick one of their kind,
/// the pages turn, and searching, loading, logging in and out, refreshing and
/// cancelling are asked for by their own.
pub proof fn buttons_ask_for_their_action(
    before: UiState,
    after: UiState,
    event: Seq<char>,
    effect: UiEffect,
)
    requires
        action_handled(before, after, event, effect),
    ensures
        event == "action:file.audio"@ ==> (effect matches UiEffect::Pick(k) && k@ == "audio"@),
        event == "action:file.cover"@ ==> (effect matches UiEffect::Pick(k) && k@ == "cover"@),
        event == "action:file.lyrics"@ ==> (effect matches UiEffect::Pick(k) && k@ == "lyrics"@),
        event == "action:devices.refresh"@ ==> effect is RefreshDevices,
        event == "action:netease.playlists"@ ==> effect is LoadPlaylists,
        event == "action:netease.qr.begin"@ ==> effect is BeginQr,
        event == "action:netease.qr.poll"@ ==> (effect is PollQr <==> before.qr_key@.len() > 0),
        event == "action:netease.logout"@ ==> effect is Logout,
        event == "action:library.refresh"@ ==> effect is RefreshLibrary,
        event == "action:import.cancel"@ ==> effect is Cancel,
        event == "action:import.local"@ ==> (effect is StartLocal <==> before.audio is Some
            && text::trimmed(before.track_name@).len() > 0),
        event == "action:netease.search"@ ==> (effect is Search <==> text::trimmed(
            before.netease_query@,
        ).len() > 0),
        event == "action:netease.playlist.page.next"@ ==> after.netease_playlist_page == next_page(
            before,
        ),
        event == "action:netease.playlist.page.previous"@ ==> after.netease_playlist_page
            == previous_page(before),
        event == "action:netease.playlist.close"@ ==> after.netease_view == NeteaseView::Playlists
            && after.netease_playlist_tracks@.len() == 0,
        after.audio == before.audio && after.track_name == before.track_name && after.selected_addr
            == before.selected_addr && after.netease_cookie == before.netease_cookie,
{
    lemma_action_ids();
    assert(before.netease_playlist_tracks@.len() == before.netease_playlist_tracks.len());
}

/// The button of an item asks for this item: its number comes back as it was put
/// into the button.
pub proof fn item_buttons_name_their_item(
    before: UiState,
    after: UiState,
    n: nat,
    event: Seq<char>,
    effect: UiEffect,
)
    requires
        n <= u64::MAX,
        item_handled(before, after, event, effect),
    ensures
        event == EVENT_LIBRARY_MOVE_UP_PREFIX@ + text::decimal(n) ==> effect == (
        UiEffect::MoveTrack { id: n as u64, up: true }),
        event == EVENT_LIBRARY_MOVE_DOWN_PREFIX@ + text::decimal(n) ==> effect == (
        UiEffect::MoveTrack { id: n as u64, up: false }),
        event == EVENT_LIBRARY_DELETE_PREFIX@ + text::decimal(n) ==> (
        effect matches UiEffect::ConfirmDelete { id, name } && id == n && is_track_name(
            before,
            id,
            name@,
        )),
        event == EVENT_PLAYLIST_PREFIX@ + text::decimal(n) ==> effect == UiEffect::OpenPlaylist(
            n as u64,
        ),
        event == EVENT_SEARCH_RESULT_PREFIX@ + text::decimal(n) && n < before.netease_results@.len()
            && n <= usize::MAX ==> (effect matches UiEffect::StartSong(song) && song.id
            == before.netease_results@[n as int].id),
        event == EVENT_PLAYLIST_TRACK_PREFIX@ + text::decimal(n) && n
            < before.netease_playlist_tracks@.len() && n <= usize::MAX ==> (
        effect matches UiEffect::StartSong(song) && song.id
            == before.netease_playlist_tracks@[n as int].id),
{
    generated_ids_are_understood(n);
}

/// The name by which a song is asked about is that of the song with the number.
pub proof fn songs_are_asked_about_by_name(s: UiState, id: u64, name: Seq<char>, i: int)
    requires
        is_track_name(s, id, name),
        0 <= i < s.device_library@.len(),
        s.device_library@[i].id == id,
        forall|j: int| 0 <= j < i ==> (#[trigger] s.device_library@[j]).id != id,
    ensures
        name == s.device_library@[i].name@,
{
    assert(track_name_at(s, id, i));
    let k = choose|k: int|
        #![trigger s.device_library@[k]]
        track_name_at(s, id, k) && name == s.device_library@[k].name@ && forall|j: int|
            track_name_at(s, id, j) ==> k <= j;
    assert(k <= i);
    if k < i {
        assert(s.device_library@[k].id != id);
    }
}

} // verus!
