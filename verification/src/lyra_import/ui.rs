//! The page of the music import.
use qrcode::render::svg;
use qrcode::QrCode;
use vstd::prelude::*;
use vstd::string::*;
use vstd::utf8::*;

use crate::bridge::codec;
use crate::element::{Element, ElementType, ElementView, Style, UiEvent};
use crate::lyra_import::netease;
use crate::lyra_import::state::{
    CloudPlaylist, CloudSong, DeviceInfo, DeviceLibraryTrack, NeteaseView, SelectedFile,
    TransferMode, UiState,
};
use crate::lyra_import::wire;
use crate::text::{self, str_eq};

verus! {

pub const EVENT_PICK_AUDIO: &'static str = "action:file.audio";

pub const EVENT_PICK_COVER: &'static str = "action:file.cover";

pub const EVENT_PICK_LYRICS: &'static str = "action:file.lyrics";

pub const EVENT_REFRESH: &'static str = "action:devices.refresh";

pub const EVENT_START_LOCAL: &'static str = "action:import.local";

pub const EVENT_CANCEL: &'static str = "action:import.cancel";

pub const EVENT_DEVICE: &'static str = "input:device";

pub const EVENT_NAME: &'static str = "input:name";

pub const EVENT_ARTIST: &'static str = "input:artist";

pub const EVENT_ALBUM: &'static str = "input:album";

pub const EVENT_DURATION: &'static str = "input:duration";

pub const EVENT_QUERY: &'static str = "input:netease.query";

pub const EVENT_AUDIO_QUALITY: &'static str = "input:netease.audio-quality";

pub const EVENT_CHECKSUM_MODE: &'static str = "input:transfer.checksum";

pub const EVENT_SEARCH_CLOUD: &'static str = "action:netease.search";

pub const EVENT_LOAD_PLAYLISTS: &'static str = "action:netease.playlists";

pub const EVENT_CLOSE_PLAYLIST: &'static str = "action:netease.playlist.close";

pub const EVENT_PLAYLIST_PAGE_PREVIOUS: &'static str = "action:netease.playlist.page.previous";

pub const EVENT_PLAYLIST_PAGE_NEXT: &'static str = "action:netease.playlist.page.next";

pub const PLAYLIST_PAGE_SIZE: usize = 50;

/// How many playlists are shown.
pub const PLAYLISTS_SHOWN: usize = 40;

pub const EVENT_SEARCH_RESULT_PREFIX: &'static str = "action:netease.result.";

pub const EVENT_PLAYLIST_PREFIX: &'static str = "action:netease.playlist.";

pub const EVENT_PLAYLIST_TRACK_PREFIX: &'static str = "action:netease.track.";

pub const EVENT_QR_BEGIN: &'static str = "action:netease.qr.begin";

pub const EVENT_QR_POLL: &'static str = "action:netease.qr.poll";

pub const EVENT_LOGOUT: &'static str = "action:netease.logout";

pub const EVENT_LIBRARY_REFRESH: &'static str = "action:library.refresh";

pub const EVENT_LIBRARY_MOVE_UP_PREFIX: &'static str = "action:library.move.up.";

pub const EVENT_LIBRARY_MOVE_DOWN_PREFIX: &'static str = "action:library.move.down.";

pub const EVENT_LIBRARY_DELETE_PREFIX: &'static str = "action:library.delete.";

pub const ZINC_50: &'static str = "#fafafa";

pub const ZINC_100: &'static str = "#f4f4f5";

pub const ZINC_300: &'static str = "#d4d4d8";

pub const ZINC_400: &'static str = "#a1a1aa";

pub const ZINC_700: &'static str = "#3f3f46";

pub const ZINC_800: &'static str = "#27272a";

pub const ZINC_900: &'static str = "#18181b";

pub const SLATE_50: &'static str = "#f8fafc";

pub const SLATE_300: &'static str = "#cbd5e1";

pub const SLATE_900: &'static str = "#0f172a";

pub const BLUE_300: &'static str = "#93c5fd";

pub const BLUE_600: &'static str = "#2563eb";

pub const INDIGO_600: &'static str = "#4f46e5";

pub const GREEN_300: &'static str = "#86efac";

pub const GREEN_600: &'static str = "#16a34a";

pub const TEAL_700: &'static str = "#0f766e";

pub const AMBER_400: &'static str = "#fbbf24";

pub const AMBER_500: &'static str = "#f59e0b";

pub const RED_600: &'static str = "#dc2626";

pub const RED_700: &'static str = "#b91c1c";

pub const RED_900: &'static str = "#7f1d1d";

pub const WHITE: &'static str = "#ffffff";

// ---------------------------------------------------------------- controls

/// A line of text.
pub open spec fn label_view(content: Seq<char>, size: u32, color: &'static str) -> ElementView {
    ElementView::new(ElementType::P, content).style(Style::Size(size)).style(Style::TextColor(color))
}

/// A line of text.
fn label(content: &str, size: u32, color: &'static str) -> (r: Element)
    ensures
        r@ == label_view(content@, size, color),
{
    Element::new(ElementType::P, content).style(Style::Size(size)).style(Style::TextColor(color))
}

pub open spec fn button_view(caption: Seq<char>, event_id: Seq<char>, background: &'static str) -> ElementView {
    ElementView::new(ElementType::Button, caption)
        .style(Style::WidthFull)
        .style(Style::Padding(12))
        .style(Style::Radius(8))
        .style(Style::Bg(background))
        .style(Style::TextColor(WHITE))
        .on(UiEvent::Click, event_id)
}

fn button(caption: &str, event_id: &str, background: &'static str) -> (r: Element)
    ensures
        r@ == button_view(caption@, event_id@, background),
{
    Element::new(ElementType::Button, caption)
        .style(Style::WidthFull)
        .style(Style::Padding(12))
        .style(Style::Radius(8))
        .style(Style::Bg(background))
        .style(Style::TextColor(WHITE))
        .on(UiEvent::Click, event_id)
}

pub open spec fn library_button_view(caption: Seq<char>, event_id: Seq<char>, background: &'static str, disabled: bool) -> ElementView {
    let plain = button_view(caption, event_id, background);
    if disabled {
        plain.style(Style::Disabled)
    } else {
        plain
    }
}

fn library_button(caption: &str, event_id: &str, background: &'static str, disabled: bool) -> (r: Element)
    ensures
        r@ == library_button_view(caption@, event_id@, background, disabled),
{
    let plain = button(caption, event_id, background);
    if disabled {
        plain.style(Style::Disabled)
    } else {
        plain
    }
}

pub open spec fn input_view(placeholder: Seq<char>, value: Seq<char>, event_id: Seq<char>) -> ElementView {
    ElementView::bare(ElementType::Input)
        .style(Style::WidthFull)
        .prop("placeholder"@, placeholder)
        .prop("default-value"@, value)
        .prop("key"@, event_id)
        .on(UiEvent::Input, event_id)
}

fn input(placeholder: &str, value: &str, event_id: &str) -> (r: Element)
    ensures
        r@ == input_view(placeholder@, value@, event_id@),
{
    Element::bare(ElementType::Input)
        .style(Style::WidthFull)
        .prop("placeholder", placeholder)
        .prop("default-value", value)
        .prop("key", event_id)
        .on(UiEvent::Input, event_id)
}

pub open spec fn choice_view(caption: Seq<char>, value: Seq<char>) -> ElementView {
    ElementView::new(ElementType::Choice, caption).prop("value"@, value)
}

fn choice(caption: &str, value: &str) -> (r: Element)
    ensures
        r@ == choice_view(caption@, value@),
{
    Element::new(ElementType::Choice, caption).prop("value", value)
}

pub open spec fn select_view(value: Seq<char>, event_id: Seq<char>) -> ElementView {
    ElementView::bare(ElementType::Select)
        .style(Style::WidthFull)
        .prop("default-value"@, value)
        .prop("key"@, event_id)
        .on(UiEvent::Change, event_id)
}

fn select(value: &str, event_id: &str) -> (r: Element)
    ensures
        r@ == select_view(value@, event_id@),
{
    Element::bare(ElementType::Select)
        .style(Style::WidthFull)
        .prop("default-value", value)
        .prop("key", event_id)
        .on(UiEvent::Change, event_id)
}

/// A card of the page.
pub open spec fn panel_view(gap: u32) -> ElementView {
    ElementView::bare(ElementType::Card)
        .style(Style::WidthFull)
        .style(Style::Padding(18))
        .style(Style::Radius(12))
        .style(Style::Flex)
        .style(Style::Column)
        .style(Style::Gap(gap))
}

/// A card of the page.
fn panel(gap: u32) -> (r: Element)
    ensures
        r@ == panel_view(gap),
{
    Element::bare(ElementType::Card)
        .style(Style::WidthFull)
        .style(Style::Padding(18))
        .style(Style::Radius(12))
        .style(Style::Flex)
        .style(Style::Column)
        .style(Style::Gap(gap))
}

/// A card within a card.
pub open spec fn row_card_view() -> ElementView {
    ElementView::bare(ElementType::Card)
        .style(Style::WidthFull)
        .style(Style::Padding(14))
        .style(Style::Radius(10))
        .style(Style::Bg(ZINC_900))
        .style(Style::Flex)
        .style(Style::Column)
        .style(Style::Gap(6))
}

/// A card within a card.
fn row_card() -> (r: Element)
    ensures
        r@ == row_card_view(),
{
    Element::bare(ElementType::Card)
        .style(Style::WidthFull)
        .style(Style::Padding(14))
        .style(Style::Radius(10))
        .style(Style::Bg(ZINC_900))
        .style(Style::Flex)
        .style(Style::Column)
        .style(Style::Gap(6))
}

pub open spec fn checksum_select_view(mode: TransferMode) -> ElementView {
    let value = if mode == TransferMode::Crc32 {
        "crc32"@
    } else if mode == TransferMode::Fast {
        "none"@
    } else {
        "none-48k"@
    };
    select_view(value, EVENT_CHECKSUM_MODE@)
        .child(choice_view("CRC32 校验（推荐，可靠）"@, "crc32"@))
        .child(choice_view("无校验高速（可能损坏文件）"@, "none"@))
        .child(choice_view("无校验超高速 · 48 KiB 单包上限（高风险）"@, "none-48k"@))
}

fn checksum_select(mode: TransferMode) -> (r: Element)
    ensures
        r@ == checksum_select_view(mode),
{
    let value = if mode == TransferMode::Crc32 {
        "crc32"
    } else if mode == TransferMode::Fast {
        "none"
    } else {
        "none-48k"
    };
    select(value, EVENT_CHECKSUM_MODE)
        .child(choice("CRC32 校验（推荐，可靠）", "crc32"))
        .child(choice("无校验高速（可能损坏文件）", "none"))
        .child(choice("无校验超高速 · 48 KiB 单包上限（高风险）", "none-48k"))
}

pub open spec fn audio_quality_select_view(bitrate: u32) -> ElementView {
    select_view(text::decimal(bitrate as nat), EVENT_AUDIO_QUALITY@)
        .child(choice_view("低音质 · 128 kbps（推荐）"@, "128000"@))
        .child(choice_view("中音质 · 192 kbps"@, "192000"@))
        .child(choice_view("高音质 · 320 kbps"@, "320000"@))
}

fn audio_quality_select(bitrate: u32) -> (r: Element)
    ensures
        r@ == audio_quality_select_view(bitrate),
{
    select(text::u64_text(bitrate as u64).as_str(), EVENT_AUDIO_QUALITY)
        .child(choice("低音质 · 128 kbps（推荐）", "128000"))
        .child(choice("中音质 · 192 kbps", "192000"))
        .child(choice("高音质 · 320 kbps", "320000"))
}

// ---------------------------------------------------------------- texts

/// A duration in minutes and seconds.
pub open spec fn duration_view(duration_ms: u32) -> Seq<char> {
    if duration_ms == 0 {
        "--:--"@
    } else {
        text::padded_decimal((duration_ms / 60000) as nat, 2) + ":"@ + text::padded_decimal(
            (duration_ms / 1000 % 60) as nat,
            2,
        )
    }
}

pub fn duration_text(duration_ms: u32) -> (r: String)
    ensures
        r@ == duration_view(duration_ms),
{
    if duration_ms == 0 {
        return "--:--".to_owned();
    }
    let minutes = text::padded_text((duration_ms / 60000) as u64, 2);
    let seconds = text::padded_text((duration_ms / 1000 % 60) as u64, 2);
    text::cat3(minutes.as_str(), ":", seconds.as_str())
}

pub open spec fn asset_label_view(kind: Seq<char>) -> Seq<char> {
    if kind == "audio"@ {
        "音频"@
    } else if kind == "cover"@ {
        "封面"@
    } else if kind == "lyrics"@ {
        "歌词"@
    } else {
        "文件"@
    }
}

pub fn asset_label(kind: &str) -> (r: &'static str)
    ensures
        r@ == asset_label_view(kind@),
{
    if str_eq(kind, "audio") {
        "音频"
    } else if str_eq(kind, "cover") {
        "封面"
    } else if str_eq(kind, "lyrics") {
        "歌词"
    } else {
        "文件"
    }
}

/// What is said of a chosen file; `mib` is its size in MiB with two decimals.
pub open spec fn summary_view(caption: Seq<char>, file: Option<SelectedFile>, mib: Seq<char>) -> Seq<
    char,
> {
    match file {
        Some(f) => caption + "："@ + f.name@ + " · "@ + mib + " MiB"@,
        None => caption + "：未选择"@,
    }
}

pub fn file_summary(caption: &str, file: &Option<SelectedFile>, mib: &str) -> (r: String)
    ensures
        r@ == summary_view(caption@, *file, mib@),
{
    match file {
        Some(f) => {
            let mut s = text::cat3(caption, "：", f.name.as_str());
            s.append(" · ");
            s.append(mib);
            s.append(" MiB");
            s
        },
        None => text::cat(caption, "：未选择"),
    }
}

/// Artists, album and duration of a song.
pub open spec fn metadata_view(artists: Seq<String>, album: Seq<char>, duration_ms: u32) -> Seq<char> {
    (if artists.len() == 0 {
        "未知歌手"@
    } else {
        text::joined(text::texts(artists), " / "@)
    }) + " · "@ + (if album.len() == 0 {
        "未知专辑"@
    } else {
        album
    }) + " · "@ + duration_view(duration_ms)
}

fn metadata(artists: &Vec<String>, album: &str, duration_ms: u32) -> (r: String)
    ensures
        r@ == metadata_view(artists@, album@, duration_ms),
{
    let names = if artists.len() == 0 {
        "未知歌手".to_owned()
    } else {
        text::join(artists, " / ")
    };
    let title = if album.is_empty() {
        "未知专辑"
    } else {
        album
    };
    let duration = duration_text(duration_ms);
    let mut s = text::cat3(names.as_str(), " · ", title);
    s.append(" · ");
    s.append(duration.as_str());
    s
}

// ---------------------------------------------------------------- login code

/// The image that the `qrcode` crate draws for some bytes, with sides of at
/// least so many pixels; nothing where the bytes are too many.
pub uninterp spec fn qr_drawn(data: Seq<u8>, side: u32) -> Option<Seq<char>>;

/// Wrapper of `QrCode::new` and of its SVG renderer, with a quiet zone. The
/// result depends on the bytes and the side alone.
#[verifier::external_body]
fn qr_svg(data: &[u8], side: u32) -> (r: Option<String>)
    requires
        side <= 65535,
    ensures
        text::opt_text(r) == qr_drawn(data@, side),
{
    match QrCode::new(data) {
        Ok(code) => Some(code.render::<svg::Color>().min_dimensions(side, side).quiet_zone(true).build()),
        Err(_) => None,
    }
}

/// An image as an address that holds it; empty where there is none.
pub open spec fn embedded(image: Option<Seq<char>>) -> Seq<char> {
    match image {
        Some(svg) => "data:image/svg+xml;base64,"@ + codec::base64_text(encode_utf8(svg)),
        None => Seq::empty(),
    }
}

/// Embeds an image in an address.
pub fn embed(image: Option<String>) -> (r: String)
    ensures
        r@ == embedded(text::opt_text(image)),
{
    match image {
        Some(drawn) => {
            let data = wire::base64(drawn.as_str().as_bytes());
            text::cat("data:image/svg+xml;base64,", data.as_str())
        },
        None => {
            let none = String::new();
            assert(none@ =~= Seq::empty());
            none
        },
    }
}

/// The code for an address, as an image in an address.
pub fn qr_image_url(value: &str) -> (r: String)
    ensures
        r@ == embedded(qr_drawn(encode_utf8(value@), 260)),
{
    embed(qr_svg(value.as_bytes(), 260))
}

// ---------------------------------------------------------------- cards

/// The texts of sizes, in MiB with two decimals.
pub struct SizeTexts {
    pub sent: String,
    pub total: String,
    pub audio: String,
    pub cover: String,
    pub lyrics: String,
}

/// The devices to choose from.
pub open spec fn device_choices(devices: Seq<DeviceInfo>, selected: Seq<char>) -> ElementView
    decreases devices.len(),
{
    if devices.len() == 0 {
        select_view(selected, EVENT_DEVICE@)
    } else {
        device_choices(devices.drop_last(), selected).child(
            choice_view(devices.last().name@, devices.last().addr@),
        )
    }
}

fn device_select(devices: &Vec<DeviceInfo>, selected: &str) -> (r: Element)
    ensures
        r@ == device_choices(devices@, selected@),
{
    let mut list = select(selected, EVENT_DEVICE);
    let mut i: usize = 0;
    while i < devices.len()
        invariant
            i <= devices@.len(),
            list@ == device_choices(devices@.take(i as int), selected@),
        decreases devices.len() - i,
    {
        assert(devices@.take(i + 1).drop_last() =~= devices@.take(i as int));
        list = list.child(choice(devices[i].name.as_str(), devices[i].addr.as_str()));
        i = i + 1;
    }
    assert(devices@.take(i as int) =~= devices@);
    list
}

/// The card on which the device is chosen.
pub open spec fn device_card_view(s: UiState) -> ElementView {
    panel_view(10).child(label_view("目标设备"@, 18, ZINC_100)).child(
        label_view("音乐将传输到所选设备上的 Lyra Import。"@, 13, ZINC_400),
    ).child(device_choices(s.devices@, s.selected_addr@)).child(
        checksum_select_view(s.transfer_mode),
    ).child(button_view("刷新设备"@, EVENT_REFRESH@, ZINC_800))
}

fn device_card(s: &UiState) -> (r: Element)
    ensures
        r@ == device_card_view(*s),
{
    panel(10).child(label("目标设备", 18, ZINC_100)).child(
        label("音乐将传输到所选设备上的 Lyra Import。", 13, ZINC_400),
    ).child(device_select(&s.devices, s.selected_addr.as_str())).child(
        checksum_select(s.transfer_mode),
    ).child(button("刷新设备", EVENT_REFRESH, ZINC_800))
}

/// How much was sent, of a hundred.
pub open spec fn percent(sent: u64, total: u64) -> int {
    let scaled = if sent * 100 > u64::MAX {
        u64::MAX as int
    } else {
        sent * 100
    };
    if total == 0 {
        0
    } else if scaled / total as int > 100 {
        100
    } else {
        scaled / total as int
    }
}

pub fn progress(sent: u64, total: u64) -> (r: u64)
    ensures
        r == percent(sent, total),
        r <= 100,
{
    if total == 0 {
        return 0;
    }
    let scaled: u64 = if sent > u64::MAX / 100 {
        u64::MAX
    } else {
        sent * 100
    };
    let p: u64 = scaled / total;
    if p > 100 {
        100
    } else {
        p
    }
}

/// A speed in KiB per second, rounded, and never zero.
pub open spec fn speed_kib(speed: u64) -> int {
    let k = (speed + 512) / 1024;
    if k < 1 {
        1
    } else {
        k
    }
}

/// The line below the progress bar.
pub open spec fn detail_view(s: UiState, sizes: SizeTexts) -> Seq<char> {
    let head = text::decimal(percent(s.sent, s.total) as nat) + "% · "@ + sizes.sent@ + " / "@
        + sizes.total@;
    if s.speed_bytes_per_second > 0 {
        head + " MiB · "@ + text::decimal(speed_kib(s.speed_bytes_per_second) as nat) + "k/s"@
    } else {
        head + " MiB"@
    }
}

fn detail(s: &UiState, sizes: &SizeTexts, done: u64) -> (r: String)
    requires
        done == percent(s.sent, s.total),
    ensures
        r@ == detail_view(*s, *sizes),
{
    let p = text::u64_text(done);
    let mut t = text::cat3(p.as_str(), "% · ", sizes.sent.as_str());
    t.append(" / ");
    t.append(sizes.total.as_str());
    if s.speed_bytes_per_second > 0 {
        let k: u128 = (s.speed_bytes_per_second as u128 + 512) / 1024;
        let k: u128 = if k < 1 {
            1
        } else {
            k
        };
        let n = text::u128_text(k);
        t.append(" MiB · ");
        t.append(n.as_str());
        t.append("k/s");
    } else {
        t.append(" MiB");
    }
    t
}

pub open spec fn transfer_head_view(title: Seq<char>, status: Seq<char>) -> ElementView {
    ElementView::bare(ElementType::Card)
        .style(Style::WidthFull)
        .style(Style::Padding(18))
        .style(Style::Radius(12))
        .style(Style::Bg(SLATE_900))
        .style(Style::Flex)
        .style(Style::Column)
        .style(Style::Gap(10))
        .child(label_view(title, 18, SLATE_50))
        .child(label_view(status, 14, BLUE_300))
}

fn transfer_head(title: &str, status: &str) -> (r: Element)
    ensures
        r@ == transfer_head_view(title@, status@),
{
    Element::bare(ElementType::Card)
        .style(Style::WidthFull)
        .style(Style::Padding(18))
        .style(Style::Radius(12))
        .style(Style::Bg(SLATE_900))
        .style(Style::Flex)
        .style(Style::Column)
        .style(Style::Gap(10))
        .child(label(title, 18, SLATE_50))
        .child(label(status, 14, BLUE_300))
}

pub open spec fn progress_bar_view(done: u64) -> ElementView {
    ElementView::bare(ElementType::Progress)
        .style(Style::WidthFull)
        .prop("value"@, text::decimal(done as nat))
        .prop("max"@, "100"@)
}

fn progress_bar(done: u64) -> (r: Element)
    ensures
        r@ == progress_bar_view(done),
{
    Element::bare(ElementType::Progress)
        .style(Style::WidthFull)
        .prop("value", text::u64_text(done as u64).as_str())
        .prop("max", "100")
}

/// The card that tells how the transfer goes.
pub open spec fn transfer_card_view(s: UiState, sizes: SizeTexts) -> ElementView {
    let head = transfer_head_view(
        if s.active {
            "正在传输"@
        } else {
            "任务状态"@
        },
        if s.status@.len() == 0 {
            "准备就绪"@
        } else {
            s.status@
        },
    );
    let body = if s.total > 0 {
        head.child(progress_bar_view(percent(s.sent, s.total) as u64)).child(
            label_view(detail_view(s, sizes), 13, SLATE_300),
        )
    } else {
        head
    };
    if s.active {
        body.child(button_view("取消传输"@, EVENT_CANCEL@, RED_900))
    } else {
        body
    }
}

pub fn transfer_card(s: &UiState, sizes: &SizeTexts) -> (r: Element)
    ensures
        r@ == transfer_card_view(*s, *sizes),
{
    let title = if s.active {
        "正在传输"
    } else {
        "任务状态"
    };
    let mut card = if s.status.as_str().is_empty() {
        transfer_head(title, "准备就绪")
    } else {
        transfer_head(title, s.status.as_str())
    };
    if s.total > 0 {
        let done = progress(s.sent, s.total);
        let line = detail(s, sizes, done);
        card = card.child(progress_bar(done)).child(label(line.as_str(), 13, SLATE_300));
    }
    if s.active {
        card = card.child(button("取消传输", EVENT_CANCEL, RED_900));
    }
    card
}

// ---------------------------------------------------------------- library

/// One song of the watch, with buttons to move it where it can go.
pub open spec fn track_card_view(track: DeviceLibraryTrack, index: int, count: int, busy: bool) -> ElementView {
    let card = row_card_view().child(
        label_view(text::decimal((index + 1) as nat) + ". "@ + track.name@, 17, ZINC_50),
    ).child(
        label_view(metadata_view(track.artists@, track.album@, track.duration_ms), 13, ZINC_400),
    );
    let id = text::decimal(track.id as nat);
    let card = if index > 0 {
        card.child(
            library_button_view("上移"@, EVENT_LIBRARY_MOVE_UP_PREFIX@ + id, ZINC_700, busy),
        )
    } else {
        card
    };
    let card = if index + 1 < count {
        card.child(
            library_button_view("下移"@, EVENT_LIBRARY_MOVE_DOWN_PREFIX@ + id, INDIGO_600, busy),
        )
    } else {
        card
    };
    card.child(library_button_view("删除"@, EVENT_LIBRARY_DELETE_PREFIX@ + id, RED_700, busy))
}

fn track_card(track: &DeviceLibraryTrack, index: usize, count: usize, busy: bool) -> (r: Element)
    requires
        index < count,
    ensures
        r@ == track_card_view(*track, index as int, count as int, busy),
{
    let n = text::u64_text(index as u64 + 1);
    let title = text::cat3(n.as_str(), ". ", track.name.as_str());
    let line = metadata(&track.artists, track.album.as_str(), track.duration_ms);
    let mut card = row_card().child(label(title.as_str(), 17, ZINC_50)).child(
        label(line.as_str(), 13, ZINC_400),
    );
    let id = text::u64_text(track.id);
    if index > 0 {
        let event = text::cat(EVENT_LIBRARY_MOVE_UP_PREFIX, id.as_str());
        card = card.child(library_button("上移", event.as_str(), ZINC_700, busy));
    }
    if index + 1 < count {
        let event = text::cat(EVENT_LIBRARY_MOVE_DOWN_PREFIX, id.as_str());
        card = card.child(library_button("下移", event.as_str(), INDIGO_600, busy));
    }
    let event = text::cat(EVENT_LIBRARY_DELETE_PREFIX, id.as_str());
    card.child(library_button("删除", event.as_str(), RED_700, busy))
}

/// The first songs of the watch, below what stands above them.
pub open spec fn track_cards(
    head: ElementView,
    tracks: Seq<DeviceLibraryTrack>,
    shown: nat,
    busy: bool,
) -> ElementView
    decreases shown,
{
    if shown == 0 {
        head
    } else {
        track_cards(head, tracks, (shown - 1) as nat, busy).child(
            track_card_view(tracks[shown - 1], shown - 1, tracks.len() as int, busy),
        )
    }
}

pub open spec fn library_head_view(busy: bool) -> ElementView {
    panel_view(10)
        .child(label_view("手表音乐"@, 22, ZINC_100))
        .child(label_view("列表顺序也是 Lyra 上一首、下一首的播放顺序。"@, 13, ZINC_400))
        .child(library_button_view("刷新手表音乐"@, EVENT_LIBRARY_REFRESH@, TEAL_700, busy))
}

fn library_head(busy: bool) -> (r: Element)
    ensures
        r@ == library_head_view(busy),
{
    panel(10)
        .child(label("手表音乐", 22, ZINC_100))
        .child(label("列表顺序也是 Lyra 上一首、下一首的播放顺序。", 13, ZINC_400))
        .child(library_button("刷新手表音乐", EVENT_LIBRARY_REFRESH, TEAL_700, busy))
}

/// The card with the songs of the watch.
pub open spec fn device_library_card_view(s: UiState) -> ElementView {
    let head = library_head_view(s.library_busy);
    if s.device_library@.len() == 0 {
        head.child(
            label_view(
                if s.library_total == 0 && s.library_revision@.len() > 0 {
                    "手表音乐库为空。"@
                } else {
                    "刷新后可查看并调整当前音乐顺序。"@
                },
                13,
                ZINC_400,
            ),
        )
    } else {
        track_cards(head, s.device_library@, s.device_library@.len(), s.library_busy)
    }
}

pub fn device_library_card(s: &UiState) -> (r: Element)
    ensures
        r@ == device_library_card_view(*s),
{
    let mut card = library_head(s.library_busy);
    if s.device_library.len() == 0 {
        let message = if s.library_total == 0 && !s.library_revision.as_str().is_empty() {
            "手表音乐库为空。"
        } else {
            "刷新后可查看并调整当前音乐顺序。"
        };
        return card.child(label(message, 13, ZINC_400));
    }
    let ghost head = card@;
    let count: usize = s.device_library.len();
    let mut i: usize = 0;
    while i < count
        invariant
            i <= count,
            count == s.device_library@.len(),
            card@ == track_cards(head, s.device_library@, i as nat, s.library_busy),
        decreases count - i,
    {
        card = card.child(track_card(&s.device_library[i], i, count, s.library_busy));
        i = i + 1;
    }
    card
}

// ---------------------------------------------------------------- songs

pub open spec fn song_row_view(name: Seq<char>, line: Seq<char>, event_id: Seq<char>) -> ElementView {
    row_card_view()
        .child(label_view(name, 17, ZINC_50))
        .child(label_view(line, 13, ZINC_400))
        .child(button_view("导入这首歌"@, event_id, GREEN_600))
}

fn song_row(name: &str, line: &str, event_id: &str) -> (r: Element)
    ensures
        r@ == song_row_view(name@, line@, event_id@),
{
    row_card()
        .child(label(name, 17, ZINC_50))
        .child(label(line, 13, ZINC_400))
        .child(button("导入这首歌", event_id, GREEN_600))
}

/// The songs from `start` up to `end`, each with the event of its index.
pub open spec fn song_rows(
    head: ElementView,
    songs: Seq<CloudSong>,
    prefix: Seq<char>,
    start: int,
    end: int,
) -> ElementView
    decreases end - start,
{
    if end <= start {
        head
    } else {
        let song = songs[end - 1];
        song_rows(head, songs, prefix, start, end - 1).child(
            song_row_view(
                song.name@,
                metadata_view(song.artists@, song.album@, song.duration_ms),
                prefix + text::decimal((end - 1) as nat),
            ),
        )
    }
}

pub open spec fn list_head_view(title: Seq<char>, description: Seq<char>) -> ElementView {
    panel_view(10).child(label_view(title, 22, ZINC_100)).child(label_view(description, 13, ZINC_400))
}

fn list_head(title: &str, description: &str) -> (r: Element)
    ensures
        r@ == list_head_view(title@, description@),
{
    panel(10).child(label(title, 22, ZINC_100)).child(label(description, 13, ZINC_400))
}

/// The end of a page of a list.
pub open spec fn page_end(start: int, limit: int, count: int) -> int {
    if start + limit < count {
        start + limit
    } else {
        count
    }
}

/// A page of a list of songs.
pub open spec fn song_list_view(
    title: Seq<char>,
    description: Seq<char>,
    songs: Seq<CloudSong>,
    prefix: Seq<char>,
    start: int,
    limit: int,
) -> ElementView {
    song_rows(
        list_head_view(title, description),
        songs,
        prefix,
        start,
        page_end(start, limit, songs.len() as int),
    )
}

pub fn song_list(
    title: &str,
    description: &str,
    songs: &Vec<CloudSong>,
    event_prefix: &str,
    start: usize,
    limit: usize,
) -> (r: Element)
    ensures
        r@ == song_list_view(
            title@,
            description@,
            songs@,
            event_prefix@,
            start as int,
            limit as int,
        ),
{
    let mut section = list_head(title, description);
    let ghost head = section@;
    let count: usize = songs.len();
    if start >= count {
        return section;
    }
    let end: usize = if limit < count - start {
        start + limit
    } else {
        count
    };
    let mut i: usize = start;
    while i < end
        invariant
            start <= i <= end,
            end <= songs@.len(),
            section@ == song_rows(head, songs@, event_prefix@, start as int, i as int),
        decreases end - i,
    {
        let song = &songs[i];
        let line = metadata(&song.artists, song.album.as_str(), song.duration_ms);
        let n = text::u64_text(i as u64);
        let event = text::cat(event_prefix, n.as_str());
        section = section.child(song_row(song.name.as_str(), line.as_str(), event.as_str()));
        i = i + 1;
    }
    section
}

pub open spec fn playlist_row_view(name: Seq<char>, line: Seq<char>, event_id: Seq<char>) -> ElementView {
    row_card_view()
        .child(label_view(name, 17, ZINC_50))
        .child(label_view(line, 13, ZINC_400))
        .child(button_view("查看歌单"@, event_id, INDIGO_600))
}

fn playlist_row(name: &str, line: &str, event_id: &str) -> (r: Element)
    ensures
        r@ == playlist_row_view(name@, line@, event_id@),
{
    row_card()
        .child(label(name, 17, ZINC_50))
        .child(label(line, 13, ZINC_400))
        .child(button("查看歌单", event_id, INDIGO_600))
}

pub open spec fn playlist_line(p: CloudPlaylist) -> Seq<char> {
    text::decimal(p.track_count as nat) + " 首歌曲 · "@ + if p.creator@.len() == 0 {
        "网易云音乐"@
    } else {
        p.creator@
    }
}

pub open spec fn playlist_rows(head: ElementView, playlists: Seq<CloudPlaylist>) -> ElementView
    decreases playlists.len(),
{
    if playlists.len() == 0 {
        head
    } else {
        let p = playlists.last();
        playlist_rows(head, playlists.drop_last()).child(
            playlist_row_view(
                p.name@,
                playlist_line(p),
                EVENT_PLAYLIST_PREFIX@ + text::decimal(p.id as nat),
            ),
        )
    }
}

/// The first playlists, and a note where there are more.
pub open spec fn playlist_list_view(playlists: Seq<CloudPlaylist>) -> ElementView {
    let head = list_head_view("我的歌单"@, "打开歌单后可直接选择其中的歌曲导入。"@);
    if playlists.len() > PLAYLISTS_SHOWN {
        playlist_rows(head, playlists.take(PLAYLISTS_SHOWN as int)).child(
            label_view("当前显示前 40 个歌单。"@, 13, AMBER_500),
        )
    } else {
        playlist_rows(head, playlists)
    }
}

pub fn playlist_list(playlists: &Vec<CloudPlaylist>) -> (r: Element)
    ensures
        r@ == playlist_list_view(playlists@),
{
    let mut section = list_head("我的歌单", "打开歌单后可直接选择其中的歌曲导入。");
    let ghost head = section@;
    let end: usize = if playlists.len() > PLAYLISTS_SHOWN {
        PLAYLISTS_SHOWN
    } else {
        playlists.len()
    };
    let mut i: usize = 0;
    while i < end
        invariant
            i <= end <= playlists@.len(),
            section@ == playlist_rows(head, playlists@.take(i as int)),
        decreases end - i,
    {
        assert(playlists@.take(i + 1).drop_last() =~= playlists@.take(i as int));
        let p = &playlists[i];
        let count = text::u64_text(p.track_count as u64);
        let creator = if p.creator.as_str().is_empty() {
            "网易云音乐"
        } else {
            p.creator.as_str()
        };
        let line = text::cat3(count.as_str(), " 首歌曲 · ", creator);
        let id = text::u64_text(p.id);
        let event = text::cat(EVENT_PLAYLIST_PREFIX, id.as_str());
        section = section.child(playlist_row(p.name.as_str(), line.as_str(), event.as_str()));
        i = i + 1;
    }
    if playlists.len() > PLAYLISTS_SHOWN {
        section = section.child(label("当前显示前 40 个歌单。", 13, AMBER_500));
    } else {
        assert(playlists@.take(i as int) =~= playlists@);
    }
    section
}

// ---------------------------------------------------------------- page

pub open spec fn page_head_view() -> ElementView {
    ElementView::bare(ElementType::Div)
        .style(Style::Flex)
        .style(Style::Column)
        .style(Style::WidthFull)
        .style(Style::Padding(28))
        .style(Style::Gap(18))
        .child(label_view("Lyra Import"@, 28, ZINC_100))
        .child(label_view("将本地 MP3 或网易云音乐导入 com.canopus.lyraimport 快应用。"@, 14, ZINC_400))
}

fn page_head() -> (r: Element)
    ensures
        r@ == page_head_view(),
{
    Element::bare(ElementType::Div)
        .style(Style::Flex)
        .style(Style::Column)
        .style(Style::WidthFull)
        .style(Style::Padding(28))
        .style(Style::Gap(18))
        .child(label("Lyra Import", 28, ZINC_100))
        .child(label("将本地 MP3 或网易云音乐导入 com.canopus.lyraimport 快应用。", 14, ZINC_400))
}

pub open spec fn local_form_view(audio: Seq<char>, cover: Seq<char>, lyrics: Seq<char>, name: Seq<char>, artist: Seq<char>, album: Seq<char>, duration: Seq<char>) -> ElementView {
    panel_view(12)
        .child(label_view("本地音乐"@, 22, ZINC_100))
        .child(label_view("选择本地文件并补充曲目信息。"@, 13, ZINC_400))
        .child(label_view(audio, 14, ZINC_300))
        .child(button_view("选择 MP3"@, EVENT_PICK_AUDIO@, BLUE_600))
        .child(label_view(cover, 14, ZINC_300))
        .child(button_view("选择封面（可选）"@, EVENT_PICK_COVER@, INDIGO_600))
        .child(label_view(lyrics, 14, ZINC_300))
        .child(button_view("选择歌词（可选）"@, EVENT_PICK_LYRICS@, INDIGO_600))
        .child(input_view("曲名"@, name, EVENT_NAME@))
        .child(input_view("歌手（可空）"@, artist, EVENT_ARTIST@))
        .child(input_view("专辑（可空）"@, album, EVENT_ALBUM@))
        .child(input_view("时长毫秒（未知填 0）"@, duration, EVENT_DURATION@))
        .child(button_view("导入本地音乐"@, EVENT_START_LOCAL@, GREEN_600))
}

fn local_form(audio: &str, cover: &str, lyrics: &str, name: &str, artist: &str, album: &str, duration: &str) -> (r: Element)
    ensures
        r@ == local_form_view(audio@, cover@, lyrics@, name@, artist@, album@, duration@),
{
    panel(12)
        .child(label("本地音乐", 22, ZINC_100))
        .child(label("选择本地文件并补充曲目信息。", 13, ZINC_400))
        .child(label(audio, 14, ZINC_300))
        .child(button("选择 MP3", EVENT_PICK_AUDIO, BLUE_600))
        .child(label(cover, 14, ZINC_300))
        .child(button("选择封面（可选）", EVENT_PICK_COVER, INDIGO_600))
        .child(label(lyrics, 14, ZINC_300))
        .child(button("选择歌词（可选）", EVENT_PICK_LYRICS, INDIGO_600))
        .child(input("曲名", name, EVENT_NAME))
        .child(input("歌手（可空）", artist, EVENT_ARTIST))
        .child(input("专辑（可空）", album, EVENT_ALBUM))
        .child(input("时长毫秒（未知填 0）", duration, EVENT_DURATION))
        .child(button("导入本地音乐", EVENT_START_LOCAL, GREEN_600))
}

/// The card for a local file.
pub open spec fn local_card_view(s: UiState, sizes: SizeTexts) -> ElementView {
    local_form_view(
        summary_view("音频"@, s.audio, sizes.audio@),
        summary_view("封面"@, s.cover, sizes.cover@),
        summary_view("歌词"@, s.lyrics, sizes.lyrics@),
        s.track_name@,
        s.artist@,
        s.album@,
        text::decimal(s.duration_ms as nat),
    )
}

fn local_card(s: &UiState, sizes: &SizeTexts) -> (r: Element)
    ensures
        r@ == local_card_view(*s, *sizes),
{
    let audio = file_summary("音频", &s.audio, sizes.audio.as_str());
    let cover = file_summary("封面", &s.cover, sizes.cover.as_str());
    let lyrics = file_summary("歌词", &s.lyrics, sizes.lyrics.as_str());
    let duration = text::u64_text(s.duration_ms as u64);
    local_form(
        audio.as_str(),
        cover.as_str(),
        lyrics.as_str(),
        s.track_name.as_str(),
        s.artist.as_str(),
        s.album.as_str(),
        duration.as_str(),
    )
}

pub open spec fn cloud_head_view() -> ElementView {
    panel_view(12).child(label_view("网易云音乐"@, 22, ZINC_100))
}

fn cloud_head() -> (r: Element)
    ensures
        r@ == cloud_head_view(),
{
    panel(12).child(label("网易云音乐", 22, ZINC_100))
}

pub open spec fn login_prompt_view() -> ElementView {
    cloud_head_view()
        .child(label_view("扫码登录后可搜索歌曲或浏览个人歌单。"@, 13, ZINC_400))
        .child(button_view("生成登录二维码"@, EVENT_QR_BEGIN@, RED_600))
}

fn login_prompt() -> (r: Element)
    ensures
        r@ == login_prompt_view(),
{
    cloud_head()
        .child(label("扫码登录后可搜索歌曲或浏览个人歌单。", 13, ZINC_400))
        .child(button("生成登录二维码", EVENT_QR_BEGIN, RED_600))
}

pub open spec fn login_code_view(qr: Seq<char>) -> ElementView {
    ElementView::new(ElementType::Image, qr).style(Style::Width(220)).style(Style::Height(220))
}

fn login_code(qr: &str) -> (r: Element)
    ensures
        r@ == login_code_view(qr@),
{
    Element::new(ElementType::Image, qr).style(Style::Width(220)).style(Style::Height(220))
}

pub open spec fn cloud_tools_view(bitrate: u32, query: Seq<char>) -> ElementView {
    cloud_head_view()
        .child(label_view("已登录 · 登录状态已保存在插件私有目录"@, 13, GREEN_300))
        .child(label_view("音质越高，下载和导入越慢，手表播放也越可能卡顿。推荐选择 128 kbps。"@, 13, AMBER_400))
        .child(audio_quality_select_view(bitrate))
        .child(input_view("搜索歌曲"@, query, EVENT_QUERY@))
        .child(button_view("搜索网易云"@, EVENT_SEARCH_CLOUD@, BLUE_600))
        .child(button_view("我的歌单"@, EVENT_LOAD_PLAYLISTS@, INDIGO_600))
        .child(button_view("退出登录"@, EVENT_LOGOUT@, RED_900))
}

fn cloud_tools(bitrate: u32, query: &str) -> (r: Element)
    ensures
        r@ == cloud_tools_view(bitrate, query@),
{
    cloud_head()
        .child(label("已登录 · 登录状态已保存在插件私有目录", 13, GREEN_300))
        .child(label("音质越高，下载和导入越慢，手表播放也越可能卡顿。推荐选择 128 kbps。", 13, AMBER_400))
        .child(audio_quality_select(bitrate))
        .child(input("搜索歌曲", query, EVENT_QUERY))
        .child(button("搜索网易云", EVENT_SEARCH_CLOUD, BLUE_600))
        .child(button("我的歌单", EVENT_LOAD_PLAYLISTS, INDIGO_600))
        .child(button("退出登录", EVENT_LOGOUT, RED_900))
}

/// The card of the cloud service; `qr` is the image of the login code.
pub open spec fn cloud_card_view(s: UiState, qr: Seq<char>) -> ElementView {
    if s.netease_cookie@.len() > 0 {
        cloud_tools_view(netease::offered_bitrate(s.netease_audio_bitrate), s.netease_query@)
    } else if s.qr_url@.len() > 0 {
        login_prompt_view().child(login_code_view(qr)).child(
            button_view("检查扫码状态"@, EVENT_QR_POLL@, RED_700),
        )
    } else {
        login_prompt_view()
    }
}

pub fn cloud_card(s: &UiState, qr: &str) -> (r: Element)
    ensures
        r@ == cloud_card_view(*s, qr@),
{
    if !s.netease_cookie.as_str().is_empty() {
        cloud_tools(
            netease::normalized_audio_bitrate(s.netease_audio_bitrate),
            s.netease_query.as_str(),
        )
    } else if !s.qr_url.as_str().is_empty() {
        login_prompt().child(login_code(qr)).child(
            button("检查扫码状态", EVENT_QR_POLL, RED_700),
        )
    } else {
        login_prompt()
    }
}

/// The number of pages of the open playlist; at least one.
pub open spec fn page_count(songs: int) -> int {
    if songs == 0 {
        1
    } else {
        (songs + PLAYLIST_PAGE_SIZE - 1) / (PLAYLIST_PAGE_SIZE as int)
    }
}

/// The page that is shown: the last one where the chosen one is past it.
pub open spec fn shown_page(s: UiState) -> int {
    let last = page_count(s.netease_playlist_tracks@.len() as int) - 1;
    if s.netease_playlist_page > last {
        last
    } else {
        s.netease_playlist_page as int
    }
}

/// What the open playlist adds to the page.
pub open spec fn with_playlist(root: ElementView, s: UiState) -> ElementView {
    let count = page_count(s.netease_playlist_tracks@.len() as int);
    let page = shown_page(s);
    let root = root.child(button_view("返回我的歌单"@, EVENT_CLOSE_PLAYLIST@, ZINC_800)).child(
        label_view(
            "第 "@ + text::decimal((page + 1) as nat) + " / "@ + text::decimal(count as nat) + " 页"@,
            13,
            ZINC_400,
        ),
    );
    let root = if page > 0 {
        root.child(button_view("上一页"@, EVENT_PLAYLIST_PAGE_PREVIOUS@, ZINC_800))
    } else {
        root
    };
    let root = if page + 1 < count {
        root.child(button_view("下一页"@, EVENT_PLAYLIST_PAGE_NEXT@, INDIGO_600))
    } else {
        root
    };
    root.child(
        song_list_view(
            s.netease_playlist_name@,
            "个人歌单中的歌曲"@,
            s.netease_playlist_tracks@,
            EVENT_PLAYLIST_TRACK_PREFIX@,
            page * PLAYLIST_PAGE_SIZE,
            PLAYLIST_PAGE_SIZE as int,
        ),
    )
}

fn add_playlist(root: Element, s: &UiState) -> (r: Element)
    ensures
        r@ == with_playlist(root@, *s),
{
    let songs: usize = s.netease_playlist_tracks.len();
    let count: usize = if songs == 0 {
        1
    } else {
        (songs - 1) / PLAYLIST_PAGE_SIZE + 1
    };
    assert(count == page_count(songs as int));
    let page: usize = if s.netease_playlist_page > count - 1 {
        count - 1
    } else {
        s.netease_playlist_page
    };
    assert(page * PLAYLIST_PAGE_SIZE <= songs);
    let tracks = song_list(
        s.netease_playlist_name.as_str(),
        "个人歌单中的歌曲",
        &s.netease_playlist_tracks,
        EVENT_PLAYLIST_TRACK_PREFIX,
        page * PLAYLIST_PAGE_SIZE,
        PLAYLIST_PAGE_SIZE,
    );
    let a = text::u64_text(page as u64 + 1);
    let b = text::u64_text(count as u64);
    let mut line = text::cat3("第 ", a.as_str(), " / ");
    line.append(b.as_str());
    line.append(" 页");
    let mut root = root.child(button("返回我的歌单", EVENT_CLOSE_PLAYLIST, ZINC_800)).child(
        label(line.as_str(), 13, ZINC_400),
    );
    if page > 0 {
        root = root.child(button("上一页", EVENT_PLAYLIST_PAGE_PREVIOUS, ZINC_800));
    }
    if page + 1 < count {
        root = root.child(button("下一页", EVENT_PLAYLIST_PAGE_NEXT, INDIGO_600));
    }
    root.child(tracks)
}

/// The whole page; `qr` is the image of the login code.
pub open spec fn page_view(s: UiState, sizes: SizeTexts, qr: Seq<char>) -> ElementView {
    let root = page_head_view().child(device_card_view(s));
    let root = if s.status@.len() > 0 || s.total > 0 || s.active {
        root.child(transfer_card_view(s, sizes))
    } else {
        root
    };
    let root = root.child(device_library_card_view(s)).child(local_card_view(s, sizes)).child(
        cloud_card_view(s, qr),
    );
    if s.netease_view == NeteaseView::SearchResults && s.netease_results@.len() > 0 {
        root.child(
            song_list_view(
                "搜索结果"@,
                "选择歌曲后将立即下载音频、封面与歌词。"@,
                s.netease_results@,
                EVENT_SEARCH_RESULT_PREFIX@,
                0,
                PLAYLIST_PAGE_SIZE as int,
            ),
        )
    } else if s.netease_view == NeteaseView::PlaylistTracks {
        with_playlist(root, s)
    } else if s.netease_view == NeteaseView::Playlists && s.netease_playlists@.len() > 0 {
        root.child(playlist_list_view(s.netease_playlists@))
    } else {
        root
    }
}

/// Lays the page out around the image of the login code.
pub fn lay_out(s: &UiState, sizes: &SizeTexts, qr: &str) -> (r: Element)
    ensures
        r@ == page_view(*s, *sizes, qr@),
{
    let mut root = page_head().child(device_card(s));
    if !s.status.as_str().is_empty() || s.total > 0 || s.active {
        root = root.child(transfer_card(s, sizes));
    }
    root = root.child(device_library_card(s)).child(local_card(s, sizes)).child(cloud_card(s, qr));
    match s.netease_view {
        NeteaseView::SearchResults => if s.netease_results.len() > 0 {
            root.child(
                song_list(
                    "搜索结果",
                    "选择歌曲后将立即下载音频、封面与歌词。",
                    &s.netease_results,
                    EVENT_SEARCH_RESULT_PREFIX,
                    0,
                    PLAYLIST_PAGE_SIZE,
                ),
            )
        } else {
            root
        },
        NeteaseView::PlaylistTracks => add_playlist(root, s),
        NeteaseView::Playlists => if s.netease_playlists.len() > 0 {
            root.child(playlist_list(&s.netease_playlists))
        } else {
            root
        },
        NeteaseView::Home => root,
    }
}

/// The whole page.
pub fn build_root(s: &UiState, sizes: &SizeTexts) -> (r: Element)
    ensures
        r@ == page_view(*s, *sizes, embedded(qr_drawn(encode_utf8(s.qr_url@), 260))),
{
    if s.netease_cookie.as_str().is_empty() && !s.qr_url.as_str().is_empty() {
        let qr = qr_image_url(s.qr_url.as_str());
        lay_out(s, sizes, qr.as_str())
    } else {
        lay_out(s, sizes, "")
    }
}

// ---------------------------------------------------------------- laws

/// A label shows its text, and a button its caption; a click on the button has the
/// button's id, whether it can be used or not.
pub proof fn buttons_do_what_they_say(
    caption: Seq<char>,
    id: Seq<char>,
    color: &'static str,
    size: u32,
    disabled: bool,
)
    ensures
        label_view(caption, size, color).shows(caption),
        button_view(caption, id, color).shows(caption),
        button_view(caption, id, color).fires(UiEvent::Click, id),
        library_button_view(caption, id, color, disabled).shows(caption),
        library_button_view(caption, id, color, disabled).fires(UiEvent::Click, id),
        library_button_view(caption, id, color, disabled).styles.contains(Style::Disabled)
            <==> disabled,
{
    let b = button_view(caption, id, color);
    assert(b.events[0] == (UiEvent::Click, id));
    assert(b.styles =~= seq![
        Style::WidthFull,
        Style::Padding(12),
        Style::Radius(8),
        Style::Bg(color),
        Style::TextColor(WHITE),
    ]);
    assert(!b.styles.contains(Style::Disabled));
    let d = b.style(Style::Disabled);
    assert(d.styles[5] == Style::Disabled);
    b.looks_change_nothing(Style::Disabled, UiEvent::Click, id, caption);
}

/// A length is shown in minutes and seconds, two digits each at least; no length
/// is shown as one that is not known.
pub proof fn lengths_are_shown_as_on_a_clock(ms: u32)
    requires
        ms > 0,
    ensures
        ({
            let d = duration_view(ms);
            let n = d.len() - 3;
            &&& n >= 2
            &&& d[n] == ':'
            &&& text::all_digits(d.take(n)) && text::all_digits(d.skip(n + 1))
            &&& text::digits_value(d.take(n)) * 60 + text::digits_value(d.skip(n + 1)) == ms as int
                / 1000
            &&& text::digits_value(d.skip(n + 1)) < 60
        }),
{
    let minutes = (ms / 60000) as nat;
    let seconds = (ms / 1000 % 60) as nat;
    let m = text::padded_decimal(minutes, 2);
    let s = text::padded_decimal(seconds, 2);
    text::padding_keeps_the_number(minutes, 2);
    text::padding_keeps_the_number(seconds, 2);
    reveal_strlit(":");
    reveal_with_fuel(text::decimal, 3);
    assert(text::decimal(seconds).len() <= 2);
    let d = duration_view(ms);
    let n = d.len() - 3;
    assert(d.take(n) =~= m);
    assert(d.skip(n + 1) =~= s);
}

/// The share that was sent goes from nothing to all of it, never back while more is
/// sent, and is rounded down.
pub proof fn progress_goes_forward(sent: u64, more: u64, total: u64)
    requires
        sent <= more <= total,
        total > 0,
        total <= u64::MAX / 100,
    ensures
        percent(0, total) == 0,
        percent(total, total) == 100,
        0 <= percent(sent, total) <= percent(more, total) <= 100,
        percent(sent, total) * total <= sent * 100 < (percent(sent, total) + 1) * total,
{
    let t = total as int;
    assert(0int / t == 0) by (nonlinear_arith)
        requires
            t > 0,
    ;
    assert((t * 100) / t == 100) by (nonlinear_arith)
        requires
            t > 0,
    ;
    let a = sent * 100;
    let b = more * 100;
    assert(0 <= a / t <= b / t <= 100) by (nonlinear_arith)
        requires
            0 <= a <= b <= 100 * t,
            t > 0,
    ;
    assert((a / t) * t <= a < (a / t + 1) * t) by (nonlinear_arith)
        requires
            t > 0,
            0 <= a,
    ;
}

/// Speeds are rounded to the nearest kibibyte, and shown as one where they are less.
pub proof fn speeds_are_rounded(speed: u64)
    ensures
        speed >= 512 ==> -512 <= speed_kib(speed) * 1024 - speed <= 512,
        speed < 512 ==> speed_kib(speed) == 1,
        speed_kib(speed) >= 1,
{
}

/// The pages of a list hold all its songs, fifty to a page, and the last page is
/// not empty; a page that is not there shows the last one.
pub proof fn pages_hold_all_songs(s: UiState)
    ensures
        ({
            let n = s.netease_playlist_tracks@.len() as int;
            let count = page_count(n);
            &&& count >= 1
            &&& n <= count * 50
            &&& n > 0 ==> (count - 1) * 50 < n
            &&& 0 <= shown_page(s) < count
            &&& s.netease_playlist_page < count ==> shown_page(s) == s.netease_playlist_page
            &&& s.netease_playlist_page >= count ==> shown_page(s) == count - 1
            &&& n > 0 ==> shown_page(s) * 50 < n
            &&& n > 0 ==> page_end(shown_page(s) * 50, 50, n) - shown_page(s) * 50 <= 50
            &&& shown_page(s) + 1 == count ==> page_end(shown_page(s) * 50, 50, n) == n
        }),
{
}

/// A list of songs has a row for each of them, in their order, behind its head: the
/// row shows the name of the song, and its button starts the import of the song
/// with that place.
pub proof fn each_song_has_its_row(
    head: ElementView,
    songs: Seq<CloudSong>,
    prefix: Seq<char>,
    start: int,
    end: int,
    i: int,
)
    requires
        0 <= start <= end <= songs.len(),
        start <= i < end,
    ensures
        ({
            let list = song_rows(head, songs, prefix, start, end);
            let row = list.children[head.children.len() + i - start];
            &&& list.children.len() == head.children.len() + end - start
            &&& row.shows(songs[i].name@)
            &&& row.fires(UiEvent::Click, prefix + text::decimal(i as nat))
        }),
    decreases end - start,
{
    let n = head.children.len() as int;
    let list = song_rows(head, songs, prefix, start, end);
    lemma_song_rows_len(head, songs, prefix, start, end - 1);
    if i < end - 1 {
        each_song_has_its_row(head, songs, prefix, start, end - 1, i);
    } else {
        let song = songs[i];
        let row = song_row_view(
            song.name@,
            metadata_view(song.artists@, song.album@, song.duration_ms),
            prefix + text::decimal(i as nat),
        );
        assert(list.children[n + i - start] == row);
        assert(row.children[0] == label_view(song.name@, 17, ZINC_50));
        assert(row.children[2] == button_view(
            "导入这首歌"@,
            prefix + text::decimal(i as nat),
            GREEN_600,
        ));
        buttons_do_what_they_say(song.name@, prefix, ZINC_50, 17, false);
        buttons_do_what_they_say(
            "导入这首歌"@,
            prefix + text::decimal(i as nat),
            GREEN_600,
            17,
            false,
        );
    }
}

proof fn lemma_song_rows_len(
    head: ElementView,
    songs: Seq<CloudSong>,
    prefix: Seq<char>,
    start: int,
    end: int,
)
    requires
        0 <= start,
    ensures
        song_rows(head, songs, prefix, start, end).children.len() == head.children.len() + if end
            > start {
            end - start
        } else {
            0
        },
    decreases end - start,
{
    if end > start {
        lemma_song_rows_len(head, songs, prefix, start, end - 1);
    }
}

/// A list of playlists has a row for each of them, in their order: the row shows the
/// name of the playlist, and its button opens it.
pub proof fn each_playlist_has_its_row(head: ElementView, playlists: Seq<CloudPlaylist>, i: int)
    requires
        0 <= i < playlists.len(),
    ensures
        ({
            let list = playlist_rows(head, playlists);
            let row = list.children[head.children.len() + i];
            &&& list.children.len() == head.children.len() + playlists.len()
            &&& row.shows(playlists[i].name@)
            &&& row.fires(
                UiEvent::Click,
                EVENT_PLAYLIST_PREFIX@ + text::decimal(playlists[i].id as nat),
            )
        }),
    decreases playlists.len(),
{
    let rest = playlists.drop_last();
    let n = head.children.len() as int;
    lemma_playlist_rows_len(head, rest);
    if i < rest.len() {
        each_playlist_has_its_row(head, rest, i);
        assert(rest[i] == playlists[i]);
    } else {
        let p = playlists[i];
        let id = EVENT_PLAYLIST_PREFIX@ + text::decimal(p.id as nat);
        let row = playlist_row_view(p.name@, playlist_line(p), id);
        assert(playlist_rows(head, playlists).children[n + i] == row);
        assert(row.children[0] == label_view(p.name@, 17, ZINC_50));
        assert(row.children[2] == button_view("查看歌单"@, id, INDIGO_600));
        buttons_do_what_they_say(p.name@, id, ZINC_50, 17, false);
        buttons_do_what_they_say("查看歌单"@, id, INDIGO_600, 17, false);
    }
}

proof fn lemma_playlist_rows_len(head: ElementView, playlists: Seq<CloudPlaylist>)
    ensures
        playlist_rows(head, playlists).children.len() == head.children.len() + playlists.len(),
    decreases playlists.len(),
{
    if playlists.len() > 0 {
        lemma_playlist_rows_len(head, playlists.drop_last());
    }
}

/// A song on the watch can be moved up unless it is the first, down unless it is the
/// last, and always be deleted; each button names this song.
pub proof fn songs_on_the_watch_can_be_moved(
    t: DeviceLibraryTrack,
    index: int,
    count: int,
    busy: bool,
)
    requires
        0 <= index < count,
    ensures
        ({
            let card = track_card_view(t, index, count, busy);
            let id = text::decimal(t.id as nat);
            &&& card.shows(text::decimal((index + 1) as nat) + ". "@ + t.name@)
            &&& index > 0 ==> card.fires(UiEvent::Click, EVENT_LIBRARY_MOVE_UP_PREFIX@ + id)
            &&& index + 1 < count ==> card.fires(
                UiEvent::Click,
                EVENT_LIBRARY_MOVE_DOWN_PREFIX@ + id,
            )
            &&& card.fires(UiEvent::Click, EVENT_LIBRARY_DELETE_PREFIX@ + id)
            &&& card.children.len() == 3 + (if index > 0 {
                1int
            } else {
                0
            }) + if index + 1 < count {
                1int
            } else {
                0
            }
        }),
{
    let card = track_card_view(t, index, count, busy);
    let id = text::decimal(t.id as nat);
    let title = text::decimal((index + 1) as nat) + ". "@ + t.name@;
    let up = EVENT_LIBRARY_MOVE_UP_PREFIX@ + id;
    let down = EVENT_LIBRARY_MOVE_DOWN_PREFIX@ + id;
    let delete = EVENT_LIBRARY_DELETE_PREFIX@ + id;
    buttons_do_what_they_say(title, id, ZINC_50, 17, busy);
    buttons_do_what_they_say("上移"@, up, ZINC_700, 17, busy);
    buttons_do_what_they_say("下移"@, down, INDIGO_600, 17, busy);
    buttons_do_what_they_say("删除"@, delete, RED_700, 17, busy);
    assert(card.children[0] == label_view(title, 17, ZINC_50));
    let n = card.children.len() as int;
    assert(card.children[n - 1] == library_button_view("删除"@, delete, RED_700, busy));
    if index > 0 {
        assert(card.children[2] == library_button_view("上移"@, up, ZINC_700, busy));
    }
    if index + 1 < count {
        assert(card.children[n - 2] == library_button_view("下移"@, down, INDIGO_600, busy));
    }
}

/// Each song on the watch has its card, in the order of the watch.
pub proof fn each_song_on_the_watch_has_its_card(
    head: ElementView,
    tracks: Seq<DeviceLibraryTrack>,
    shown: nat,
    busy: bool,
    i: int,
)
    requires
        shown <= tracks.len(),
        0 <= i < shown,
    ensures
        track_cards(head, tracks, shown, busy).children.len() == head.children.len() + shown,
        track_cards(head, tracks, shown, busy).children[head.children.len() + i] == track_card_view(
            tracks[i],
            i,
            tracks.len() as int,
            busy,
        ),
    decreases shown,
{
    lemma_track_cards_len(head, tracks, (shown - 1) as nat, busy);
    if i < shown - 1 {
        each_song_on_the_watch_has_its_card(head, tracks, (shown - 1) as nat, busy, i);
    }
}

proof fn lemma_track_cards_len(
    head: ElementView,
    tracks: Seq<DeviceLibraryTrack>,
    shown: nat,
    busy: bool,
)
    ensures
        track_cards(head, tracks, shown, busy).children.len() == head.children.len() + shown,
    decreases shown,
{
    if shown > 0 {
        lemma_track_cards_len(head, tracks, (shown - 1) as nat, busy);
    }
}

/// Each device can be chosen, by its name, and stands for its address.
pub proof fn each_device_can_be_chosen(devices: Seq<DeviceInfo>, selected: Seq<char>, i: int)
    requires
        0 <= i < devices.len(),
    ensures
        ({
            let e = device_choices(devices, selected);
            &&& e.children.len() == devices.len()
            &&& e.children[i].text == Some(devices[i].name@)
            &&& e.children[i].props == seq![("value"@, devices[i].addr@)]
            &&& e.props[0] == ("default-value"@, selected)
        }),
    decreases devices.len(),
{
    let rest = devices.drop_last();
    lemma_device_choices(rest, selected);
    lemma_device_choices(devices, selected);
    if i < rest.len() {
        each_device_can_be_chosen(rest, selected, i);
        assert(rest[i] == devices[i]);
    } else {
        assert(device_choices(devices, selected).children[i] == choice_view(
            devices[i].name@,
            devices[i].addr@,
        ));
        assert(choice_view(devices[i].name@, devices[i].addr@).props =~= seq![
            ("value"@, devices[i].addr@),
        ]);
    }
}

proof fn lemma_device_choices(devices: Seq<DeviceInfo>, selected: Seq<char>)
    ensures
        device_choices(devices, selected).children.len() == devices.len(),
        device_choices(devices, selected).props.len() == 2,
        device_choices(devices, selected).props[0] == ("default-value"@, selected),
    decreases devices.len(),
{
    if devices.len() > 0 {
        lemma_device_choices(devices.drop_last(), selected);
    }
}

/// Whoever is logged in can search, see their playlists and log out; whoever is not
/// can ask for a code, and, once there is one, have it checked.
pub proof fn login_decides_what_can_be_done(s: UiState, qr: Seq<char>)
    ensures
        s.netease_cookie@.len() > 0 ==> {
            let card = cloud_card_view(s, qr);
            &&& card.fires(UiEvent::Click, EVENT_SEARCH_CLOUD@)
            &&& card.fires(UiEvent::Click, EVENT_LOAD_PLAYLISTS@)
            &&& card.fires(UiEvent::Click, EVENT_LOGOUT@)
        },
        s.netease_cookie@.len() == 0 ==> cloud_card_view(s, qr).fires(
            UiEvent::Click,
            EVENT_QR_BEGIN@,
        ),
        s.netease_cookie@.len() == 0 && s.qr_url@.len() > 0 ==> {
            let card = cloud_card_view(s, qr);
            &&& card.fires(UiEvent::Click, EVENT_QR_POLL@)
            &&& card.shows(qr)
        },
{
    let card = cloud_card_view(s, qr);
    buttons_do_what_they_say("搜索网易云"@, EVENT_SEARCH_CLOUD@, BLUE_600, 0, false);
    buttons_do_what_they_say("我的歌单"@, EVENT_LOAD_PLAYLISTS@, INDIGO_600, 0, false);
    buttons_do_what_they_say("退出登录"@, EVENT_LOGOUT@, RED_900, 0, false);
    buttons_do_what_they_say("生成登录二维码"@, EVENT_QR_BEGIN@, RED_600, 0, false);
    buttons_do_what_they_say("检查扫码状态"@, EVENT_QR_POLL@, RED_700, 0, false);
    if s.netease_cookie@.len() > 0 {
        assert(card.children[5] == button_view("搜索网易云"@, EVENT_SEARCH_CLOUD@, BLUE_600));
        assert(card.children[6] == button_view("我的歌单"@, EVENT_LOAD_PLAYLISTS@, INDIGO_600));
        assert(card.children[7] == button_view("退出登录"@, EVENT_LOGOUT@, RED_900));
    } else {
        assert(card.children[2] == button_view("生成登录二维码"@, EVENT_QR_BEGIN@, RED_600));
        if s.qr_url@.len() > 0 {
            assert(card.children[3] == login_code_view(qr));
            assert(login_code_view(qr).text == Some(qr));
            assert(card.children[3].shows(qr));
            assert(card.children[4] == button_view("检查扫码状态"@, EVENT_QR_POLL@, RED_700));
        }
    }
}

/// A transfer that runs can be cancelled, and one that has something to send shows
/// how far it is.
pub proof fn running_transfers_can_be_cancelled(s: UiState, sizes: SizeTexts)
    ensures
        ({
            let card = transfer_card_view(s, sizes);
            let n = transfer_head_view(
                if s.active {
                    "正在传输"@
                } else {
                    "任务状态"@
                },
                if s.status@.len() == 0 {
                    "准备就绪"@
                } else {
                    s.status@
                },
            ).children.len();
            &&& s.active ==> card.fires(UiEvent::Click, EVENT_CANCEL@)
            &&& s.total > 0 ==> card.shows(detail_view(s, sizes))
            &&& s.total > 0 ==> card.children[n as int].props[0] == (
                "value"@,
                text::decimal(percent(s.sent, s.total) as nat),
            )
            &&& !s.active && s.total == 0 ==> card.children.len() == n
        }),
{
    let card = transfer_card_view(s, sizes);
    let head = transfer_head_view(
        if s.active {
            "正在传输"@
        } else {
            "任务状态"@
        },
        if s.status@.len() == 0 {
            "准备就绪"@
        } else {
            s.status@
        },
    );
    let n = head.children.len() as int;
    buttons_do_what_they_say("取消传输"@, EVENT_CANCEL@, RED_900, 0, false);
    buttons_do_what_they_say(detail_view(s, sizes), EVENT_CANCEL@, SLATE_300, 13, false);
    if s.active {
        assert(card.children.last() == button_view("取消传输"@, EVENT_CANCEL@, RED_900));
        assert(card.children[card.children.len() - 1] == card.children.last());
    }
    if s.total > 0 {
        assert(0 <= percent(s.sent, s.total) <= 100) by {
            let t = s.total as int;
            let a = if s.sent * 100 > u64::MAX {
                u64::MAX as int
            } else {
                s.sent * 100
            };
            assert(0 <= a / t) by (nonlinear_arith)
                requires
                    t > 0,
                    0 <= a,
            ;
        }
        assert(card.children[n] == progress_bar_view(percent(s.sent, s.total) as u64));
        assert(card.children[n + 1] == label_view(detail_view(s, sizes), 13, SLATE_300));
    }
}

/// What is not known of a song is said to be unknown; everything else is shown.
pub proof fn unknown_artists_are_told(artists: Seq<String>, album: Seq<char>, ms: u32)
    ensures
        ({
            let m = metadata_view(artists, album, ms);
            let a = if artists.len() == 0 {
                "未知歌手"@
            } else {
                text::joined(text::texts(artists), " / "@)
            };
            let d = duration_view(ms);
            &&& m.take(a.len() as int) == a
            &&& m.skip(m.len() - d.len()) == d
            &&& album.len() > 0 ==> m.subrange(
                (a.len() + " · "@.len()) as int,
                (a.len() + " · "@.len() + album.len()) as int,
            ) == album
        }),
{
    let m = metadata_view(artists, album, ms);
    let a = if artists.len() == 0 {
        "未知歌手"@
    } else {
        text::joined(text::texts(artists), " / "@)
    };
    let d = duration_view(ms);
    assert(m.take(a.len() as int) =~= a);
    assert(m.skip(m.len() - d.len()) =~= d);
    if album.len() > 0 {
        assert(m.subrange(
            (a.len() + " · "@.len()) as int,
            (a.len() + " · "@.len() + album.len()) as int,
        ) =~= album);
    }
}

/// A picture is embedded whole: its bytes can be read back from the address.
pub proof fn embedded_pictures_are_whole(svg: Seq<char>)
    ensures
        ({
            let p = "data:image/svg+xml;base64,"@;
            let e = embedded(Some(svg));
            &&& e.take(p.len() as int) == p
            &&& codec::base64_bytes(e.skip(p.len() as int)) == encode_utf8(svg)
        }),
        embedded(None).len() == 0,
{
    let p = "data:image/svg+xml;base64,"@;
    let e = embedded(Some(svg));
    assert(e.take(p.len() as int) =~= p);
    assert(e.skip(p.len() as int) =~= codec::base64_text(encode_utf8(svg)));
    codec::base64_round_trip(encode_utf8(svg));
}

/// A field shows what was typed into it and reports what is typed next under its own
/// id; a list of choices reports the one that is made.
pub proof fn fields_report_their_input(hint: Seq<char>, value: Seq<char>, id: Seq<char>)
    ensures
        input_view(hint, value, id).fires(UiEvent::Input, id),
        input_view(hint, value, id).props.contains(("default-value"@, value)),
        select_view(value, id).fires(UiEvent::Change, id),
        select_view(value, id).props.contains(("default-value"@, value)),
        choice_view(hint, value).shows(hint),
        choice_view(hint, value).props.contains(("value"@, value)),
{
    let i = input_view(hint, value, id);
    assert(i.events[0] == (UiEvent::Input, id));
    assert(i.props[1] == ("default-value"@, value));
    let s = select_view(value, id);
    assert(s.events[0] == (UiEvent::Change, id));
    assert(s.props[0] == ("default-value"@, value));
    assert(choice_view(hint, value).props[0] == ("value"@, value));
}

/// The form for a local song shows what was picked and filled in, and lets each of
/// it be changed and the import be started.
pub proof fn local_songs_can_be_filled_in(s: UiState, sizes: SizeTexts)
    ensures
        ({
            let card = local_card_view(s, sizes);
            &&& card.shows(summary_view("音频"@, s.audio, sizes.audio@))
            &&& card.shows(summary_view("封面"@, s.cover, sizes.cover@))
            &&& card.shows(summary_view("歌词"@, s.lyrics, sizes.lyrics@))
            &&& card.fires(UiEvent::Click, EVENT_PICK_AUDIO@)
            &&& card.fires(UiEvent::Click, EVENT_PICK_COVER@)
            &&& card.fires(UiEvent::Click, EVENT_PICK_LYRICS@)
            &&& card.fires(UiEvent::Input, EVENT_NAME@)
            &&& card.fires(UiEvent::Input, EVENT_ARTIST@)
            &&& card.fires(UiEvent::Input, EVENT_ALBUM@)
            &&& card.fires(UiEvent::Input, EVENT_DURATION@)
            &&& card.fires(UiEvent::Click, EVENT_START_LOCAL@)
            &&& card.children[8].props.contains(("default-value"@, s.track_name@))
            &&& card.children[9].props.contains(("default-value"@, s.artist@))
            &&& card.children[10].props.contains(("default-value"@, s.album@))
            &&& card.children[11].props.contains(
                ("default-value"@, text::decimal(s.duration_ms as nat)),
            )
        }),
{
    let card = local_card_view(s, sizes);
    let a = summary_view("音频"@, s.audio, sizes.audio@);
    let b = summary_view("封面"@, s.cover, sizes.cover@);
    let c = summary_view("歌词"@, s.lyrics, sizes.lyrics@);
    let d = text::decimal(s.duration_ms as nat);
    buttons_do_what_they_say(a, a, ZINC_300, 14, false);
    buttons_do_what_they_say(b, b, ZINC_300, 14, false);
    buttons_do_what_they_say(c, c, ZINC_300, 14, false);
    buttons_do_what_they_say("选择 MP3"@, EVENT_PICK_AUDIO@, BLUE_600, 0, false);
    buttons_do_what_they_say("选择封面（可选）"@, EVENT_PICK_COVER@, INDIGO_600, 0, false);
    buttons_do_what_they_say("选择歌词（可选）"@, EVENT_PICK_LYRICS@, INDIGO_600, 0, false);
    buttons_do_what_they_say("导入本地音乐"@, EVENT_START_LOCAL@, GREEN_600, 0, false);
    fields_report_their_input("曲名"@, s.track_name@, EVENT_NAME@);
    fields_report_their_input("歌手（可空）"@, s.artist@, EVENT_ARTIST@);
    fields_report_their_input("专辑（可空）"@, s.album@, EVENT_ALBUM@);
    fields_report_their_input("时长毫秒（未知填 0）"@, d, EVENT_DURATION@);
    assert(card.children[2] == label_view(a, 14, ZINC_300));
    assert(card.children[3] == button_view("选择 MP3"@, EVENT_PICK_AUDIO@, BLUE_600));
    assert(card.children[4] == label_view(b, 14, ZINC_300));
    assert(card.children[5] == button_view("选择封面（可选）"@, EVENT_PICK_COVER@, INDIGO_600));
    assert(card.children[6] == label_view(c, 14, ZINC_300));
    assert(card.children[7] == button_view("选择歌词（可选）"@, EVENT_PICK_LYRICS@, INDIGO_600));
    assert(card.children[8] == input_view("曲名"@, s.track_name@, EVENT_NAME@));
    assert(card.children[9] == input_view("歌手（可空）"@, s.artist@, EVENT_ARTIST@));
    assert(card.children[10] == input_view("专辑（可空）"@, s.album@, EVENT_ALBUM@));
    assert(card.children[11] == input_view("时长毫秒（未知填 0）"@, d, EVENT_DURATION@));
    assert(card.children[12] == button_view("导入本地音乐"@, EVENT_START_LOCAL@, GREEN_600));
}

/// The page has the cards for the device, the songs on the watch, a local song and
/// the service; the one for a transfer is there while there is something to tell,
/// and the list that is asked for stands last.
pub proof fn pages_have_their_cards(s: UiState, sizes: SizeTexts, qr: Seq<char>)
    ensures
        ({
            let page = page_view(s, sizes, qr);
            let k: int = if s.status@.len() > 0 || s.total > 0 || s.active {
                1
            } else {
                0
            };
            &&& page.children[2] == device_card_view(s)
            &&& k == 1 ==> page.children[3] == transfer_card_view(s, sizes)
            &&& page.children[3 + k] == device_library_card_view(s)
            &&& page.children[4 + k] == local_card_view(s, sizes)
            &&& page.children[5 + k] == cloud_card_view(s, qr)
            &&& s.netease_view == NeteaseView::Home ==> page.children.len() == 6 + k
            &&& s.netease_view == NeteaseView::SearchResults && s.netease_results@.len() > 0
                ==> page.children.len() == 7 + k && page.children[6 + k] == song_list_view(
                "搜索结果"@,
                "选择歌曲后将立即下载音频、封面与歌词。"@,
                s.netease_results@,
                EVENT_SEARCH_RESULT_PREFIX@,
                0,
                50,
            )
            &&& s.netease_view == NeteaseView::Playlists && s.netease_playlists@.len() > 0
                ==> page.children.len() == 7 + k && page.children[6 + k] == playlist_list_view(
                s.netease_playlists@,
            )
        }),
{
}

/// A playlist that is open can be closed, its pages can be turned where there are
/// more, and it shows the songs of the page.
pub proof fn open_playlists_can_be_turned(root: ElementView, s: UiState)
    ensures
        ({
            let page = with_playlist(root, s);
            let n = root.children.len() as int;
            let count = page_count(s.netease_playlist_tracks@.len() as int);
            &&& page.children[n].fires(UiEvent::Click, EVENT_CLOSE_PLAYLIST@)
            &&& shown_page(s) > 0 ==> page.children[n + 2].fires(
                UiEvent::Click,
                EVENT_PLAYLIST_PAGE_PREVIOUS@,
            )
            &&& shown_page(s) + 1 < count ==> page.children[page.children.len() - 2].fires(
                UiEvent::Click,
                EVENT_PLAYLIST_PAGE_NEXT@,
            )
            &&& page.children.last() == song_list_view(
                s.netease_playlist_name@,
                "个人歌单中的歌曲"@,
                s.netease_playlist_tracks@,
                EVENT_PLAYLIST_TRACK_PREFIX@,
                shown_page(s) * 50,
                50,
            )
        }),
{
    let page = with_playlist(root, s);
    let n = root.children.len() as int;
    let count = page_count(s.netease_playlist_tracks@.len() as int);
    let close = button_view("返回我的歌单"@, EVENT_CLOSE_PLAYLIST@, ZINC_800);
    let back = button_view("上一页"@, EVENT_PLAYLIST_PAGE_PREVIOUS@, ZINC_800);
    let on = button_view("下一页"@, EVENT_PLAYLIST_PAGE_NEXT@, INDIGO_600);
    buttons_do_what_they_say("返回我的歌单"@, EVENT_CLOSE_PLAYLIST@, ZINC_800, 0, false);
    buttons_do_what_they_say("上一页"@, EVENT_PLAYLIST_PAGE_PREVIOUS@, ZINC_800, 0, false);
    buttons_do_what_they_say("下一页"@, EVENT_PLAYLIST_PAGE_NEXT@, INDIGO_600, 0, false);
    assert(page.children[n] == close);
    if shown_page(s) > 0 {
        assert(page.children[n + 2] == back);
    }
    if shown_page(s) + 1 < count {
        assert(page.children[page.children.len() - 2] == on);
    }
}

/// A list of songs shows those from its start on, as many as it may, and a list of
/// playlists the first forty.
pub proof fn lists_show_what_they_may(
    title: Seq<char>,
    description: Seq<char>,
    prefix: Seq<char>,
    songs: Seq<CloudSong>,
    playlists: Seq<CloudPlaylist>,
    start: int,
    limit: int,
)
    requires
        0 <= start <= songs.len(),
        0 <= limit,
    ensures
        song_list_view(title, description, songs, prefix, start, limit).children.len() == 2 + if start
            + limit < songs.len() {
            limit
        } else {
            songs.len() - start
        },
        playlist_list_view(playlists).children.len() == 2 + if playlists.len() <= 40 {
            playlists.len() as int
        } else {
            41
        },
{
    lemma_song_rows_len(
        list_head_view(title, description),
        songs,
        prefix,
        start,
        page_end(start, limit, songs.len() as int),
    );
    let head = list_head_view("我的歌单"@, "打开歌单后可直接选择其中的歌曲导入。"@);
    lemma_playlist_rows_len(head, playlists);
    lemma_playlist_rows_len(head, playlists.take(40));
}

/// A file that was picked is named, and one that was not is said to be missing.
pub proof fn picked_files_are_named(caption: Seq<char>, f: SelectedFile, mib: Seq<char>)
    ensures
        ({
            let s = summary_view(caption, Some(f), mib);
            let n = (caption.len() + "："@.len()) as int;
            &&& s.take(caption.len() as int) == caption
            &&& s.subrange(n, n + f.name@.len()) == f.name@
            &&& summary_view(caption, None, mib) == caption + "：未选择"@
        }),
{
    let s = summary_view(caption, Some(f), mib);
    let n = (caption.len() + "："@.len()) as int;
    assert(s.take(caption.len() as int) =~= caption);
    assert(s.subrange(n, n + f.name@.len()) =~= f.name@);
}

/// How far a transfer is begins with its share of a hundred; the speed is told only
/// where one is known.
pub proof fn details_begin_with_the_share(s: UiState, sizes: SizeTexts)
    ensures
        ({
            let d = detail_view(s, sizes);
            let p = text::decimal(percent(s.sent, s.total) as nat);
            &&& d.take(p.len() as int) == p
            &&& s.speed_bytes_per_second > 0 ==> d == p + "% · "@ + sizes.sent@ + " / "@
                + sizes.total@ + " MiB · "@ + text::decimal(
                speed_kib(s.speed_bytes_per_second) as nat,
            ) + "k/s"@
            &&& s.speed_bytes_per_second == 0 ==> d == p + "% · "@ + sizes.sent@ + " / "@
                + sizes.total@ + " MiB"@
        }),
{
    let d = detail_view(s, sizes);
    let p = text::decimal(percent(s.sent, s.total) as nat);
    assert(d.take(p.len() as int) =~= p);
}

/// A playlist tells how many songs it has and who made it, as far as that is known.
pub proof fn playlists_tell_their_songs(p: CloudPlaylist)
    ensures
        ({
            let n = text::decimal(p.track_count as nat);
            &&& playlist_line(p).take(n.len() as int) == n
            &&& p.creator@.len() > 0 ==> playlist_line(p).skip(playlist_line(p).len() - p.creator@.len())
                == p.creator@
        }),
{
    let n = text::decimal(p.track_count as nat);
    assert(playlist_line(p).take(n.len() as int) =~= n);
    if p.creator@.len() > 0 {
        assert(playlist_line(p).skip(playlist_line(p).len() - p.creator@.len()) =~= p.creator@);
    }
}

} // verus!
