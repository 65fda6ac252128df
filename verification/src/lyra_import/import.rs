//! The import protocol: one song, sent asset by asset and chunk by chunk, with
//! one chunk in flight at a time.
use vstd::prelude::*;
use vstd::string::*;

use crate::bridge::codec;
use crate::bridge::stream;
use crate::json::{self, Json, JsonObject, JsonView};
use crate::lyra_import::artwork::{
    BACKGROUND_BIN_BYTES, BACKGROUND_HEIGHT, BACKGROUND_WIDTH, COVER_BIN_BYTES, COVER_HEIGHT,
    COVER_WIDTH, LVGL_V9_FORMAT,
};
use crate::lyra_import::state::{SelectedFile, TransferMode, UiState};
use crate::lyra_import::wire;
use crate::text::{self, str_eq};

verus! {

pub const PROTOCOL_VERSION: u64 = 2;

/// The package of the peer on the watch.
pub const ROUTE_PACKAGE: &'static str = "com.canopus.lyraimport";

/// The size that an outgoing frame may have.
pub const OUTGOING_FRAME_CAPACITY: usize = 49152;

/// The size that an incoming frame may have.
pub const INCOMING_FRAME_CAPACITY: usize = 8192;

pub const DEFAULT_CHUNK_BYTES: usize = 35840;

pub const FAST_CHUNK_BYTES: usize = 36608;

pub const ULTRA_CHUNK_BYTES: usize = 36753;

pub const MAX_CHUNK_RETRIES: u8 = 2;

/// How chunks are checked, and with that how large they may be.
#[derive(Clone, Copy, Debug, PartialEq, Eq, Structural)]
pub enum ChunkMode {
    Crc32,
    NoneFast,
    NoneUltra,
}

impl ChunkMode {
    pub open spec fn checksum_name(self) -> Seq<char> {
        match self {
            ChunkMode::Crc32 => "crc32"@,
            ChunkMode::NoneFast | ChunkMode::NoneUltra => "none"@,
        }
    }

    pub fn checksum(self) -> (r: &'static str)
        ensures
            r@ == self.checksum_name(),
    {
        match self {
            ChunkMode::Crc32 => "crc32",
            ChunkMode::NoneFast | ChunkMode::NoneUltra => "none",
        }
    }

    pub open spec fn name(self) -> Seq<char> {
        match self {
            ChunkMode::Crc32 => "crc32"@,
            ChunkMode::NoneFast => "none"@,
            ChunkMode::NoneUltra => "none-48k"@,
        }
    }

    pub fn as_str(self) -> (r: &'static str)
        ensures
            r@ == self.name(),
    {
        match self {
            ChunkMode::Crc32 => "crc32",
            ChunkMode::NoneFast => "none",
            ChunkMode::NoneUltra => "none-48k",
        }
    }

    pub open spec fn limit(self) -> usize {
        match self {
            ChunkMode::Crc32 => DEFAULT_CHUNK_BYTES,
            ChunkMode::NoneFast => FAST_CHUNK_BYTES,
            ChunkMode::NoneUltra => ULTRA_CHUNK_BYTES,
        }
    }

    pub fn max_chunk_bytes(self) -> (r: usize)
        ensures
            r == self.limit(),
            0 < r <= ULTRA_CHUNK_BYTES,
    {
        match self {
            ChunkMode::Crc32 => DEFAULT_CHUNK_BYTES,
            ChunkMode::NoneFast => FAST_CHUNK_BYTES,
            ChunkMode::NoneUltra => ULTRA_CHUNK_BYTES,
        }
    }

    pub open spec fn label(self) -> Seq<char> {
        match self {
            ChunkMode::Crc32 => "CRC32 校验模式"@,
            ChunkMode::NoneFast => "无校验高速模式"@,
            ChunkMode::NoneUltra => "无校验超高速模式（48 KiB 单包上限）"@,
        }
    }

    fn as_label(self) -> (r: &'static str)
        ensures
            r@ == self.label(),
    {
        match self {
            ChunkMode::Crc32 => "CRC32 校验模式",
            ChunkMode::NoneFast => "无校验高速模式",
            ChunkMode::NoneUltra => "无校验超高速模式（48 KiB 单包上限）",
        }
    }
}

/// What of a song is sent: the audio, a cover, a background, or lyrics.
#[derive(Clone, Debug)]
pub struct ImportAsset {
    pub kind: &'static str,
    pub path: String,
    pub size: u64,
    pub extension: Option<&'static str>,
    pub format: Option<&'static str>,
    pub width: Option<u32>,
    pub height: Option<u32>,
}

impl ImportAsset {
    pub fn audio(path: String, size: u64) -> (r: Self)
        ensures
            r == (ImportAsset {
                kind: "audio",
                path,
                size,
                extension: None,
                format: None,
                width: None,
                height: None,
            }),
    {
        ImportAsset {
            kind: "audio",
            path,
            size,
            extension: None,
            format: None,
            width: None,
            height: None,
        }
    }

    pub fn cover_bin(path: String, size: u64) -> (r: Self)
        ensures
            r == (ImportAsset {
                kind: "cover",
                path,
                size,
                extension: Some("bin"),
                format: Some(LVGL_V9_FORMAT),
                width: Some(COVER_WIDTH),
                height: Some(COVER_HEIGHT),
            }),
    {
        ImportAsset {
            kind: "cover",
            path,
            size,
            extension: Some("bin"),
            format: Some(LVGL_V9_FORMAT),
            width: Some(COVER_WIDTH),
            height: Some(COVER_HEIGHT),
        }
    }

    pub fn background_bin(path: String, size: u64) -> (r: Self)
        ensures
            r == (ImportAsset {
                kind: "background",
                path,
                size,
                extension: Some("bin"),
                format: Some(LVGL_V9_FORMAT),
                width: Some(BACKGROUND_WIDTH),
                height: Some(BACKGROUND_HEIGHT),
            }),
    {
        ImportAsset {
            kind: "background",
            path,
            size,
            extension: Some("bin"),
            format: Some(LVGL_V9_FORMAT),
            width: Some(BACKGROUND_WIDTH),
            height: Some(BACKGROUND_HEIGHT),
        }
    }

    pub fn lyrics(path: String, size: u64, format: &'static str) -> (r: Self)
        ensures
            r == (ImportAsset {
                kind: "lyrics",
                path,
                size,
                extension: None,
                format: Some(format),
                width: None,
                height: None,
            }),
    {
        ImportAsset {
            kind: "lyrics",
            path,
            size,
            extension: None,
            format: Some(format),
            width: None,
            height: None,
        }
    }
}

// ---------------------------------------------------------------- files

/// The file extensions that a kind of asset may have.
pub open spec fn allowed_extension(kind: Seq<char>, ext: Seq<char>) -> bool {
    if kind == "audio"@ {
        ext == "mp3"@
    } else if kind == "cover"@ {
        ext == "jpg"@ || ext == "jpeg"@ || ext == "png"@
    } else {
        kind == "lyrics"@ && (ext == "lrc"@ || ext == "json"@ || ext == "txt"@)
    }
}

/// The size that a picked file of a kind may have.
pub open spec fn file_limit(kind: Seq<char>) -> u64 {
    if kind == "audio"@ {
        67108864
    } else if kind == "cover"@ {
        4194304
    } else {
        2097152
    }
}

/// Why a picked file cannot be imported.
pub open spec fn file_fault(kind: Seq<char>, ext: Seq<char>, is_file: bool, size: u64) -> Option<
    Seq<char>,
> {
    if !is_file || size == 0 {
        Some("selected file is empty"@)
    } else if kind != "audio"@ && kind != "cover"@ && kind != "lyrics"@ {
        Some("unknown asset kind"@)
    } else if !allowed_extension(kind, text::lowered(ext)) {
        Some("unsupported "@ + kind + " file extension"@)
    } else if size > file_limit(kind) {
        Some("selected "@ + kind + " file exceeds import limit"@)
    } else {
        None
    }
}

/// Checks what is known of a picked file before it is read.
pub fn accepts_file(kind: &str, extension: &str, is_file: bool, size: u64) -> (r: Result<
    (),
    String,
>)
    ensures
        match r {
            Ok(_) => file_fault(kind@, extension@, is_file, size) is None,
            Err(e) => file_fault(kind@, extension@, is_file, size) == Some(e@),
        },
{
    if !is_file || size == 0 {
        return Err("selected file is empty".to_owned());
    }
    let audio = str_eq(kind, "audio");
    let cover = str_eq(kind, "cover");
    if !audio && !cover && !str_eq(kind, "lyrics") {
        return Err("unknown asset kind".to_owned());
    }
    let ext = text::to_lower(extension);
    let allowed = if audio {
        str_eq(ext.as_str(), "mp3")
    } else if cover {
        str_eq(ext.as_str(), "jpg") || str_eq(ext.as_str(), "jpeg") || str_eq(ext.as_str(), "png")
    } else {
        str_eq(ext.as_str(), "lrc") || str_eq(ext.as_str(), "json") || str_eq(ext.as_str(), "txt")
    };
    if !allowed {
        return Err(text::cat3("unsupported ", kind, " file extension"));
    }
    let limit: u64 = if audio {
        67108864
    } else if cover {
        4194304
    } else {
        2097152
    };
    if size > limit {
        return Err(text::cat3("selected ", kind, " file exceeds import limit"));
    }
    Ok(())
}

/// Describes a picked file. `duration_ms` is the length of its audio, where that
/// is known.
pub fn inspect_file(
    path: &str,
    name: &str,
    kind: &str,
    extension: &str,
    is_file: bool,
    size: u64,
    duration_ms: Option<u128>,
) -> (r: Result<SelectedFile, String>)
    ensures
        match r {
            Ok(f) => {
                &&& file_fault(kind@, extension@, is_file, size) is None
                &&& f.name@ == name@
                &&& f.path@ == path@
                &&& f.size == size
                &&& f.duration_ms == match duration_ms {
                    Some(d) => if kind@ != "audio"@ {
                        0
                    } else if d > u32::MAX {
                        u32::MAX as u128
                    } else {
                        d
                    },
                    None => 0,
                }
            },
            Err(e) => file_fault(kind@, extension@, is_file, size) == Some(e@),
        },
{
    match accepts_file(kind, extension, is_file, size) {
        Err(e) => Err(e),
        Ok(_) => {
            let duration_ms: u32 = match duration_ms {
                Some(d) => if !str_eq(kind, "audio") {
                    0
                } else if d > u32::MAX as u128 {
                    u32::MAX
                } else {
                    d as u32
                },
                None => 0,
            };
            Ok(SelectedFile { name: name.to_owned(), path: path.to_owned(), size, duration_ms })
        },
    }
}

// ---------------------------------------------------------------- assets

/// The place of a kind in the order of assets.
pub open spec fn asset_order(kind: Seq<char>) -> Option<int> {
    if kind == "audio"@ {
        Some(0)
    } else if kind == "cover"@ {
        Some(1)
    } else if kind == "background"@ {
        Some(2)
    } else if kind == "lyrics"@ {
        Some(3)
    } else {
        None
    }
}

fn order_of(kind: &str) -> (r: Option<usize>)
    ensures
        match r {
            Some(n) => asset_order(kind@) == Some(n as int),
            None => asset_order(kind@) is None,
        },
{
    if str_eq(kind, "audio") {
        Some(0)
    } else if str_eq(kind, "cover") {
        Some(1)
    } else if str_eq(kind, "background") {
        Some(2)
    } else if str_eq(kind, "lyrics") {
        Some(3)
    } else {
        None
    }
}

/// Whether an asset is an image in the format of the watch.
pub open spec fn is_lvgl(a: ImportAsset) -> bool {
    json::opt_view(a.format) == Some(LVGL_V9_FORMAT@)
}

/// Whether an image has the extension, the sides and the size that its kind
/// asks for.
pub open spec fn image_fits(a: ImportAsset) -> bool {
    &&& json::opt_view(a.extension) == Some("bin"@)
    &&& if a.kind@ == "cover"@ {
        a.width == Some(COVER_WIDTH) && a.height == Some(COVER_HEIGHT) && a.size == COVER_BIN_BYTES
    } else {
        a.kind@ == "background"@ && a.width == Some(BACKGROUND_WIDTH) && a.height == Some(
            BACKGROUND_HEIGHT,
        ) && a.size == BACKGROUND_BIN_BYTES
    }
}

pub open spec fn has_kind(assets: Seq<ImportAsset>, kind: Seq<char>) -> bool {
    exists|j: int| 0 <= j < assets.len() && (#[trigger] assets[j]).kind@ == kind
}

/// Why an asset cannot follow the assets before it.
pub open spec fn asset_fault(before: Seq<ImportAsset>, a: ImportAsset) -> Option<Seq<char>> {
    if a.size == 0 || has_kind(before, a.kind@) {
        Some("导入资源为空或重复"@)
    } else if asset_order(a.kind@) is None {
        Some("导入包含未知资源"@)
    } else if before.len() > 0 && asset_order(a.kind@)->0 < asset_order(before.last().kind@)->0 {
        Some("导入资源顺序无效"@)
    } else if is_lvgl(a) {
        if image_fits(a) {
            None
        } else {
            Some("LVGL 图片资源元数据无效"@)
        }
    } else if a.kind@ == "background"@ {
        Some("背景必须是 LVGL v9 BIN"@)
    } else {
        None
    }
}

pub open spec fn first_fault(assets: Seq<ImportAsset>) -> Option<Seq<char>>
    decreases assets.len(),
{
    if assets.len() == 0 {
        None
    } else {
        match first_fault(assets.drop_last()) {
            Some(e) => Some(e),
            None => asset_fault(assets.drop_last(), assets.last()),
        }
    }
}

/// Why some assets cannot be imported together.
pub open spec fn assets_fault(assets: Seq<ImportAsset>) -> Option<Seq<char>> {
    if assets.len() == 0 || assets.len() > 4 || assets[0].kind@ != "audio"@ {
        Some("导入必须以一个音频资源开始"@)
    } else {
        first_fault(assets)
    }
}

fn opt_is(o: Option<&'static str>, s: &str) -> (r: bool)
    ensures
        r == (json::opt_view(o) == Some(s@)),
{
    match o {
        Some(t) => str_eq(t, s),
        None => false,
    }
}

fn image_is_sound(a: &ImportAsset) -> (r: bool)
    ensures
        r == image_fits(*a),
{
    if !opt_is(a.extension, "bin") {
        return false;
    }
    let sides: Option<(u32, u32)> = match (a.width, a.height) {
        (Some(w), Some(h)) => Some((w, h)),
        _ => None,
    };
    let (w, h) = match sides {
        Some((w, h)) => (w, h),
        None => {
            return false;
        },
    };
    if str_eq(a.kind, "cover") {
        w == COVER_WIDTH && h == COVER_HEIGHT && a.size == COVER_BIN_BYTES
    } else {
        str_eq(a.kind, "background") && w == BACKGROUND_WIDTH && h == BACKGROUND_HEIGHT && a.size
            == BACKGROUND_BIN_BYTES
    }
}

fn kind_seen(assets: &[ImportAsset], n: usize, kind: &str) -> (r: bool)
    requires
        n <= assets@.len(),
    ensures
        r == has_kind(assets@.take(n as int), kind@),
{
    let mut j: usize = 0;
    while j < n
        invariant
            j <= n <= assets@.len(),
            !has_kind(assets@.take(j as int), kind@),
        decreases n - j,
    {
        if str_eq(assets[j].kind, kind) {
            assert(assets@.take(n as int)[j as int].kind@ == kind@);
            return true;
        }
        assert(!has_kind(assets@.take(j + 1), kind@)) by {
            if has_kind(assets@.take(j + 1), kind@) {
                let k = choose|k: int|
                    0 <= k < j + 1 && (#[trigger] assets@.take(j + 1)[k]).kind@ == kind@;
                if k < j {
                    assert(assets@.take(j as int)[k].kind@ == kind@);
                }
            }
        }
        j = j + 1;
    }
    false
}

proof fn lemma_first_fault_stays(assets: Seq<ImportAsset>, n: int)
    requires
        0 <= n <= assets.len(),
        first_fault(assets.take(n)) is Some,
    ensures
        first_fault(assets) == first_fault(assets.take(n)),
    decreases assets.len() - n,
{
    if n < assets.len() {
        assert(assets.take(n + 1).drop_last() =~= assets.take(n));
        lemma_first_fault_stays(assets, n + 1);
    } else {
        assert(assets.take(n) =~= assets);
    }
}

/// Checks that assets come as the protocol asks: the audio first, each kind at
/// most once and in its order, images in their fixed shape.
pub fn validate_assets(assets: &[ImportAsset]) -> (r: Result<(), String>)
    ensures
        match r {
            Ok(_) => assets_fault(assets@) is None,
            Err(e) => assets_fault(assets@) == Some(e@),
        },
{
    if assets.len() == 0 || assets.len() > 4 || !str_eq(assets[0].kind, "audio") {
        return Err("导入必须以一个音频资源开始".to_owned());
    }
    let mut previous: usize = 0;
    let mut i: usize = 0;
    while i < assets.len()
        invariant
            i <= assets@.len(),
            assets@.len() <= 4,
            assets@.len() > 0,
            assets@[0].kind@ == "audio"@,
            first_fault(assets@.take(i as int)) is None,
            i == 0 ==> previous == 0,
            i > 0 ==> asset_order(assets@[i - 1].kind@) == Some(previous as int),
        decreases assets.len() - i,
    {
        let asset = &assets[i];
        let ghost before = assets@.take(i as int);
        proof {
            assert(assets@.take(i + 1).drop_last() =~= before);
            assert(assets@.take(i + 1).last() == *asset);
            if asset_fault(before, *asset) is Some {
                lemma_first_fault_stays(assets@, i + 1);
            }
        }
        if asset.size == 0 || kind_seen(assets, i, asset.kind) {
            return Err("导入资源为空或重复".to_owned());
        }
        let order: usize = match order_of(asset.kind) {
            Some(n) => n,
            None => {
                return Err("导入包含未知资源".to_owned());
            },
        };
        if order < previous {
            return Err("导入资源顺序无效".to_owned());
        }
        previous = order;
        if opt_is(asset.format, LVGL_V9_FORMAT) {
            if !image_is_sound(asset) {
                return Err("LVGL 图片资源元数据无效".to_owned());
            }
        } else if str_eq(asset.kind, "background") {
            return Err("背景必须是 LVGL v9 BIN".to_owned());
        }
        i = i + 1;
    }
    assert(assets@.take(i as int) =~= assets@);
    Ok(())
}

proof fn lemma_fault_free(assets: Seq<ImportAsset>, i: int)
    requires
        first_fault(assets) is None,
        0 <= i < assets.len(),
    ensures
        asset_fault(assets.take(i), assets[i]) is None,
    decreases assets.len(),
{
    if i == assets.len() - 1 {
        assert(assets.take(i) =~= assets.drop_last());
    } else {
        lemma_fault_free(assets.drop_last(), i);
        assert(assets.drop_last().take(i) =~= assets.take(i));
    }
}

proof fn lemma_orders_rise(assets: Seq<ImportAsset>, i: int, j: int)
    requires
        first_fault(assets) is None,
        0 <= i < j < assets.len(),
    ensures
        asset_order(assets[i].kind@) is Some,
        asset_order(assets[j].kind@) is Some,
        asset_order(assets[i].kind@)->0 < asset_order(assets[j].kind@)->0,
    decreases j - i,
{
    lemma_fault_free(assets, j);
    lemma_fault_free(assets, i);
    let before = assets.take(j);
    assert(before[i] == assets[i]);
    assert(before.last() == assets[j - 1]);
    assert(assets[i].kind@ != assets[j].kind@);
    if i < j - 1 {
        lemma_orders_rise(assets, i, j - 1);
    }
}

/// Valid assets begin with the audio, are not empty, and each kind occurs at most
/// once, in the order audio, cover, background, lyrics.
pub proof fn valid_assets_are_ordered(assets: Seq<ImportAsset>)
    requires
        assets_fault(assets) is None,
    ensures
        1 <= assets.len() <= 4,
        assets[0].kind@ == "audio"@,
        forall|i: int|
            0 <= i < assets.len() ==> (#[trigger] assets[i]).size > 0 && asset_order(
                assets[i].kind@,
            ) is Some,
        forall|i: int, j: int|
            0 <= i < j < assets.len() ==> asset_order((#[trigger] assets[i]).kind@)->0
                < asset_order((#[trigger] assets[j]).kind@)->0,
{
    assert forall|i: int| 0 <= i < assets.len() implies (#[trigger] assets[i]).size > 0
        && asset_order(assets[i].kind@) is Some by {
        lemma_fault_free(assets, i);
    }
    assert forall|i: int, j: int| 0 <= i < j < assets.len() implies asset_order(
        (#[trigger] assets[i]).kind@,
    )->0 < asset_order((#[trigger] assets[j]).kind@)->0 by {
        lemma_orders_rise(assets, i, j);
    }
}

// ---------------------------------------------------------------- transfer

#[derive(Clone, Copy, Debug, PartialEq, Eq, Structural)]
pub enum Awaiting {
    Hello,
    Ready,
    Ack,
    AssetsDone,
    Done,
}

/// The chunk that the peer has not confirmed yet.
pub struct PendingChunk {
    pub asset: &'static str,
    pub seq: u64,
    pub offset: u64,
    pub bytes: Vec<u8>,
    pub crc32: Option<String>,
    pub retries: u8,
}

pub struct Transfer {
    pub addr: String,
    pub id: String,
    pub track_id: u64,
    pub name: String,
    pub artists: Vec<String>,
    pub album: String,
    pub album_id: u64,
    pub duration_ms: u32,
    pub assets: Vec<ImportAsset>,
    pub asset_index: usize,
    pub chunk_bytes: usize,
    pub seq: u64,
    /// The bytes of the current asset that were sent.
    pub offset: u64,
    /// The bytes of all assets that were sent.
    pub sent_total: u64,
    pub pending_chunk: Option<PendingChunk>,
    /// When the last chunk was confirmed, on a clock that counts nanoseconds.
    pub last_ack_at: Option<u64>,
    pub last_ack_bytes: u64,
    pub speed_bytes_per_second: u64,
    pub artwork_supported: bool,
    pub prefer_no_checksum: bool,
    pub prefer_ultra: bool,
    pub mode: ChunkMode,
    pub awaiting: Awaiting,
}

/// The bytes of some assets together.
pub open spec fn total_size(assets: Seq<ImportAsset>) -> nat
    decreases assets.len(),
{
    if assets.len() == 0 {
        0
    } else {
        total_size(assets.drop_last()) + assets.last().size as nat
    }
}

proof fn lemma_total_prefix(assets: Seq<ImportAsset>, n: int)
    requires
        0 <= n <= assets.len(),
    ensures
        total_size(assets.take(n)) <= total_size(assets),
        n < assets.len() ==> total_size(assets.take(n + 1)) == total_size(assets.take(n))
            + assets[n].size,
    decreases assets.len() - n,
{
    if n < assets.len() {
        assert(assets.take(n + 1).drop_last() =~= assets.take(n));
        lemma_total_prefix(assets, n + 1);
    } else {
        assert(assets.take(n) =~= assets);
    }
}

fn sum_sizes(assets: &Vec<ImportAsset>) -> (r: u64)
    requires
        total_size(assets@) <= u64::MAX,
    ensures
        r == total_size(assets@),
{
    let mut sum: u64 = 0;
    let mut i: usize = 0;
    while i < assets.len()
        invariant
            i <= assets@.len(),
            total_size(assets@) <= u64::MAX,
            sum == total_size(assets@.take(i as int)),
        decreases assets.len() - i,
    {
        proof {
            lemma_total_prefix(assets@, i as int);
            lemma_total_prefix(assets@, i + 1);
        }
        sum = sum + assets[i].size;
        i = i + 1;
    }
    assert(assets@.take(i as int) =~= assets@);
    sum
}

/// Whether a chunk is the last one that was sent.
pub open spec fn pending_fits(t: Transfer, p: PendingChunk) -> bool {
    &&& t.asset_index < t.assets@.len()
    &&& p.asset@ == t.assets@[t.asset_index as int].kind@
    &&& p.seq + 1 == t.seq
    &&& p.offset + p.bytes@.len() == t.offset
    &&& 0 < p.bytes@.len() <= t.chunk_bytes
    &&& p.retries <= MAX_CHUNK_RETRIES
}

impl Transfer {
    /// The assets are valid and their bytes can be counted; what was sent is
    /// what the position says; a chunk is awaited only while an acknowledgement
    /// is.
    pub open spec fn wf(self) -> bool {
        &&& assets_fault(self.assets@) is None
        &&& total_size(self.assets@) <= u64::MAX
        &&& self.asset_index <= self.assets@.len()
        &&& self.sent_total == total_size(self.assets@.take(self.asset_index as int)) + self.offset
        &&& self.seq <= self.offset
        &&& 0 < self.chunk_bytes <= self.mode.limit()
        &&& match self.awaiting {
            Awaiting::Hello => self.asset_index == 0 && self.offset == 0,
            Awaiting::Ready => self.asset_index < self.assets@.len() && self.offset == 0,
            Awaiting::Ack => self.asset_index < self.assets@.len() && self.offset
                <= self.assets@[self.asset_index as int].size && (self.pending_chunk is None
                ==> self.offset < self.assets@[self.asset_index as int].size),
            Awaiting::AssetsDone | Awaiting::Done => self.asset_index == self.assets@.len()
                && self.offset == 0,
        }
        &&& match self.pending_chunk {
            Some(p) => self.awaiting == Awaiting::Ack && pending_fits(self, p),
            None => true,
        }
    }

    /// Whether the next chunk is to be read.
    pub open spec fn reading(self) -> bool {
        &&& self.asset_index < self.assets@.len()
        &&& self.offset < self.assets@[self.asset_index as int].size
        &&& self.pending_chunk is None
    }

    /// The size of the next chunk.
    pub open spec fn next_count(self) -> int {
        let left = self.assets@[self.asset_index as int].size - self.offset;
        if left < self.chunk_bytes {
            left
        } else {
            self.chunk_bytes as int
        }
    }
}

/// Whether the running transfer, if any, is well formed.
pub open spec fn sound(t: Option<Transfer>) -> bool {
    match t {
        Some(t) => t.wf(),
        None => true,
    }
}

/// Once every asset was sent, the bytes that were sent are those of all assets.
pub proof fn everything_was_sent(t: Transfer)
    requires
        t.wf(),
        t.awaiting == Awaiting::AssetsDone || t.awaiting == Awaiting::Done,
    ensures
        t.sent_total == total_size(t.assets@),
{
    assert(t.assets@.take(t.asset_index as int) =~= t.assets@);
}

/// No more is ever sent than the assets hold.
pub proof fn sending_is_bounded(t: Transfer)
    requires
        t.wf(),
    ensures
        t.sent_total <= total_size(t.assets@),
{
    lemma_total_prefix(t.assets@, t.asset_index as int);
    if t.asset_index < t.assets@.len() {
        lemma_total_prefix(t.assets@, t.asset_index + 1);
    }
}

/// What the host is to do next.
pub enum ImportStep {
    Ignore,
    /// Send a message to the peer; where that fails, report to [`finish_error`].
    Send(Json),
    /// Read bytes of an asset and hand them to [`send_next_chunk`].
    Read { path: String, kind: &'static str, offset: u64, count: usize },
    /// The import is complete.
    Finished,
    /// The import failed; the status says why.
    Failed,
}

// ---------------------------------------------------------------- messages

pub open spec fn text_items(s: Seq<String>) -> Seq<JsonView> {
    s.map_values(|t: String| JsonView::Str(t@))
}

fn text_array(items: &Vec<String>) -> (r: Json)
    ensures
        r@ == JsonView::Array(text_items(items@)),
{
    let mut out: Vec<Json> = Vec::new();
    let mut i: usize = 0;
    while i < items.len()
        invariant
            i <= items@.len(),
            json::items_view(out@) == text_items(items@.take(i as int)),
        decreases items.len() - i,
    {
        let ghost before = out@;
        out.push(Json::string(items[i].as_str()));
        proof {
            assert(out@.drop_last() =~= before);
            assert(text_items(items@.take(i + 1)) =~= text_items(items@.take(i as int)).push(
                JsonView::Str(items@[i as int]@),
            ));
        }
        i = i + 1;
    }
    assert(items@.take(i as int) =~= items@);
    Json::Array(out)
}

/// The first message of an import.
pub open spec fn hello_view() -> JsonView {
    JsonView::Object(
        Map::<Seq<char>, JsonView>::empty().insert("tag"@, JsonView::Str("lyra-import-hello"@)).insert(
            "version"@,
            JsonView::UInt(PROTOCOL_VERSION as nat),
        ),
    )
}

fn hello() -> (r: Json)
    ensures
        r@ == hello_view(),
{
    let mut m = JsonObject::new();
    m.put("tag", Json::string("lyra-import-hello"));
    m.put("version", Json::UInt(PROTOCOL_VERSION));
    Json::Object(m)
}

pub open spec fn put_text(
    m: Map<Seq<char>, JsonView>,
    key: Seq<char>,
    value: Option<Seq<char>>,
) -> Map<Seq<char>, JsonView> {
    match value {
        Some(s) => m.insert(key, JsonView::Str(s)),
        None => m,
    }
}

pub open spec fn put_number(m: Map<Seq<char>, JsonView>, key: Seq<char>, value: Option<u32>) -> Map<
    Seq<char>,
    JsonView,
> {
    match value {
        Some(n) => m.insert(key, JsonView::UInt(n as nat)),
        None => m,
    }
}

/// How an asset is announced.
pub open spec fn asset_view(a: ImportAsset) -> JsonView {
    let m = Map::<Seq<char>, JsonView>::empty().insert("kind"@, JsonView::Str(a.kind@)).insert(
        "size"@,
        JsonView::UInt(a.size as nat),
    );
    let m = put_text(m, "extension"@, json::opt_view(a.extension));
    let m = put_text(m, "format"@, json::opt_view(a.format));
    let m = put_number(m, "width"@, a.width);
    JsonView::Object(put_number(m, "height"@, a.height))
}

fn announce(a: &ImportAsset) -> (r: Json)
    ensures
        r@ == asset_view(*a),
{
    let mut m = JsonObject::new();
    m.put("kind", Json::string(a.kind));
    m.put("size", Json::UInt(a.size));
    if let Some(extension) = a.extension {
        m.put("extension", Json::string(extension));
    }
    if let Some(format) = a.format {
        m.put("format", Json::string(format));
    }
    if let Some(width) = a.width {
        m.put("width", Json::UInt(width as u64));
    }
    if let Some(height) = a.height {
        m.put("height", Json::UInt(height as u64));
    }
    Json::Object(m)
}

pub open spec fn asset_items(assets: Seq<ImportAsset>) -> Seq<JsonView> {
    assets.map_values(|a: ImportAsset| asset_view(a))
}

fn asset_array(assets: &Vec<ImportAsset>) -> (r: Json)
    ensures
        r@ == JsonView::Array(asset_items(assets@)),
{
    let mut out: Vec<Json> = Vec::new();
    let mut i: usize = 0;
    while i < assets.len()
        invariant
            i <= assets@.len(),
            json::items_view(out@) == asset_items(assets@.take(i as int)),
        decreases assets.len() - i,
    {
        let ghost before = out@;
        out.push(announce(&assets[i]));
        proof {
            assert(out@.drop_last() =~= before);
            assert(asset_items(assets@.take(i + 1)) =~= asset_items(assets@.take(i as int)).push(
                asset_view(assets@[i as int]),
            ));
        }
        i = i + 1;
    }
    assert(assets@.take(i as int) =~= assets@);
    Json::Array(out)
}

pub open spec fn track_view(t: Transfer) -> JsonView {
    JsonView::Object(
        Map::<Seq<char>, JsonView>::empty().insert("id"@, JsonView::UInt(t.track_id as nat)).insert(
            "name"@,
            JsonView::Str(t.name@),
        ).insert("artists"@, JsonView::Array(text_items(t.artists@))).insert(
            "album"@,
            JsonView::Str(t.album@),
        ).insert("albumId"@, JsonView::UInt(t.album_id as nat)).insert(
            "durationMs"@,
            JsonView::UInt(t.duration_ms as nat),
        ),
    )
}

/// The message that opens a transfer.
pub open spec fn begin_view(t: Transfer) -> JsonView {
    JsonView::Object(
        Map::<Seq<char>, JsonView>::empty().insert("tag"@, JsonView::Str("lyra-import-begin"@)).insert(
            "version"@,
            JsonView::UInt(PROTOCOL_VERSION as nat),
        ).insert("id"@, JsonView::Str(t.id@)).insert("track"@, track_view(t)).insert(
            "assets"@,
            JsonView::Array(asset_items(t.assets@)),
        ).insert("checksum"@, JsonView::Str(t.mode.checksum_name())).insert(
            "chunkMode"@,
            JsonView::Str(t.mode.name()),
        ),
    )
}

fn begin(t: &Transfer) -> (r: Json)
    ensures
        r@ == begin_view(*t),
{
    let mut track = JsonObject::new();
    track.put("id", Json::UInt(t.track_id));
    track.put("name", Json::string(t.name.as_str()));
    track.put("artists", text_array(&t.artists));
    track.put("album", Json::string(t.album.as_str()));
    track.put("albumId", Json::UInt(t.album_id));
    track.put("durationMs", Json::UInt(t.duration_ms as u64));
    let mut m = JsonObject::new();
    m.put("tag", Json::string("lyra-import-begin"));
    m.put("version", Json::UInt(PROTOCOL_VERSION));
    m.put("id", Json::string(t.id.as_str()));
    m.put("track", Json::Object(track));
    m.put("assets", asset_array(&t.assets));
    m.put("checksum", Json::string(t.mode.checksum()));
    m.put("chunkMode", Json::string(t.mode.as_str()));
    Json::Object(m)
}

/// The checksum of a chunk as it is sent.
pub open spec fn crc_text(bytes: Seq<u8>) -> Seq<char> {
    codec::hex_text(stream::be_bytes(codec::crc32_spec(bytes)))
}

/// The message that carries a chunk.
pub open spec fn chunk_view(id: Seq<char>, p: PendingChunk) -> JsonView {
    JsonView::Object(
        put_text(
            Map::<Seq<char>, JsonView>::empty().insert(
                "tag"@,
                JsonView::Str("lyra-import-chunk"@),
            ).insert("id"@, JsonView::Str(id)).insert("asset"@, JsonView::Str(p.asset@)).insert(
                "seq"@,
                JsonView::UInt(p.seq as nat),
            ).insert("offset"@, JsonView::UInt(p.offset as nat)).insert(
                "encoding"@,
                JsonView::Str("base64"@),
            ).insert("data"@, JsonView::Str(codec::base64_text(p.bytes@))),
            "crc32"@,
            text::opt_text(p.crc32),
        ),
    )
}

pub fn chunk_packet(id: &str, p: &PendingChunk) -> (r: Json)
    ensures
        r@ == chunk_view(id@, *p),
{
    let mut m = JsonObject::new();
    m.put("tag", Json::string("lyra-import-chunk"));
    m.put("id", Json::string(id));
    m.put("asset", Json::string(p.asset));
    m.put("seq", Json::UInt(p.seq));
    m.put("offset", Json::UInt(p.offset));
    m.put("encoding", Json::string("base64"));
    m.put("data", Json::Str(wire::base64(p.bytes.as_slice())));
    if let Some(crc32) = &p.crc32 {
        m.put("crc32", Json::string(crc32.as_str()));
    }
    Json::Object(m)
}

/// A message that names the import, and an asset where there is one.
pub open spec fn notice_view(tag: Seq<char>, id: Seq<char>, asset: Option<Seq<char>>) -> JsonView {
    JsonView::Object(
        put_text(
            Map::<Seq<char>, JsonView>::empty().insert("tag"@, JsonView::Str(tag)).insert(
                "id"@,
                JsonView::Str(id),
            ),
            "asset"@,
            asset,
        ),
    )
}

fn notice(tag: &str, id: &str, asset: Option<&str>) -> (r: Json)
    ensures
        r@ == notice_view(tag@, id@, json::opt_view(asset)),
{
    let mut m = JsonObject::new();
    m.put("tag", Json::string(tag));
    m.put("id", Json::string(id));
    if let Some(asset) = asset {
        m.put("asset", Json::string(asset));
    }
    Json::Object(m)
}

/// The encoded bytes of any chunk leave room in an outgoing frame.
pub proof fn encoded_chunks_leave_room(t: Transfer, p: PendingChunk)
    requires
        t.wf(),
        t.pending_chunk == Some(p),
    ensures
        codec::base64_text(p.bytes@).len() + 144 < OUTGOING_FRAME_CAPACITY,
{
    codec::base64_length(p.bytes@);
}

// ---------------------------------------------------------------- start

pub struct ImportRequest {
    pub addr: String,
    pub track_id: u64,
    pub name: String,
    pub artists: Vec<String>,
    pub album: String,
    pub album_id: u64,
    pub duration_ms: u32,
    pub assets: Vec<ImportAsset>,
}

/// Why an import cannot start, whatever else runs.
pub open spec fn request_fault(r: ImportRequest) -> Option<Seq<char>> {
    if r.addr@.len() == 0 {
        Some("请选择已连接设备"@)
    } else {
        assets_fault(r.assets@)
    }
}

/// Checks an import before its files are opened.
pub fn check_request(request: &ImportRequest) -> (r: Result<(), String>)
    ensures
        match r {
            Ok(_) => request_fault(*request) is None,
            Err(e) => request_fault(*request) == Some(e@),
        },
{
    if request.addr.as_str().is_empty() {
        return Err("请选择已连接设备".to_owned());
    }
    validate_assets(request.assets.as_slice())
}

/// A transfer that waits for the peer.
pub open spec fn fresh(t: Transfer, r: ImportRequest, id: String, now: u64, mode: TransferMode) -> bool {
    t == (Transfer {
        addr: r.addr,
        id,
        track_id: r.track_id,
        name: r.name,
        artists: r.artists,
        album: r.album,
        album_id: r.album_id,
        duration_ms: r.duration_ms,
        assets: r.assets,
        asset_index: 0,
        chunk_bytes: DEFAULT_CHUNK_BYTES,
        seq: 0,
        offset: 0,
        sent_total: 0,
        pending_chunk: None,
        last_ack_at: Some(now),
        last_ack_bytes: 0,
        speed_bytes_per_second: 0,
        artwork_supported: false,
        prefer_no_checksum: mode != TransferMode::Crc32,
        prefer_ultra: mode == TransferMode::Ultra,
        mode: ChunkMode::Crc32,
        awaiting: Awaiting::Hello,
    })
}

/// Starts an import whose files are open, and gives its first message.
pub fn start(
    transfer: &mut Option<Transfer>,
    ui: &mut UiState,
    request: ImportRequest,
    id: String,
    now: u64,
) -> (r: Result<Json, String>)
    requires
        sound(*old(transfer)),
        total_size(request.assets@) <= u64::MAX,
    ensures
        sound(*final(transfer)),
        match r {
            Ok(message) => {
                &&& request_fault(request) is None
                &&& *old(transfer) is None
                &&& *final(transfer) matches Some(t)
                &&& fresh(t, request, id, now, old(ui).transfer_mode)
                &&& final(ui).status@ == "正在连接 Lyra Import 快应用…"@
                &&& final(ui).total == total_size(request.assets@)
                &&& *final(ui) == (UiState {
                    active: true,
                    sent: 0,
                    total: final(ui).total,
                    speed_bytes_per_second: 0,
                    status: final(ui).status,
                    ..*old(ui)
                })
                &&& message@ == hello_view()
            },
            Err(e) => {
                &&& *final(transfer) == *old(transfer)
                &&& *final(ui) == *old(ui)
                &&& match request_fault(request) {
                    Some(f) => e@ == f,
                    None => *old(transfer) is Some && e@ == "已有导入任务正在运行"@,
                }
            },
        },
{
    match check_request(&request) {
        Err(e) => {
            return Err(e);
        },
        Ok(_) => {},
    }
    if transfer.is_some() {
        return Err("已有导入任务正在运行".to_owned());
    }
    let total = sum_sizes(&request.assets);
    let mode = ui.transfer_mode;
    let ImportRequest {
        addr,
        track_id,
        name,
        artists,
        album,
        album_id,
        duration_ms,
        assets,
    } = request;
    assert(assets@.take(0) =~= Seq::empty());
    *transfer =
    Some(
        Transfer {
            addr,
            id,
            track_id,
            name,
            artists,
            album,
            album_id,
            duration_ms,
            assets,
            asset_index: 0,
            chunk_bytes: DEFAULT_CHUNK_BYTES,
            seq: 0,
            offset: 0,
            sent_total: 0,
            pending_chunk: None,
            last_ack_at: Some(now),
            last_ack_bytes: 0,
            speed_bytes_per_second: 0,
            artwork_supported: false,
            prefer_no_checksum: mode != TransferMode::Crc32,
            prefer_ultra: mode == TransferMode::Ultra,
            mode: ChunkMode::Crc32,
            awaiting: Awaiting::Hello,
        },
    );
    ui.active = true;
    ui.sent = 0;
    ui.total = total;
    ui.speed_bytes_per_second = 0;
    ui.status = "正在连接 Lyra Import 快应用…".to_owned();
    Ok(hello())
}

/// Names an import after the time, in nanoseconds, at which it starts.
pub fn new_id(nanos: u128) -> (r: String)
    ensures
        r@ == codec::hex_padded(nanos as nat, 32),
{
    codec::hex_number(nanos, 32)
}

/// Whether the page says that an import failed.
pub open spec fn failed(before: UiState, after: UiState, error: Seq<char>) -> bool {
    &&& after.status@ == "导入失败："@ + error
    &&& after == (UiState {
        active: false,
        speed_bytes_per_second: 0,
        status: after.status,
        ..before
    })
}

/// Ends an import that failed.
pub fn finish_error(transfer: &mut Option<Transfer>, ui: &mut UiState, error: &str)
    ensures
        *final(transfer) is None,
        failed(*old(ui), *final(ui), error@),
{
    *transfer = None;
    ui.active = false;
    ui.speed_bytes_per_second = 0;
    ui.status = text::cat("导入失败：", error);
}

/// Ends an import at the user's wish, and gives the message that tells the peer.
pub fn cancel(transfer: &mut Option<Transfer>, ui: &mut UiState) -> (r: Option<(String, Json)>)
    ensures
        *final(transfer) is None,
        final(ui).status@ == "已取消导入。"@,
        *final(ui) == (UiState {
            active: false,
            speed_bytes_per_second: 0,
            status: final(ui).status,
            ..*old(ui)
        }),
        match r {
            Some((addr, message)) => *old(transfer) matches Some(t) && addr == t.addr && message@
                == notice_view("lyra-import-cancel"@, t.id@, None),
            None => *old(transfer) is None,
        },
{
    ui.active = false;
    ui.speed_bytes_per_second = 0;
    ui.status = "已取消导入。".to_owned();
    match transfer.take() {
        Some(t) => {
            let message = notice("lyra-import-cancel", t.id.as_str(), None);
            Some((t.addr, message))
        },
        None => None,
    }
}

// ---------------------------------------------------------------- answers

/// Why an answer does not belong to what a transfer waits for.
pub open spec fn peer_fault(
    t: Transfer,
    addr: Seq<char>,
    awaiting: Awaiting,
    id: Option<Seq<char>>,
) -> Option<Seq<char>> {
    if t.addr@ != addr || t.awaiting != awaiting {
        Some("意外的导入响应状态"@)
    } else if awaiting == Awaiting::Hello && id is None {
        None
    } else if id != Some(t.id@) {
        Some("导入响应 ID 不匹配"@)
    } else {
        None
    }
}

fn same_text(a: Option<&str>, b: &str) -> (r: bool)
    ensures
        r == (json::opt_view(a) == Some(b@)),
{
    match a {
        Some(s) => str_eq(s, b),
        None => false,
    }
}

pub fn validate_peer(t: &Transfer, addr: &str, awaiting: Awaiting, id: Option<&str>) -> (r: Result<
    (),
    String,
>)
    ensures
        match r {
            Ok(_) => peer_fault(*t, addr@, awaiting, json::opt_view(id)) is None,
            Err(e) => peer_fault(*t, addr@, awaiting, json::opt_view(id)) == Some(e@),
        },
{
    if !str_eq(t.addr.as_str(), addr) || t.awaiting != awaiting {
        return Err("意外的导入响应状态".to_owned());
    }
    if awaiting == Awaiting::Hello && id.is_none() {
        return Ok(());
    }
    if !same_text(id, t.id.as_str()) {
        return Err("导入响应 ID 不匹配".to_owned());
    }
    Ok(())
}

/// Whether a list of an answer names something.
pub open spec fn offers(v: JsonView, key: Seq<char>, name: Seq<char>) -> bool {
    match v.get(key) {
        Some(JsonView::Array(items)) => items.contains(JsonView::Str(name)),
        _ => false,
    }
}

fn does_offer(v: &Json, key: &str, name: &str) -> (r: bool)
    ensures
        r == offers(v@, key@, name@),
{
    let items = match v.get(key) {
        Some(list) => match list.as_array() {
            Some(items) => items,
            None => {
                return false;
            },
        },
        None => {
            return false;
        },
    };
    proof {
        json::lemma_items_view_index(items@);
    }
    let mut i: usize = 0;
    while i < items.len()
        invariant
            i <= items@.len(),
            v@.get(key@) == Some(JsonView::Array(json::items_view(items@))),
            json::items_view(items@).len() == items@.len(),
            forall|j: int|
                0 <= j < items@.len() ==> json::items_view(items@)[j] == #[trigger] items@[j].view(),
            forall|j: int| 0 <= j < i ==> #[trigger] items@[j].view() != JsonView::Str(name@),
        decreases items.len() - i,
    {
        if same_text(items[i].as_str(), name) {
            assert(json::items_view(items@)[i as int] == items@[i as int].view());
            assert(json::items_view(items@).contains(JsonView::Str(name@)));
            return true;
        }
        i = i + 1;
    }
    assert(!json::items_view(items@).contains(JsonView::Str(name@))) by {
        if json::items_view(items@).contains(JsonView::Str(name@)) {
            let j = choose|j: int|
                0 <= j < items@.len() && json::items_view(items@)[j] == JsonView::Str(name@);
            assert(items@[j].view() == JsonView::Str(name@));
        }
    }
    false
}

fn number_is(v: &Json, key: &str, n: u64) -> (r: bool)
    ensures
        r == (v@.u64_at(key@) == Some(n as nat)),
{
    match v.u64_at(key) {
        Some(m) => m == n,
        None => false,
    }
}

// ---------------------------------------------------------------- hello

/// Whether a peer takes covers and backgrounds as images of the watch.
pub open spec fn takes_artwork(v: JsonView) -> bool {
    offers(v, "assets"@, "cover"@) && offers(v, "assets"@, "background"@) && offers(
        v,
        "imageFormats"@,
        LVGL_V9_FORMAT@,
    )
}

/// The fastest mode that both sides accept.
pub open spec fn agreed_mode(t: Transfer, v: JsonView) -> ChunkMode {
    if t.prefer_ultra && offers(v, "checksums"@, "none"@) && offers(v, "chunkModes"@, "none-48k"@) {
        ChunkMode::NoneUltra
    } else if t.prefer_no_checksum && offers(v, "checksums"@, "none"@) {
        ChunkMode::NoneFast
    } else {
        ChunkMode::Crc32
    }
}

/// Whether an asset is sent to a peer that takes no images of the watch.
pub open spec fn plain_asset(a: ImportAsset) -> bool {
    a.kind@ != "background"@ && !is_lvgl(a)
}

/// The assets that a peer is sent.
pub open spec fn kept_assets(assets: Seq<ImportAsset>, artwork: bool) -> Seq<ImportAsset> {
    if artwork {
        assets
    } else {
        assets.filter(|a: ImportAsset| plain_asset(a))
    }
}

/// A chunk size that a peer names, within the limits of a mode.
pub open spec fn limited(mode: ChunkMode, max: usize) -> usize {
    if max < 1 {
        1
    } else if max > mode.limit() {
        mode.limit()
    } else {
        max
    }
}

pub open spec fn named_limit(v: JsonView) -> usize {
    match v.u64_at("maxChunkBytes"@) {
        Some(n) => n as usize,
        None => DEFAULT_CHUNK_BYTES,
    }
}

fn limit_chunk(mode: ChunkMode, max: usize) -> (r: usize)
    ensures
        r == limited(mode, max),
        0 < r <= mode.limit(),
{
    let limit = mode.max_chunk_bytes();
    if max < 1 {
        1
    } else if max > limit {
        limit
    } else {
        max
    }
}

/// Why the greeting of a peer is refused.
pub open spec fn hello_fault(t: Transfer, addr: Seq<char>, v: JsonView) -> Option<Seq<char>> {
    if v.u64_at("version"@) != Some(PROTOCOL_VERSION as nat) || v.u64_at("window"@) != Some(1nat) {
        Some("快应用不支持 Lyra Import v2 单窗口协议"@)
    } else if !offers(v, "encodings"@, "base64"@) {
        Some("快应用不支持 base64 分片"@)
    } else {
        peer_fault(t, addr, Awaiting::Hello, None)
    }
}

/// How a greeting changes a transfer.
pub open spec fn greeted(before: Transfer, after: Transfer, v: JsonView) -> bool {
    &&& after.assets@ == kept_assets(before.assets@, takes_artwork(v))
    &&& after == (Transfer {
        artwork_supported: takes_artwork(v),
        mode: agreed_mode(before, v),
        assets: after.assets,
        chunk_bytes: limited(agreed_mode(before, v), named_limit(v)),
        awaiting: Awaiting::Ready,
        ..before
    })
}

pub open spec fn greeting_status(artwork: bool, mode: ChunkMode) -> Seq<char> {
    if artwork {
        "快应用已连接，正在准备存储（"@ + mode.label() + "）…"@
    } else {
        "快应用版本不支持 BIN 封面/背景，将仅导入音频和歌词（"@ + mode.label() + "）…"@
    }
}

/// What the page shows after a greeting.
pub open spec fn greeting_shown(before: UiState, after: UiState, t: Transfer) -> bool {
    &&& after.status@ == greeting_status(t.artwork_supported, t.mode)
    &&& after.total == if t.artwork_supported {
        before.total as nat
    } else {
        total_size(t.assets@)
    }
    &&& after == (UiState { total: after.total, status: after.status, ..before })
}

proof fn lemma_filter_total(assets: Seq<ImportAsset>)
    ensures
        total_size(kept_assets(assets, false)) <= total_size(assets),
    decreases assets.len(),
{
    let p = |a: ImportAsset| plain_asset(a);
    reveal(Seq::filter);
    if assets.len() > 0 {
        lemma_filter_total(assets.drop_last());
        let rest = assets.drop_last().filter(p);
        if p(assets.last()) {
            assert(assets.filter(p) =~= rest.push(assets.last()));
            assert(rest.push(assets.last()).drop_last() =~= rest);
        }
    }
}

/// What `filter` keeps of fault-free assets is fault-free.
proof fn lemma_filter_valid(assets: Seq<ImportAsset>)
    requires
        first_fault(assets) is None,
    ensures
        first_fault(kept_assets(assets, false)) is None,
        kept_assets(assets, false).len() <= assets.len(),
        forall|i: int|
            0 <= i < kept_assets(assets, false).len() ==> assets.contains(
                #[trigger] kept_assets(assets, false)[i],
            ),
    decreases assets.len(),
{
    let p = |a: ImportAsset| plain_asset(a);
    reveal(Seq::filter);
    if assets.len() > 0 {
        let rest = assets.drop_last();
        lemma_filter_valid(rest);
        let kept = rest.filter(p);
        let last = assets.last();
        assert forall|i: int| 0 <= i < kept.len() implies assets.contains(#[trigger] kept[i]) by {
            assert(rest.contains(kept[i]));
            let j = choose|j: int| 0 <= j < rest.len() && rest[j] == kept[i];
            assert(assets[j] == kept[i]);
        }
        if p(last) {
            assert(assets.filter(p) =~= kept.push(last));
            assert(kept.push(last).drop_last() =~= kept);
            lemma_fault_free(assets, assets.len() - 1);
            assert(assets.take(assets.len() - 1) =~= rest);
            if has_kind(kept, last.kind@) {
                let k = choose|k: int| 0 <= k < kept.len() && (#[trigger] kept[k]).kind@ == last.kind@;
                assert(rest.contains(kept[k]));
                let j = choose|j: int| 0 <= j < rest.len() && rest[j] == kept[k];
                assert(rest[j].kind@ == last.kind@);
            }
            if kept.len() > 0 {
                assert(rest.contains(kept[kept.len() - 1]));
                let j = choose|j: int| 0 <= j < rest.len() && rest[j] == kept.last();
                lemma_orders_rise(assets, j, assets.len() - 1);
            }
            assert(asset_fault(kept, last) is None);
            assert(assets[assets.len() - 1] == last);
            assert forall|i: int| 0 <= i < kept.push(last).len() implies assets.contains(
                #[trigger] kept.push(last)[i],
            ) by {
                if i < kept.len() {
                    assert(kept.push(last)[i] == kept[i]);
                }
            }
        } else {
            assert(assets.filter(p) =~= kept);
        }
    }
}

proof fn lemma_filter_first(assets: Seq<ImportAsset>)
    requires
        assets.len() > 0,
        plain_asset(assets[0]),
    ensures
        kept_assets(assets, false).len() > 0,
        kept_assets(assets, false)[0] == assets[0],
    decreases assets.len(),
{
    let p = |a: ImportAsset| plain_asset(a);
    reveal(Seq::filter);
    if assets.len() == 1 {
        assert(assets.drop_last() =~= Seq::empty());
        assert(assets.drop_last().filter(p) =~= Seq::empty());
        assert(assets.last() == assets[0]);
        assert(p(assets[0]));
        assert(assets.filter(p) =~= Seq::empty().push(assets[0]));
    } else {
        lemma_filter_first(assets.drop_last());
        let kept = assets.drop_last().filter(p);
        if p(assets.last()) {
            assert(assets.filter(p) =~= kept.push(assets.last()));
        } else {
            assert(assets.filter(p) =~= kept);
        }
    }
}

/// Assets without the images of the watch are valid where all were, and still
/// begin with the audio.
pub proof fn plain_assets_stay_valid(assets: Seq<ImportAsset>)
    requires
        assets_fault(assets) is None,
    ensures
        assets_fault(kept_assets(assets, false)) is None,
        total_size(kept_assets(assets, false)) <= total_size(assets),
{
    lemma_filter_total(assets);
    lemma_filter_valid(assets);
    lemma_fault_free(assets, 0);
    reveal_strlit("audio");
    reveal_strlit("background");
    reveal_strlit("cover");
    assert("audio"@.len() == 5);
    assert("cover"@.len() == 5);
    assert("audio"@[0] != "cover"@[0]);
    lemma_filter_first(assets);
}

fn drop_artwork(assets: &mut Vec<ImportAsset>)
    ensures
        final(assets)@ == kept_assets(old(assets)@, false),
{
    let ghost all = assets@;
    let ghost p = |a: ImportAsset| plain_asset(a);
    let ghost mut seen: int = 0;
    let mut i: usize = 0;
    proof {
        assert(all.take(0).filter(p) =~= Seq::empty()) by {
            reveal(Seq::filter);
        }
        assert(all.take(0).filter(p) + all.skip(0) =~= all);
    }
    while i < assets.len()
        invariant
            0 <= seen <= all.len(),
            p == (|a: ImportAsset| plain_asset(a)),
            i == all.take(seen).filter(p).len(),
            assets@ == all.take(seen).filter(p) + all.skip(seen),
        decreases assets.len() - i,
    {
        let ghost kept = all.take(seen).filter(p);
        assert(assets@[i as int] == all[seen]);
        let plain = !str_eq(assets[i].kind, "background") && !opt_is(assets[i].format, LVGL_V9_FORMAT);
        proof {
            reveal(Seq::filter);
            assert(all.take(seen + 1).drop_last() =~= all.take(seen));
            assert(all.take(seen + 1).last() == all[seen]);
        }
        if plain {
            proof {
                assert(all.take(seen + 1).filter(p) =~= kept.push(all[seen]));
                assert(kept + all.skip(seen) =~= kept.push(all[seen]) + all.skip(seen + 1));
            }
            i = i + 1;
        } else {
            let _ = assets.remove(i);
            proof {
                assert(all.take(seen + 1).filter(p) =~= kept);
                assert(assets@ =~= kept + all.skip(seen + 1));
            }
        }
        proof {
            seen = seen + 1;
        }
    }
    proof {
        assert(all.skip(seen).len() == 0);
        assert(all.take(seen) =~= all);
        assert(assets@ =~= all.filter(p));
    }
}

/// Takes the greeting of the peer: agrees on the mode and the chunk size, leaves
/// out images that the peer does not take, and opens the transfer.
pub fn handle_hello(t: &mut Transfer, ui: &mut UiState, addr: &str, value: &Json) -> (r: Result<
    ImportStep,
    String,
>)
    requires
        old(t).wf(),
    ensures
        match r {
            Ok(step) => {
                &&& hello_fault(*old(t), addr@, value@) is None
                &&& greeted(*old(t), *final(t), value@)
                &&& greeting_shown(*old(ui), *final(ui), *final(t))
                &&& step matches ImportStep::Send(m) && m@ == begin_view(*final(t))
                &&& final(t).wf()
            },
            Err(e) => hello_fault(*old(t), addr@, value@) == Some(e@) && *final(t) == *old(t)
                && *final(ui) == *old(ui),
        },
{
    if !number_is(value, "version", PROTOCOL_VERSION) || !number_is(value, "window", 1) {
        return Err("快应用不支持 Lyra Import v2 单窗口协议".to_owned());
    }
    if !does_offer(value, "encodings", "base64") {
        return Err("快应用不支持 base64 分片".to_owned());
    }
    let no_checksum = does_offer(value, "checksums", "none");
    let ultra = does_offer(value, "chunkModes", "none-48k");
    let artwork = does_offer(value, "assets", "cover") && does_offer(value, "assets", "background")
        && does_offer(value, "imageFormats", LVGL_V9_FORMAT);
    match validate_peer(t, addr, Awaiting::Hello, None) {
        Err(e) => {
            return Err(e);
        },
        Ok(_) => {},
    }
    t.artwork_supported = artwork;
    t.mode =
    if t.prefer_ultra && no_checksum && ultra {
        ChunkMode::NoneUltra
    } else if t.prefer_no_checksum && no_checksum {
        ChunkMode::NoneFast
    } else {
        ChunkMode::Crc32
    };
    let max: usize = match value.u64_at("maxChunkBytes") {
        Some(n) => n as usize,
        None => DEFAULT_CHUNK_BYTES,
    };
    proof {
        plain_assets_stay_valid(old(t).assets@);
    }
    if !artwork {
        drop_artwork(&mut t.assets);
        ui.total = sum_sizes(&t.assets);
    }
    t.chunk_bytes = limit_chunk(t.mode, max);
    t.awaiting = Awaiting::Ready;
    assert(t.assets@.take(0) =~= old(t).assets@.take(0));
    let label = t.mode.as_label();
    ui.status =
    if artwork {
        text::cat3("快应用已连接，正在准备存储（", label, "）…")
    } else {
        text::cat3("快应用版本不支持 BIN 封面/背景，将仅导入音频和歌词（", label, "）…")
    };
    Ok(ImportStep::Send(begin(t)))
}

// ---------------------------------------------------------------- ready

pub open spec fn asset_label(kind: Seq<char>) -> Seq<char> {
    if kind == "audio"@ {
        "音频"@
    } else if kind == "cover"@ {
        "封面"@
    } else if kind == "background"@ {
        "播放页背景"@
    } else if kind == "lyrics"@ {
        "歌词"@
    } else {
        "资源"@
    }
}

/// The status while an asset is sent.
pub open spec fn asset_status(kind: Seq<char>, artwork: bool) -> Seq<char> {
    "正在传输"@ + asset_label(kind) + (if artwork {
        ""@
    } else {
        "（当前快应用不支持 BIN 封面/背景）"@
    }) + "…"@
}

fn update_asset_status(t: &Transfer, ui: &mut UiState)
    requires
        t.asset_index < t.assets@.len(),
    ensures
        final(ui).status@ == asset_status(
            t.assets@[t.asset_index as int].kind@,
            t.artwork_supported,
        ),
        *final(ui) == (UiState { status: final(ui).status, ..*old(ui) }),
{
    let kind = t.assets[t.asset_index].kind;
    let label = if str_eq(kind, "audio") {
        "音频"
    } else if str_eq(kind, "cover") {
        "封面"
    } else if str_eq(kind, "background") {
        "播放页背景"
    } else if str_eq(kind, "lyrics") {
        "歌词"
    } else {
        "资源"
    };
    let compatibility = if t.artwork_supported {
        ""
    } else {
        "（当前快应用不支持 BIN 封面/背景）"
    };
    let mut status = text::cat3("正在传输", label, compatibility);
    status.append("…");
    ui.status = status;
}

/// Whether an optional name is missing where it is owed, or is another one.
pub open spec fn name_differs(given: Option<Seq<char>>, name: Seq<char>, owed: bool) -> bool {
    match given {
        Some(g) => g != name,
        None => owed,
    }
}

fn does_differ(given: Option<&str>, name: &str, owed: bool) -> (r: bool)
    ensures
        r == name_differs(json::opt_view(given), name@, owed),
{
    match given {
        Some(g) => !str_eq(g, name),
        None => owed,
    }
}

/// Why the answer that asks for an asset is refused.
pub open spec fn ready_fault(t: Transfer, addr: Seq<char>, v: JsonView) -> Option<Seq<char>> {
    match peer_fault(t, addr, Awaiting::Ready, v.str_at("id"@)) {
        Some(e) => Some(e),
        None => if v.str_at("asset"@) != Some(t.assets@[t.asset_index as int].kind@) || v.u64_at(
            "nextSeq"@,
        ) != Some(0nat) || v.u64_at("nextOffset"@) != Some(0nat) || v.u64_at("window"@) != Some(
            1nat,
        ) {
            Some("快应用返回了无效资源起点"@)
        } else if name_differs(
            v.str_at("checksum"@),
            t.mode.checksum_name(),
            t.mode != ChunkMode::Crc32,
        ) {
            Some("快应用返回的校验模式不一致"@)
        } else if name_differs(
            v.str_at("chunkMode"@),
            t.mode.name(),
            t.mode == ChunkMode::NoneUltra,
        ) {
            Some("快应用返回的分片模式不一致"@)
        } else if v.u64_at("maxChunkBytes"@) is None {
            Some("快应用未返回分片上限"@)
        } else {
            None
        },
    }
}

pub open spec fn lesser(a: usize, b: usize) -> usize {
    if b < a {
        b
    } else {
        a
    }
}

/// Whether a step asks for the next chunk of a transfer.
pub open spec fn reads_next(step: ImportStep, t: Transfer) -> bool {
    &&& step matches ImportStep::Read { path, kind, offset, count }
    &&& path == t.assets@[t.asset_index as int].path
    &&& kind@ == t.assets@[t.asset_index as int].kind@
    &&& offset == t.offset
    &&& count == t.next_count()
}

/// Asks for the next chunk.
fn plan_chunk(t: &Transfer) -> (r: ImportStep)
    requires
        t.reading(),
    ensures
        reads_next(r, *t),
{
    let asset = &t.assets[t.asset_index];
    let left: u64 = asset.size - t.offset;
    let count: usize = if left < t.chunk_bytes as u64 {
        left as usize
    } else {
        t.chunk_bytes
    };
    ImportStep::Read { path: asset.path.clone(), kind: asset.kind, offset: t.offset, count }
}

/// Takes the answer that asks for an asset, and asks for its first chunk.
pub fn handle_ready(t: &mut Transfer, ui: &mut UiState, addr: &str, value: &Json) -> (r: Result<
    ImportStep,
    String,
>)
    requires
        old(t).wf(),
    ensures
        match r {
            Ok(step) => {
                &&& ready_fault(*old(t), addr@, value@) is None
                &&& *final(t) == (Transfer {
                    chunk_bytes: lesser(
                        old(t).chunk_bytes,
                        limited(old(t).mode, named_limit(value@)),
                    ),
                    ..*old(t)
                })
                &&& final(ui).status@ == asset_status(
                    old(t).assets@[old(t).asset_index as int].kind@,
                    old(t).artwork_supported,
                )
                &&& *final(ui) == (UiState { status: final(ui).status, ..*old(ui) })
                &&& reads_next(step, *final(t))
                &&& final(t).wf()
                &&& final(t).reading()
            },
            Err(e) => ready_fault(*old(t), addr@, value@) == Some(e@) && *final(t) == *old(t)
                && *final(ui) == *old(ui),
        },
{
    match validate_peer(t, addr, Awaiting::Ready, value.str_at("id")) {
        Err(e) => {
            return Err(e);
        },
        Ok(_) => {},
    }
    proof {
        valid_assets_are_ordered(t.assets@);
    }
    if !same_text(value.str_at("asset"), t.assets[t.asset_index].kind) || !number_is(
        value,
        "nextSeq",
        0,
    ) || !number_is(value, "nextOffset", 0) || !number_is(value, "window", 1) {
        return Err("快应用返回了无效资源起点".to_owned());
    }
    if does_differ(value.str_at("checksum"), t.mode.checksum(), t.mode != ChunkMode::Crc32) {
        return Err("快应用返回的校验模式不一致".to_owned());
    }
    if does_differ(value.str_at("chunkMode"), t.mode.as_str(), t.mode == ChunkMode::NoneUltra) {
        return Err("快应用返回的分片模式不一致".to_owned());
    }
    let max: usize = match value.u64_at("maxChunkBytes") {
        Some(n) => n as usize,
        None => {
            return Err("快应用未返回分片上限".to_owned());
        },
    };
    let named = limit_chunk(t.mode, max);
    if named < t.chunk_bytes {
        t.chunk_bytes = named;
    }
    update_asset_status(t, ui);
    Ok(plan_chunk(t))
}

// ---------------------------------------------------------------- chunks

/// The chunk that some bytes of the current asset make.
pub open spec fn chunk_of(t: Transfer, p: PendingChunk, bytes: Seq<u8>) -> bool {
    &&& p.asset@ == t.assets@[t.asset_index as int].kind@
    &&& p.seq == t.seq
    &&& p.offset == t.offset
    &&& p.bytes@ == bytes
    &&& text::opt_text(p.crc32) == if t.mode == ChunkMode::Crc32 {
        Some(crc_text(bytes))
    } else {
        None
    }
    &&& p.retries == 0
}

/// How a transfer changes when a chunk is sent.
pub open spec fn chunk_sent(before: Transfer, after: Transfer, bytes: Seq<u8>) -> bool {
    &&& after.pending_chunk matches Some(p)
    &&& chunk_of(before, p, bytes)
    &&& after.seq == before.seq + 1
    &&& after.offset == before.offset + bytes.len()
    &&& after.sent_total == before.sent_total + bytes.len()
    &&& after == (Transfer {
        pending_chunk: after.pending_chunk,
        seq: after.seq,
        offset: after.offset,
        sent_total: after.sent_total,
        awaiting: Awaiting::Ack,
        ..before
    })
}

fn take_chunk(t: &mut Transfer, bytes: Vec<u8>) -> (r: Json)
    requires
        old(t).wf(),
        old(t).reading(),
        bytes@.len() == old(t).next_count(),
    ensures
        chunk_sent(*old(t), *final(t), bytes@),
        r@ == chunk_view(old(t).id@, final(t).pending_chunk->0),
        final(t).wf(),
{
    let crc32: Option<String> = if t.mode == ChunkMode::Crc32 {
        Some(stream::hex8(wire::crc32(bytes.as_slice())))
    } else {
        None
    };
    let count: u64 = bytes.len() as u64;
    let chunk = PendingChunk {
        asset: t.assets[t.asset_index].kind,
        seq: t.seq,
        offset: t.offset,
        bytes,
        crc32,
        retries: 0,
    };
    let packet = chunk_packet(t.id.as_str(), &chunk);
    proof {
        lemma_total_prefix(t.assets@, t.asset_index as int);
        lemma_total_prefix(t.assets@, t.asset_index + 1);
    }
    t.pending_chunk = Some(chunk);
    t.seq = t.seq + 1;
    t.offset = t.offset + count;
    t.sent_total = t.sent_total + count;
    t.awaiting = Awaiting::Ack;
    packet
}

/// Why no chunk can be sent; `unread` says why the bytes could not be read.
pub open spec fn send_fault(
    transfer: Option<Transfer>,
    addr: Seq<char>,
    unread: Option<Seq<char>>,
) -> Option<Seq<char>> {
    match transfer {
        None => Some("没有活动导入"@),
        Some(t) => if t.asset_index >= t.assets@.len() {
            Some("资源索引越界"@)
        } else if t.addr@ != addr || t.offset >= t.assets@[t.asset_index as int].size {
            Some("导入会话设备或资源偏移无效"@)
        } else if unread is Some {
            unread
        } else if t.pending_chunk is Some {
            Some("上一分片仍在等待确认"@)
        } else {
            None
        },
    }
}

pub open spec fn unread(bytes: Result<Vec<u8>, String>) -> Option<Seq<char>> {
    match bytes {
        Ok(_) => None,
        Err(e) => Some(e@),
    }
}

fn take_bytes(t: &Transfer, addr: &str, bytes: Result<Vec<u8>, String>) -> (r: Result<
    Vec<u8>,
    String,
>)
    ensures
        match r {
            Ok(b) => send_fault(Some(*t), addr@, unread(bytes)) is None && bytes
                == Ok::<Vec<u8>, String>(b),
            Err(e) => send_fault(Some(*t), addr@, unread(bytes)) == Some(e@),
        },
{
    if t.asset_index >= t.assets.len() {
        return Err("资源索引越界".to_owned());
    }
    if !str_eq(t.addr.as_str(), addr) || t.offset >= t.assets[t.asset_index].size {
        return Err("导入会话设备或资源偏移无效".to_owned());
    }
    match bytes {
        Err(e) => Err(e),
        Ok(b) => if t.pending_chunk.is_some() {
            Err("上一分片仍在等待确认".to_owned())
        } else {
            Ok(b)
        },
    }
}

/// Sends the chunk that was read, or ends the import where that cannot be.
pub fn send_next_chunk(
    transfer: &mut Option<Transfer>,
    ui: &mut UiState,
    addr: &str,
    bytes: Result<Vec<u8>, String>,
) -> (step: ImportStep)
    requires
        sound(*old(transfer)),
        bytes matches Ok(b) ==> (*old(transfer) matches Some(t) ==> t.reading() ==> b@.len()
            == t.next_count()),
    ensures
        sound(*final(transfer)),
        match send_fault(*old(transfer), addr@, unread(bytes)) {
            None => {
                &&& *final(transfer) matches Some(t)
                &&& chunk_sent(old(transfer)->0, t, bytes->Ok_0@)
                &&& step matches ImportStep::Send(m)
                &&& m@ == chunk_view(t.id@, t.pending_chunk->0)
                &&& *final(ui) == *old(ui)
            },
            Some(e) => step is Failed && *final(transfer) is None && failed(*old(ui), *final(ui), e),
        },
{
    match transfer.take() {
        Some(mut t) => match take_bytes(&t, addr, bytes) {
            Ok(b) => {
                let packet = take_chunk(&mut t, b);
                *transfer = Some(t);
                ImportStep::Send(packet)
            },
            Err(e) => {
                finish_error(transfer, ui, e.as_str());
                ImportStep::Failed
            },
        },
        None => {
            finish_error(transfer, ui, "没有活动导入");
            ImportStep::Failed
        },
    }
}

/// While a chunk is not confirmed, no other one is read or sent.
pub proof fn one_chunk_in_flight(before: Transfer, after: Transfer, bytes: Seq<u8>)
    requires
        chunk_sent(before, after, bytes),
    ensures
        !after.reading(),
        send_fault(Some(after), after.addr@, None) is Some,
{
}

// ---------------------------------------------------------------- ack

/// Why an acknowledgement is refused.
pub open spec fn ack_fault(t: Transfer, addr: Seq<char>, v: JsonView) -> Option<Seq<char>> {
    match peer_fault(t, addr, Awaiting::Ack, v.str_at("id"@)) {
        Some(e) => Some(e),
        None => if t.pending_chunk is None {
            Some("没有等待确认的分片"@)
        } else if v.str_at("asset"@) != Some(t.assets@[t.asset_index as int].kind@) || v.u64_at(
            "nextSeq"@,
        ) != Some(t.seq as nat) || v.u64_at("nextOffset"@) != Some(t.offset as nat) || v.u64_at(
            "receivedBytes"@,
        ) != Some(t.sent_total as nat) {
            Some("累计 ACK 与已发送位置不一致"@)
        } else {
            None
        },
    }
}

/// The bytes that were acknowledged since the last time, and the time since then.
pub open spec fn paced(t: Transfer, now: u64) -> Option<(u64, u64)> {
    match t.last_ack_at {
        Some(last) => if last < now {
            Some(
                (
                    if t.last_ack_bytes < t.sent_total {
                        (t.sent_total - t.last_ack_bytes) as u64
                    } else {
                        0
                    },
                    (now - last) as u64,
                ),
            )
        } else {
            None
        },
        None => None,
    }
}

/// The bytes and the time since the last acknowledgement, where time passed.
pub fn pace(t: &Transfer, now: u64) -> (r: Option<(u64, u64)>)
    ensures
        match r {
            Some((bytes, nanos)) => {
                &&& t.last_ack_at matches Some(last) && last < now && nanos == now - last
                &&& bytes == if t.sent_total > t.last_ack_bytes {
                    t.sent_total - t.last_ack_bytes
                } else {
                    0
                }
            },
            None => match t.last_ack_at {
                Some(last) => now <= last,
                None => true,
            },
        },
        r == paced(*t, now),
{
    match t.last_ack_at {
        Some(last) => if now > last {
            let bytes: u64 = if t.sent_total > t.last_ack_bytes {
                t.sent_total - t.last_ack_bytes
            } else {
                0
            };
            Some((bytes, now - last))
        } else {
            None
        },
        None => None,
    }
}

/// The smoothed speed after an acknowledgement: a quarter of the newest sample
/// and three quarters of what was known.
pub open spec fn smoothed(t: Transfer, now: u64, sample: u64) -> int {
    match t.last_ack_at {
        None => 0,
        Some(last) => if now <= last {
            t.speed_bytes_per_second as int
        } else if t.speed_bytes_per_second == 0 {
            sample as int
        } else {
            let tripled = if 3 * t.speed_bytes_per_second > u64::MAX {
                u64::MAX as int
            } else {
                3 * t.speed_bytes_per_second
            };
            (tripled + sample) / 4
        },
    }
}

fn smooth(t: &Transfer, now: u64, sample: u64) -> (r: u64)
    ensures
        r == smoothed(*t, now, sample),
{
    match t.last_ack_at {
        None => 0,
        Some(last) => if now <= last {
            t.speed_bytes_per_second
        } else if t.speed_bytes_per_second == 0 {
            sample
        } else {
            let tripled: u128 = 3 * t.speed_bytes_per_second as u128;
            let capped: u128 = if tripled > u64::MAX as u128 {
                u64::MAX as u128
            } else {
                tripled
            };
            ((capped + sample as u128) / 4) as u64
        },
    }
}

/// A transfer whose last chunk is confirmed.
pub open spec fn confirmed(before: Transfer, now: u64, sample: u64) -> Transfer {
    Transfer {
        pending_chunk: None,
        last_ack_at: Some(now),
        last_ack_bytes: before.sent_total,
        speed_bytes_per_second: smoothed(before, now, sample) as u64,
        ..before
    }
}

/// A transfer that goes on to its next asset.
pub open spec fn asset_ended(before: Transfer) -> Transfer {
    Transfer {
        asset_index: (before.asset_index + 1) as usize,
        seq: 0,
        offset: 0,
        awaiting: if before.asset_index + 1 == before.assets@.len() {
            Awaiting::AssetsDone
        } else {
            Awaiting::Ready
        },
        ..before
    }
}

/// Takes an acknowledgement: the next chunk is read, or the asset is ended.
/// `sample` is the speed since the last acknowledgement, in bytes per second.
pub fn handle_ack(
    t: &mut Transfer,
    ui: &mut UiState,
    addr: &str,
    value: &Json,
    now: u64,
    sample: u64,
) -> (r: Result<ImportStep, String>)
    requires
        old(t).wf(),
    ensures
        match r {
            Ok(step) => {
                let done = confirmed(*old(t), now, sample);
                &&& ack_fault(*old(t), addr@, value@) is None
                &&& *final(ui) == (UiState {
                    sent: done.sent_total,
                    speed_bytes_per_second: done.speed_bytes_per_second,
                    ..*old(ui)
                })
                &&& if done.offset == done.assets@[done.asset_index as int].size {
                    &&& *final(t) == asset_ended(done)
                    &&& step matches ImportStep::Send(m)
                    &&& m@ == notice_view(
                        "lyra-import-asset-end"@,
                        done.id@,
                        Some(done.assets@[done.asset_index as int].kind@),
                    )
                } else {
                    *final(t) == done && reads_next(step, done) && done.reading()
                }
                &&& final(t).wf()
            },
            Err(e) => ack_fault(*old(t), addr@, value@) == Some(e@) && *final(t) == *old(t)
                && *final(ui) == *old(ui),
        },
{
    match validate_peer(t, addr, Awaiting::Ack, value.str_at("id")) {
        Err(e) => {
            return Err(e);
        },
        Ok(_) => {},
    }
    if t.pending_chunk.is_none() {
        return Err("没有等待确认的分片".to_owned());
    }
    let kind = t.assets[t.asset_index].kind;
    let size: u64 = t.assets[t.asset_index].size;
    if !same_text(value.str_at("asset"), kind) || !number_is(value, "nextSeq", t.seq) || !number_is(
        value,
        "nextOffset",
        t.offset,
    ) || !number_is(value, "receivedBytes", t.sent_total) {
        return Err("累计 ACK 与已发送位置不一致".to_owned());
    }
    let speed = smooth(t, now, sample);
    t.pending_chunk = None;
    t.last_ack_at = Some(now);
    t.last_ack_bytes = t.sent_total;
    t.speed_bytes_per_second = speed;
    ui.sent = t.sent_total;
    ui.speed_bytes_per_second = speed;
    if t.offset == size {
        let message = notice("lyra-import-asset-end", t.id.as_str(), Some(kind));
        proof {
            lemma_total_prefix(t.assets@, t.asset_index as int);
        }
        t.asset_index = t.asset_index + 1;
        t.seq = 0;
        t.offset = 0;
        t.awaiting =
        if t.asset_index == t.assets.len() {
            Awaiting::AssetsDone
        } else {
            Awaiting::Ready
        };
        Ok(ImportStep::Send(message))
    } else {
        Ok(plan_chunk(t))
    }
}

// ---------------------------------------------------------------- retry

/// Why a chunk is not sent once more.
pub open spec fn claim_fault(
    p: PendingChunk,
    asset: Option<Seq<char>>,
    seq: Option<nat>,
    offset: Option<nat>,
) -> Option<Seq<char>> {
    if asset != Some(p.asset@) || seq != Some(p.seq as nat) || offset != Some(p.offset as nat) {
        Some("重传请求与等待确认的分片不一致"@)
    } else if p.retries >= MAX_CHUNK_RETRIES {
        Some("分片已达到最多 2 次重传"@)
    } else {
        None
    }
}

pub open spec fn opt_nat(o: Option<u64>) -> Option<nat> {
    match o {
        Some(n) => Some(n as nat),
        None => None,
    }
}

/// Counts one more attempt at a chunk, where exactly this chunk is asked for.
pub fn claim_chunk_retry(
    p: &mut PendingChunk,
    asset: Option<&str>,
    seq: Option<u64>,
    offset: Option<u64>,
) -> (r: Result<u8, String>)
    ensures
        match r {
            Ok(n) => {
                &&& claim_fault(*old(p), json::opt_view(asset), opt_nat(seq), opt_nat(offset)) is None
                &&& n == old(p).retries + 1
                &&& n <= MAX_CHUNK_RETRIES
                &&& *final(p) == (PendingChunk { retries: n, ..*old(p) })
            },
            Err(e) => *final(p) == *old(p) && claim_fault(
                *old(p),
                json::opt_view(asset),
                opt_nat(seq),
                opt_nat(offset),
            ) == Some(e@),
        },
{
    let same_seq = match seq {
        Some(n) => n == p.seq,
        None => false,
    };
    let same_offset = match offset {
        Some(n) => n == p.offset,
        None => false,
    };
    if !same_text(asset, p.asset) || !same_seq || !same_offset {
        return Err("重传请求与等待确认的分片不一致".to_owned());
    }
    if p.retries >= MAX_CHUNK_RETRIES {
        return Err("分片已达到最多 2 次重传".to_owned());
    }
    p.retries = p.retries + 1;
    Ok(p.retries)
}

/// Why a request to send a chunk once more is refused.
pub open spec fn retry_fault(t: Transfer, addr: Seq<char>, v: JsonView) -> Option<Seq<char>> {
    match peer_fault(t, addr, Awaiting::Ack, v.str_at("id"@)) {
        Some(e) => Some(e),
        None => match t.pending_chunk {
            None => Some("没有可重传的分片"@),
            Some(p) => claim_fault(p, v.str_at("asset"@), v.u64_at("seq"@), v.u64_at("offset"@)),
        },
    }
}

/// Sends the awaited chunk once more, unchanged.
pub fn handle_retry(t: &mut Transfer, ui: &mut UiState, addr: &str, value: &Json) -> (r: Result<
    ImportStep,
    String,
>)
    requires
        old(t).wf(),
    ensures
        match r {
            Ok(step) => {
                let p = old(t).pending_chunk->0;
                &&& retry_fault(*old(t), addr@, value@) is None
                &&& *final(t) == (Transfer {
                    pending_chunk: Some(PendingChunk { retries: (p.retries + 1) as u8, ..p }),
                    ..*old(t)
                })
                &&& final(ui).status@ == "分片校验失败，正在进行第 "@ + text::decimal(
                    (p.retries + 1) as nat,
                ) + "/2 次重传…"@
                &&& *final(ui) == (UiState { status: final(ui).status, ..*old(ui) })
                &&& step matches ImportStep::Send(m) && m@ == chunk_view(old(t).id@, p)
                &&& final(t).wf()
            },
            Err(e) => retry_fault(*old(t), addr@, value@) == Some(e@) && *final(t) == *old(t)
                && *final(ui) == *old(ui),
        },
{
    match validate_peer(t, addr, Awaiting::Ack, value.str_at("id")) {
        Err(e) => {
            return Err(e);
        },
        Ok(_) => {},
    }
    let mut p = match t.pending_chunk.take() {
        Some(p) => p,
        None => {
            return Err("没有可重传的分片".to_owned());
        },
    };
    let claimed = claim_chunk_retry(
        &mut p,
        value.str_at("asset"),
        value.u64_at("seq"),
        value.u64_at("offset"),
    );
    match claimed {
        Err(e) => {
            t.pending_chunk = Some(p);
            Err(e)
        },
        Ok(retry) => {
            let packet = chunk_packet(t.id.as_str(), &p);
            t.pending_chunk = Some(p);
            let n = text::u64_text(retry as u64);
            ui.status = text::cat3("分片校验失败，正在进行第 ", n.as_str(), "/2 次重传…");
            Ok(ImportStep::Send(packet))
        },
    }
}

/// A chunk is sent again only while it was sent fewer than three times, and a
/// repeated chunk says the same as the first time.
pub proof fn retries_are_exact_and_bounded(
    t: Transfer,
    after: Transfer,
    addr: Seq<char>,
    v: JsonView,
)
    requires
        t.wf(),
        retry_fault(t, addr, v) is None,
        after == (Transfer {
            pending_chunk: Some(
                PendingChunk { retries: (t.pending_chunk->0.retries + 1) as u8, ..t.pending_chunk->0 },
            ),
            ..t
        }),
    ensures
        after.pending_chunk->0.retries <= MAX_CHUNK_RETRIES,
        chunk_view(after.id@, after.pending_chunk->0) == chunk_view(t.id@, t.pending_chunk->0),
        after.seq == t.seq,
        after.offset == t.offset,
        after.sent_total == t.sent_total,
{
}

// ---------------------------------------------------------------- end

/// Takes the answer that every asset arrived, and asks to publish the song.
pub fn handle_assets_done(t: &mut Transfer, ui: &mut UiState, addr: &str, value: &Json) -> (r: Result<
    ImportStep,
    String,
>)
    requires
        old(t).wf(),
    ensures
        match r {
            Ok(step) => {
                &&& peer_fault(*old(t), addr@, Awaiting::AssetsDone, value@.str_at("id"@)) is None
                &&& *final(t) == (Transfer { awaiting: Awaiting::Done, ..*old(t) })
                &&& final(ui).status@ == "正在发布曲目与音乐库…"@
                &&& *final(ui) == (UiState { status: final(ui).status, ..*old(ui) })
                &&& step matches ImportStep::Send(m) && m@ == notice_view(
                    "lyra-import-commit"@,
                    old(t).id@,
                    None,
                )
                &&& final(t).wf()
            },
            Err(e) => peer_fault(*old(t), addr@, Awaiting::AssetsDone, value@.str_at("id"@))
                == Some(e@) && *final(t) == *old(t) && *final(ui) == *old(ui),
        },
{
    match validate_peer(t, addr, Awaiting::AssetsDone, value.str_at("id")) {
        Err(e) => {
            return Err(e);
        },
        Ok(_) => {},
    }
    t.awaiting = Awaiting::Done;
    ui.status = "正在发布曲目与音乐库…".to_owned();
    Ok(ImportStep::Send(notice("lyra-import-commit", t.id.as_str(), None)))
}

/// Whether the page says that an import is complete.
pub open spec fn completed(before: UiState, after: UiState) -> bool {
    &&& after.status@ == "导入完成；Lyra Player 将自动刷新音乐库。"@
    &&& after == (UiState {
        active: false,
        sent: before.total,
        speed_bytes_per_second: 0,
        status: after.status,
        ..before
    })
}

/// Takes the answer that the song is published.
pub fn handle_done(t: &Transfer, ui: &mut UiState, addr: &str, value: &Json) -> (r: Result<
    ImportStep,
    String,
>)
    ensures
        match r {
            Ok(step) => peer_fault(*t, addr@, Awaiting::Done, value@.str_at("id"@)) is None
                && completed(*old(ui), *final(ui)) && step is Finished,
            Err(e) => peer_fault(*t, addr@, Awaiting::Done, value@.str_at("id"@)) == Some(e@)
                && *final(ui) == *old(ui),
        },
{
    match validate_peer(t, addr, Awaiting::Done, value.str_at("id")) {
        Err(e) => {
            return Err(e);
        },
        Ok(_) => {},
    }
    ui.active = false;
    ui.sent = ui.total;
    ui.speed_bytes_per_second = 0;
    ui.status = "导入完成；Lyra Player 将自动刷新音乐库。".to_owned();
    Ok(ImportStep::Finished)
}

// ---------------------------------------------------------------- dispatch

/// Whether an answer comes from the peer of a transfer and names it. A greeting
/// carries no name and counts only while it is awaited.
pub open spec fn from_active_peer(t: Transfer, addr: Seq<char>, tag: Seq<char>, v: JsonView) -> bool {
    t.addr@ == addr && if tag == "lyra-import-hello"@ {
        t.awaiting == Awaiting::Hello
    } else {
        v.str_at("id"@) == Some(t.id@)
    }
}

pub fn matches_active_peer(t: &Transfer, addr: &str, tag: &str, value: &Json) -> (r: bool)
    ensures
        r == from_active_peer(*t, addr@, tag@, value@),
{
    if !str_eq(t.addr.as_str(), addr) {
        return false;
    }
    if str_eq(tag, "lyra-import-hello") {
        return t.awaiting == Awaiting::Hello;
    }
    same_text(value.str_at("id"), t.id.as_str())
}

/// Whether a message is an answer to a running transfer.
pub open spec fn answers(t: Option<Transfer>, addr: Seq<char>, v: JsonView) -> bool {
    match (t, v.str_at("tag"@)) {
        (Some(t), Some(tag)) => text::begins_with(tag, "lyra-import-"@) && from_active_peer(
            t,
            addr,
            tag,
            v,
        ),
        _ => false,
    }
}

/// The error that a peer reports.
pub open spec fn reported(v: JsonView) -> Seq<char> {
    text::or_else_text(v.str_at("code"@), "error"@) + ": "@ + text::or_else_text(
        v.str_at("message"@),
        "quick app rejected import"@,
    )
}

fn text_or(a: Option<&str>, other: &str) -> (r: String)
    ensures
        r@ == text::or_else_text(json::opt_view(a), other@),
{
    match a {
        Some(s) => s.to_owned(),
        None => other.to_owned(),
    }
}

/// Why an answer ends a transfer.
pub open spec fn answer_fault(t: Transfer, addr: Seq<char>, v: JsonView) -> Option<Seq<char>> {
    let tag = v.str_at("tag"@)->0;
    if tag == "lyra-import-hello"@ {
        hello_fault(t, addr, v)
    } else if tag == "lyra-import-ready"@ {
        ready_fault(t, addr, v)
    } else if tag == "lyra-import-ack"@ {
        ack_fault(t, addr, v)
    } else if tag == "lyra-import-retry"@ {
        retry_fault(t, addr, v)
    } else if tag == "lyra-import-assets-done"@ {
        peer_fault(t, addr, Awaiting::AssetsDone, v.str_at("id"@))
    } else if tag == "lyra-import-done"@ {
        peer_fault(t, addr, Awaiting::Done, v.str_at("id"@))
    } else if tag == "lyra-import-cancelled"@ {
        Some("快应用已取消导入"@)
    } else if tag == "lyra-import-error"@ {
        Some(reported(v))
    } else {
        None
    }
}

/// What an accepted answer does to a transfer that goes on, and what follows.
pub open spec fn answered(
    before: Transfer,
    after: Transfer,
    shown: UiState,
    showing: UiState,
    v: JsonView,
    now: u64,
    sample: u64,
    step: ImportStep,
) -> bool {
    let tag = v.str_at("tag"@)->0;
    if tag == "lyra-import-hello"@ {
        &&& greeted(before, after, v)
        &&& greeting_shown(shown, showing, after)
        &&& step matches ImportStep::Send(m) && m@ == begin_view(after)
    } else if tag == "lyra-import-ready"@ {
        &&& after == (Transfer {
            chunk_bytes: lesser(before.chunk_bytes, limited(before.mode, named_limit(v))),
            ..before
        })
        &&& showing.status@ == asset_status(
            before.assets@[before.asset_index as int].kind@,
            before.artwork_supported,
        )
        &&& showing == (UiState { status: showing.status, ..shown })
        &&& after.reading()
        &&& reads_next(step, after)
    } else if tag == "lyra-import-ack"@ {
        let done = confirmed(before, now, sample);
        &&& showing == (UiState {
            sent: done.sent_total,
            speed_bytes_per_second: done.speed_bytes_per_second,
            ..shown
        })
        &&& if done.offset == done.assets@[done.asset_index as int].size {
            &&& after == asset_ended(done)
            &&& step matches ImportStep::Send(m)
            &&& m@ == notice_view(
                "lyra-import-asset-end"@,
                done.id@,
                Some(done.assets@[done.asset_index as int].kind@),
            )
        } else {
            after == done && reads_next(step, done) && done.reading()
        }
    } else if tag == "lyra-import-retry"@ {
        let p = before.pending_chunk->0;
        &&& after == (Transfer {
            pending_chunk: Some(PendingChunk { retries: (p.retries + 1) as u8, ..p }),
            ..before
        })
        &&& showing.status@ == "分片校验失败，正在进行第 "@ + text::decimal((p.retries + 1) as nat)
            + "/2 次重传…"@
        &&& showing == (UiState { status: showing.status, ..shown })
        &&& step matches ImportStep::Send(m) && m@ == chunk_view(before.id@, p)
    } else if tag == "lyra-import-assets-done"@ {
        &&& after == (Transfer { awaiting: Awaiting::Done, ..before })
        &&& showing.status@ == "正在发布曲目与音乐库…"@
        &&& showing == (UiState { status: showing.status, ..shown })
        &&& step matches ImportStep::Send(m) && m@ == notice_view(
            "lyra-import-commit"@,
            before.id@,
            None,
        )
    } else {
        step is Ignore && after == before && showing == shown
    }
}

fn take_answer(
    t: &mut Transfer,
    ui: &mut UiState,
    addr: &str,
    tag: &str,
    value: &Json,
    now: u64,
    sample: u64,
) -> (r: Result<ImportStep, String>)
    requires
        old(t).wf(),
        value@.str_at("tag"@) == Some(tag@),
    ensures
        match r {
            Ok(step) => {
                &&& answer_fault(*old(t), addr@, value@) is None
                &&& final(t).wf()
                &&& if tag@ == "lyra-import-done"@ {
                    step is Finished && completed(*old(ui), *final(ui))
                } else {
                    !(step is Finished) && answered(
                        *old(t),
                        *final(t),
                        *old(ui),
                        *final(ui),
                        value@,
                        now,
                        sample,
                        step,
                    )
                }
            },
            Err(e) => answer_fault(*old(t), addr@, value@) == Some(e@) && *final(ui) == *old(ui),
        },
{
    proof {
        reveal_strlit("lyra-import-done");
        reveal_strlit("lyra-import-hello");
        reveal_strlit("lyra-import-ready");
        reveal_strlit("lyra-import-ack");
        reveal_strlit("lyra-import-retry");
        reveal_strlit("lyra-import-assets-done");
        assert("lyra-import-done"@.len() == 16);
        assert("lyra-import-hello"@.len() == 17);
        assert("lyra-import-ready"@.len() == 17);
        assert("lyra-import-ack"@.len() == 15);
        assert("lyra-import-retry"@.len() == 17);
        assert("lyra-import-assets-done"@.len() == 23);
    }
    if str_eq(tag, "lyra-import-hello") {
        handle_hello(t, ui, addr, value)
    } else if str_eq(tag, "lyra-import-ready") {
        handle_ready(t, ui, addr, value)
    } else if str_eq(tag, "lyra-import-ack") {
        handle_ack(t, ui, addr, value, now, sample)
    } else if str_eq(tag, "lyra-import-retry") {
        handle_retry(t, ui, addr, value)
    } else if str_eq(tag, "lyra-import-assets-done") {
        handle_assets_done(t, ui, addr, value)
    } else if str_eq(tag, "lyra-import-done") {
        handle_done(t, ui, addr, value)
    } else if str_eq(tag, "lyra-import-cancelled") {
        Err("快应用已取消导入".to_owned())
    } else if str_eq(tag, "lyra-import-error") {
        let code = text_or(value.str_at("code"), "error");
        let message = text_or(value.str_at("message"), "quick app rejected import");
        Err(text::cat3(code.as_str(), ": ", message.as_str()))
    } else {
        Ok(ImportStep::Ignore)
    }
}

/// What a message does to the running transfer and to the page.
pub open spec fn message_handled(
    before: Option<Transfer>,
    after: Option<Transfer>,
    shown: UiState,
    showing: UiState,
    addr: Seq<char>,
    v: JsonView,
    now: u64,
    sample: u64,
    step: ImportStep,
) -> bool {
    if !answers(before, addr, v) {
        step is Ignore && after == before && showing == shown
    } else {
        match answer_fault(before->0, addr, v) {
            Some(e) => step is Failed && after is None && failed(shown, showing, e),
            None => if v.str_at("tag"@) == Some("lyra-import-done"@) {
                step is Finished && after is None && completed(shown, showing)
            } else {
                after matches Some(t) && answered(
                    before->0,
                    t,
                    shown,
                    showing,
                    v,
                    now,
                    sample,
                    step,
                )
            },
        }
    }
}

/// Handles a message of the peer.
pub fn handle_message(
    transfer: &mut Option<Transfer>,
    ui: &mut UiState,
    addr: &str,
    value: &Json,
    now: u64,
    sample: u64,
) -> (step: ImportStep)
    requires
        sound(*old(transfer)),
    ensures
        sound(*final(transfer)),
        message_handled(
            *old(transfer),
            *final(transfer),
            *old(ui),
            *final(ui),
            addr@,
            value@,
            now,
            sample,
            step,
        ),
{
    let tag = match value.str_at("tag") {
        Some(tag) => tag,
        None => {
            return ImportStep::Ignore;
        },
    };
    if !text::starts_with(tag, "lyra-import-") {
        return ImportStep::Ignore;
    }
    match transfer.take() {
        None => ImportStep::Ignore,
        Some(mut t) => {
            if !matches_active_peer(&t, addr, tag, value) {
                *transfer = Some(t);
                return ImportStep::Ignore;
            }
            match take_answer(&mut t, ui, addr, tag, value, now, sample) {
                Ok(ImportStep::Finished) => ImportStep::Finished,
                Ok(step) => {
                    *transfer = Some(t);
                    step
                },
                Err(e) => {
                    finish_error(transfer, ui, e.as_str());
                    ImportStep::Failed
                },
            }
        },
    }
}

/// Handles the text of a message; a text of another package, and one that is no
/// JSON, is ignored.
pub fn handle(
    transfer: &mut Option<Transfer>,
    ui: &mut UiState,
    addr: &str,
    package: &str,
    payload: &str,
    now: u64,
    sample: u64,
) -> (step: ImportStep)
    requires
        sound(*old(transfer)),
    ensures
        sound(*final(transfer)),
        match json::json_parsed(payload@) {
            Ok(v) if package@ == ROUTE_PACKAGE@ => message_handled(
                *old(transfer),
                *final(transfer),
                *old(ui),
                *final(ui),
                addr@,
                v,
                now,
                sample,
                step,
            ),
            _ => step is Ignore && *final(transfer) == *old(transfer) && *final(ui) == *old(ui),
        },
{
    if !str_eq(package, ROUTE_PACKAGE) {
        return ImportStep::Ignore;
    }
    match json::parse_json(payload) {
        Ok(value) => handle_message(transfer, ui, addr, &value, now, sample),
        Err(_) => ImportStep::Ignore,
    }
}

// ---------------------------------------------------------------- laws

proof fn lemma_chunk_keys()
    ensures
        "tag"@ != "id"@,
        "tag"@ != "asset"@,
        "tag"@ != "seq"@,
        "tag"@ != "offset"@,
        "tag"@ != "encoding"@,
        "tag"@ != "data"@,
        "tag"@ != "crc32"@,
        "id"@ != "asset"@,
        "id"@ != "seq"@,
        "id"@ != "offset"@,
        "id"@ != "encoding"@,
        "id"@ != "data"@,
        "id"@ != "crc32"@,
        "asset"@ != "seq"@,
        "asset"@ != "offset"@,
        "asset"@ != "encoding"@,
        "asset"@ != "data"@,
        "asset"@ != "crc32"@,
        "seq"@ != "offset"@,
        "seq"@ != "encoding"@,
        "seq"@ != "data"@,
        "seq"@ != "crc32"@,
        "offset"@ != "encoding"@,
        "offset"@ != "data"@,
        "offset"@ != "crc32"@,
        "encoding"@ != "data"@,
        "encoding"@ != "crc32"@,
        "data"@ != "crc32"@,
{
    reveal_strlit("tag");
    reveal_strlit("id");
    reveal_strlit("asset");
    reveal_strlit("seq");
    reveal_strlit("offset");
    reveal_strlit("encoding");
    reveal_strlit("data");
    reveal_strlit("crc32");
    assert("tag"@.len() != "id"@.len());
    assert("tag"@.len() != "asset"@.len());
    assert("tag"@[0] != "seq"@[0]);
    assert("tag"@.len() != "offset"@.len());
    assert("tag"@.len() != "encoding"@.len());
    assert("tag"@.len() != "data"@.len());
    assert("tag"@.len() != "crc32"@.len());
    assert("id"@.len() != "asset"@.len());
    assert("id"@.len() != "seq"@.len());
    assert("id"@.len() != "offset"@.len());
    assert("id"@.len() != "encoding"@.len());
    assert("id"@.len() != "data"@.len());
    assert("id"@.len() != "crc32"@.len());
    assert("asset"@.len() != "seq"@.len());
    assert("asset"@.len() != "offset"@.len());
    assert("asset"@.len() != "encoding"@.len());
    assert("asset"@.len() != "data"@.len());
    assert("asset"@[0] != "crc32"@[0]);
    assert("seq"@.len() != "offset"@.len());
    assert("seq"@.len() != "encoding"@.len());
    assert("seq"@.len() != "data"@.len());
    assert("seq"@.len() != "crc32"@.len());
    assert("offset"@.len() != "encoding"@.len());
    assert("offset"@.len() != "data"@.len());
    assert("offset"@.len() != "crc32"@.len());
    assert("encoding"@.len() != "data"@.len());
    assert("encoding"@.len() != "crc32"@.len());
    assert("data"@.len() != "crc32"@.len());
}

proof fn lemma_opening_keys()
    ensures
        "tag"@ != "version"@,
        "tag"@ != "id"@,
        "tag"@ != "track"@,
        "tag"@ != "assets"@,
        "tag"@ != "checksum"@,
        "tag"@ != "chunkMode"@,
        "version"@ != "id"@,
        "version"@ != "track"@,
        "version"@ != "assets"@,
        "version"@ != "checksum"@,
        "version"@ != "chunkMode"@,
        "id"@ != "track"@,
        "id"@ != "assets"@,
        "id"@ != "checksum"@,
        "id"@ != "chunkMode"@,
        "track"@ != "assets"@,
        "track"@ != "checksum"@,
        "track"@ != "chunkMode"@,
        "assets"@ != "checksum"@,
        "assets"@ != "chunkMode"@,
        "checksum"@ != "chunkMode"@,
{
    reveal_strlit("tag");
    reveal_strlit("version");
    reveal_strlit("id");
    reveal_strlit("track");
    reveal_strlit("assets");
    reveal_strlit("checksum");
    reveal_strlit("chunkMode");
    assert("tag"@.len() != "version"@.len());
    assert("tag"@.len() != "id"@.len());
    assert("tag"@.len() != "track"@.len());
    assert("tag"@.len() != "assets"@.len());
    assert("tag"@.len() != "checksum"@.len());
    assert("tag"@.len() != "chunkMode"@.len());
    assert("version"@.len() != "id"@.len());
    assert("version"@.len() != "track"@.len());
    assert("version"@.len() != "assets"@.len());
    assert("version"@.len() != "checksum"@.len());
    assert("version"@.len() != "chunkMode"@.len());
    assert("id"@.len() != "track"@.len());
    assert("id"@.len() != "assets"@.len());
    assert("id"@.len() != "checksum"@.len());
    assert("id"@.len() != "chunkMode"@.len());
    assert("track"@.len() != "assets"@.len());
    assert("track"@.len() != "checksum"@.len());
    assert("track"@.len() != "chunkMode"@.len());
    assert("assets"@.len() != "checksum"@.len());
    assert("assets"@.len() != "chunkMode"@.len());
    assert("checksum"@.len() != "chunkMode"@.len());
}

proof fn lemma_track_keys()
    ensures
        "id"@ != "name"@,
        "id"@ != "artists"@,
        "id"@ != "album"@,
        "id"@ != "albumId"@,
        "id"@ != "durationMs"@,
        "name"@ != "artists"@,
        "name"@ != "album"@,
        "name"@ != "albumId"@,
        "name"@ != "durationMs"@,
        "artists"@ != "album"@,
        "artists"@ != "albumId"@,
        "artists"@ != "durationMs"@,
        "album"@ != "albumId"@,
        "album"@ != "durationMs"@,
        "albumId"@ != "durationMs"@,
{
    reveal_strlit("id");
    reveal_strlit("name");
    reveal_strlit("artists");
    reveal_strlit("album");
    reveal_strlit("albumId");
    reveal_strlit("durationMs");
    assert("id"@.len() != "name"@.len());
    assert("id"@.len() != "artists"@.len());
    assert("id"@.len() != "album"@.len());
    assert("id"@.len() != "albumId"@.len());
    assert("id"@.len() != "durationMs"@.len());
    assert("name"@.len() != "artists"@.len());
    assert("name"@.len() != "album"@.len());
    assert("name"@.len() != "albumId"@.len());
    assert("name"@.len() != "durationMs"@.len());
    assert("artists"@.len() != "album"@.len());
    assert("artists"@[1] != "albumId"@[1]);
    assert("artists"@.len() != "durationMs"@.len());
    assert("album"@.len() != "albumId"@.len());
    assert("album"@.len() != "durationMs"@.len());
    assert("albumId"@.len() != "durationMs"@.len());
}

proof fn lemma_asset_keys()
    ensures
        "kind"@ != "size"@,
        "kind"@ != "extension"@,
        "kind"@ != "format"@,
        "kind"@ != "width"@,
        "kind"@ != "height"@,
        "size"@ != "extension"@,
        "size"@ != "format"@,
        "size"@ != "width"@,
        "size"@ != "height"@,
        "extension"@ != "format"@,
        "extension"@ != "width"@,
        "extension"@ != "height"@,
        "format"@ != "width"@,
        "format"@ != "height"@,
        "width"@ != "height"@,
{
    reveal_strlit("kind");
    reveal_strlit("size");
    reveal_strlit("extension");
    reveal_strlit("format");
    reveal_strlit("width");
    reveal_strlit("height");
    assert("kind"@[0] != "size"@[0]);
    assert("kind"@.len() != "extension"@.len());
    assert("kind"@.len() != "format"@.len());
    assert("kind"@.len() != "width"@.len());
    assert("kind"@.len() != "height"@.len());
    assert("size"@.len() != "extension"@.len());
    assert("size"@.len() != "format"@.len());
    assert("size"@.len() != "width"@.len());
    assert("size"@.len() != "height"@.len());
    assert("extension"@.len() != "format"@.len());
    assert("extension"@.len() != "width"@.len());
    assert("extension"@.len() != "height"@.len());
    assert("format"@.len() != "width"@.len());
    assert("format"@[0] != "height"@[0]);
    assert("width"@.len() != "height"@.len());
}

proof fn lemma_kinds()
    ensures
        "audio"@ != "cover"@,
        "audio"@ != "background"@,
        "audio"@ != "lyrics"@,
        "cover"@ != "background"@,
        "cover"@ != "lyrics"@,
        "background"@ != "lyrics"@,
{
    reveal_strlit("audio");
    reveal_strlit("cover");
    reveal_strlit("background");
    reveal_strlit("lyrics");
    assert("audio"@[0] != "cover"@[0]);
    assert("audio"@.len() != "background"@.len());
    assert("audio"@.len() != "lyrics"@.len());
    assert("cover"@.len() != "background"@.len());
    assert("cover"@.len() != "lyrics"@.len());
    assert("background"@.len() != "lyrics"@.len());
}

proof fn lemma_tags()
    ensures
        "lyra-import-hello"@ != "lyra-import-ready"@,
        "lyra-import-hello"@ != "lyra-import-ack"@,
        "lyra-import-hello"@ != "lyra-import-retry"@,
        "lyra-import-hello"@ != "lyra-import-assets-done"@,
        "lyra-import-hello"@ != "lyra-import-done"@,
        "lyra-import-hello"@ != "lyra-import-cancelled"@,
        "lyra-import-hello"@ != "lyra-import-error"@,
        "lyra-import-ready"@ != "lyra-import-ack"@,
        "lyra-import-ready"@ != "lyra-import-retry"@,
        "lyra-import-ready"@ != "lyra-import-assets-done"@,
        "lyra-import-ready"@ != "lyra-import-done"@,
        "lyra-import-ready"@ != "lyra-import-cancelled"@,
        "lyra-import-ready"@ != "lyra-import-error"@,
        "lyra-import-ack"@ != "lyra-import-retry"@,
        "lyra-import-ack"@ != "lyra-import-assets-done"@,
        "lyra-import-ack"@ != "lyra-import-done"@,
        "lyra-import-ack"@ != "lyra-import-cancelled"@,
        "lyra-import-ack"@ != "lyra-import-error"@,
        "lyra-import-retry"@ != "lyra-import-assets-done"@,
        "lyra-import-retry"@ != "lyra-import-done"@,
        "lyra-import-retry"@ != "lyra-import-cancelled"@,
        "lyra-import-retry"@ != "lyra-import-error"@,
        "lyra-import-assets-done"@ != "lyra-import-done"@,
        "lyra-import-assets-done"@ != "lyra-import-cancelled"@,
        "lyra-import-assets-done"@ != "lyra-import-error"@,
        "lyra-import-done"@ != "lyra-import-cancelled"@,
        "lyra-import-done"@ != "lyra-import-error"@,
        "lyra-import-cancelled"@ != "lyra-import-error"@,
{
    reveal_strlit("lyra-import-hello");
    reveal_strlit("lyra-import-ready");
    reveal_strlit("lyra-import-ack");
    reveal_strlit("lyra-import-retry");
    reveal_strlit("lyra-import-assets-done");
    reveal_strlit("lyra-import-done");
    reveal_strlit("lyra-import-cancelled");
    reveal_strlit("lyra-import-error");
    assert("lyra-import-hello"@[12] != "lyra-import-ready"@[12]);
    assert("lyra-import-hello"@.len() != "lyra-import-ack"@.len());
    assert("lyra-import-hello"@[12] != "lyra-import-retry"@[12]);
    assert("lyra-import-hello"@.len() != "lyra-import-assets-done"@.len());
    assert("lyra-import-hello"@.len() != "lyra-import-done"@.len());
    assert("lyra-import-hello"@.len() != "lyra-import-cancelled"@.len());
    assert("lyra-import-hello"@[12] != "lyra-import-error"@[12]);
    assert("lyra-import-ready"@.len() != "lyra-import-ack"@.len());
    assert("lyra-import-ready"@[14] != "lyra-import-retry"@[14]);
    assert("lyra-import-ready"@.len() != "lyra-import-assets-done"@.len());
    assert("lyra-import-ready"@.len() != "lyra-import-done"@.len());
    assert("lyra-import-ready"@.len() != "lyra-import-cancelled"@.len());
    assert("lyra-import-ready"@[12] != "lyra-import-error"@[12]);
    assert("lyra-import-ack"@.len() != "lyra-import-retry"@.len());
    assert("lyra-import-ack"@.len() != "lyra-import-assets-done"@.len());
    assert("lyra-import-ack"@.len() != "lyra-import-done"@.len());
    assert("lyra-import-ack"@.len() != "lyra-import-cancelled"@.len());
    assert("lyra-import-ack"@.len() != "lyra-import-error"@.len());
    assert("lyra-import-retry"@.len() != "lyra-import-assets-done"@.len());
    assert("lyra-import-retry"@.len() != "lyra-import-done"@.len());
    assert("lyra-import-retry"@.len() != "lyra-import-cancelled"@.len());
    assert("lyra-import-retry"@[12] != "lyra-import-error"@[12]);
    assert("lyra-import-assets-done"@.len() != "lyra-import-done"@.len());
    assert("lyra-import-assets-done"@.len() != "lyra-import-cancelled"@.len());
    assert("lyra-import-assets-done"@.len() != "lyra-import-error"@.len());
    assert("lyra-import-done"@.len() != "lyra-import-cancelled"@.len());
    assert("lyra-import-done"@.len() != "lyra-import-error"@.len());
    assert("lyra-import-cancelled"@.len() != "lyra-import-error"@.len());
}

/// The bytes that a chunk message carries.
pub open spec fn carried(m: JsonView) -> Seq<u8> {
    codec::base64_bytes(m.str_at("data"@)->0)
}

/// A chunk message names the import, the asset and the chunk's place in it, and
/// carries the bytes of the chunk; its checksum is there exactly where one was
/// made.
pub proof fn chunk_messages_tell_their_place(id: Seq<char>, p: PendingChunk)
    ensures
        ({
            let m = chunk_view(id, p);
            &&& m.str_at("tag"@) == Some("lyra-import-chunk"@)
            &&& m.str_at("id"@) == Some(id)
            &&& m.str_at("asset"@) == Some(p.asset@)
            &&& m.u64_at("seq"@) == Some(p.seq as nat)
            &&& m.u64_at("offset"@) == Some(p.offset as nat)
            &&& m.str_at("encoding"@) == Some("base64"@)
            &&& m.str_at("data"@) is Some
            &&& carried(m) == p.bytes@
            &&& m.str_at("crc32"@) == text::opt_text(p.crc32)
        }),
{
    lemma_chunk_keys();
    codec::base64_round_trip(p.bytes@);
}

/// The part of a file behind an offset, written there.
pub open spec fn written(file: Seq<u8>, m: JsonView) -> Seq<u8> {
    let at = m.u64_at("offset"@)->0 as int;
    file.take(at) + carried(m)
}

/// A file as a receiver has it that writes the bytes of each message at the offset
/// that the message names.
pub open spec fn received(messages: Seq<JsonView>) -> Seq<u8>
    decreases messages.len(),
{
    if messages.len() == 0 {
        Seq::empty()
    } else {
        written(received(messages.drop_last()), messages.last())
    }
}

/// Whether a transfer sends the bytes that stand at its position in a file.
#[verifier::opaque]
pub open spec fn sends_next(before: Transfer, after: Transfer, file: Seq<u8>) -> bool {
    &&& 0 <= before.next_count() <= file.len() - before.offset
    &&& chunk_sent(
        before,
        after,
        file.subrange(before.offset as int, before.offset + before.next_count()),
    )
}

/// Whether a transfer goes on when its chunk is acknowledged.
#[verifier::opaque]
pub open spec fn goes_on(before: Transfer, after: Transfer) -> bool {
    exists|now: u64, sample: u64| after == #[trigger] confirmed(before, now, sample)
}

/// Whether states are those of a transfer that sends one asset from its start:
/// each chunk holds the bytes that stand at the transfer's position in the file,
/// and is acknowledged before the next one is sent.
pub open spec fn sends(states: Seq<(Transfer, Transfer)>, file: Seq<u8>) -> bool {
    &&& states.len() > 0 ==> states[0].0.offset == 0 && states[0].0.seq == 0
    &&& forall|i: int|
        0 <= i < states.len() ==> sends_next((#[trigger] states[i]).0, states[i].1, file)
    &&& forall|i: int| 0 < i < states.len() ==> goes_on(states[i - 1].1, (#[trigger] states[i]).0)
}

proof fn lemma_goes_on(before: Transfer, after: Transfer)
    requires
        goes_on(before, after),
    ensures
        after.offset == before.offset,
        after.seq == before.seq,
{
    reveal(goes_on);
}

proof fn lemma_sends_next(before: Transfer, after: Transfer, file: Seq<u8>)
    requires
        sends_next(before, after, file),
    ensures
        ({
            let m = chunk_view(before.id@, after.pending_chunk->0);
            &&& before.offset <= after.offset <= file.len()
            &&& after.seq == before.seq + 1
            &&& m.u64_at("offset"@) == Some(before.offset as nat)
            &&& m.u64_at("seq"@) == Some(before.seq as nat)
            &&& carried(m) == file.subrange(before.offset as int, after.offset as int)
        }),
{
    reveal(sends_next);
    chunk_messages_tell_their_place(before.id@, after.pending_chunk->0);
}

/// The chunk messages that a transfer sent.
pub open spec fn messages_of(states: Seq<(Transfer, Transfer)>) -> Seq<JsonView> {
    states.map_values(
        |s: (Transfer, Transfer)| chunk_view(s.0.id@, s.1.pending_chunk->0),
    )
}

/// The first chunk message of an asset names offset zero, and each later one the
/// place behind the bytes that the message before it carries.
pub proof fn chunks_follow_one_another(states: Seq<(Transfer, Transfer)>, file: Seq<u8>, i: int)
    requires
        sends(states, file),
        0 <= i < states.len(),
    ensures
        ({
            let m = messages_of(states);
            &&& m[0].u64_at("offset"@) == Some(0nat)
            &&& m[0].u64_at("seq"@) == Some(0nat)
            &&& i > 0 ==> m[i].u64_at("offset"@)->0 == m[i - 1].u64_at("offset"@)->0 + carried(
                m[i - 1],
            ).len()
            &&& i > 0 ==> m[i].u64_at("seq"@)->0 == m[i - 1].u64_at("seq"@)->0 + 1
            &&& carried(m[i]) == file.subrange(
                states[i].0.offset as int,
                states[i].1.offset as int,
            )
        }),
{
    lemma_sends_next(states[0].0, states[0].1, file);
    lemma_sends_next(states[i].0, states[i].1, file);
    if i > 0 {
        lemma_sends_next(states[i - 1].0, states[i - 1].1, file);
        lemma_goes_on(states[i - 1].1, states[i].0);
    }
}

/// A receiver that writes each chunk at the offset that its message names has the
/// file, as far as it was sent.
pub proof fn chunks_rebuild_the_file(states: Seq<(Transfer, Transfer)>, file: Seq<u8>)
    requires
        sends(states, file),
        states.len() > 0,
    ensures
        received(messages_of(states)) == file.take(states.last().1.offset as int),
    decreases states.len(),
{
    let n = states.len() - 1;
    let m = messages_of(states);
    let rest = states.drop_last();
    let (before, after) = states[n];
    lemma_sends_next(states[n].0, states[n].1, file);
    assert(m.drop_last() =~= messages_of(rest));
    assert(m.last() == m[n]);
    if n == 0 {
        assert(received(m.drop_last()) =~= Seq::empty());
        assert(written(Seq::empty(), m[0]) =~= file.take(after.offset as int));
    } else {
        assert(sends(rest, file)) by {
            assert forall|i: int| 0 <= i < rest.len() implies sends_next(
                (#[trigger] rest[i]).0,
                rest[i].1,
                file,
            ) by {
                assert(rest[i] == states[i]);
            }
            assert forall|i: int| 0 < i < rest.len() implies goes_on(
                rest[i - 1].1,
                (#[trigger] rest[i]).0,
            ) by {
                assert(rest[i] == states[i]);
                assert(rest[i - 1] == states[i - 1]);
            }
        }
        chunks_rebuild_the_file(rest, file);
        assert(rest.last() == states[n - 1]);
        assert(goes_on(states[n - 1].1, states[n].0));
        lemma_goes_on(states[n - 1].1, states[n].0);
        let so_far = file.take(before.offset as int);
        assert(received(m.drop_last()) == so_far);
        assert(written(so_far, m[n]) =~= file.take(after.offset as int));
    }
}

/// The checksum of a chunk is there in the checked mode alone, and spells the
/// CRC-32 of the bytes in eight hexadecimal digits, the highest first.
pub proof fn checksums_are_of_the_chunk(t: Transfer, p: PendingChunk, bytes: Seq<u8>)
    requires
        chunk_of(t, p, bytes),
    ensures
        p.crc32 is Some == (t.mode == ChunkMode::Crc32),
        p.crc32 matches Some(c) ==> {
            let b = codec::hex_bytes(c@);
            &&& c@.len() == 8
            &&& b.len() == 4
            &&& b[0] * 16777216 + b[1] * 65536 + b[2] * 256 + b[3] == codec::crc32_spec(bytes)
        },
{
    let n = codec::crc32_spec(bytes);
    codec::hex_round_trip(stream::be_bytes(n));
    stream::word_bytes_spell_the_word(n);
}

/// The messages that end an asset, publish a song or cancel an import name the
/// import they belong to.
pub proof fn notices_name_the_import(tag: Seq<char>, id: Seq<char>, asset: Option<Seq<char>>)
    ensures
        notice_view(tag, id, asset).str_at("tag"@) == Some(tag),
        notice_view(tag, id, asset).str_at("id"@) == Some(id),
        notice_view(tag, id, asset).str_at("asset"@) == asset,
{
    lemma_chunk_keys();
}

/// The opening message tells the song and, for each asset, its kind, size and
/// shape, in the order in which the assets are sent.
pub proof fn opening_tells_the_song(t: Transfer, i: int)
    requires
        0 <= i < t.assets@.len(),
    ensures
        ({
            let m = begin_view(t);
            let track = m.get("track"@)->0;
            let assets = m.get("assets"@)->0->Array_0;
            let a = t.assets@[i];
            &&& m.str_at("tag"@) == Some("lyra-import-begin"@)
            &&& m.u64_at("version"@) == Some(2nat)
            &&& m.str_at("id"@) == Some(t.id@)
            &&& m.str_at("checksum"@) == Some(t.mode.checksum_name())
            &&& m.str_at("chunkMode"@) == Some(t.mode.name())
            &&& m.get("track"@) is Some
            &&& track.u64_at("id"@) == Some(t.track_id as nat)
            &&& track.str_at("name"@) == Some(t.name@)
            &&& track.get("artists"@) == Some(JsonView::Array(t.artists@.map_values(
                |s: String| JsonView::Str(s@),
            )))
            &&& track.str_at("album"@) == Some(t.album@)
            &&& track.u64_at("albumId"@) == Some(t.album_id as nat)
            &&& track.u64_at("durationMs"@) == Some(t.duration_ms as nat)
            &&& m.get("assets"@) is Some && m.get("assets"@)->0 is Array
            &&& assets.len() == t.assets@.len()
            &&& assets[i].str_at("kind"@) == Some(a.kind@)
            &&& assets[i].u64_at("size"@) == Some(a.size as nat)
            &&& assets[i].str_at("extension"@) == json::opt_view(a.extension)
            &&& assets[i].str_at("format"@) == json::opt_view(a.format)
            &&& assets[i].u64_at("width"@) == match a.width {
                Some(n) => Some(n as nat),
                None => None,
            }
            &&& assets[i].u64_at("height"@) == match a.height {
                Some(n) => Some(n as nat),
                None => None,
            }
        }),
{
    lemma_opening_keys();
    lemma_track_keys();
    lemma_asset_keys();
    assert(text_items(t.artists@) =~= t.artists@.map_values(|s: String| JsonView::Str(s@)));
}

/// Of valid assets only the first one is audio, lyrics come last and a cover comes
/// before the background; a background is always an image of the watch, with the
/// sides and the size that are asked for.
pub proof fn valid_assets_are_what_the_watch_takes(assets: Seq<ImportAsset>, i: int, j: int)
    requires
        assets_fault(assets) is None,
        0 <= i < j < assets.len(),
    ensures
        assets[j].kind@ != "audio"@,
        assets[i].kind@ != "lyrics"@,
        assets[i].kind@ == "background"@ ==> assets[j].kind@ == "lyrics"@,
        assets[j].kind@ == "background"@ ==> {
            &&& json::opt_view(assets[j].format) == Some(LVGL_V9_FORMAT@)
            &&& assets[j].width == Some(336u32)
            &&& assets[j].height == Some(520u32)
            &&& assets[j].size == 12 + 336 * 520 * 4
        },
        assets[j].kind@ == "cover"@ && json::opt_view(assets[j].format) == Some(LVGL_V9_FORMAT@)
            ==> {
            &&& assets[j].width == Some(180u32)
            &&& assets[j].height == Some(180u32)
            &&& assets[j].size == 12 + 180 * 180 * 4
        },
{
    lemma_kinds();
    valid_assets_are_ordered(assets);
    lemma_fault_free(assets, i);
    lemma_fault_free(assets, j);
    assert(asset_order(assets[i].kind@)->0 < asset_order(assets[j].kind@)->0);
}

/// A song without pictures or lyrics can be imported: audio alone is enough.
pub proof fn audio_alone_is_enough(a: ImportAsset)
    requires
        a.kind@ == "audio"@,
        a.size > 0,
        !is_lvgl(a),
    ensures
        assets_fault(seq![a]) is None,
{
    lemma_kinds();
    let one = seq![a];
    assert(one.drop_last() =~= Seq::empty());
    assert(one.last() == a);
    assert(first_fault(Seq::<ImportAsset>::empty()) is None);
    assert(one[0].kind@ == "audio"@);
}

/// Checksums are left out only where the user wishes it and the peer can do
/// without, and the longest chunks are sent only where the peer takes them too;
/// where all of that holds, they are.
pub proof fn modes_are_agreed(t: Transfer, v: JsonView)
    ensures
        agreed_mode(t, v) != ChunkMode::Crc32 ==> offers(v, "checksums"@, "none"@) && (t.prefer_ultra
            || t.prefer_no_checksum),
        agreed_mode(t, v) == ChunkMode::NoneUltra <==> t.prefer_ultra && offers(
            v,
            "checksums"@,
            "none"@,
        ) && offers(v, "chunkModes"@, "none-48k"@),
        t.prefer_no_checksum && offers(v, "checksums"@, "none"@) ==> agreed_mode(t, v)
            != ChunkMode::Crc32,
        !t.prefer_ultra && !t.prefer_no_checksum ==> agreed_mode(t, v) == ChunkMode::Crc32,
        agreed_mode(t, v).checksum_name() == "crc32"@ <==> agreed_mode(t, v) == ChunkMode::Crc32,
{
    reveal_strlit("crc32");
    reveal_strlit("none");
    assert("crc32"@.len() != "none"@.len());
}

/// Chunks are never larger than the peer takes, nor than the mode allows, and the
/// faster a mode is, the more it allows.
pub proof fn chunk_sizes_are_agreed(before: Transfer, after: Transfer, v: JsonView)
    requires
        greeted(before, after, v),
    ensures
        1 <= after.chunk_bytes <= after.mode.limit(),
        v.u64_at("maxChunkBytes"@) matches Some(n) ==> 1 <= n <= after.mode.limit()
            ==> after.chunk_bytes == n,
        v.u64_at("maxChunkBytes"@) matches Some(n) ==> after.mode.limit() < n <= usize::MAX
            ==> after.chunk_bytes == after.mode.limit(),
        v.u64_at("maxChunkBytes"@) is None ==> after.chunk_bytes == 35840,
        ChunkMode::Crc32.limit() < ChunkMode::NoneFast.limit() < ChunkMode::NoneUltra.limit(),
        after.mode == ChunkMode::Crc32 ==> after.chunk_bytes <= 35 * 1024,
        after.chunk_bytes <= 36753,
{
}

/// What a peer names before each asset can only lower the size of the chunks.
pub proof fn chunk_sizes_never_grow(chunk: usize, mode: ChunkMode, named: usize)
    requires
        0 < chunk <= mode.limit(),
    ensures
        0 < lesser(chunk, limited(mode, named)) <= chunk,
        0 < named ==> lesser(chunk, limited(mode, named)) <= named,
        chunk <= named ==> lesser(chunk, limited(mode, named)) == chunk,
{
}

/// A peer that takes no images of the watch is sent none, and everything else all
/// the same, in its order.
pub proof fn pictures_are_left_out(assets: Seq<ImportAsset>, a: ImportAsset)
    ensures
        kept_assets(assets, true) == assets,
        kept_assets(assets, false).contains(a) <==> assets.contains(a) && a.kind@ != "background"@
            && json::opt_view(a.format) != Some(LVGL_V9_FORMAT@),
        kept_assets(assets, false).len() <= assets.len(),
{
    let f = |a: ImportAsset| plain_asset(a);
    let kept = assets.filter(f);
    assets.lemma_filter_len(f);
    if kept.contains(a) {
        let i = choose|i: int| 0 <= i < kept.len() && kept[i] == a;
        assets.lemma_filter_contains_rev(f, a);
        assets.lemma_filter_pred(f, i);
    }
    if assets.contains(a) && f(a) {
        let i = choose|i: int| 0 <= i < assets.len() && assets[i] == a;
        assets.lemma_filter_contains(f, i);
    }
}

/// An acknowledgement is taken only from the peer, for the import and the asset
/// that it is sent, and only where it counts exactly the bytes of the chunk in
/// flight behind what was counted before.
pub proof fn acknowledgements_count_the_chunk(t: Transfer, addr: Seq<char>, v: JsonView)
    requires
        t.wf(),
        ack_fault(t, addr, v) is None,
    ensures
        addr == t.addr@,
        t.pending_chunk is Some,
        v.str_at("id"@) == Some(t.id@),
        v.str_at("asset"@) == Some(t.pending_chunk->0.asset@),
        v.u64_at("nextSeq"@) == Some((t.pending_chunk->0.seq + 1) as nat),
        v.u64_at("nextOffset"@) == Some(
            (t.pending_chunk->0.offset + t.pending_chunk->0.bytes@.len()) as nat,
        ),
        v.u64_at("receivedBytes"@) == Some(
            (total_size(t.assets@.take(t.asset_index as int)) + t.pending_chunk->0.offset
                + t.pending_chunk->0.bytes@.len()) as nat,
        ),
{
}

/// An acknowledgement in which every count is right is taken.
pub proof fn right_acknowledgements_are_taken(t: Transfer, v: JsonView)
    requires
        t.wf(),
        t.pending_chunk is Some,
        v.str_at("id"@) == Some(t.id@),
        v.str_at("asset"@) == Some(t.pending_chunk->0.asset@),
        v.u64_at("nextSeq"@) == Some((t.pending_chunk->0.seq + 1) as nat),
        v.u64_at("nextOffset"@) == Some(t.offset as nat),
        v.u64_at("receivedBytes"@) == Some(t.sent_total as nat),
    ensures
        ack_fault(t, t.addr@, v) is None,
{
}

/// An answer counts only from the peer's address, in the state that waits for it
/// and under the name of the import; a greeting may leave the name out.
pub proof fn strangers_are_refused(t: Transfer, addr: Seq<char>, a: Awaiting, id: Option<Seq<char>>)
    ensures
        peer_fault(t, addr, a, id) is None <==> {
            &&& addr == t.addr@
            &&& t.awaiting == a
            &&& id == Some(t.id@) || (a == Awaiting::Hello && id is None)
        },
{
}

/// The shown speed moves a quarter of the way from what was known to the newest
/// sample, and is that sample where nothing was known.
pub proof fn speed_moves_a_quarter(t: Transfer, now: u64, sample: u64)
    requires
        t.last_ack_at matches Some(last) && last < now,
        3 * t.speed_bytes_per_second <= u64::MAX,
    ensures
        t.speed_bytes_per_second == 0 ==> smoothed(t, now, sample) == sample,
        t.speed_bytes_per_second > 0 ==> {
            let s = smoothed(t, now, sample);
            let v = t.speed_bytes_per_second;
            &&& v <= sample ==> v <= s <= sample
            &&& sample <= v ==> sample <= s <= v
            &&& (s - v) * 4 <= sample - v < (s - v) * 4 + 4
        },
{
}

/// An acknowledged chunk is no longer in flight, and nothing that was sent is
/// taken back: the place in the asset and the count of bytes stay.
pub proof fn confirming_keeps_the_place(t: Transfer, now: u64, sample: u64)
    ensures
        ({
            let c = confirmed(t, now, sample);
            &&& c.pending_chunk is None
            &&& c.offset == t.offset && c.seq == t.seq && c.sent_total == t.sent_total
            &&& c.asset_index == t.asset_index && c.assets == t.assets && c.id == t.id
            &&& c.last_ack_at == Some(now)
            &&& c.last_ack_bytes == t.sent_total
        }),
{
}

/// Behind an asset the next one begins at its start, with what was sent kept
/// counted; behind the last one the import waits to be published.
pub proof fn assets_follow_one_another(t: Transfer)
    requires
        t.wf(),
        t.awaiting == Awaiting::Ack,
        t.pending_chunk is None || t.offset == t.assets@[t.asset_index as int].size,
    ensures
        ({
            let n = asset_ended(t);
            &&& n.asset_index == t.asset_index + 1
            &&& n.seq == 0 && n.offset == 0
            &&& n.sent_total == t.sent_total && n.assets == t.assets
            &&& n.awaiting == Awaiting::AssetsDone <==> t.asset_index + 1 == t.assets@.len()
            &&& n.awaiting == Awaiting::Ready <==> t.asset_index + 1 < t.assets@.len()
        }),
{
}

/// The next chunk is as long as chunks may be, but never reaches past the end of
/// the asset, and is never empty.
pub proof fn chunks_are_full_until_the_end(t: Transfer)
    requires
        t.wf(),
        t.reading(),
    ensures
        0 < t.next_count() <= t.chunk_bytes,
        t.offset + t.next_count() <= t.assets@[t.asset_index as int].size,
        t.next_count() < t.chunk_bytes ==> t.offset + t.next_count()
            == t.assets@[t.asset_index as int].size,
{
}

/// The chunk that is sent again is the one in flight, asked for by its asset, its
/// number and its offset.
pub proof fn only_the_chunk_in_flight_is_repeated(t: Transfer, addr: Seq<char>, v: JsonView)
    requires
        t.wf(),
    ensures
        retry_fault(t, addr, v) is None <==> {
            &&& addr == t.addr@
            &&& t.pending_chunk is Some
            &&& v.str_at("id"@) == Some(t.id@)
            &&& v.str_at("asset"@) == Some(t.pending_chunk->0.asset@)
            &&& v.u64_at("seq"@) == Some(t.pending_chunk->0.seq as nat)
            &&& v.u64_at("offset"@) == Some(t.pending_chunk->0.offset as nat)
            &&& t.pending_chunk->0.retries < 2
        },
{
}

/// A peer is greeted with the protocol that it is asked for in turn: one chunk at
/// a time, in base64.
pub proof fn greetings_agree_on_the_protocol(t: Transfer, addr: Seq<char>, v: JsonView)
    ensures
        hello_view().str_at("tag"@) == Some("lyra-import-hello"@),
        hello_fault(t, addr, v) is None ==> {
            &&& v.u64_at("version"@) == hello_view().u64_at("version"@)
            &&& v.u64_at("window"@) == Some(1nat)
            &&& offers(v, "encodings"@, "base64"@)
            &&& addr == t.addr@
            &&& t.awaiting == Awaiting::Hello
        },
        v.u64_at("version"@) == Some(2nat) && v.u64_at("window"@) == Some(1nat) && offers(
            v,
            "encodings"@,
            "base64"@,
        ) && addr == t.addr@ && t.awaiting == Awaiting::Hello ==> hello_fault(t, addr, v) is None,
{
    lemma_opening_keys();
}

/// Each asset is asked for by name, from its very start.
pub proof fn assets_start_at_their_beginning(t: Transfer, addr: Seq<char>, v: JsonView)
    requires
        t.wf(),
        ready_fault(t, addr, v) is None,
    ensures
        addr == t.addr@,
        t.awaiting == Awaiting::Ready,
        v.str_at("id"@) == Some(t.id@),
        v.str_at("asset"@) == Some(t.assets@[t.asset_index as int].kind@),
        v.u64_at("nextSeq"@) == Some(0nat),
        v.u64_at("nextOffset"@) == Some(0nat),
        v.u64_at("maxChunkBytes"@) is Some,
        v.str_at("checksum"@) matches Some(c) ==> c == t.mode.checksum_name(),
        v.str_at("chunkMode"@) matches Some(c) ==> c == t.mode.name(),
{
}

/// Messages from other devices, and messages under the name of another import,
/// change nothing.
pub proof fn strangers_change_nothing(
    before: Option<Transfer>,
    after: Option<Transfer>,
    shown: UiState,
    showing: UiState,
    addr: Seq<char>,
    v: JsonView,
    now: u64,
    sample: u64,
    step: ImportStep,
)
    requires
        message_handled(before, after, shown, showing, addr, v, now, sample, step),
        before is None || before->0.addr@ != addr || (v.str_at("id"@) != Some(before->0.id@)
            && v.str_at("tag"@) != Some("lyra-import-hello"@)),
    ensures
        after == before,
        showing == shown,
        step is Ignore,
{
}

/// Whatever a message does, an import goes on under its name, with its peer and its
/// song, or it ends; the count of bytes that were sent does not change by it.
pub proof fn messages_keep_the_import(
    before: Transfer,
    after: Option<Transfer>,
    shown: UiState,
    showing: UiState,
    addr: Seq<char>,
    v: JsonView,
    now: u64,
    sample: u64,
    step: ImportStep,
)
    requires
        message_handled(Some(before), after, shown, showing, addr, v, now, sample, step),
    ensures
        after matches Some(t) ==> {
            &&& t.id == before.id
            &&& t.addr == before.addr
            &&& t.track_id == before.track_id
            &&& t.name == before.name
            &&& t.sent_total == before.sent_total
        },
        after is None ==> !showing.active && (step is Failed || step is Finished),
        step is Finished ==> after is None && showing.sent == shown.total && before.awaiting
            == Awaiting::Done && v.str_at("tag"@) == Some("lyra-import-done"@),
{
    lemma_tags();
}


/// A picked file is taken where it is one, is not empty, has an extension of its
/// kind, in upper or in lower case, and is not too large for it.
pub proof fn picked_files_fit_their_kind(kind: Seq<char>, ext: Seq<char>, size: u64)
    ensures
        file_fault(kind, ext, false, size) is Some,
        file_fault(kind, ext, true, 0) is Some,
        kind == "audio"@ && text::lowered(ext) == "mp3"@ ==> (file_fault(kind, ext, true, size)
            is None <==> 0 < size <= 64 * 1024 * 1024),
        kind == "cover"@ && (text::lowered(ext) == "jpg"@ || text::lowered(ext) == "jpeg"@
            || text::lowered(ext) == "png"@) ==> (file_fault(kind, ext, true, size) is None <==> 0
            < size <= 4 * 1024 * 1024),
        kind == "lyrics"@ && (text::lowered(ext) == "lrc"@ || text::lowered(ext) == "json"@
            || text::lowered(ext) == "txt"@) ==> (file_fault(kind, ext, true, size) is None <==> 0
            < size <= 2 * 1024 * 1024),
        kind == "audio"@ && text::lowered(ext) != "mp3"@ ==> file_fault(kind, ext, true, size)
            is Some,
        file_fault(kind, text::uppered(ext), true, size) == file_fault(kind, ext, true, size),
{
    lemma_kinds();
    assert(text::lowered(text::uppered(ext)) =~= text::lowered(ext));
}

/// A peer takes pictures only where it names both kinds of them and the format.
pub proof fn pictures_need_all_three(v: JsonView)
    ensures
        takes_artwork(v) <==> offers(v, "assets"@, "cover"@) && offers(v, "assets"@, "background"@)
            && offers(v, "imageFormats"@, LVGL_V9_FORMAT@),
        v.get("imageFormats"@) is None ==> !takes_artwork(v),
{
}

/// The next read begins where the last chunk ended, in the file of the asset that is
/// being sent.
pub proof fn reads_go_on_where_they_ended(t: Transfer, after: Transfer, bytes: Seq<u8>, now: u64, sample: u64, step: ImportStep)
    requires
        chunk_sent(t, after, bytes),
        reads_next(step, confirmed(after, now, sample)),
    ensures
        step matches ImportStep::Read { path, kind, offset, count } && offset == t.offset
            + bytes.len() && path == t.assets@[t.asset_index as int].path && kind@
            == t.assets@[t.asset_index as int].kind@,
{
}

/// A failed import says why, and is over; a finished one has sent everything.
pub proof fn ended_imports_say_so(before: UiState, after: UiState, error: Seq<char>)
    ensures
        failed(before, after, error) ==> !after.active && after.speed_bytes_per_second == 0
            && after.status@.skip(after.status@.len() - error.len()) == error && after.sent
            == before.sent,
        completed(before, after) ==> !after.active && after.sent == before.total,
{
    if failed(before, after, error) {
        assert(after.status@.skip(after.status@.len() - error.len()) =~= error);
    }
}

/// After a greeting, what is counted as a whole is what will be sent.
pub proof fn totals_follow_the_greeting(before: UiState, after: UiState, t: Transfer)
    requires
        greeting_shown(before, after, t),
    ensures
        !t.artwork_supported ==> after.total == total_size(t.assets@),
        t.artwork_supported ==> after.total == before.total,
        after.sent == before.sent && after.active == before.active,
{
}

/// What several assets have together is what each of them has.
pub proof fn sizes_are_added_up(a: Seq<ImportAsset>, b: Seq<ImportAsset>)
    ensures
        total_size(a + b) == total_size(a) + total_size(b),
        b.len() == 1 ==> total_size(b) == b[0].size,
    decreases b.len(),
{
    if b.len() == 0 {
        assert(a + b =~= a);
    } else {
        sizes_are_added_up(a, b.drop_last());
        assert((a + b).drop_last() =~= a + b.drop_last());
        assert((a + b).last() == b.last());
        if b.len() == 1 {
            assert(b.drop_last() =~= Seq::empty());
            assert(total_size(b.drop_last()) == 0);
        }
    }
}

/// Each message is taken for what its tag says: a greeting only while one is
/// awaited, an acknowledgement only for the chunk in flight, and an error or a
/// cancellation always ends the import.
pub proof fn errors_end_the_import(
    before: Transfer,
    after: Option<Transfer>,
    shown: UiState,
    showing: UiState,
    v: JsonView,
    now: u64,
    sample: u64,
    step: ImportStep,
)
    requires
        message_handled(Some(before), after, shown, showing, before.addr@, v, now, sample, step),
        v.str_at("id"@) == Some(before.id@),
        v.str_at("tag"@) == Some("lyra-import-error"@) || v.str_at("tag"@) == Some(
            "lyra-import-cancelled"@,
        ),
    ensures
        after is None,
        step is Failed,
        !showing.active,
{
    lemma_tags();
    let tag = v.str_at("tag"@)->0;
    reveal_strlit("lyra-import-");
    reveal_strlit("lyra-import-error");
    reveal_strlit("lyra-import-cancelled");
    assert("lyra-import-error"@.subrange(0, "lyra-import-"@.len() as int) =~= "lyra-import-"@);
    assert("lyra-import-cancelled"@.subrange(0, "lyra-import-"@.len() as int) =~= "lyra-import-"@);
    assert(text::begins_with(tag, "lyra-import-"@));
}

/// Without an earlier acknowledgement no speed is known, and one that comes at the
/// same moment as the last does not change it.
pub proof fn speed_needs_time(t: Transfer, now: u64, sample: u64)
    ensures
        t.last_ack_at is None ==> smoothed(t, now, sample) == 0,
        t.last_ack_at matches Some(last) ==> now <= last ==> smoothed(t, now, sample)
            == t.speed_bytes_per_second,
{
}

proof fn lemma_labels()
    ensures
        "音频"@ != "封面"@,
        "音频"@ != "播放页背景"@,
        "音频"@ != "歌词"@,
        "音频"@ != "资源"@,
        "封面"@ != "播放页背景"@,
        "封面"@ != "歌词"@,
        "封面"@ != "资源"@,
        "播放页背景"@ != "歌词"@,
        "播放页背景"@ != "资源"@,
        "歌词"@ != "资源"@,
{
    reveal_strlit("音频");
    reveal_strlit("封面");
    reveal_strlit("播放页背景");
    reveal_strlit("歌词");
    reveal_strlit("资源");
    assert("音频"@[0] != "封面"@[0]);
    assert("音频"@.len() != "播放页背景"@.len());
    assert("音频"@[0] != "歌词"@[0]);
    assert("音频"@[0] != "资源"@[0]);
    assert("封面"@.len() != "播放页背景"@.len());
    assert("封面"@[0] != "歌词"@[0]);
    assert("封面"@[0] != "资源"@[0]);
    assert("播放页背景"@.len() != "歌词"@.len());
    assert("播放页背景"@.len() != "资源"@.len());
    assert("歌词"@[0] != "资源"@[0]);
}

/// The kinds of assets are told apart while they are sent.
pub proof fn kinds_are_told_apart(a: Seq<char>, b: Seq<char>)
    ensures
        asset_order(a) is Some && asset_order(b) is Some ==> (asset_label(a) == asset_label(b)
            <==> a == b),
        asset_order(a) is None ==> asset_label(a) == "资源"@,
{
    lemma_labels();
    lemma_kinds();
}

/// An import that starts has sent nothing, waits for the greeting, and is as careful
/// as it can be until the peer says what it takes.
pub proof fn imports_start_from_nothing(
    t: Transfer,
    r: ImportRequest,
    id: String,
    now: u64,
    mode: TransferMode,
)
    requires
        fresh(t, r, id, now, mode),
    ensures
        t.id == id && t.addr == r.addr && t.name == r.name && t.assets == r.assets,
        t.sent_total == 0 && t.offset == 0 && t.seq == 0 && t.asset_index == 0,
        t.awaiting == Awaiting::Hello,
        t.mode == ChunkMode::Crc32,
        t.pending_chunk is None,
        t.prefer_ultra <==> mode == TransferMode::Ultra,
        t.prefer_no_checksum <==> mode == TransferMode::Ultra || mode == TransferMode::Fast,
{
}

/// A peer offers what stands in its list under a key, as a text of its own.
pub proof fn offers_are_listed(v: JsonView, key: Seq<char>, items: Seq<JsonView>, name: Seq<char>)
    requires
        v.get(key) == Some(JsonView::Array(items)),
    ensures
        offers(v, key, name) <==> exists|i: int|
            0 <= i < items.len() && #[trigger] items[i] == JsonView::Str(name),
        forall|k: Seq<char>| v.get(k) is None ==> !#[trigger] offers(v, k, name),
{
    if offers(v, key, name) {
        let i = choose|i: int| 0 <= i < items.len() && items[i] == JsonView::Str(name);
        assert(items[i] == JsonView::Str(name));
    }
    if exists|i: int| 0 <= i < items.len() && #[trigger] items[i] == JsonView::Str(name) {
        let i = choose|i: int| 0 <= i < items.len() && #[trigger] items[i] == JsonView::Str(name);
        assert(items.contains(JsonView::Str(name)));
    }
}

/// An answer that asks for the next asset from its start, in the agreed way, is
/// taken.
pub proof fn right_starts_are_taken(t: Transfer, v: JsonView)
    requires
        t.wf(),
        t.awaiting == Awaiting::Ready,
        v.str_at("id"@) == Some(t.id@),
        v.str_at("asset"@) == Some(t.assets@[t.asset_index as int].kind@),
        v.u64_at("nextSeq"@) == Some(0nat),
        v.u64_at("nextOffset"@) == Some(0nat),
        v.u64_at("window"@) == Some(1nat),
        v.str_at("checksum"@) == Some(t.mode.checksum_name()),
        v.str_at("chunkMode"@) == Some(t.mode.name()),
        v.u64_at("maxChunkBytes"@) is Some,
    ensures
        ready_fault(t, t.addr@, v) is None,
{
}

/// The pace is taken from one acknowledgement to the next: the bytes of the chunk in
/// flight over the time that passed.
pub proof fn pace_is_taken_between_acknowledgements(
    t: Transfer,
    after: Transfer,
    bytes: Seq<u8>,
    first: u64,
    sample: u64,
    now: u64,
)
    requires
        chunk_sent(confirmed(t, first, sample), after, bytes),
        first < now,
    ensures
        paced(after, now) == Some((bytes.len() as u64, (now - first) as u64)),
        paced(after, first) is None,
{
}

/// An import needs a device and valid assets, and nothing else.
pub proof fn imports_need_a_device(r: ImportRequest)
    ensures
        r.addr@.len() == 0 ==> request_fault(r) is Some,
        r.addr@.len() > 0 ==> request_fault(r) == assets_fault(r.assets@),
        request_fault(r) is None ==> r.addr@.len() > 0 && r.assets@.len() > 0 && r.assets@[0].kind@
            == "audio"@,
{
}

/// The next chunk is sent where it was read, to the peer of the import, while none is
/// in flight.
pub proof fn read_chunks_are_sent(t: Transfer)
    requires
        t.wf(),
        t.reading(),
    ensures
        send_fault(Some(t), t.addr@, None) is None,
        forall|addr: Seq<char>| addr != t.addr@ ==> #[trigger] send_fault(Some(t), addr, None)
            is Some,
        forall|e: Seq<char>| #[trigger] send_fault(Some(t), t.addr@, Some(e)) == Some(e),
        send_fault(None, t.addr@, None) is Some,
{
}

/// An import goes through its steps: the greeting is answered with the song, each
/// asset is read from its start, each acknowledgement leads to the next chunk or to
/// the end of the asset, a chunk that did not arrive is sent once more, and once all
/// assets arrived the song is published.
pub proof fn answers_move_the_import_on(
    before: Transfer,
    after: Transfer,
    shown: UiState,
    showing: UiState,
    v: JsonView,
    now: u64,
    sample: u64,
    step: ImportStep,
)
    requires
        before.wf(),
        answers(Some(before), before.addr@, v),
        message_handled(
            Some(before),
            Some(after),
            shown,
            showing,
            before.addr@,
            v,
            now,
            sample,
            step,
        ),
    ensures
        v.str_at("tag"@) == Some("lyra-import-hello"@) ==> {
            &&& before.awaiting == Awaiting::Hello && after.awaiting == Awaiting::Ready
            &&& step matches ImportStep::Send(m) && m@.str_at("tag"@) == Some(
                "lyra-import-begin"@,
            ) && m@.str_at("id"@) == Some(before.id@)
        },
        v.str_at("tag"@) == Some("lyra-import-ready"@) ==> {
            &&& step matches ImportStep::Read { path, offset, .. } && offset == 0 && path
                == before.assets@[before.asset_index as int].path
            &&& after.asset_index == before.asset_index
        },
        v.str_at("tag"@) == Some("lyra-import-ack"@) ==> {
            &&& after.pending_chunk is None
            &&& showing.sent == before.sent_total
            &&& before.offset < before.assets@[before.asset_index as int].size ==> (
            step matches ImportStep::Read { offset, .. } && offset == before.offset)
            &&& before.offset == before.assets@[before.asset_index as int].size ==> (
            step matches ImportStep::Send(m) && m@.str_at("tag"@) == Some("lyra-import-asset-end"@)
                && m@.str_at("asset"@) == Some(before.assets@[before.asset_index as int].kind@))
        },
        v.str_at("tag"@) == Some("lyra-import-retry"@) ==> (step matches ImportStep::Send(m)
            && m@.str_at("tag"@) == Some("lyra-import-chunk"@) && m@.u64_at("offset"@) == Some(
            before.pending_chunk->0.offset as nat,
        ) && carried(m@) == before.pending_chunk->0.bytes@),
        v.str_at("tag"@) == Some("lyra-import-assets-done"@) ==> {
            &&& after.awaiting == Awaiting::Done
            &&& step matches ImportStep::Send(m) && m@.str_at("tag"@) == Some(
                "lyra-import-commit"@,
            ) && m@.str_at("id"@) == Some(before.id@)
        },
{
    lemma_tags();
    let tag = v.str_at("tag"@)->0;
    if tag == "lyra-import-hello"@ {
        lemma_opening_keys();
    } else if tag == "lyra-import-ack"@ {
        let kind = before.assets@[before.asset_index as int].kind@;
        notices_name_the_import("lyra-import-asset-end"@, before.id@, Some(kind));
    } else if tag == "lyra-import-retry"@ {
        chunk_messages_tell_their_place(before.id@, before.pending_chunk->0);
    } else if tag == "lyra-import-assets-done"@ {
        notices_name_the_import("lyra-import-commit"@, before.id@, None);
    }
}

/// The largest chunk of each mode fits a frame of forty-eight kibibytes, encoded, and
/// in the fastest mode three bytes more would not.
pub proof fn largest_chunks_fit_a_frame(bytes: Seq<u8>, mode: ChunkMode)
    requires
        bytes.len() <= mode.limit(),
    ensures
        codec::base64_text(bytes).len() + 144 < 48 * 1024,
        mode == ChunkMode::Crc32 && bytes.len() == mode.limit() ==> bytes.len() == 35 * 1024,
        mode == ChunkMode::NoneFast && bytes.len() == mode.limit() ==> bytes.len() == 36608,
        mode == ChunkMode::NoneUltra && bytes.len() == mode.limit() ==> codec::base64_text(
            bytes,
        ).len() + 4 + 144 >= 48 * 1024,
{
    codec::base64_length(bytes);
}

} // verus!
