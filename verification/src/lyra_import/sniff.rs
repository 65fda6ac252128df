//! What a picked file is, told by its bytes: its name may carry no extension.
use vstd::prelude::*;
use vstd::slice::*;
use vstd::string::*;
use vstd::utf8::*;

use crate::json::{self, Json, JsonView};
use crate::lyra_import::id3;
use crate::text::{self, utf8_text};

verus! {

/// How far behind the tags the first frames are looked for.
pub const MP3_SCAN_BYTES: usize = 65536;

/// Some files carry more than one tag, back to back.
pub const MAX_ID3_TAGS: usize = 4;

pub const LYRICS_BINARY_PROBE_BYTES: usize = 4096;

#[derive(Clone, Copy, Debug, PartialEq, Eq, Structural)]
pub enum ImageFormat {
    Jpeg,
    Png,
}

#[derive(Clone, Copy, Debug, PartialEq, Eq, Structural)]
pub enum LyricsFormat {
    /// A lyric envelope of the cloud service.
    Json,
    Lrc,
}

impl LyricsFormat {
    pub open spec fn name(self) -> Seq<char> {
        match self {
            LyricsFormat::Json => "json"@,
            LyricsFormat::Lrc => "lrc"@,
        }
    }

    pub fn as_str(self) -> (r: &'static str)
        ensures
            r@ == self.name(),
    {
        match self {
            LyricsFormat::Json => "json",
            LyricsFormat::Lrc => "lrc",
        }
    }
}

// ---------------------------------------------------------------- frames

/// The bitrates of MPEG-1, in thousands of bits per second.
pub open spec fn mpeg1_kbps() -> Seq<usize> {
    seq![0, 32, 40, 48, 56, 64, 80, 96, 112, 128, 160, 192, 224, 256, 320]
}

/// The bitrates of MPEG-2 and 2.5.
pub open spec fn mpeg2_kbps() -> Seq<usize> {
    seq![0, 8, 16, 24, 32, 40, 48, 56, 64, 80, 96, 112, 128, 144, 160]
}

pub open spec fn sample_rates() -> Seq<usize> {
    seq![44100, 48000, 32000]
}

/// The length of the Layer III frame whose header begins `b`: the samples of a
/// frame at its bitrate, and the padding.
pub open spec fn frame_len(b: Seq<u8>) -> Option<int> {
    let version = b[1] as int / 8 % 4;
    let layer = b[1] as int / 2 % 4;
    let bitrate = b[2] as int / 16;
    let rate = b[2] as int / 4 % 4;
    let padding = b[2] as int / 2 % 2;
    if b.len() < 4 || b[0] != 0xff || b[1] < 0xe0 {
        None
    } else if version == 1 || layer != 1 || bitrate == 0 || bitrate == 15 || rate == 3 {
        None
    } else if version == 3 {
        Some(144 * mpeg1_kbps()[bitrate] * 1000 / (sample_rates()[rate] as int) + padding)
    } else if version == 2 {
        Some(72 * mpeg2_kbps()[bitrate] * 1000 / (sample_rates()[rate] as int / 2) + padding)
    } else {
        Some(72 * mpeg2_kbps()[bitrate] * 1000 / (sample_rates()[rate] as int / 4) + padding)
    }
}

fn kbps(first: bool, index: usize) -> (r: usize)
    requires
        0 < index < 15,
    ensures
        r == if first {
            mpeg1_kbps()[index as int]
        } else {
            mpeg2_kbps()[index as int]
        },
        8 <= r <= 320,
{
    let a: [usize; 15] = [0, 32, 40, 48, 56, 64, 80, 96, 112, 128, 160, 192, 224, 256, 320];
    let b: [usize; 15] = [0, 8, 16, 24, 32, 40, 48, 56, 64, 80, 96, 112, 128, 144, 160];
    assert(a@ =~= mpeg1_kbps());
    assert(b@ =~= mpeg2_kbps());
    if first {
        a[index]
    } else {
        b[index]
    }
}

/// The length in bytes of the Layer III frame whose header begins `bytes`.
pub fn mp3_frame_len(bytes: &[u8]) -> (r: Option<usize>)
    ensures
        match r {
            Some(n) => bytes@.len() >= 4 && frame_len(bytes@) == Some(n as int) && 0 < n < 6000,
            None => frame_len(bytes@) is None,
        },
{
    if bytes.len() < 4 {
        return None;
    }
    let flags: u8 = bytes[1];
    let rates: u8 = bytes[2];
    if bytes[0] != 0xff || flags < 0xe0 {
        return None;
    }
    let version: u8 = flags / 8 % 4;
    let layer: u8 = flags / 2 % 4;
    let bitrate: usize = (rates / 16) as usize;
    let rate: u8 = rates / 4 % 4;
    let padding: usize = (rates / 2 % 2) as usize;
    if version == 1 || layer != 1 || bitrate == 0 || bitrate == 15 || rate == 3 {
        return None;
    }
    let hertz: usize = if rate == 0 {
        44100
    } else if rate == 1 {
        48000
    } else {
        32000
    };
    assert(hertz == sample_rates()[rate as int]);
    let k = kbps(version == 3, bitrate);
    let (samples, divisor): (usize, usize) = if version == 3 {
        (144, hertz)
    } else if version == 2 {
        (72, hertz / 2)
    } else {
        (72, hertz / 4)
    };
    assert(samples * k * 1000 <= 46080000 && samples * k * 1000 >= 576000) by (nonlinear_arith)
        requires
            72 <= samples <= 144,
            8 <= k <= 320,
    ;
    let bits: usize = samples * k * 1000;
    let n: usize = bits / divisor;
    assert(n < 5800 && n > 0) by (nonlinear_arith)
        requires
            n == bits as int / divisor as int,
            bits <= 46080000,
            bits >= 576000,
            8000 <= divisor <= 48000,
    ;
    Some(n + padding)
}

/// Whether two frames follow each other from an index on.
pub open spec fn two_frames(b: Seq<u8>, i: int) -> bool {
    0 <= i < b.len() && match frame_len(b.skip(i)) {
        Some(n) => i + n <= b.len() && frame_len(b.skip(i + n)) is Some,
        None => false,
    }
}

/// Whether two frames follow each other anywhere: a lone header may stand in any
/// data by chance.
pub open spec fn has_frames(b: Seq<u8>) -> bool {
    exists|i: int| two_frames(b, i)
}

pub fn contains_mp3_frames(bytes: &[u8]) -> (r: bool)
    ensures
        r == has_frames(bytes@),
{
    let total: usize = bytes.len();
    let mut i: usize = 0;
    while i < total
        invariant
            total == bytes@.len(),
            i <= total,
            forall|j: int| 0 <= j < i ==> !two_frames(bytes@, j),
        decreases total - i,
    {
        let here = slice_subrange(bytes, i, total);
        assert(here@ =~= bytes@.skip(i as int));
        match mp3_frame_len(here) {
            Some(n) => {
                if n <= total - i {
                    let next = slice_subrange(bytes, i + n, total);
                    assert(next@ =~= bytes@.skip(i + n));
                    if mp3_frame_len(next).is_some() {
                        assert(two_frames(bytes@, i as int));
                        return true;
                    }
                }
            },
            None => {},
        }
        i = i + 1;
    }
    false
}

// ---------------------------------------------------------------- tags

/// The length of the tag that begins with a header of ten bytes, a footer
/// counted.
pub open spec fn tag_len(h: Seq<u8>) -> Option<nat> {
    if h.take(3) != seq![0x49u8, 0x44u8, 0x33u8] || h[3] == 0xff || h[4] == 0xff {
        None
    } else if h[6] >= 128 || h[7] >= 128 || h[8] >= 128 || h[9] >= 128 {
        None
    } else {
        Some(
            10 + id3::syncsafe_value(h.subrange(6, 10)) + if h[5] as int / 16 % 2 == 1 {
                10nat
            } else {
                0nat
            },
        )
    }
}

pub fn id3v2_tag_len(header: &[u8]) -> (r: Option<u64>)
    requires
        header@.len() == 10,
    ensures
        match r {
            Some(n) => tag_len(header@) == Some(n as nat) && n < 268435500,
            None => tag_len(header@) is None,
        },
{
    proof {
        let t = header@.take(3);
        assert(t[0] == header@[0] && t[1] == header@[1] && t[2] == header@[2]);
        assert(t == seq![0x49u8, 0x44u8, 0x33u8] <==> t =~= seq![0x49u8, 0x44u8, 0x33u8]);
        assert(header@.subrange(6, 10) =~= seq![header@[6], header@[7], header@[8], header@[9]]);
    }
    if header[0] != 0x49 || header[1] != 0x44 || header[2] != 0x33 || header[3] == 0xff || header[4]
        == 0xff {
        return None;
    }
    if header[6] >= 128 || header[7] >= 128 || header[8] >= 128 || header[9] >= 128 {
        return None;
    }
    let size = id3::syncsafe(header[6], header[7], header[8], header[9]);
    let footer: u64 = if header[5] / 16 % 2 == 1 {
        10
    } else {
        0
    };
    Some(10 + size + footer)
}

/// Where the audio begins, with the tags at the start skipped.
pub open spec fn audio_start(file: Seq<u8>, start: nat, tags: nat) -> nat
    decreases tags,
{
    if tags == 0 || start + 10 > file.len() {
        start
    } else {
        match tag_len(file.subrange(start as int, start as int + 10)) {
            Some(n) => audio_start(file, start + n, (tags - 1) as nat),
            None => start,
        }
    }
}

/// A walk over the tags at the start of a file.
pub struct TagWalk {
    pub start: u64,
    pub left: usize,
}

impl TagWalk {
    pub open spec fn wf(self) -> bool {
        self.left <= MAX_ID3_TAGS && self.start <= (MAX_ID3_TAGS - self.left) * 268435500
    }

    pub fn new() -> (r: TagWalk)
        ensures
            r.wf(),
            r.start == 0,
            r.left == MAX_ID3_TAGS,
    {
        TagWalk { start: 0, left: MAX_ID3_TAGS }
    }

    /// Takes up to ten bytes from where the walk stands, and says whether to go
    /// on.
    pub fn step(&mut self, header: &[u8]) -> (again: bool)
        requires
            old(self).wf(),
        ensures
            final(self).wf(),
            if old(self).left > 0 && header@.len() == 10 && tag_len(header@) is Some {
                &&& again
                &&& final(self).start == old(self).start + tag_len(header@)->0
                &&& final(self).left == old(self).left - 1
            } else {
                !again && *final(self) == *old(self)
            },
    {
        if self.left == 0 || header.len() != 10 {
            return false;
        }
        match id3v2_tag_len(header) {
            Some(n) => {
                self.start = self.start + n;
                self.left = self.left - 1;
                true
            },
            None => false,
        }
    }
}

/// The part of a file in which frames are looked for.
pub open spec fn scan_window(file: Seq<u8>) -> Seq<u8> {
    let start = audio_start(file, 0, MAX_ID3_TAGS as nat);
    if start >= file.len() {
        Seq::empty()
    } else if start + MP3_SCAN_BYTES < file.len() {
        file.subrange(start as int, start + MP3_SCAN_BYTES)
    } else {
        file.skip(start as int)
    }
}

/// Whether a file holds MPEG Layer III audio.
pub fn is_mp3(file: &[u8]) -> (r: bool)
    ensures
        r == has_frames(scan_window(file@)),
{
    let total: usize = file.len();
    let mut walk = TagWalk::new();
    let mut again = true;
    while again
        invariant
            total == file@.len(),
            walk.wf(),
            audio_start(file@, walk.start as nat, walk.left as nat) == audio_start(
                file@,
                0,
                MAX_ID3_TAGS as nat,
            ),
            !again ==> walk.start == audio_start(file@, 0, MAX_ID3_TAGS as nat),
        decreases walk.left + if again {
            1int
        } else {
            0int
        },
    {
        if walk.start > total as u64 || total as u64 - walk.start < 10 {
            again = false;
        } else {
            let at: usize = walk.start as usize;
            let header = slice_subrange(file, at, at + 10);
            again = walk.step(header);
        }
    }
    let window = if walk.start >= total as u64 {
        let none = slice_subrange(file, 0, 0);
        assert(none@ =~= scan_window(file@));
        none
    } else {
        let at: usize = walk.start as usize;
        let end: usize = if total - at > MP3_SCAN_BYTES {
            at + MP3_SCAN_BYTES
        } else {
            total
        };
        let part = slice_subrange(file, at, end);
        assert(part@ =~= scan_window(file@));
        part
    };
    contains_mp3_frames(window)
}

// ---------------------------------------------------------------- images

/// The format whose signature begins some bytes.
pub open spec fn image_kind(h: Seq<u8>) -> Option<ImageFormat> {
    if text::begins_with(h, seq![0xffu8, 0xd8u8, 0xffu8]) {
        Some(ImageFormat::Jpeg)
    } else if text::begins_with(
        h,
        seq![0x89u8, 0x50u8, 0x4eu8, 0x47u8, 0x0du8, 0x0au8, 0x1au8, 0x0au8],
    ) {
        Some(ImageFormat::Png)
    } else {
        None
    }
}

fn begins(h: &[u8], part: &[u8]) -> (r: bool)
    ensures
        r == text::begins_with(h@, part@),
{
    if part.len() > h.len() {
        return false;
    }
    let mut i: usize = 0;
    while i < part.len()
        invariant
            i <= part@.len() <= h@.len(),
            forall|j: int| 0 <= j < i ==> h@[j] == #[trigger] part@[j],
        decreases part.len() - i,
    {
        if h[i] != part[i] {
            assert(h@.subrange(0, part@.len() as int)[i as int] == h@[i as int]);
            return false;
        }
        i = i + 1;
    }
    assert(h@.subrange(0, part@.len() as int) =~= part@);
    true
}

pub fn image_format_of(header: &[u8]) -> (r: Option<ImageFormat>)
    ensures
        r == image_kind(header@),
{
    let jpeg: [u8; 3] = [0xff, 0xd8, 0xff];
    let png: [u8; 8] = [0x89, 0x50, 0x4e, 0x47, 0x0d, 0x0a, 0x1a, 0x0a];
    assert(jpeg@ =~= seq![0xffu8, 0xd8u8, 0xffu8]);
    assert(png@ =~= seq![0x89u8, 0x50u8, 0x4eu8, 0x47u8, 0x0du8, 0x0au8, 0x1au8, 0x0au8]);
    if begins(header, &jpeg) {
        Some(ImageFormat::Jpeg)
    } else if begins(header, &png) {
        Some(ImageFormat::Png)
    } else {
        None
    }
}

/// The format of an image, told by the first eight bytes of its file.
pub fn image_format(file: &[u8]) -> (r: Option<ImageFormat>)
    ensures
        r == image_kind(
            if file@.len() > 8 {
                file@.take(8)
            } else {
                file@
            },
        ),
{
    if file.len() > 8 {
        let head = slice_subrange(file, 0, 8);
        assert(head@ =~= file@.take(8));
        image_format_of(head)
    } else {
        image_format_of(file)
    }
}

// ---------------------------------------------------------------- lyrics

/// The bytes by which lyrics are told from other files.
pub open spec fn probe(b: Seq<u8>) -> Seq<u8> {
    if b.len() > LYRICS_BINARY_PROBE_BYTES {
        b.take(LYRICS_BINARY_PROBE_BYTES as int)
    } else {
        b
    }
}

/// Whether a file is no text: it holds a zero byte, is an image or an MP3.
pub open spec fn is_binary(b: Seq<u8>) -> bool {
    probe(b).contains(0u8) || image_kind(probe(b)) is Some || has_frames(probe(b))
}

/// Bytes without a byte order mark before them.
pub open spec fn unmarked(b: Seq<u8>) -> Seq<u8> {
    if text::begins_with(b, seq![0xefu8, 0xbbu8, 0xbfu8]) {
        b.skip(3)
    } else {
        b
    }
}

/// What `serde_json` reads from the text, where it is one.
pub open spec fn lyrics_value(b: Seq<u8>) -> Option<JsonView> {
    if valid_utf8(unmarked(b)) {
        match json::json_parsed(decode_utf8(unmarked(b))) {
            Ok(v) => Some(v),
            Err(_) => None,
        }
    } else {
        None
    }
}

/// The format of lyrics, given the value that their text spells: an envelope is a
/// JSON object, anything else is timed or plain text.
pub fn format_of_value(value: Option<&Json>) -> (r: LyricsFormat)
    ensures
        r == match value {
            Some(v) => if v@ is Object {
                LyricsFormat::Json
            } else {
                LyricsFormat::Lrc
            },
            None => LyricsFormat::Lrc,
        },
{
    match value {
        Some(Json::Object(_)) => LyricsFormat::Json,
        _ => LyricsFormat::Lrc,
    }
}

fn has_zero(b: &[u8]) -> (r: bool)
    ensures
        r == b@.contains(0u8),
{
    let mut i: usize = 0;
    while i < b.len()
        invariant
            i <= b@.len(),
            forall|j: int| 0 <= j < i ==> b@[j] != 0u8,
        decreases b.len() - i,
    {
        if b[i] == 0 {
            return true;
        }
        i = i + 1;
    }
    false
}

/// The format of lyrics, or nothing for a file that is no text.
pub fn lyrics_format(bytes: &[u8]) -> (r: Option<LyricsFormat>)
    ensures
        match r {
            Some(f) => !is_binary(bytes@) && f == match lyrics_value(bytes@) {
                Some(v) => if v is Object {
                    LyricsFormat::Json
                } else {
                    LyricsFormat::Lrc
                },
                None => LyricsFormat::Lrc,
            },
            None => is_binary(bytes@),
        },
{
    let head = if bytes.len() > LYRICS_BINARY_PROBE_BYTES {
        slice_subrange(bytes, 0, LYRICS_BINARY_PROBE_BYTES)
    } else {
        bytes
    };
    assert(head@ =~= probe(bytes@));
    if has_zero(head) || image_format_of(head).is_some() || contains_mp3_frames(head) {
        return None;
    }
    let mark: [u8; 3] = [0xef, 0xbb, 0xbf];
    assert(mark@ =~= seq![0xefu8, 0xbbu8, 0xbfu8]);
    let rest = if begins(bytes, &mark) {
        slice_subrange(bytes, 3, bytes.len())
    } else {
        bytes
    };
    assert(rest@ =~= unmarked(bytes@));
    match utf8_text(rest) {
        Some(s) => match json::parse_json(s.as_str()) {
            Ok(v) => Some(format_of_value(Some(&v))),
            Err(_) => Some(format_of_value(None)),
        },
        None => Some(format_of_value(None)),
    }
}

// ---------------------------------------------------------------- laws

/// A tag in front of a file does not change where, past it, the audio begins.
pub proof fn leading_tags_are_skipped(tag: Seq<u8>, file: Seq<u8>, tags: nat)
    requires
        tag.len() >= 10,
        tags > 0,
        tag_len(tag.take(10)) == Some(tag.len()),
    ensures
        audio_start(tag + file, 0, tags) == tag.len() + audio_start(file, 0, (tags - 1) as nat),
{
    assert((tag + file).subrange(0, 10) =~= tag.take(10));
    lemma_shifted_start(tag, file, 0, (tags - 1) as nat);
}

proof fn lemma_shifted_start(tag: Seq<u8>, file: Seq<u8>, start: nat, tags: nat)
    ensures
        audio_start(tag + file, tag.len() + start, tags) == tag.len() + audio_start(
            file,
            start,
            tags,
        ),
    decreases tags,
{
    if tags > 0 && start + 10 <= file.len() {
        assert((tag + file).subrange((tag.len() + start) as int, (tag.len() + start) as int + 10)
            =~= file.subrange(start as int, start as int + 10));
        match tag_len(file.subrange(start as int, start as int + 10)) {
            Some(n) => {
                lemma_shifted_start(tag, file, start + n, (tags - 1) as nat);
            },
            None => {},
        }
    }
}

// ---------------------------------------------------------------- laws

/// A frame has the length that its bit rate and its sampling rate give, and one
/// byte more where it is padded; a header without the sync bits, with a reserved
/// version or rate, or of another layer, is none.
pub proof fn frame_lengths_follow_the_rates(b: Seq<u8>)
    requires
        b.len() >= 4,
    ensures
        frame_len(b) is Some <==> {
            &&& b[0] == 0xff && b[1] >= 0xe0
            &&& (b[1] as int / 8) % 4 != 1
            &&& (b[1] as int / 2) % 4 == 1
            &&& 1 <= b[2] as int / 16 <= 14
            &&& (b[2] as int / 4) % 4 != 3
        },
        frame_len(b) is Some && (b[2] as int / 2) % 2 == 0 ==> frame_len(
            b.update(2, (b[2] + 2) as u8),
        ) == Some(frame_len(b)->0 + 1),
        frame_len(b) is Some && b[2] < 0xe0 ==> frame_len(b.update(2, (b[2] + 16) as u8)) is Some
            && frame_len(b)->0 <= frame_len(b.update(2, (b[2] + 16) as u8))->0,
        frame_len(b) matches Some(n) ==> (b[1] as int / 8) % 4 == 3 && (b[2] as int / 4) % 4 == 0
            && (b[2] as int / 2) % 2 == 0 ==> n * 44100 <= 144_000 * mpeg1_kbps()[b[2] as int / 16]
            < (n + 1) * 44100,
{
    let x = b[2] as int;
    let i = x / 16;
    if frame_len(b) is Some {
        assert((x + 2) / 16 == i || (x / 2) % 2 == 1);
        assert((x / 2) % 2 == 0 ==> (x + 2) / 4 == x / 4 && ((x + 2) / 2) % 2 == 1);
        if x < 0xe0 {
            assert((x + 16) / 16 == i + 1);
            assert(((x + 16) / 4) % 4 == (x / 4) % 4);
            assert(((x + 16) / 2) % 2 == (x / 2) % 2);
            lemma_rates_rise(i);
            let r = (x / 4) % 4;
            lemma_lengths_rise(
                mpeg1_kbps()[i] as int,
                mpeg1_kbps()[i + 1] as int,
                mpeg2_kbps()[i] as int,
                mpeg2_kbps()[i + 1] as int,
                sample_rates()[r] as int,
            );
        }
    }
}

proof fn lemma_rates_rise(i: int)
    requires
        1 <= i < 14,
    ensures
        mpeg1_kbps()[i] <= mpeg1_kbps()[i + 1],
        mpeg2_kbps()[i] <= mpeg2_kbps()[i + 1],
{
}

proof fn lemma_lengths_rise(a: int, b: int, c: int, d: int, rate: int)
    requires
        0 <= a <= b,
        0 <= c <= d,
        rate == 44100 || rate == 48000 || rate == 32000,
    ensures
        144 * a * 1000 / rate <= 144 * b * 1000 / rate,
        72 * c * 1000 / (rate / 2) <= 72 * d * 1000 / (rate / 2),
        72 * c * 1000 / (rate / 4) <= 72 * d * 1000 / (rate / 4),
{
    assert(rate / 2 == 22050 || rate / 2 == 24000 || rate / 2 == 16000);
    assert(rate / 4 == 11025 || rate / 4 == 12000 || rate / 4 == 8000);
    lemma_division_rises(72 * c * 1000, 72 * d * 1000, rate / 2);
    lemma_division_rises(72 * c * 1000, 72 * d * 1000, rate / 4);
    lemma_division_rises(144 * a * 1000, 144 * b * 1000, rate);
}

proof fn lemma_division_rises(x: int, y: int, n: int)
    by (nonlinear_arith)
    requires
        0 <= x <= y,
        n > 0,
    ensures
        x / n <= y / n,
{
}

proof fn lemma_frame_len_front(b: Seq<u8>, c: Seq<u8>)
    requires
        frame_len(b) is Some,
        b.len() >= 4,
    ensures
        frame_len(b + c) == frame_len(b),
        (b + c).len() >= 4,
{
    let all = b + c;
    assert(all[0] == b[0] && all[1] == b[1] && all[2] == b[2]);
}

/// Frames are found wherever they stand, whatever is before and behind them.
pub proof fn frames_are_found_anywhere(a: Seq<u8>, b: Seq<u8>, c: Seq<u8>)
    requires
        has_frames(b),
    ensures
        has_frames(a + b + c),
{
    let i = choose|i: int| two_frames(b, i);
    let n = frame_len(b.skip(i))->0;
    let all = a + b + c;
    let k = a.len() as int;
    assert(n >= 0) by {
        lemma_frame_len_positive(b.skip(i));
    }
    assert(b.skip(i).len() >= 4);
    assert(b.skip(i + n).len() >= 4);
    assert(all.skip(k + i) =~= b.skip(i) + c);
    assert(all.skip(k + i + n) =~= b.skip(i + n) + c);
    lemma_frame_len_front(b.skip(i), c);
    lemma_frame_len_front(b.skip(i + n), c);
    assert(two_frames(all, k + i));
}

proof fn lemma_frame_len_positive(b: Seq<u8>)
    requires
        frame_len(b) is Some,
    ensures
        frame_len(b)->0 >= 0,
{
    let i = b[2] as int / 16;
    let r = (b[2] as int / 4) % 4;
    assert(sample_rates()[r] == 44100 || sample_rates()[r] == 48000 || sample_rates()[r] == 32000);
    assert(mpeg1_kbps()[i] >= 0 && mpeg2_kbps()[i] >= 0);
}

/// A tag is as long as its header says, its header and, where there is one, its
/// footer included.
pub proof fn tags_end_where_they_say(
    major: u8,
    minor: u8,
    flags: u8,
    a: u8,
    b: u8,
    c: u8,
    d: u8,
)
    requires
        major < 0xff,
        minor < 0xff,
        a < 128,
        b < 128,
        c < 128,
        d < 128,
    ensures
        ({
            let h = seq![0x49u8, 0x44u8, 0x33u8, major, minor, flags, a, b, c, d];
            let size = a * 2097152 + b * 16384 + c * 128 + d;
            &&& (flags as int / 16) % 2 == 0 ==> tag_len(h) == Some((10 + size) as nat)
            &&& (flags as int / 16) % 2 == 1 ==> tag_len(h) == Some((20 + size) as nat)
        }),
{
    let h = seq![0x49u8, 0x44u8, 0x33u8, major, minor, flags, a, b, c, d];
    assert(h.take(3) =~= seq![0x49u8, 0x44u8, 0x33u8]);
    assert(h.subrange(6, 10) =~= seq![a, b, c, d]);
    id3::sizes_count_by_place(a, b, c, d);
}

/// What is searched for frames begins behind the tags and ends with the file, but
/// is no longer than the limit.
pub proof fn search_begins_behind_the_tags(file: Seq<u8>)
    ensures
        ({
            let start = audio_start(file, 0, 4);
            let w = scan_window(file);
            &&& w.len() <= 65536
            &&& start <= file.len() ==> w == file.subrange(start as int, (start + w.len()) as int)
            &&& start <= file.len() && w.len() < 65536 ==> start + w.len() == file.len()
        }),
{
    let start = audio_start(file, 0, 4);
    if start == file.len() {
        assert(file.subrange(start as int, start as int) =~= Seq::empty());
    } else if start < file.len() {
        assert(file.skip(start as int) =~= file.subrange(start as int, file.len() as int));
    }
}

/// Pictures are told by how they begin, whatever follows.
pub proof fn pictures_are_told_by_their_start(rest: Seq<u8>)
    ensures
        image_kind(seq![0xffu8, 0xd8u8, 0xffu8] + rest) == Some(ImageFormat::Jpeg),
        image_kind(
            seq![0x89u8, 0x50u8, 0x4eu8, 0x47u8, 0x0du8, 0x0au8, 0x1au8, 0x0au8] + rest,
        ) == Some(ImageFormat::Png),
        rest.len() > 0 && rest[0] != 0xff && rest[0] != 0x89 ==> image_kind(rest) is None,
        rest.len() == 0 ==> image_kind(rest) is None,
{
    let jpeg = seq![0xffu8, 0xd8u8, 0xffu8];
    let png = seq![0x89u8, 0x50u8, 0x4eu8, 0x47u8, 0x0du8, 0x0au8, 0x1au8, 0x0au8];
    assert((jpeg + rest).subrange(0, 3) =~= jpeg);
    assert((png + rest).subrange(0, 8) =~= png);
    if text::begins_with(png + rest, jpeg) {
        assert((png + rest).subrange(0, 3)[0] == jpeg[0]);
    }
    if text::begins_with(rest, jpeg) {
        assert(rest.subrange(0, 3)[0] == jpeg[0]);
    }
    if text::begins_with(rest, png) {
        assert(rest.subrange(0, 8)[0] == png[0]);
    }
}

/// A file with a zero, a picture or frames of sound in its first bytes is no text;
/// what follows those bytes does not matter.
pub proof fn lyrics_are_told_by_their_start(b: Seq<u8>, more: Seq<u8>)
    requires
        b.len() >= LYRICS_BINARY_PROBE_BYTES,
    ensures
        is_binary(b + more) == is_binary(b),
        b.take(4096).contains(0) ==> is_binary(b),
        probe(b).len() == 4096,
{
    assert((b + more).take(4096) =~= b.take(4096));
    assert(b.len() == 4096 ==> b.take(4096) =~= b);
}

/// A byte order mark before lyrics is no part of them.
pub proof fn marks_are_no_part_of_lyrics(b: Seq<u8>)
    ensures
        unmarked(seq![0xefu8, 0xbbu8, 0xbfu8] + b) == b,
        !text::begins_with(b, seq![0xefu8, 0xbbu8, 0xbfu8]) ==> unmarked(b) == b,
        !text::begins_with(b, seq![0xefu8, 0xbbu8, 0xbfu8]) ==> lyrics_value(
            seq![0xefu8, 0xbbu8, 0xbfu8] + b,
        ) == lyrics_value(b),
{
    let mark = seq![0xefu8, 0xbbu8, 0xbfu8];
    assert((mark + b).subrange(0, 3) =~= mark);
    assert((mark + b).skip(3) =~= b);
}

/// Sound is told by two frames of which the second begins where the first one ends;
/// one alone is not enough.
pub proof fn one_frame_is_not_enough(b: Seq<u8>)
    ensures
        has_frames(b) <==> exists|i: int|
            {
                &&& 0 <= i < b.len()
                &&& #[trigger] frame_len(b.skip(i)) is Some
                &&& i + frame_len(b.skip(i))->0 <= b.len()
                &&& frame_len(b.skip(i + frame_len(b.skip(i))->0)) is Some
            },
{
    if has_frames(b) {
        let i = choose|i: int| two_frames(b, i);
        assert(frame_len(b.skip(i)) is Some);
    }
    if exists|i: int|
        {
            &&& 0 <= i < b.len()
            &&& #[trigger] frame_len(b.skip(i)) is Some
            &&& i + frame_len(b.skip(i))->0 <= b.len()
            &&& frame_len(b.skip(i + frame_len(b.skip(i))->0)) is Some
        } {
        let i = choose|i: int|
            {
                &&& 0 <= i < b.len()
                &&& #[trigger] frame_len(b.skip(i)) is Some
                &&& i + frame_len(b.skip(i))->0 <= b.len()
                &&& frame_len(b.skip(i + frame_len(b.skip(i))->0)) is Some
            };
        assert(two_frames(b, i));
    }
}

} // verus!
