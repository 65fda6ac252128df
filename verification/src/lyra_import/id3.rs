//! Title, artist and album that an MP3 carries in its ID3 tags, so that a picked
//! file can fill in the import form.
use vstd::prelude::*;
use vstd::slice::*;
use vstd::string::*;
use vstd::utf8::*;

use crate::text::{self, utf8_text};

verus! {

/// `char::from_u32` gives the character of a Unicode scalar value, and nothing
/// for a surrogate or a number past the last code point.
pub assume_specification[ char::from_u32 ](i: u32) -> (r: Option<char>)
    ensures
        match r {
            Some(c) => c as int == i,
            None => 0xd800 <= i <= 0xdfff || i > 0x10ffff,
        },
;

/// Text frames stand near the start of a tag; what lies further on is artwork.
pub const MAX_TAG_BYTES: u64 = 4194304;

pub const ID3V1_BYTES: usize = 128;

/// What stands between the values of one frame.
pub const VALUE_SEPARATOR: &'static str = " / ";

#[derive(Clone, Debug, PartialEq, Eq)]
pub struct TrackTags {
    pub title: Option<String>,
    pub artist: Option<String>,
    pub album: Option<String>,
}

/// The mathematical value of [`TrackTags`].
pub struct TagsView {
    pub title: Option<Seq<char>>,
    pub artist: Option<Seq<char>>,
    pub album: Option<Seq<char>>,
}

pub open spec fn no_tags() -> TagsView {
    TagsView { title: None, artist: None, album: None }
}

impl TrackTags {
    pub open spec fn view(&self) -> TagsView {
        TagsView {
            title: text::opt_text(self.title),
            artist: text::opt_text(self.artist),
            album: text::opt_text(self.album),
        }
    }
}

impl Default for TrackTags {
    fn default() -> (r: Self)
        ensures
            r@ == no_tags(),
    {
        TrackTags { title: None, artist: None, album: None }
    }
}

pub open spec fn either(a: Option<Seq<char>>, b: Option<Seq<char>>) -> Option<Seq<char>> {
    if a is Some {
        a
    } else {
        b
    }
}

/// Tags, with what is missing taken from other ones.
pub open spec fn merged(a: TagsView, b: TagsView) -> TagsView {
    TagsView {
        title: either(a.title, b.title),
        artist: either(a.artist, b.artist),
        album: either(a.album, b.album),
    }
}

fn or_other(a: Option<String>, b: Option<String>) -> (r: Option<String>)
    ensures
        text::opt_text(r) == either(text::opt_text(a), text::opt_text(b)),
{
    match a {
        Some(s) => Some(s),
        None => b,
    }
}

impl TrackTags {
    pub fn merge_missing(self, other: TrackTags) -> (r: TrackTags)
        ensures
            r@ == merged(self@, other@),
    {
        TrackTags {
            title: or_other(self.title, other.title),
            artist: or_other(self.artist, other.artist),
            album: or_other(self.album, other.album),
        }
    }
}

// ---------------------------------------------------------------- numbers

/// The number in bytes of seven bits each, the first one highest.
pub open spec fn syncsafe_value(b: Seq<u8>) -> nat
    decreases b.len(),
{
    if b.len() == 0 {
        0
    } else {
        syncsafe_value(b.drop_last()) * 128 + (b.last() % 128) as nat
    }
}

/// Reads four bytes of seven bits each.
pub fn syncsafe(a: u8, b: u8, c: u8, d: u8) -> (r: u64)
    ensures
        r == syncsafe_value(seq![a, b, c, d]),
        r < 268435456,
{
    proof {
        let s = seq![a, b, c, d];
        assert(s.drop_last() =~= seq![a, b, c]);
        assert(seq![a, b, c].drop_last() =~= seq![a, b]);
        assert(seq![a, b].drop_last() =~= seq![a]);
        assert(seq![a].drop_last() =~= Seq::<u8>::empty());
        reveal_with_fuel(syncsafe_value, 5);
    }
    (((a % 128) as u64 * 128 + (b % 128) as u64) * 128 + (c % 128) as u64) * 128 + (d % 128) as u64
}

/// The number in four bytes, the first one highest.
pub open spec fn be_value(a: u8, b: u8, c: u8, d: u8) -> nat {
    (a as nat * 16777216 + b as nat * 65536 + c as nat * 256 + d as nat) as nat
}

fn be_number(a: u8, b: u8, c: u8, d: u8) -> (r: u64)
    ensures
        r == be_value(a, b, c, d),
        r < 4294967296,
{
    a as u64 * 16777216 + b as u64 * 65536 + c as u64 * 256 + d as u64
}

// ---------------------------------------------------------------- resync

/// How many bytes stand for the first one.
pub open spec fn resync_step(b: Seq<u8>) -> int {
    if b.len() > 1 && b[0] == 0xff && b[1] == 0 {
        2
    } else {
        1
    }
}

/// Bytes without the zero that was written behind each `FF`.
pub open spec fn resynced(b: Seq<u8>) -> Seq<u8>
    decreases b.len(),
{
    if b.len() == 0 {
        Seq::empty()
    } else {
        seq![b[0]] + resynced(b.skip(resync_step(b)))
    }
}

pub fn resynchronise(bytes: &[u8]) -> (r: Vec<u8>)
    ensures
        r@ == resynced(bytes@),
{
    let total: usize = bytes.len();
    let mut out: Vec<u8> = Vec::new();
    let mut i: usize = 0;
    assert(bytes@.skip(0) =~= bytes@);
    assert(out@ + resynced(bytes@) =~= resynced(bytes@));
    while i < total
        invariant
            total == bytes@.len(),
            i <= total,
            out@ + resynced(bytes@.skip(i as int)) == resynced(bytes@),
        decreases total - i,
    {
        let ghost here = bytes@.skip(i as int);
        let ghost before = out@;
        let two = i + 1 < total && bytes[i] == 0xff && bytes[i + 1] == 0;
        out.push(bytes[i]);
        proof {
            assert(here[0] == bytes@[i as int]);
            assert(here.len() > 1 ==> here[1] == bytes@[i + 1]);
            assert(here.skip(resync_step(here)) =~= bytes@.skip(i + resync_step(here)));
            assert(before + (seq![here[0]] + resynced(here.skip(resync_step(here)))) =~= out@
                + resynced(here.skip(resync_step(here))));
        }
        if two {
            i = i + 2;
        } else {
            i = i + 1;
        }
    }
    assert(bytes@.skip(i as int) =~= Seq::empty());
    assert(out@ + resynced(Seq::<u8>::empty()) =~= out@);
    out
}

/// Bytes with a zero written behind each `FF`.
pub open spec fn unsynced(b: Seq<u8>) -> Seq<u8>
    decreases b.len(),
{
    if b.len() == 0 {
        Seq::empty()
    } else if b[0] == 0xff {
        seq![0xffu8, 0u8] + unsynced(b.skip(1))
    } else {
        seq![b[0]] + unsynced(b.skip(1))
    }
}

/// Resynchronising gives back the bytes that were unsynchronised.
pub proof fn resync_undoes_unsync(b: Seq<u8>)
    ensures
        resynced(unsynced(b)) == b,
    decreases b.len(),
{
    let u = unsynced(b);
    if b.len() == 0 {
        assert(b =~= Seq::empty());
    } else {
        resync_undoes_unsync(b.skip(1));
        assert(u[0] == b[0]);
        if b[0] == 0xff {
            assert(u[1] == 0);
            assert(u.skip(2) =~= unsynced(b.skip(1)));
        } else {
            assert(u.skip(1) =~= unsynced(b.skip(1)));
        }
        assert(b =~= seq![b[0]] + b.skip(1));
    }
}

// ---------------------------------------------------------------- text

/// The characters that UTF-16 units spell; nothing where a surrogate stands
/// alone.
pub open spec fn utf16_text(u: Seq<u16>) -> Option<Seq<char>>
    decreases u.len(),
{
    if u.len() == 0 {
        Some(Seq::empty())
    } else if u[0] < 0xd800 || u[0] > 0xdfff {
        match utf16_text(u.skip(1)) {
            Some(rest) => Some(seq![u[0] as char] + rest),
            None => None,
        }
    } else if u[0] >= 0xdc00 || u.len() < 2 || u[1] < 0xdc00 || u[1] > 0xdfff {
        None
    } else {
        match utf16_text(u.skip(2)) {
            Some(rest) => Some(
                seq![(0x10000 + (u[0] - 0xd800) * 0x400 + (u[1] - 0xdc00)) as char] + rest,
            ),
            None => None,
        }
    }
}

/// The units of bytes; a byte that is left over is dropped.
pub open spec fn utf16_units(b: Seq<u8>, big: bool) -> Seq<u16> {
    Seq::new(
        b.len() / 2,
        |i: int|
            (if big {
                b[2 * i] as int * 256 + b[2 * i + 1] as int
            } else {
                b[2 * i + 1] as int * 256 + b[2 * i] as int
            }) as u16,
    )
}

/// The text of bytes in UTF-16, whose byte order a mark may tell.
pub open spec fn utf16_value(b: Seq<u8>, default_big: bool) -> Option<Seq<char>> {
    if b.len() >= 2 && b[0] == 0xfe && b[1] == 0xff {
        utf16_text(utf16_units(b.skip(2), true))
    } else if b.len() >= 2 && b[0] == 0xff && b[1] == 0xfe {
        utf16_text(utf16_units(b.skip(2), false))
    } else {
        utf16_text(utf16_units(b, default_big))
    }
}

fn units_of(b: &[u8], big: bool) -> (r: Vec<u16>)
    ensures
        r@ == utf16_units(b@, big),
{
    let total: usize = b.len();
    let mut out: Vec<u16> = Vec::new();
    let mut i: usize = 0;
    while total - i >= 2
        invariant
            total == b@.len(),
            i <= total,
            i == 2 * out@.len(),
            forall|j: int| 0 <= j < out@.len() ==> #[trigger] out@[j] == utf16_units(b@, big)[j],
        decreases total - i,
    {
        let unit: u16 = if big {
            b[i] as u16 * 256 + b[i + 1] as u16
        } else {
            b[i + 1] as u16 * 256 + b[i] as u16
        };
        assert(unit == utf16_units(b@, big)[out@.len() as int]);
        out.push(unit);
        i = i + 2;
    }
    assert(out@ =~= utf16_units(b@, big));
    out
}

fn text_of_units(u: &Vec<u16>) -> (r: Option<String>)
    ensures
        text::opt_text(r) == utf16_text(u@),
{
    let total: usize = u.len();
    let mut out = String::new();
    let mut i: usize = 0;
    proof {
        assert(u@.skip(0) =~= u@);
        assert(out@ =~= Seq::empty());
        if let Some(all) = utf16_text(u@) {
            assert(Seq::<char>::empty() + all =~= all);
        }
    }
    while i < total
        invariant
            total == u@.len(),
            i <= total,
            match utf16_text(u@.skip(i as int)) {
                Some(rest) => utf16_text(u@) == Some(out@ + rest),
                None => utf16_text(u@) is None,
            },
        decreases total - i,
    {
        let ghost here = u@.skip(i as int);
        let ghost before = out@;
        let first: u16 = u[i];
        assert(here[0] == first);
        if first < 0xd800 || first > 0xdfff {
            match char::from_u32(first as u32) {
                Some(c) => {
                    out.push(c);
                    i = i + 1;
                    proof {
                        assert(here.skip(1) =~= u@.skip(i as int));
                        assert(c == first as char);
                        if let Some(rest) = utf16_text(here.skip(1)) {
                            assert(before + (seq![c] + rest) =~= out@ + rest);
                        }
                    }
                },
                None => {
                    return None;
                },
            }
        } else {
            if first >= 0xdc00 || total - i < 2 {
                return None;
            }
            let second: u16 = u[i + 1];
            assert(here[1] == second);
            if second < 0xdc00 || second > 0xdfff {
                return None;
            }
            let code: u32 = 0x10000 + (first as u32 - 0xd800) * 0x400 + (second as u32 - 0xdc00);
            match char::from_u32(code) {
                Some(c) => {
                    out.push(c);
                    i = i + 2;
                    proof {
                        assert(here.skip(2) =~= u@.skip(i as int));
                        assert(c == (0x10000 + (first - 0xd800) * 0x400 + (second - 0xdc00)) as char);
                        if let Some(rest) = utf16_text(here.skip(2)) {
                            assert(before + (seq![c] + rest) =~= out@ + rest);
                        }
                    }
                },
                None => {
                    return None;
                },
            }
        }
    }
    proof {
        assert(u@.skip(i as int) =~= Seq::empty());
        assert(out@ + Seq::<char>::empty() =~= out@);
    }
    Some(out)
}

pub fn utf16(bytes: &[u8], default_big_endian: bool) -> (r: Option<String>)
    ensures
        text::opt_text(r) == utf16_value(bytes@, default_big_endian),
{
    let total: usize = bytes.len();
    let marked_big = total >= 2 && bytes[0] == 0xfe && bytes[1] == 0xff;
    let marked_little = total >= 2 && bytes[0] == 0xff && bytes[1] == 0xfe;
    let units = if marked_big || marked_little {
        let rest = slice_subrange(bytes, 2, total);
        assert(rest@ =~= bytes@.skip(2));
        units_of(rest, marked_big)
    } else {
        units_of(bytes, default_big_endian)
    };
    text_of_units(&units)
}

/// The text of bytes in UTF-8.
pub open spec fn utf8_value(b: Seq<u8>) -> Option<Seq<char>> {
    if valid_utf8(b) {
        Some(decode_utf8(b))
    } else {
        None
    }
}

/// The text of a Latin-1 frame. Taggers often put UTF-8 there, of which ASCII is
/// a part; other bytes may be of any code page, so the value is dropped.
pub fn latin1_or_utf8(bytes: &[u8]) -> (r: Option<String>)
    ensures
        text::opt_text(r) == utf8_value(bytes@),
{
    utf8_text(bytes)
}

// ---------------------------------------------------------------- frames

/// Whether a terminator of `unit` zero bytes stands at an index.
pub open spec fn ends_value(b: Seq<u8>, unit: int, i: int) -> bool {
    b[i] == 0 && (unit == 2 ==> b[i + 1] == 0)
}

/// The values in bytes, cut at the terminators that stand at multiples of
/// `unit`; `start` is where the current value begins.
pub open spec fn values_from(b: Seq<u8>, unit: int, start: int, i: int) -> Seq<Seq<u8>>
    decreases b.len() - i,
{
    if unit < 1 || i + unit > b.len() {
        seq![b.skip(start)]
    } else if ends_value(b, unit, i) {
        seq![b.subrange(start, i)] + values_from(b, unit, i + unit, i + unit)
    } else {
        values_from(b, unit, start, i + unit)
    }
}

pub open spec fn values_of(b: Seq<u8>, unit: int) -> Seq<Seq<u8>> {
    values_from(b, unit, 0, 0)
}

pub open spec fn parts_view(parts: Seq<Vec<u8>>) -> Seq<Seq<u8>> {
    parts.map_values(|v: Vec<u8>| v@)
}

/// Splits bytes at terminators of one or two zero bytes.
pub fn split_terminated(b: &[u8], unit: usize) -> (r: Vec<Vec<u8>>)
    requires
        unit == 1 || unit == 2,
    ensures
        parts_view(r@) == values_of(b@, unit as int),
{
    let total: usize = b.len();
    let mut out: Vec<Vec<u8>> = Vec::new();
    let mut start: usize = 0;
    let mut i: usize = 0;
    assert(parts_view(out@) + values_of(b@, unit as int) =~= values_of(b@, unit as int));
    while total - i >= unit
        invariant
            unit == 1 || unit == 2,
            total == b@.len(),
            start <= i <= total,
            parts_view(out@) + values_from(b@, unit as int, start as int, i as int) == values_of(
                b@,
                unit as int,
            ),
        decreases total - i,
    {
        if b[i] == 0 && (unit == 1 || b[i + 1] == 0) {
            let ghost before = out@;
            let part = slice_to_vec(slice_subrange(b, start, i));
            out.push(part);
            proof {
                let rest = values_from(b@, unit as int, i + unit, i + unit);
                assert(parts_view(out@) =~= parts_view(before).push(part@));
                assert(parts_view(before) + (seq![part@] + rest) =~= parts_view(out@) + rest);
            }
            start = i + unit;
        }
        i = i + unit;
    }
    let ghost before = out@;
    let part = slice_to_vec(slice_subrange(b, start, total));
    assert(part@ =~= b@.skip(start as int));
    out.push(part);
    proof {
        assert(parts_view(out@) =~= parts_view(before).push(part@));
        assert(parts_view(before) + seq![part@] =~= parts_view(out@));
    }
    out
}

/// The text of one value in the encoding of its frame.
pub open spec fn value_text(encoding: u8, v: Seq<u8>) -> Option<Seq<char>> {
    if encoding == 1 || encoding == 2 {
        utf16_value(v, encoding == 2)
    } else {
        utf8_value(v)
    }
}

/// The texts of values, without white space around them and without the empty
/// ones; nothing where one cannot be decoded.
pub open spec fn value_texts(encoding: u8, parts: Seq<Seq<u8>>) -> Option<Seq<Seq<char>>>
    decreases parts.len(),
{
    if parts.len() == 0 {
        Some(Seq::empty())
    } else {
        match (value_texts(encoding, parts.drop_last()), value_text(encoding, parts.last())) {
            (Some(texts), Some(t)) => if text::trimmed(t).len() == 0 {
                Some(texts)
            } else {
                Some(texts.push(text::trimmed(t)))
            },
            _ => None,
        }
    }
}

/// The text of a frame: its values, joined.
pub open spec fn frame_text(body: Seq<u8>) -> Option<Seq<char>> {
    if body.len() == 0 || body[0] > 3 {
        None
    } else {
        let unit = if body[0] == 1 || body[0] == 2 {
            2int
        } else {
            1int
        };
        match value_texts(body[0], values_of(body.skip(1), unit)) {
            Some(texts) => if texts.len() == 0 {
                None
            } else {
                Some(text::joined(texts, VALUE_SEPARATOR@))
            },
            None => None,
        }
    }
}

proof fn lemma_undecoded(encoding: u8, parts: Seq<Seq<u8>>, n: int)
    requires
        0 <= n <= parts.len(),
        value_texts(encoding, parts.take(n)) is None,
    ensures
        value_texts(encoding, parts) is None,
    decreases parts.len() - n,
{
    if n < parts.len() {
        assert(parts.take(n + 1).drop_last() =~= parts.take(n));
        lemma_undecoded(encoding, parts, n + 1);
    } else {
        assert(parts.take(n) =~= parts);
    }
}

pub fn decode_text_frame(body: &[u8]) -> (r: Option<String>)
    ensures
        text::opt_text(r) == frame_text(body@),
{
    if body.len() == 0 || body[0] > 3 {
        return None;
    }
    let encoding: u8 = body[0];
    let unit: usize = if encoding == 1 || encoding == 2 {
        2
    } else {
        1
    };
    let rest = slice_subrange(body, 1, body.len());
    assert(rest@ =~= body@.skip(1));
    let parts = split_terminated(rest, unit);
    let ghost all = parts_view(parts@);
    let mut out = String::new();
    let mut any = false;
    let ghost mut texts: Seq<Seq<char>> = Seq::empty();
    let mut i: usize = 0;
    proof {
        assert(all.take(0) =~= Seq::empty());
        assert(out@ =~= Seq::empty());
    }
    while i < parts.len()
        invariant
            i <= parts@.len(),
            all == parts_view(parts@),
            body@.len() > 0,
            encoding == body@[0],
            encoding <= 3,
            all == values_of(body@.skip(1), unit as int),
            unit == if encoding == 1 || encoding == 2 {
                2int
            } else {
                1int
            },
            value_texts(encoding, all.take(i as int)) == Some(texts),
            any == (texts.len() > 0),
            out@ == text::joined(texts, VALUE_SEPARATOR@),
        decreases parts.len() - i,
    {
        let part = parts[i].as_slice();
        proof {
            assert(all[i as int] == part@);
            assert(all.take(i + 1).drop_last() =~= all.take(i as int));
            assert(all.take(i + 1).last() == part@);
        }
        let decoded = if encoding == 1 || encoding == 2 {
            utf16(part, encoding == 2)
        } else {
            latin1_or_utf8(part)
        };
        match decoded {
            Some(t) => {
                let kept = text::trim(t.as_str());
                if !kept.as_str().is_empty() {
                    let ghost before = texts;
                    proof {
                        texts = texts.push(kept@);
                        assert(texts.drop_last() =~= before);
                    }
                    if any {
                        out.append(VALUE_SEPARATOR);
                        out.append(kept.as_str());
                    } else {
                        out = kept;
                        any = true;
                    }
                }
            },
            None => {
                proof {
                    lemma_undecoded(encoding, all, i + 1);
                }
                return None;
            },
        }
        i = i + 1;
    }
    assert(all.take(i as int) =~= all);
    if any {
        Some(out)
    } else {
        None
    }
}

/// The content of a frame, or nothing where it is compressed or encrypted, or
/// shorter than what its flags announce before it.
pub open spec fn frame_content(version: u8, format: u8, body: Seq<u8>) -> Option<Seq<u8>> {
    if version == 3 {
        let skip = format as int / 32 % 2;
        if format >= 64 || skip > body.len() {
            None
        } else {
            Some(body.skip(skip))
        }
    } else if version == 4 {
        let skip = format as int / 64 % 2 + 4 * (format as int % 2);
        if format as int / 4 % 4 != 0 || skip > body.len() {
            None
        } else if format as int / 2 % 2 == 1 {
            Some(resynced(body.skip(skip)))
        } else {
            Some(body.skip(skip))
        }
    } else {
        Some(body)
    }
}

pub open spec fn opt_bytes(o: Option<Vec<u8>>) -> Option<Seq<u8>> {
    match o {
        Some(v) => Some(v@),
        None => None,
    }
}

/// Undoes what the flags of a frame announce.
pub fn frame_body(version: u8, format: u8, body: &[u8]) -> (r: Option<Vec<u8>>)
    ensures
        opt_bytes(r) == frame_content(version, format, body@),
{
    if version == 3 {
        let skip: usize = (format / 32 % 2) as usize;
        if format >= 64 || skip > body.len() {
            return None;
        }
        let v = slice_to_vec(slice_subrange(body, skip, body.len()));
        assert(v@ =~= body@.skip(skip as int));
        Some(v)
    } else if version == 4 {
        let skip: usize = (format / 64 % 2) as usize + 4 * (format % 2) as usize;
        if format / 4 % 4 != 0 || skip > body.len() {
            return None;
        }
        let rest = slice_subrange(body, skip, body.len());
        assert(rest@ =~= body@.skip(skip as int));
        if format / 2 % 2 == 1 {
            Some(resynchronise(rest))
        } else {
            Some(slice_to_vec(rest))
        }
    } else {
        Some(slice_to_vec(body))
    }
}

// ---------------------------------------------------------------- tag

pub enum Field {
    Title,
    Artist,
    Album,
}

/// The field that a frame fills.
pub open spec fn field_of(id: Seq<u8>) -> Option<Field> {
    if id == seq![0x54u8, 0x49u8, 0x54u8, 0x32u8] || id == seq![0x54u8, 0x54u8, 0x32u8] {
        Some(Field::Title)
    } else if id == seq![0x54u8, 0x50u8, 0x45u8, 0x31u8] || id == seq![0x54u8, 0x50u8, 0x31u8] {
        Some(Field::Artist)
    } else if id == seq![0x54u8, 0x41u8, 0x4cu8, 0x42u8] || id == seq![0x54u8, 0x41u8, 0x4cu8] {
        Some(Field::Album)
    } else {
        None
    }
}

fn bytes_are(id: &[u8], a: u8, b: u8, c: u8, d: Option<u8>) -> (r: bool)
    ensures
        r == match d {
            Some(d) => id@ == seq![a, b, c, d],
            None => id@ == seq![a, b, c],
        },
{
    let whole = match d {
        Some(_) => id.len() == 4,
        None => id.len() == 3,
    };
    if !whole {
        return false;
    }
    let same = id[0] == a && id[1] == b && id[2] == c && (match d {
        Some(d) => id[3] == d,
        None => true,
    });
    proof {
        match d {
            Some(d) => {
                assert(same ==> id@ =~= seq![a, b, c, d]);
            },
            None => {
                assert(same ==> id@ =~= seq![a, b, c]);
            },
        }
    }
    same
}

fn which_field(id: &[u8]) -> (r: Option<Field>)
    ensures
        r == field_of(id@),
{
    if bytes_are(id, 0x54, 0x49, 0x54, Some(0x32)) || bytes_are(id, 0x54, 0x54, 0x32, None) {
        Some(Field::Title)
    } else if bytes_are(id, 0x54, 0x50, 0x45, Some(0x31)) || bytes_are(id, 0x54, 0x50, 0x31, None) {
        Some(Field::Artist)
    } else if bytes_are(id, 0x54, 0x41, 0x4c, Some(0x42)) || bytes_are(id, 0x54, 0x41, 0x4c, None) {
        Some(Field::Album)
    } else {
        None
    }
}

pub open spec fn id_len(version: u8) -> int {
    if version == 2 {
        3
    } else {
        4
    }
}

pub open spec fn header_len(version: u8) -> int {
    if version == 2 {
        6
    } else {
        10
    }
}

/// The size that the header of a frame announces. Some writers of version 4
/// store plain numbers, which shows in a byte of more than seven bits.
pub open spec fn frame_size(version: u8, h: Seq<u8>) -> nat {
    if version == 2 {
        be_value(0, h[3], h[4], h[5])
    } else if version == 3 || h[4] >= 128 || h[5] >= 128 || h[6] >= 128 || h[7] >= 128 {
        be_value(h[4], h[5], h[6], h[7])
    } else {
        syncsafe_value(seq![h[4], h[5], h[6], h[7]])
    }
}

pub open spec fn format_flags(version: u8, h: Seq<u8>) -> u8 {
    if version == 2 {
        0
    } else {
        h[9]
    }
}

/// Tags after a frame: the first frame of a field that has a text fills it.
pub open spec fn with_frame(version: u8, h: Seq<u8>, body: Seq<u8>, tags: TagsView) -> TagsView {
    let content = frame_content(version, format_flags(version, h), body);
    match (field_of(h.take(id_len(version))), content) {
        (Some(Field::Title), Some(c)) => TagsView {
            title: either(tags.title, frame_text(c)),
            ..tags
        },
        (Some(Field::Artist), Some(c)) => TagsView {
            artist: either(tags.artist, frame_text(c)),
            ..tags
        },
        (Some(Field::Album), Some(c)) => TagsView {
            album: either(tags.album, frame_text(c)),
            ..tags
        },
        _ => tags,
    }
}

/// The tags in the frames from an offset on, added to those before it. Padding,
/// and a frame that does not fit, ends the tag.
pub open spec fn frames_from(version: u8, tag: Seq<u8>, offset: int, tags: TagsView) -> TagsView
    decreases tag.len() - offset,
{
    let start = offset + header_len(version);
    if offset < 0 || start > tag.len() || tag[offset] == 0 {
        tags
    } else {
        let h = tag.subrange(offset, start);
        let end = start + frame_size(version, h);
        if end > tag.len() {
            tags
        } else {
            frames_from(version, tag, end, with_frame(version, h, tag.subrange(start, end), tags))
        }
    }
}

/// Where the first frame stands: past an extended header, where there is one.
/// Version 3 counts the bytes behind its size field, version 4 all of them.
pub open spec fn first_frame(version: u8, flags: u8, tag: Seq<u8>) -> Option<int> {
    if flags as int / 64 % 2 == 0 || version < 3 {
        Some(0)
    } else if tag.len() < 4 {
        None
    } else if version == 3 {
        Some(4 + be_value(tag[0], tag[1], tag[2], tag[3]) as int)
    } else {
        Some(syncsafe_value(seq![tag[0], tag[1], tag[2], tag[3]]) as int)
    }
}

/// The body of a tag as its frames lie in it: before version 4 the whole tag is
/// unsynchronised at once.
pub open spec fn frames_of(version: u8, flags: u8, tag: Seq<u8>) -> Seq<u8> {
    if flags >= 128 && version < 4 {
        resynced(tag)
    } else {
        tag
    }
}

/// The tags in the body of an ID3v2 tag.
pub open spec fn v2_tags(version: u8, flags: u8, tag: Seq<u8>) -> TagsView {
    if version < 2 || version > 4 {
        no_tags()
    } else {
        let body = frames_of(version, flags, tag);
        match first_frame(version, flags, body) {
            Some(offset) => frames_from(version, body, offset, no_tags()),
            None => no_tags(),
        }
    }
}

fn size_of_frame(version: u8, h: &[u8]) -> (r: u64)
    requires
        h@.len() == header_len(version),
    ensures
        r == frame_size(version, h@),
        r < 4294967296,
{
    if version == 2 {
        be_number(0, h[3], h[4], h[5])
    } else if version == 3 || h[4] >= 128 || h[5] >= 128 || h[6] >= 128 || h[7] >= 128 {
        be_number(h[4], h[5], h[6], h[7])
    } else {
        syncsafe(h[4], h[5], h[6], h[7])
    }
}

fn take_frame(version: u8, h: &[u8], body: &[u8], tags: &mut TrackTags)
    requires
        h@.len() == header_len(version),
    ensures
        final(tags)@ == with_frame(version, h@, body@, old(tags)@),
{
    let n: usize = if version == 2 {
        3
    } else {
        4
    };
    let id = slice_subrange(h, 0, n);
    assert(id@ =~= h@.take(id_len(version)));
    let field = match which_field(id) {
        Some(field) => field,
        None => {
            return;
        },
    };
    let filled = match &field {
        Field::Title => tags.title.is_some(),
        Field::Artist => tags.artist.is_some(),
        Field::Album => tags.album.is_some(),
    };
    if filled {
        return;
    }
    let format: u8 = if version == 2 {
        0
    } else {
        h[9]
    };
    if let Some(content) = frame_body(version, format, body) {
        let t = decode_text_frame(content.as_slice());
        match field {
            Field::Title => {
                tags.title = t;
            },
            Field::Artist => {
                tags.artist = t;
            },
            Field::Album => {
                tags.album = t;
            },
        }
    }
}

/// Reads the body of an ID3v2 tag, which is all behind its ten byte header.
pub fn parse_id3v2(version: u8, flags: u8, tag: Vec<u8>) -> (r: TrackTags)
    ensures
        r@ == v2_tags(version, flags, tag@),
{
    let mut tags = TrackTags::default();
    if version < 2 || version > 4 {
        return tags;
    }
    let body: Vec<u8> = if flags >= 128 && version < 4 {
        resynchronise(tag.as_slice())
    } else {
        tag
    };
    let b = body.as_slice();
    let total: u64 = b.len() as u64;
    let mut offset: u64 = 0;
    if flags / 64 % 2 == 1 && version >= 3 {
        if b.len() < 4 {
            return tags;
        }
        offset =
        if version == 3 {
            4 + be_number(b[0], b[1], b[2], b[3])
        } else {
            syncsafe(b[0], b[1], b[2], b[3])
        };
    }
    let step: u64 = if version == 2 {
        6
    } else {
        10
    };
    let ghost all = v2_tags(version, flags, tag@);
    let mut open = true;
    while open
        invariant
            total == b@.len(),
            2 <= version <= 4,
            step == header_len(version),
            offset <= total || offset <= 4294967300,
            open ==> frames_from(version, b@, offset as int, tags@) == all,
            !open ==> tags@ == all,
        decreases (if open {
            if offset <= total {
                total - offset + 2
            } else {
                1
            }
        } else {
            0
        }),
    {
        if offset > total || total - offset < step {
            open = false;
        } else {
            let at: usize = offset as usize;
            if b[at] == 0 {
                open = false;
            } else {
                let start: usize = at + step as usize;
                let h = slice_subrange(b, at, start);
                let size = size_of_frame(version, h);
                if size > total - start as u64 {
                    open = false;
                } else {
                    let end: usize = start + size as usize;
                    let content = slice_subrange(b, start, end);
                    take_frame(version, h, content, &mut tags);
                    offset = end as u64;
                }
            }
        }
    }
    tags
}

/// The tag at the start of a file, as far as it is read.
pub open spec fn v2_body(start: Seq<u8>) -> Option<Seq<u8>> {
    if start.len() < 10 || start.take(3) != seq![0x49u8, 0x44u8, 0x33u8] || start[6] >= 128
        || start[7] >= 128 || start[8] >= 128 || start[9] >= 128 {
        None
    } else {
        let size = syncsafe_value(seq![start[6], start[7], start[8], start[9]]);
        let limit = 10 + if size > MAX_TAG_BYTES {
            MAX_TAG_BYTES as int
        } else {
            size as int
        };
        Some(
            start.subrange(
                10,
                if limit > start.len() {
                    start.len() as int
                } else {
                    limit
                },
            ),
        )
    }
}

/// The ID3v2 tags of a file, of which `start` holds the first bytes: ten for the
/// header, and up to [`MAX_TAG_BYTES`] behind it.
pub fn read_id3v2(start: &[u8]) -> (r: Option<TrackTags>)
    ensures
        match r {
            Some(t) => v2_body(start@) matches Some(b) && t@ == v2_tags(start@[3], start@[5], b),
            None => v2_body(start@) is None,
        },
{
    let total: usize = start.len();
    if total < 10 {
        return None;
    }
    let head = slice_subrange(start, 0, 3);
    assert(head@ =~= start@.take(3));
    if !bytes_are(head, 0x49, 0x44, 0x33, None) || start[6] >= 128 || start[7] >= 128 || start[8]
        >= 128 || start[9] >= 128 {
        return None;
    }
    let size = syncsafe(start[6], start[7], start[8], start[9]);
    let limit: u64 = 10 + if size > MAX_TAG_BYTES {
        MAX_TAG_BYTES
    } else {
        size
    };
    let end: usize = if limit > total as u64 {
        total
    } else {
        limit as usize
    };
    let body = slice_to_vec(slice_subrange(start, 10, end));
    Some(parse_id3v2(start[3], start[5], body))
}

// ---------------------------------------------------------------- version 1

/// A fixed field up to its first zero byte.
pub open spec fn unpadded(b: Seq<u8>) -> Seq<u8>
    decreases b.len(),
{
    if b.len() == 0 || b[0] == 0 {
        Seq::empty()
    } else {
        seq![b[0]] + unpadded(b.skip(1))
    }
}

/// The text of a fixed field, where it holds one.
pub open spec fn fixed_text(b: Seq<u8>) -> Option<Seq<char>> {
    match utf8_value(unpadded(b)) {
        Some(t) => if text::trimmed(t).len() == 0 {
            None
        } else {
            Some(text::trimmed(t))
        },
        None => None,
    }
}

proof fn lemma_unpadded(b: Seq<u8>, n: int)
    requires
        0 <= n <= b.len(),
        forall|i: int| 0 <= i < n ==> b[i] != 0,
        n < b.len() ==> b[n] == 0,
    ensures
        unpadded(b) == b.take(n),
    decreases n,
{
    if n == 0 {
        assert(b.take(0) =~= Seq::empty());
    } else {
        assert forall|i: int| 0 <= i < n - 1 implies b.skip(1)[i] != 0 by {
            assert(b[i + 1] != 0);
        }
        lemma_unpadded(b.skip(1), n - 1);
        assert(seq![b[0]] + b.skip(1).take(n - 1) =~= b.take(n));
    }
}

fn fixed_field(b: &[u8]) -> (r: Option<String>)
    ensures
        text::opt_text(r) == fixed_text(b@),
{
    let mut n: usize = 0;
    while n < b.len() && b[n] != 0
        invariant
            n <= b@.len(),
            forall|i: int| 0 <= i < n ==> b@[i] != 0,
        decreases b.len() - n,
    {
        n = n + 1;
    }
    proof {
        lemma_unpadded(b@, n as int);
    }
    let kept = slice_subrange(b, 0, n);
    assert(kept@ =~= b@.take(n as int));
    match latin1_or_utf8(kept) {
        Some(t) => {
            let t = text::trim(t.as_str());
            if t.as_str().is_empty() {
                None
            } else {
                Some(t)
            }
        },
        None => None,
    }
}

/// The tags in the last 128 bytes of a file.
pub open spec fn v1_tags(block: Seq<u8>) -> Option<TagsView> {
    if block.len() != ID3V1_BYTES || block.take(3) != seq![0x54u8, 0x41u8, 0x47u8] {
        None
    } else {
        Some(
            TagsView {
                title: fixed_text(block.subrange(3, 33)),
                artist: fixed_text(block.subrange(33, 63)),
                album: fixed_text(block.subrange(63, 93)),
            },
        )
    }
}

pub fn parse_id3v1(block: &[u8]) -> (r: Option<TrackTags>)
    ensures
        match r {
            Some(t) => v1_tags(block@) == Some(t@),
            None => v1_tags(block@) is None,
        },
{
    if block.len() != ID3V1_BYTES {
        return None;
    }
    let head = slice_subrange(block, 0, 3);
    assert(head@ =~= block@.take(3));
    if !bytes_are(head, 0x54, 0x41, 0x47, None) {
        return None;
    }
    Some(
        TrackTags {
            title: fixed_field(slice_subrange(block, 3, 33)),
            artist: fixed_field(slice_subrange(block, 33, 63)),
            album: fixed_field(slice_subrange(block, 63, 93)),
        },
    )
}

// ---------------------------------------------------------------- file

pub open spec fn v2_or_none(start: Seq<u8>) -> TagsView {
    match v2_body(start) {
        Some(b) => v2_tags(start[3], start[5], b),
        None => no_tags(),
    }
}

/// The tags of a file, given its first and its last bytes: what the ID3v2 tag
/// lacks is taken from the ID3v1 tag.
pub fn read_tags(start: &[u8], end: &[u8]) -> (r: TrackTags)
    ensures
        r@ == match v1_tags(end@) {
            Some(v1) => merged(v2_or_none(start@), v1),
            None => v2_or_none(start@),
        },
{
    let tags = match read_id3v2(start) {
        Some(t) => t,
        None => TrackTags::default(),
    };
    match parse_id3v1(end) {
        Some(v1) => tags.merge_missing(v1),
        None => tags,
    }
}

/// What the ID3v2 tag says is never replaced.
pub proof fn newer_tag_prevails(a: TagsView, b: TagsView)
    ensures
        a.title is Some ==> merged(a, b).title == a.title,
        a.artist is Some ==> merged(a, b).artist == a.artist,
        a.album is Some ==> merged(a, b).album == a.album,
        merged(a, no_tags()) == a,
        merged(no_tags(), b) == b,
{
}

// ---------------------------------------------------------------- laws

/// Sizes are counted to the base 128, the first byte highest, with the highest bit
/// of each byte left out; plain numbers to the base 256.
pub proof fn sizes_count_by_place(a: u8, b: u8, c: u8, d: u8)
    ensures
        syncsafe_value(seq![a, b, c, d]) == (a % 128) * 2097152 + (b % 128) * 16384 + (c % 128) * 128
            + (d % 128),
        be_value(0, 0, 0, d) == d,
        be_value(a, b, c, d) == be_value(0, a, b, c) * 256 + d,
{
    let s = seq![a, b, c, d];
    reveal_with_fuel(syncsafe_value, 5);
    assert(s.last() == d);
    assert(s.drop_last().last() == c);
    assert(s.drop_last().drop_last().last() == b);
    assert(s.drop_last().drop_last().drop_last().last() == a);
    assert(s.drop_last().drop_last().drop_last().drop_last().len() == 0);
}

/// UTF-16 is read unit by unit: a unit outside the surrogates is its character,
/// and a pair of surrogates is the character beyond the basic plane whose number
/// they share.
pub proof fn units_are_read_one_by_one(c: char, rest: Seq<u16>)
    requires
        utf16_text(rest) is Some,
    ensures
        (c as int) < 0x10000 ==> utf16_text(seq![c as u16] + rest) == Some(
            seq![c] + utf16_text(rest)->0,
        ),
        c as int >= 0x10000 ==> utf16_text(
            seq![
                (0xd800 + (c as int - 0x10000) / 0x400) as u16,
                (0xdc00 + (c as int - 0x10000) % 0x400) as u16,
            ] + rest,
        ) == Some(seq![c] + utf16_text(rest)->0),
{
    if (c as int) < 0x10000 {
        let u = seq![c as u16] + rest;
        assert(u.skip(1) =~= rest);
        assert(u[0] as char == c);
    } else {
        let high = (0xd800 + (c as int - 0x10000) / 0x400) as u16;
        let low = (0xdc00 + (c as int - 0x10000) % 0x400) as u16;
        let u = seq![high, low] + rest;
        assert(u.skip(2) =~= rest);
        assert(0xd800 <= high <= 0xdbff);
        assert(0xdc00 <= low <= 0xdfff);
        assert(0x10000 + (high - 0xd800) * 0x400 + (low - 0xdc00) == c as int);
    }
}

/// A mark at the start tells the order of the bytes and is no part of the text;
/// without one the order is as expected.
pub proof fn byte_order_marks_count(b: Seq<u8>, default_big: bool)
    ensures
        utf16_value(seq![0xfeu8, 0xffu8] + b, default_big) == utf16_text(utf16_units(b, true)),
        utf16_value(seq![0xffu8, 0xfeu8] + b, default_big) == utf16_text(utf16_units(b, false)),
        b.len() >= 2 && !(b[0] == 0xfe && b[1] == 0xff) && !(b[0] == 0xff && b[1] == 0xfe)
            ==> utf16_value(b, default_big) == utf16_text(utf16_units(b, default_big)),
        b.len() >= 2 ==> utf16_units(b, true)[0] == b[0] * 256 + b[1],
        b.len() >= 2 ==> utf16_units(b, false)[0] == b[1] * 256 + b[0],
        utf16_units(b, true).len() == b.len() / 2,
        utf16_units(b, false).len() == b.len() / 2,
{
    assert((seq![0xfeu8, 0xffu8] + b).skip(2) =~= b);
    assert((seq![0xffu8, 0xfeu8] + b).skip(2) =~= b);
}

proof fn lemma_values_skip(b: Seq<u8>, unit: int, start: int, i: int, n: int)
    requires
        unit == 1 || unit == 2,
        0 <= start <= i <= n <= b.len(),
        (n - i) % unit == 0,
        forall|k: int| i <= k < n && (k - i) % unit == 0 ==> !ends_value(b, unit, k),
    ensures
        values_from(b, unit, start, i) == values_from(b, unit, start, n),
    decreases n - i,
{
    if i < n {
        assert((i - i) % unit == 0);
        assert(!ends_value(b, unit, i));
        assert(i + unit <= n);
        assert forall|k: int| i + unit <= k < n && (k - (i + unit)) % unit == 0 implies !ends_value(
            b,
            unit,
            k,
        ) by {
            assert((k - i) % unit == 0);
        }
        assert((n - (i + unit)) % unit == 0);
        lemma_values_skip(b, unit, start, i + unit, n);
    }
}

proof fn lemma_values_shift(a: Seq<u8>, b: Seq<u8>, unit: int, start: int, i: int)
    requires
        unit == 1 || unit == 2,
        0 <= start <= i,
        start <= b.len(),
    ensures
        values_from(a + b, unit, a.len() + start, a.len() + i) == values_from(b, unit, start, i),
    decreases b.len() - i,
{
    let all = a + b;
    let n = a.len() as int;
    if i + unit > b.len() {
        assert(all.skip(n + start) =~= b.skip(start));
    } else {
        assert(all[n + i] == b[i]);
        if unit == 2 {
            assert(all[n + i + 1] == b[i + 1]);
        }
        if ends_value(b, unit, i) {
            lemma_values_shift(a, b, unit, i + unit, i + unit);
            assert(all.subrange(n + start, n + i) =~= b.subrange(start, i));
        } else {
            lemma_values_shift(a, b, unit, start, i + unit);
        }
    }
}

/// Zero bytes separate the values of a frame: what stands before the first one is
/// a value, and what stands behind it is split in the same way.
pub proof fn zeros_separate_values(a: Seq<u8>, b: Seq<u8>)
    requires
        !a.contains(0),
    ensures
        values_of(a, 1) == seq![a],
        values_of(a + seq![0u8] + b, 1) == seq![a] + values_of(b, 1),
{
    let n = a.len() as int;
    let all = a + seq![0u8] + b;
    assert forall|k: int| 0 <= k < n && (k - 0) % 1 == 0 implies !ends_value(all, 1, k) by {
        assert(a.contains(a[k]));
        assert(all[k] == a[k]);
    }
    lemma_values_skip(all, 1, 0, 0, n);
    assert(all[n] == 0);
    assert(all.subrange(0, n) =~= a);
    let head = a + seq![0u8];
    assert(all =~= head + b);
    lemma_values_shift(head, b, 1, 0, 0);
    assert forall|k: int| 0 <= k < n && (k - 0) % 1 == 0 implies !ends_value(a, 1, k) by {
        assert(a.contains(a[k]));
    }
    lemma_values_skip(a, 1, 0, 0, n);
    assert(a.skip(0) =~= a);
}

/// In UTF-16 a whole zero unit separates the values; a zero byte within another
/// unit does not.
pub proof fn zero_units_separate_values(a: Seq<u8>, b: Seq<u8>)
    requires
        a.len() % 2 == 0,
        forall|k: int| 0 <= k < a.len() && k % 2 == 0 ==> !(#[trigger] a[k] == 0 && a[k + 1] == 0),
    ensures
        values_of(a, 2) == seq![a],
        values_of(a + seq![0u8, 0u8] + b, 2) == seq![a] + values_of(b, 2),
{
    let n = a.len() as int;
    let all = a + seq![0u8, 0u8] + b;
    assert forall|k: int| 0 <= k < n && (k - 0) % 2 == 0 implies !ends_value(all, 2, k) by {
        assert(all[k] == a[k] && all[k + 1] == a[k + 1]);
        assert(!(a[k] == 0 && a[k + 1] == 0));
    }
    lemma_values_skip(all, 2, 0, 0, n);
    assert(all[n] == 0 && all[n + 1] == 0);
    assert(all.subrange(0, n) =~= a);
    let head = a + seq![0u8, 0u8];
    assert(all =~= head + b);
    lemma_values_shift(head, b, 2, 0, 0);
    assert forall|k: int| 0 <= k < n && (k - 0) % 2 == 0 implies !ends_value(a, 2, k) by {
        assert(!(a[k] == 0 && a[k + 1] == 0));
    }
    lemma_values_skip(a, 2, 0, 0, n);
    assert(a.skip(0) =~= a);
}

/// A text frame of one value is that value, with the white space around it
/// removed; two values are joined by the separator.
pub proof fn text_frames_hold_their_values(a: Seq<u8>, b: Seq<u8>)
    requires
        !a.contains(0),
        !b.contains(0),
        valid_utf8(a),
        valid_utf8(b),
        text::trimmed(decode_utf8(a)).len() > 0,
        text::trimmed(decode_utf8(b)).len() > 0,
    ensures
        frame_text(seq![3u8] + a) == Some(text::trimmed(decode_utf8(a))),
        frame_text(seq![0u8] + a) == Some(text::trimmed(decode_utf8(a))),
        frame_text(seq![3u8] + (a + seq![0u8] + b)) == Some(
            text::trimmed(decode_utf8(a)) + " / "@ + text::trimmed(decode_utf8(b)),
        ),
{
    let x = text::trimmed(decode_utf8(a));
    let y = text::trimmed(decode_utf8(b));
    zeros_separate_values(a, b);
    zeros_separate_values(b, a);
    lemma_one_value(3, a);
    lemma_one_value(0, a);
    assert((seq![3u8] + a).skip(1) =~= a);
    assert((seq![0u8] + a).skip(1) =~= a);
    assert(text::joined(seq![x], VALUE_SEPARATOR@) == x);
    let both = a + seq![0u8] + b;
    assert((seq![3u8] + both).skip(1) =~= both);
    let parts = seq![a] + seq![b];
    assert(parts.drop_last() =~= seq![a]);
    assert(parts.last() == b);
    let texts = seq![x].push(y);
    assert(value_texts(3, parts) == Some(texts));
    assert(texts.drop_last() =~= seq![x]);
    assert(texts.last() == y);
}

proof fn lemma_one_value(encoding: u8, a: Seq<u8>)
    requires
        encoding == 0 || encoding == 3,
        valid_utf8(a),
        text::trimmed(decode_utf8(a)).len() > 0,
    ensures
        value_texts(encoding, seq![a]) == Some(seq![text::trimmed(decode_utf8(a))]),
{
    let one = seq![a];
    assert(one.drop_last() =~= Seq::empty());
    assert(one.last() == a);
    assert(value_texts(encoding, Seq::empty()) == Some(Seq::<Seq<char>>::empty()));
    assert(Seq::<Seq<char>>::empty().push(text::trimmed(decode_utf8(a))) =~= seq![
        text::trimmed(decode_utf8(a)),
    ]);
}

/// A frame without flags holds its body as it stands; one that is compressed or
/// encrypted is passed over.
pub proof fn plain_frames_hold_their_body(version: u8, format: u8, body: Seq<u8>)
    requires
        2 <= version <= 4,
    ensures
        frame_content(version, 0, body) == Some(body),
        version == 3 && format >= 64 ==> frame_content(version, format, body) is None,
        version == 4 && (format as int / 4 % 2 == 1 || format as int / 8 % 2 == 1) ==> frame_content(
            version,
            format,
            body,
        ) is None,
        frame_content(version, format, body) matches Some(c) ==> c.len() <= body.len(),
        version == 4 && format == 2 ==> frame_content(version, format, unsynced(body)) == Some(body),
{
    assert(body.skip(0) =~= body);
    lemma_resync_shrinks(body);
    if frame_content(version, format, body) is Some && version == 4 {
        let skip = format as int / 64 % 2 + 4 * (format as int % 2);
        lemma_resync_shrinks(body.skip(skip));
    }
    resync_undoes_unsync(body);
    assert(unsynced(body).skip(0) =~= unsynced(body));
}

proof fn lemma_resync_shrinks(b: Seq<u8>)
    ensures
        resynced(b).len() <= b.len(),
    decreases b.len(),
{
    if b.len() > 0 {
        lemma_resync_shrinks(b.skip(resync_step(b)));
    }
}

/// Title, artist and album are told by their frames, in the names of either
/// length; a frame fills its own field, only where nothing stood there, and no
/// other frame changes anything.
pub proof fn frames_fill_their_fields(version: u8, h: Seq<u8>, body: Seq<u8>, tags: TagsView)
    requires
        2 <= version <= 4,
        h.len() == header_len(version),
    ensures
        ({
            let id = h.take(id_len(version));
            let t = with_frame(version, h, body, tags);
            let content = frame_content(version, format_flags(version, h), body);
            let title = id == seq![0x54u8, 0x49u8, 0x54u8, 0x32u8] || id == seq![
                0x54u8,
                0x54u8,
                0x32u8,
            ];
            let artist = id == seq![0x54u8, 0x50u8, 0x45u8, 0x31u8] || id == seq![
                0x54u8,
                0x50u8,
                0x31u8,
            ];
            let album = id == seq![0x54u8, 0x41u8, 0x4cu8, 0x42u8] || id == seq![
                0x54u8,
                0x41u8,
                0x4cu8,
            ];
            &&& !title ==> t.title == tags.title
            &&& !artist ==> t.artist == tags.artist
            &&& !album ==> t.album == tags.album
            &&& tags.title is Some ==> t.title == tags.title
            &&& tags.artist is Some ==> t.artist == tags.artist
            &&& tags.album is Some ==> t.album == tags.album
            &&& title && tags.title is None && content is Some ==> t.title == frame_text(content->0)
            &&& artist && tags.artist is None && content is Some ==> t.artist == frame_text(
                content->0,
            )
            &&& album && tags.album is None && content is Some ==> t.album == frame_text(content->0)
        }),
{
    let a = seq![0x54u8, 0x49u8, 0x54u8, 0x32u8];
    let b = seq![0x54u8, 0x54u8, 0x32u8];
    let c = seq![0x54u8, 0x50u8, 0x45u8, 0x31u8];
    let d = seq![0x54u8, 0x50u8, 0x31u8];
    let e = seq![0x54u8, 0x41u8, 0x4cu8, 0x42u8];
    let f = seq![0x54u8, 0x41u8, 0x4cu8];
    assert(a[1] != c[1] && a[1] != e[1] && c[1] != e[1]);
    assert(b[1] != d[1] && b[1] != f[1] && d[1] != f[1]);
    assert(a.len() == 4 && c.len() == 4 && e.len() == 4);
    assert(b.len() == 3 && d.len() == 3 && f.len() == 3);
}

proof fn lemma_frames_shift(version: u8, a: Seq<u8>, b: Seq<u8>, i: int, tags: TagsView)
    requires
        0 <= i,
    ensures
        frames_from(version, a + b, a.len() + i, tags) == frames_from(version, b, i, tags),
    decreases b.len() - i,
{
    let all = a + b;
    let n = a.len() as int;
    let start = i + header_len(version);
    if start <= b.len() {
        assert(all[n + i] == b[i]);
        let h = b.subrange(i, start);
        assert(all.subrange(n + i, n + start) =~= h);
        let end = start + frame_size(version, h);
        if b[i] != 0 && end <= b.len() {
            assert(all.subrange(n + start, n + end) =~= b.subrange(start, end));
            lemma_frames_shift(
                version,
                a,
                b,
                end,
                with_frame(version, h, b.subrange(start, end), tags),
            );
        }
    }
}

/// A tag is read frame by frame: a header that names a frame and how long it is,
/// the frame, and then the next one.
pub proof fn frames_follow_one_another(
    version: u8,
    h: Seq<u8>,
    body: Seq<u8>,
    rest: Seq<u8>,
    tags: TagsView,
)
    requires
        2 <= version <= 4,
        h.len() == header_len(version),
        h[0] != 0,
        body.len() == frame_size(version, h),
    ensures
        frames_from(version, h + body + rest, 0, tags) == frames_from(
            version,
            rest,
            0,
            with_frame(version, h, body, tags),
        ),
        rest.len() > 0 && rest[0] == 0 ==> frames_from(version, rest, 0, tags) == tags,
{
    let tag = h + body + rest;
    let start = header_len(version);
    let end = start + body.len();
    assert(tag.subrange(0, start) =~= h);
    assert(tag.subrange(start, end) =~= body);
    assert(tag[0] == h[0]);
    let front = h + body;
    assert(tag =~= front + rest);
    lemma_frames_shift(version, front, rest, 0, with_frame(version, h, body, tags));
}

/// The size in a frame header counts the bytes of the frame: in the oldest version
/// three bytes, in the next four, and in the newest four of seven bits.
pub proof fn frame_sizes_count_bytes(h: Seq<u8>)
    requires
        h.len() == 10,
    ensures
        frame_size(2, h) == h[3] * 65536 + h[4] * 256 + h[5],
        frame_size(3, h) == h[4] * 16777216 + h[5] * 65536 + h[6] * 256 + h[7],
        h[4] < 128 && h[5] < 128 && h[6] < 128 && h[7] < 128 ==> frame_size(4, h) == h[4] * 2097152
            + h[5] * 16384 + h[6] * 128 + h[7],
{
    sizes_count_by_place(h[4], h[5], h[6], h[7]);
}

/// Behind the mark, the version, the flags and the size of a tag stand its bytes, as
/// many as the size says.
pub proof fn tags_have_the_size_they_name(
    major: u8,
    minor: u8,
    flags: u8,
    a: u8,
    b: u8,
    c: u8,
    d: u8,
    body: Seq<u8>,
    rest: Seq<u8>,
)
    requires
        a < 128,
        b < 128,
        c < 128,
        d < 128,
        body.len() == a * 2097152 + b * 16384 + c * 128 + d,
        body.len() <= MAX_TAG_BYTES,
    ensures
        ({
            let file = seq![0x49u8, 0x44u8, 0x33u8, major, minor, flags, a, b, c, d] + body + rest;
            v2_body(file) == Some(body) && file[3] == major && file[5] == flags
        }),
{
    let head = seq![0x49u8, 0x44u8, 0x33u8, major, minor, flags, a, b, c, d];
    let file = head + body + rest;
    lemma_head_stays(head, body + rest);
    assert(file =~= head + (body + rest));
    assert(head.take(3) =~= seq![0x49u8, 0x44u8, 0x33u8]);
    sizes_count_by_place(a, b, c, d);
    assert(seq![file[6], file[7], file[8], file[9]] =~= seq![a, b, c, d]);
    assert(file.subrange(10, 10 + body.len() as int) =~= body);
}

proof fn lemma_head_stays(head: Seq<u8>, rest: Seq<u8>)
    requires
        head.len() == 10,
    ensures
        (head + rest).take(3) == head.take(3),
        (head + rest)[3] == head[3],
        (head + rest)[5] == head[5],
        (head + rest)[6] == head[6],
        (head + rest)[7] == head[7],
        (head + rest)[8] == head[8],
        (head + rest)[9] == head[9],
{
    assert((head + rest).take(3) =~= head.take(3));
}

/// The block at the end of a file has the title, the artist and the album at their
/// places, thirty bytes each; what stands behind a zero is filling.
pub proof fn closing_blocks_have_fixed_places(
    title: Seq<u8>,
    artist: Seq<u8>,
    album: Seq<u8>,
    rest: Seq<u8>,
)
    requires
        title.len() == 30,
        artist.len() == 30,
        album.len() == 30,
        rest.len() == 35,
    ensures
        v1_tags(seq![0x54u8, 0x41u8, 0x47u8] + title + artist + album + rest) == Some(
            TagsView {
                title: fixed_text(title),
                artist: fixed_text(artist),
                album: fixed_text(album),
            },
        ),
{
    let block = seq![0x54u8, 0x41u8, 0x47u8] + title + artist + album + rest;
    assert(block.take(3) =~= seq![0x54u8, 0x41u8, 0x47u8]);
    assert(block.subrange(3, 33) =~= title);
    assert(block.subrange(33, 63) =~= artist);
    assert(block.subrange(63, 93) =~= album);
}

/// A field of fixed length is what stands before its first zero, trimmed.
pub proof fn filling_is_left_out(value: Seq<u8>, filling: Seq<u8>)
    requires
        !value.contains(0),
        filling.len() > 0 ==> filling[0] == 0,
    ensures
        unpadded(value + filling) == value,
        valid_utf8(value) && text::trimmed(decode_utf8(value)).len() > 0 ==> fixed_text(
            value + filling,
        ) == Some(text::trimmed(decode_utf8(value))),
    decreases value.len(),
{
    if value.len() > 0 {
        assert(value.contains(value[0]));
        let rest = value.skip(1);
        assert(!rest.contains(0)) by {
            if rest.contains(0) {
                let i = choose|i: int| 0 <= i < rest.len() && rest[i] == 0;
                assert(value[i + 1] == 0);
            }
        }
        filling_is_left_out(rest, filling);
        assert((value + filling).skip(1) =~= rest + filling);
        assert(seq![value[0]] + rest =~= value);
    } else {
        assert(value + filling =~= filling);
        assert(value =~= Seq::empty());
    }
}

/// Frames begin at once, unless an extended header stands before them.
pub proof fn frames_begin_behind_the_headers(version: u8, flags: u8, tag: Seq<u8>)
    requires
        2 <= version <= 4,
    ensures
        (flags as int / 64) % 2 == 0 ==> first_frame(version, flags, tag) == Some(0int),
        version == 3 && (flags as int / 64) % 2 == 1 && tag.len() >= 4 ==> first_frame(
            version,
            flags,
            tag,
        ) == Some(4 + tag[0] * 16777216 + tag[1] * 65536 + tag[2] * 256 + tag[3]),
        flags < 128 || version == 4 ==> frames_of(version, flags, tag) == tag,
        flags >= 128 && version < 4 ==> frames_of(version, flags, unsynced(tag)) == tag,
{
    resync_undoes_unsync(tag);
}

/// A tag is never taken for longer than the limit, nor than the file, and its bytes
/// stand right behind its header.
pub proof fn tags_are_limited(start: Seq<u8>)
    requires
        v2_body(start) is Some,
    ensures
        ({
            let b = v2_body(start)->0;
            &&& b.len() <= 4 * 1024 * 1024
            &&& 10 + b.len() <= start.len()
            &&& b == start.subrange(10, 10 + b.len() as int)
            &&& start.take(3) == seq![0x49u8, 0x44u8, 0x33u8]
        }),
{
}

/// A value that is blank is left out, and a frame of nothing but such values says
/// nothing.
pub proof fn blank_values_are_left_out(a: Seq<u8>)
    requires
        !a.contains(0),
        valid_utf8(a),
        text::trimmed(decode_utf8(a)).len() == 0,
    ensures
        frame_text(seq![3u8] + a) is None,
{
    zeros_separate_values(a, a);
    assert((seq![3u8] + a).skip(1) =~= a);
    let one = seq![a];
    assert(one.drop_last() =~= Seq::empty());
    assert(one.last() == a);
    assert(value_texts(3, Seq::empty()) == Some(Seq::<Seq<char>>::empty()));
}

/// In the newest version an extended header counts itself, in seven bits to a byte.
pub proof fn extended_headers_are_passed(flags: u8, tag: Seq<u8>)
    requires
        (flags as int / 64) % 2 == 1,
        tag.len() >= 4,
    ensures
        first_frame(4, flags, tag) == Some(
            ((tag[0] % 128) * 2097152 + (tag[1] % 128) * 16384 + (tag[2] % 128) * 128 + (tag[3]
                % 128)) as int,
        ),
        first_frame(2, flags, tag) == Some(0int),
{
    sizes_count_by_place(tag[0], tag[1], tag[2], tag[3]);
}

/// Half of a pair of surrogates spells nothing.
pub proof fn lone_surrogates_spell_nothing(a: u16, b: u16, rest: Seq<u16>)
    requires
        0xd800 <= a <= 0xdfff,
        a >= 0xdc00 || !(0xdc00 <= b <= 0xdfff),
    ensures
        utf16_text(seq![a, b] + rest) is None,
        utf16_text(seq![a]) is None,
{
    let u = seq![a, b] + rest;
    assert(u[0] == a && u[1] == b);
}

/// A block that does not begin with its mark, or is of another length, is no tag; a
/// file without a tag at its start has none there.
pub proof fn unmarked_blocks_are_no_tags(block: Seq<u8>)
    ensures
        block.len() != 128 ==> v1_tags(block) is None,
        block.len() >= 3 && block.take(3) != seq![0x54u8, 0x41u8, 0x47u8] ==> v1_tags(block) is None,
        block.len() >= 10 && block.take(3) != seq![0x49u8, 0x44u8, 0x33u8] ==> v2_body(block)
            is None,
        block.len() < 10 ==> v2_body(block) is None,
        v2_body(block) is None ==> v2_or_none(block) == no_tags(),
{
}

} // verus!
