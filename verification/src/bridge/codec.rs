//! Wire codec for fetch response bodies.
//!
//! A body can be encoded in several ways and optionally compressed beforehand.
//! Both choices are negotiated through the handshake so the peer can pick the
//! tradeoff it wants: tiny CPU and a bigger wire (hex, none) or a smaller wire
//! and a heavier decode (base64, deflate). `base64` without compression is the
//! baseline that every peer is assumed to support.
use vstd::prelude::*;
use vstd::string::*;
use vstd::utf8::*;

use crate::text::{str_eq, utf8_text};

verus! {

#[derive(Debug, Clone, Copy, PartialEq, Eq, Structural)]
pub enum BodyEncoding {
    /// The body bytes as UTF-8 text. Only valid when the bytes are valid UTF-8
    /// and the response is not chunked.
    Text,
    /// Standard base64 (RFC 4648).
    Base64,
    /// Lowercase hex.
    Hex,
}

#[derive(Debug, Clone, Copy, PartialEq, Eq, Structural)]
pub enum Compression {
    /// No compression; `none` on the wire.
    Plain,
    /// Raw deflate (RFC 1951).
    Deflate,
    /// LZ4 block format.
    Lz4,
}

impl BodyEncoding {
    /// The name of the encoding on the wire.
    pub open spec fn name(self) -> Seq<char> {
        match self {
            BodyEncoding::Text => "text"@,
            BodyEncoding::Base64 => "base64"@,
            BodyEncoding::Hex => "hex"@,
        }
    }

    /// The encoding with a given wire name.
    pub open spec fn parsed(name: Seq<char>) -> Option<Self> {
        if name == "text"@ {
            Some(BodyEncoding::Text)
        } else if name == "base64"@ {
            Some(BodyEncoding::Base64)
        } else if name == "hex"@ {
            Some(BodyEncoding::Hex)
        } else {
            None
        }
    }

    pub fn as_str(self) -> (r: &'static str)
        ensures
            r@ == self.name(),
    {
        match self {
            BodyEncoding::Text => "text",
            BodyEncoding::Base64 => "base64",
            BodyEncoding::Hex => "hex",
        }
    }

    pub fn parse(s: &str) -> (r: Option<Self>)
        ensures
            r == BodyEncoding::parsed(s@),
    {
        if str_eq(s, "text") {
            Some(BodyEncoding::Text)
        } else if str_eq(s, "base64") {
            Some(BodyEncoding::Base64)
        } else if str_eq(s, "hex") {
            Some(BodyEncoding::Hex)
        } else {
            None
        }
    }
}

/// Reading the wire name of an encoding gives the encoding back.
pub proof fn encoding_name_round_trip(a: BodyEncoding)
    ensures
        BodyEncoding::parsed(a.name()) == Some(a),
{
    reveal_strlit("text");
    reveal_strlit("base64");
    reveal_strlit("hex");
    assert("text"@.len() == 4 && "base64"@.len() == 6 && "hex"@.len() == 3);
}

impl Compression {
    /// The name of the compression on the wire.
    pub open spec fn name(self) -> Seq<char> {
        match self {
            Compression::Plain => "none"@,
            Compression::Deflate => "deflate"@,
            Compression::Lz4 => "lz4"@,
        }
    }

    /// The compression with a given wire name.
    pub open spec fn parsed(name: Seq<char>) -> Option<Self> {
        if name == "none"@ {
            Some(Compression::Plain)
        } else if name == "deflate"@ {
            Some(Compression::Deflate)
        } else if name == "lz4"@ {
            Some(Compression::Lz4)
        } else {
            None
        }
    }

    pub fn as_str(self) -> (r: &'static str)
        ensures
            r@ == self.name(),
    {
        match self {
            Compression::Plain => "none",
            Compression::Deflate => "deflate",
            Compression::Lz4 => "lz4",
        }
    }

    pub fn parse(s: &str) -> (r: Option<Self>)
        ensures
            r == Compression::parsed(s@),
    {
        if str_eq(s, "none") {
            Some(Compression::Plain)
        } else if str_eq(s, "deflate") {
            Some(Compression::Deflate)
        } else if str_eq(s, "lz4") {
            Some(Compression::Lz4)
        } else {
            None
        }
    }
}

/// Reading the wire name of a compression gives the compression back.
pub proof fn compression_name_round_trip(a: Compression)
    ensures
        Compression::parsed(a.name()) == Some(a),
{
    reveal_strlit("none");
    reveal_strlit("deflate");
    reveal_strlit("lz4");
    assert("none"@.len() == 4 && "deflate"@.len() == 7 && "lz4"@.len() == 3);
}

/// Bodies smaller than this are sent uncompressed even when a compressor was
/// negotiated.
pub const COMPRESS_MIN_SIZE: usize = 256;

/// The encodings that can be produced.
pub open spec fn supported_encodings_spec() -> Seq<BodyEncoding> {
    seq![BodyEncoding::Base64, BodyEncoding::Hex, BodyEncoding::Text]
}

/// The compressions that can be produced.
pub open spec fn supported_compressions_spec() -> Seq<Compression> {
    seq![Compression::Plain, Compression::Deflate, Compression::Lz4]
}

/// Encodings this side knows how to produce. The order is informational: the
/// peer's preference order wins during negotiation.
pub fn supported_encodings() -> (r: Vec<BodyEncoding>)
    ensures
        r@ == supported_encodings_spec(),
{
    vec![BodyEncoding::Base64, BodyEncoding::Hex, BodyEncoding::Text]
}

/// Compressions this side knows how to produce.
pub fn supported_compressions() -> (r: Vec<Compression>)
    ensures
        r@ == supported_compressions_spec(),
{
    vec![Compression::Plain, Compression::Deflate, Compression::Lz4]
}

/// What a raw deflate stream (RFC 1951) decodes to.
pub uninterp spec fn inflated(packed: Seq<u8>) -> Seq<u8>;

/// What an LZ4 block decodes to.
pub uninterp spec fn lz4_unpacked(packed: Seq<u8>) -> Seq<u8>;

/// Wrapper of `flate2::write::DeflateEncoder` at the default level: a raw
/// deflate stream that decodes to the data. Which of the streams that do is
/// left open, since it varies with the machine.
#[verifier::external_body]
fn deflate(data: &[u8]) -> (r: Vec<u8>)
    ensures
        inflated(r@) == data@,
{
    let mut enc = flate2::write::DeflateEncoder::new(Vec::new(), flate2::Compression::default());
    std::io::Write::write_all(&mut enc, data).expect("deflate write");
    enc.finish().expect("deflate finish")
}

/// Whether the room for the compressed form of so many bytes can be told in a
/// machine word.
pub open spec fn lz4_sized(length: nat) -> bool {
    length * 110 <= usize::MAX
}

/// Wrapper of `lz4_flex::compress`: an LZ4 block that decodes to the data. Which
/// of the blocks that do is left open, since it varies with the word size.
#[verifier::external_body]
fn lz4(data: &[u8]) -> (r: Vec<u8>)
    requires
        lz4_sized(data@.len()),
    ensures
        lz4_unpacked(r@) == data@,
{
    lz4_flex::compress(data)
}

/// Whether `packed` is a compressed form of `data`.
pub open spec fn packs(algo: Compression, packed: Seq<u8>, data: Seq<u8>) -> bool {
    match algo {
        Compression::Plain => packed == data,
        Compression::Deflate => inflated(packed) == data,
        Compression::Lz4 => lz4_unpacked(packed) == data,
    }
}

pub fn compress(data: &[u8], algo: Compression) -> (r: Vec<u8>)
    requires
        algo == Compression::Lz4 ==> lz4_sized(data@.len()),
    ensures
        packs(algo, r@, data@),
{
    match algo {
        Compression::Plain => vstd::slice::slice_to_vec(data),
        Compression::Deflate => deflate(data),
        Compression::Lz4 => lz4(data),
    }
}

/// Two bodies with one compressed form are the same body: nothing is lost on
/// the way to the peer.
pub proof fn compression_is_lossless(algo: Compression, packed: Seq<u8>, a: Seq<u8>, b: Seq<u8>)
    requires
        packs(algo, packed, a),
        packs(algo, packed, b),
    ensures
        a == b,
{
}

// ---------------------------------------------------------------- CRC-32

/// One step of the reflected CRC-32 register: a shift, and the IEEE polynomial
/// where the bit that left was set.
pub open spec fn crc_shift(crc: u32) -> u32 {
    if crc & 1 == 1 {
        (crc >> 1) ^ 0xedb8_8320
    } else {
        crc >> 1
    }
}

pub open spec fn crc_shifts(crc: u32, n: nat) -> u32
    decreases n,
{
    if n == 0 {
        crc
    } else {
        crc_shift(crc_shifts(crc, (n - 1) as nat))
    }
}

/// The register after the given bytes, from all ones.
pub open spec fn crc_register(data: Seq<u8>) -> u32
    decreases data.len(),
{
    if data.len() == 0 {
        0xffff_ffff
    } else {
        crc_shifts(crc_register(data.drop_last()) ^ (data.last() as u32), 8)
    }
}

/// The CRC-32 (IEEE) of the data.
pub open spec fn crc32_spec(data: Seq<u8>) -> u32 {
    !crc_register(data)
}

pub fn crc32(data: &[u8]) -> (r: u32)
    ensures
        r == crc32_spec(data@),
{
    let mut crc: u32 = 0xffff_ffff;
    let mut i: usize = 0;
    while i < data.len()
        invariant
            i <= data@.len(),
            crc == crc_register(data@.take(i as int)),
        decreases data.len() - i,
    {
        let ghost start = crc ^ (data@[i as int] as u32);
        crc = crc ^ (data[i] as u32);
        let mut k: u32 = 0;
        while k < 8
            invariant
                k <= 8,
                crc == crc_shifts(start, k as nat),
            decreases 8 - k,
        {
            let before = crc;
            if crc & 1 == 1 {
                crc = (crc >> 1) ^ 0xedb8_8320;
            } else {
                crc = crc >> 1;
            }
            assert(crc == crc_shift(before));
            k = k + 1;
        }
        assert(data@.take(i + 1).drop_last() =~= data@.take(i as int));
        i = i + 1;
    }
    assert(data@.take(i as int) =~= data@);
    !crc
}

// ---------------------------------------------------------------- hex

/// The lowercase hexadecimal digit of value `d`.
pub open spec fn hex_digit(d: int) -> char {
    if d < 10 {
        (48 + d) as char
    } else {
        (87 + d) as char
    }
}

/// Two hexadecimal digits per byte, the high one first.
pub open spec fn hex_text(data: Seq<u8>) -> Seq<char> {
    Seq::new(
        2 * data.len(),
        |i: int|
            if i % 2 == 0 {
                hex_digit(data[i / 2] as int / 16)
            } else {
                hex_digit(data[i / 2] as int % 16)
            },
    )
}

/// The value of a lowercase hexadecimal digit.
pub open spec fn hex_value(c: char) -> int {
    if c as int >= 97 {
        c as int - 87
    } else {
        c as int - 48
    }
}

/// The bytes that a hexadecimal text spells.
pub open spec fn hex_bytes(text: Seq<char>) -> Seq<u8> {
    Seq::new(
        text.len() / 2,
        |i: int| (hex_value(text[2 * i]) * 16 + hex_value(text[2 * i + 1])) as u8,
    )
}

/// Reading the hexadecimal text of some bytes gives the bytes back.
pub proof fn hex_round_trip(data: Seq<u8>)
    ensures
        hex_bytes(hex_text(data)) == data,
{
    let text = hex_text(data);
    assert forall|i: int| 0 <= i < data.len() implies hex_bytes(text)[i] == data[i] by {
        let b = data[i] as int;
        assert((2 * i) % 2 == 0 && (2 * i) / 2 == i && (2 * i + 1) % 2 == 1 && (2 * i + 1) / 2 == i);
        assert(hex_value(hex_digit(b / 16)) == b / 16);
        assert(hex_value(hex_digit(b % 16)) == b % 16);
    }
    assert(hex_bytes(text) =~= data);
}

/// The lowercase hexadecimal digit of value `d`.
pub fn hex_char(d: u8) -> (c: char)
    requires
        d < 16,
    ensures
        c == hex_digit(d as int),
{
    if d < 10 {
        (48 + d) as char
    } else {
        (87 + d) as char
    }
}

/// The last `width` hexadecimal digits of a number.
pub open spec fn hex_padded(n: nat, width: nat) -> Seq<char>
    decreases width,
{
    if width == 0 {
        Seq::empty()
    } else {
        hex_padded(n / 16, (width - 1) as nat).push(hex_digit((n % 16) as int))
    }
}

/// Writes the last `width` hexadecimal digits of a number.
pub fn hex_number(n: u128, width: usize) -> (r: String)
    ensures
        r@ == hex_padded(n as nat, width as nat),
    decreases width,
{
    if width == 0 {
        let s = String::new();
        assert(s@ =~= Seq::empty());
        s
    } else {
        let mut s = hex_number(n / 16, width - 1);
        s.push(hex_char((n % 16) as u8));
        s
    }
}

pub fn hex_encode(data: &[u8]) -> (r: String)
    ensures
        r@ == hex_text(data@),
{
    let mut out = String::new();
    let mut i: usize = 0;
    while i < data.len()
        invariant
            i <= data@.len(),
            out@ == hex_text(data@.take(i as int)),
        decreases data.len() - i,
    {
        let b = data[i];
        out.push(hex_char(b / 16));
        out.push(hex_char(b % 16));
        proof {
            assert(out@ =~= hex_text(data@.take(i + 1)));
        }
        i = i + 1;
    }
    assert(data@.take(i as int) =~= data@);
    out
}

// ---------------------------------------------------------------- base64

/// The base64 digit of value `v`.
pub open spec fn base64_digit(v: int) -> char {
    if v < 26 {
        (65 + v) as char
    } else if v < 52 {
        (71 + v) as char
    } else if v < 62 {
        (v - 4) as char
    } else if v == 62 {
        '+'
    } else {
        '/'
    }
}

/// The number that three bytes spell, the first one highest.
pub open spec fn triple(a: u8, b: u8, c: u8) -> int {
    a as int * 65536 + b as int * 256 + c as int
}

/// The four base64 digits of three bytes.
pub open spec fn base64_group(a: u8, b: u8, c: u8) -> Seq<char> {
    let n = triple(a, b, c);
    seq![
        base64_digit(n / 262144),
        base64_digit(n / 4096 % 64),
        base64_digit(n / 64 % 64),
        base64_digit(n % 64),
    ]
}

/// The base64 text of the data: four digits for each three bytes, and `=` for
/// what the last group lacks.
pub open spec fn base64_text(data: Seq<u8>) -> Seq<char>
    decreases data.len(),
{
    if data.len() == 0 {
        seq![]
    } else if data.len() == 1 {
        base64_group(data[0], 0, 0).take(2) + seq!['=', '=']
    } else if data.len() == 2 {
        base64_group(data[0], data[1], 0).take(3) + seq!['=']
    } else {
        base64_group(data[0], data[1], data[2]) + base64_text(data.skip(3))
    }
}

/// The value of a base64 digit.
pub open spec fn base64_value(c: char) -> int {
    let v = c as int;
    if 65 <= v <= 90 {
        v - 65
    } else if 97 <= v <= 122 {
        v - 71
    } else if 48 <= v <= 57 {
        v + 4
    } else if c == '+' {
        62
    } else {
        63
    }
}

/// The number that four base64 digits spell, a missing digit counting as zero.
pub open spec fn base64_number(text: Seq<char>) -> int {
    base64_value(text[0]) * 262144 + base64_value(text[1]) * 4096 + (if text[2] == '=' {
        0
    } else {
        base64_value(text[2]) * 64
    }) + (if text[3] == '=' {
        0
    } else {
        base64_value(text[3])
    })
}

/// The bytes that a base64 text spells.
pub open spec fn base64_bytes(text: Seq<char>) -> Seq<u8>
    decreases text.len(),
{
    if text.len() < 4 {
        seq![]
    } else {
        let n = base64_number(text);
        if text[2] == '=' {
            seq![(n / 65536) as u8]
        } else if text[3] == '=' {
            seq![(n / 65536) as u8, (n / 256 % 256) as u8]
        } else {
            seq![(n / 65536) as u8, (n / 256 % 256) as u8, (n % 256) as u8] + base64_bytes(
                text.skip(4),
            )
        }
    }
}

proof fn lemma_base64_digit(v: int)
    requires
        0 <= v < 64,
    ensures
        base64_value(base64_digit(v)) == v,
        base64_digit(v) != '=',
{
}

proof fn lemma_triple(a: u8, b: u8, c: u8)
    ensures
        ({
            let n = triple(a, b, c);
            &&& 0 <= n / 262144 < 64
            &&& n / 65536 == a
            &&& n / 256 % 256 == b
            &&& n % 256 == c
            &&& n == n / 262144 * 262144 + n / 4096 % 64 * 4096 + n / 64 % 64 * 64 + n % 64
        }),
{
    let n = triple(a, b, c);
    vstd::arithmetic::div_mod::lemma_div_denominator(n, 4096, 64);
    vstd::arithmetic::div_mod::lemma_div_denominator(n, 64, 64);
    let q = n / 4096;
    let p = n / 64;
    assert(q / 64 == n / 262144);
    assert(p / 64 == q);
    assert(n / 256 == a as int * 256 + b as int);
}

/// The number that the digits of a group spell, with the last ones left out
/// where they stand for no byte.
proof fn lemma_group_number(a: u8, b: u8, c: u8, text: Seq<char>, kept: int)
    requires
        2 <= kept <= 4,
        kept <= 2 ==> b == 0,
        kept <= 3 ==> c == 0,
        text.len() >= 4,
        forall|i: int| 0 <= i < kept ==> text[i] == base64_group(a, b, c)[i],
        forall|i: int| kept <= i < 4 ==> text[i] == '=',
    ensures
        base64_number(text) == triple(a, b, c),
        text[2] == '=' <==> kept == 2,
        text[3] == '=' <==> kept <= 3,
{
    let n = triple(a, b, c);
    lemma_triple(a, b, c);
    lemma_base64_digit(n / 262144);
    lemma_base64_digit(n / 4096 % 64);
    lemma_base64_digit(n / 64 % 64);
    lemma_base64_digit(n % 64);
    assert(text[0] == base64_digit(n / 262144));
    assert(text[1] == base64_digit(n / 4096 % 64));
    if kept <= 3 {
        assert(n == (a as int * 256 + b as int) * 256);
        assert(n % 64 == 0);
    }
    if kept <= 2 {
        assert(n == a as int * 65536);
        assert(n / 64 == a as int * 1024);
        assert(n / 64 % 64 == 0);
    }
}

/// Reading the base64 text of some bytes gives the bytes back.
pub proof fn base64_round_trip(data: Seq<u8>)
    ensures
        base64_bytes(base64_text(data)) == data,
    decreases data.len(),
{
    let text = base64_text(data);
    if data.len() == 0 {
        assert(base64_bytes(text) =~= data);
    } else if data.len() == 1 {
        lemma_triple(data[0], 0, 0);
        lemma_group_number(data[0], 0, 0, text, 2);
        assert(base64_bytes(text) =~= data);
    } else if data.len() == 2 {
        lemma_triple(data[0], data[1], 0);
        lemma_group_number(data[0], data[1], 0, text, 3);
        assert(base64_bytes(text) =~= data);
    } else {
        lemma_triple(data[0], data[1], data[2]);
        lemma_group_number(data[0], data[1], data[2], text, 4);
        base64_round_trip(data.skip(3));
        assert(text.skip(4) =~= base64_text(data.skip(3)));
        assert(base64_bytes(text) =~= seq![data[0], data[1], data[2]] + data.skip(3));
        assert(seq![data[0], data[1], data[2]] + data.skip(3) =~= data);
    }
}

/// The base64 text of `n` bytes has four characters for each group of three.
pub proof fn base64_length(data: Seq<u8>)
    ensures
        base64_text(data).len() == (data.len() + 2) / 3 * 4,
    decreases data.len(),
{
    if data.len() >= 3 {
        base64_length(data.skip(3));
    }
}

/// The base64 text of whole groups followed by more data.
proof fn lemma_base64_append(head: Seq<u8>, tail: Seq<u8>)
    requires
        head.len() % 3 == 0,
    ensures
        base64_text(head + tail) == base64_text(head) + base64_text(tail),
    decreases head.len(),
{
    if head.len() == 0 {
        assert(head + tail =~= tail);
        assert(base64_text(head) + base64_text(tail) =~= base64_text(tail));
    } else {
        lemma_base64_append(head.skip(3), tail);
        assert((head + tail).skip(3) =~= head.skip(3) + tail);
        assert(base64_text(head + tail) =~= base64_text(head) + base64_text(tail));
    }
}

proof fn lemma_base64_extend(data: Seq<u8>, i: int)
    requires
        0 <= i <= data.len() - 3,
        i % 3 == 0,
    ensures
        base64_text(data.take(i + 3)) == base64_text(data.take(i)) + base64_group(
            data[i],
            data[i + 1],
            data[i + 2],
        ),
{
    let group = data.subrange(i, i + 3);
    lemma_base64_append(data.take(i), group);
    assert(data.take(i) + group =~= data.take(i + 3));
    assert(group.skip(3) =~= Seq::empty());
    assert(base64_text(group.skip(3)) =~= Seq::empty());
    assert(base64_text(group) =~= base64_group(data[i], data[i + 1], data[i + 2]));
}

fn base64_char(v: u32) -> (c: char)
    requires
        v < 64,
    ensures
        c == base64_digit(v as int),
{
    let v: u8 = v as u8;
    if v < 26 {
        (65 + v) as char
    } else if v < 52 {
        (71 + v) as char
    } else if v < 62 {
        (v - 4) as char
    } else if v == 62 {
        '+'
    } else {
        '/'
    }
}

/// The four base64 digits of three bytes.
fn base64_digits(a: u8, b: u8, c: u8) -> (r: (char, char, char, char))
    ensures
        seq![r.0, r.1, r.2, r.3] == base64_group(a, b, c),
{
    let n: u32 = a as u32 * 65536 + b as u32 * 256 + c as u32;
    proof {
        lemma_triple(a, b, c);
    }
    (
        base64_char(n / 262144),
        base64_char(n / 4096 % 64),
        base64_char(n / 64 % 64),
        base64_char(n % 64),
    )
}

/// The base64 text of the first `i` bytes.
#[verifier::opaque]
spec fn base64_head(data: Seq<u8>, i: int) -> Seq<char> {
    base64_text(data.take(i))
}

/// Appends the group of three bytes that starts at `i`.
fn push_group(out: &mut String, data: &[u8], i: usize)
    requires
        i + 3 <= data@.len(),
        i % 3 == 0,
        old(out)@ == base64_head(data@, i as int),
    ensures
        final(out)@ == base64_head(data@, i + 3),
{
    let ghost before = out@;
    let (p, q, r, s) = base64_digits(data[i], data[i + 1], data[i + 2]);
    out.push(p);
    out.push(q);
    out.push(r);
    out.push(s);
    proof {
        reveal(base64_head);
        assert(out@ =~= before + seq![p, q, r, s]);
        lemma_base64_extend(data@, i as int);
    }
}

/// Encodes the whole groups of the data, and tells how many bytes they hold.
fn push_groups(out: &mut String, data: &[u8]) -> (i: usize)
    requires
        old(out)@.len() == 0,
    ensures
        data@.len() - 3 < i <= data@.len(),
        i % 3 == 0,
        final(out)@ == base64_text(data@.take(i as int)),
{
    let total: usize = data.len();
    let mut i: usize = 0;
    proof {
        reveal(base64_head);
        assert(out@ =~= base64_head(data@, 0));
    }
    while total - i >= 3
        invariant
            total == data@.len(),
            i <= total,
            i % 3 == 0,
            out@ == base64_head(data@, i as int),
        decreases total - i,
    {
        push_group(out, data, i);
        i = i + 3;
    }
    proof {
        reveal(base64_head);
    }
    i
}

pub fn base64_encode(data: &[u8]) -> (r: String)
    ensures
        r@ == base64_text(data@),
{
    let mut out = String::new();
    let i = push_groups(&mut out, data);
    let rem: usize = data.len() - i;
    let ghost before = out@;
    let ghost tail = data@.skip(i as int);
    proof {
        lemma_base64_append(data@.take(i as int), tail);
        assert(data@.take(i as int) + tail =~= data@);
    }
    if rem == 1 {
        let (p, q, r, s) = base64_digits(data[i], 0, 0);
        out.push(p);
        out.push(q);
        out.push('=');
        out.push('=');
        proof {
            assert(seq![p, q, r, s].take(2) =~= seq![p, q]);
            assert(out@ =~= before + base64_text(tail));
        }
    } else if rem == 2 {
        let (p, q, r, s) = base64_digits(data[i], data[i + 1], 0);
        out.push(p);
        out.push(q);
        out.push(r);
        out.push('=');
        proof {
            assert(seq![p, q, r, s].take(3) =~= seq![p, q, r]);
            assert(out@ =~= before + base64_text(tail));
        }
    } else {
        assert(out@ =~= before + base64_text(tail));
    }
    out
}

// ---------------------------------------------------------------- encode

/// The wire text of some bytes, where the encoding can carry them.
pub open spec fn encoded(data: Seq<u8>, enc: BodyEncoding) -> Option<Seq<char>> {
    match enc {
        BodyEncoding::Text => if valid_utf8(data) {
            Some(decode_utf8(data))
        } else {
            None
        },
        BodyEncoding::Base64 => Some(base64_text(data)),
        BodyEncoding::Hex => Some(hex_text(data)),
    }
}

/// Encodes bytes into a JSON-safe string. Fails only when `Text` is asked for
/// bytes that are not valid UTF-8.
pub fn encode(data: &[u8], enc: BodyEncoding) -> (r: Result<String, ()>)
    ensures
        match r {
            Ok(s) => encoded(data@, enc) == Some(s@),
            Err(_) => encoded(data@, enc) is None,
        },
{
    match enc {
        BodyEncoding::Text => match utf8_text(data) {
            Some(s) => Ok(s),
            None => Err(()),
        },
        BodyEncoding::Base64 => Ok(base64_encode(data)),
        BodyEncoding::Hex => Ok(hex_encode(data)),
    }
}

/// The wire text of some bytes, with base64 where the encoding cannot carry
/// them.
pub open spec fn encoded_or_base64(data: Seq<u8>, enc: BodyEncoding) -> Seq<char> {
    match encoded(data, enc) {
        Some(s) => s,
        None => base64_text(data),
    }
}

pub fn encode_or_base64(data: &[u8], enc: BodyEncoding) -> (r: String)
    ensures
        r@ == encoded_or_base64(data@, enc),
{
    match encode(data, enc) {
        Ok(s) => s,
        Err(_) => base64_encode(data),
    }
}

/// Whatever encoding is asked for, two bodies with one wire text in it are the same
/// body.
pub proof fn encodings_are_lossless(a: Seq<u8>, b: Seq<u8>, enc: BodyEncoding)
    requires
        encoded(a, enc) is Some,
        encoded(a, enc) == encoded(b, enc),
    ensures
        a == b,
{
    if enc == BodyEncoding::Text {
        decode_utf8_encode_utf8(a);
        decode_utf8_encode_utf8(b);
    }
    base64_round_trip(a);
    base64_round_trip(b);
    hex_round_trip(a);
    hex_round_trip(b);
}

// ---------------------------------------------------------------- laws

/// The bytes that a wire text stands for in an encoding.
pub open spec fn decoded(text: Seq<char>, enc: BodyEncoding) -> Seq<u8> {
    match enc {
        BodyEncoding::Text => encode_utf8(text),
        BodyEncoding::Base64 => base64_bytes(text),
        BodyEncoding::Hex => hex_bytes(text),
    }
}

/// A body that an encoding can carry is read back from its wire text.
pub proof fn encoded_bodies_are_read_back(data: Seq<u8>, enc: BodyEncoding)
    requires
        encoded(data, enc) is Some,
    ensures
        decoded(encoded(data, enc)->0, enc) == data,
        decoded(encoded_or_base64(data, enc), enc) == data,
{
    if enc == BodyEncoding::Text {
        decode_utf8_encode_utf8(data);
    }
    base64_round_trip(data);
    hex_round_trip(data);
}

/// Only text can fail to carry some bytes, and base64 stands in for it then.
pub proof fn only_text_can_fail(data: Seq<u8>, enc: BodyEncoding)
    ensures
        encoded(data, enc) is None <==> enc == BodyEncoding::Text && !valid_utf8(data),
        encoded(data, enc) is None ==> base64_bytes(encoded_or_base64(data, enc)) == data,
{
    base64_round_trip(data);
}

/// The digits of base64 are the letters in upper and in lower case, the decimal
/// digits, a plus sign and a slash, in this order.
pub proof fn base64_digits_are_standard(v: int)
    requires
        0 <= v < 64,
    ensures
        v < 26 ==> base64_digit(v) as int == 'A' as int + v,
        26 <= v < 52 ==> base64_digit(v) as int == 'a' as int + v - 26,
        52 <= v < 62 ==> base64_digit(v) as int == '0' as int + v - 52,
        v == 62 ==> base64_digit(v) == '+',
        v == 63 ==> base64_digit(v) == '/',
{
}

/// Three bytes make four digits of six bits, the highest bits first; what is left
/// over of the last bytes is filled up with equals signs.
pub proof fn base64_cuts_six_bits(data: Seq<u8>)
    requires
        data.len() > 0,
    ensures
        ({
            let text = base64_text(data);
            &&& text.len() >= 4
            &&& text[0] == base64_digit(data[0] as int / 4)
            &&& text[1] == base64_digit(
                data[0] as int % 4 * 16 + if data.len() > 1 {
                    data[1] as int / 16
                } else {
                    0
                },
            )
            &&& text[2] == if data.len() == 1 {
                '='
            } else {
                base64_digit(
                    data[1] as int % 16 * 4 + if data.len() > 2 {
                        data[2] as int / 64
                    } else {
                        0
                    },
                )
            }
            &&& text[3] == if data.len() < 3 {
                '='
            } else {
                base64_digit(data[2] as int % 64)
            }
            &&& data.len() >= 3 ==> text.skip(4) == base64_text(data.skip(3))
        }),
{
    let b: u8 = if data.len() > 1 {
        data[1]
    } else {
        0
    };
    let c: u8 = if data.len() > 2 {
        data[2]
    } else {
        0
    };
    lemma_six_bits(data[0], b, c);
    if data.len() >= 3 {
        assert(base64_text(data).skip(4) =~= base64_text(data.skip(3)));
    }
}

proof fn lemma_six_bits(a: u8, b: u8, c: u8)
    ensures
        ({
            let n = triple(a, b, c);
            &&& n / 262144 == a as int / 4
            &&& n / 4096 % 64 == a as int % 4 * 16 + b as int / 16
            &&& n / 64 % 64 == b as int % 16 * 4 + c as int / 64
            &&& n % 64 == c as int % 64
        }),
{
    let x = a as int;
    let y = b as int;
    let z = c as int;
    let n = triple(a, b, c);
    assert(n == x * 65536 + y * 256 + z);
    assert(n / 4096 == x * 16 + y / 16);
    assert(n / 64 == x * 1024 + y * 4 + z / 64);
}

/// A byte is written as two of the sixteen hexadecimal digits, in lower case, the
/// high one first.
pub proof fn hex_digits_are_lowercase(data: Seq<u8>, i: int)
    requires
        0 <= i < data.len(),
    ensures
        ({
            let high = hex_text(data)[2 * i];
            let low = hex_text(data)[2 * i + 1];
            &&& hex_text(data).len() == 2 * data.len()
            &&& '0' <= high <= '9' || 'a' <= high <= 'f'
            &&& '0' <= low <= '9' || 'a' <= low <= 'f'
            &&& data[i] < 160 <==> high <= '9'
            &&& high <= '9' ==> high as int - '0' as int == data[i] as int / 16
            &&& high > '9' ==> high as int - 'a' as int + 10 == data[i] as int / 16
            &&& low <= '9' ==> low as int - '0' as int == data[i] as int % 16
            &&& low > '9' ==> low as int - 'a' as int + 10 == data[i] as int % 16
        }),
{
    assert((2 * i) % 2 == 0 && (2 * i) / 2 == i && (2 * i + 1) % 2 == 1 && (2 * i + 1) / 2 == i);
    assert(0 <= data[i] as int / 16 < 16);
    assert(0 <= data[i] as int % 16 < 16);
}

/// A number of fixed width has exactly that many hexadecimal digits; two numbers
/// that differ within that width are written differently.
pub proof fn padded_numbers_are_told_apart(a: nat, b: nat, width: nat)
    ensures
        hex_padded(a, width).len() == width,
        a < pow16(width) && b < pow16(width) && hex_padded(a, width) == hex_padded(b, width)
            ==> a == b,
    decreases width,
{
    if width > 0 {
        let w = (width - 1) as nat;
        padded_numbers_are_told_apart(a / 16, b / 16, w);
        let x = hex_padded(a, width);
        let y = hex_padded(b, width);
        if a < pow16(width) && b < pow16(width) && x == y {
            assert(x.drop_last() =~= hex_padded(a / 16, w));
            assert(y.drop_last() =~= hex_padded(b / 16, w));
            assert(x.last() == hex_digit((a % 16) as int));
            assert(y.last() == hex_digit((b % 16) as int));
            assert(a % 16 == b % 16);
        }
    }
}

/// A power of sixteen.
pub open spec fn pow16(n: nat) -> nat
    decreases n,
{
    if n == 0 {
        1
    } else {
        pow16((n - 1) as nat) * 16
    }
}

} // verus!
