//! The cloud music service: its requests, its login cookies and its answers.
use aes::Aes128;
use cipher::{block_padding::Pkcs7, BlockEncrypt, BlockEncryptMut, KeyInit};
use md5::{Digest, Md5};
use num_bigint::BigUint;
use vstd::prelude::*;
use vstd::slice::*;
use vstd::string::*;
use vstd::utf8::*;

use crate::bridge::codec;
use crate::json::{self, Json, JsonObject, JsonView};
use crate::lyra_import::artwork::{self, PreparedArtwork};
use crate::lyra_import::import::{self, ImportAsset};
use crate::lyra_import::state::{CloudPlaylist, CloudSong};
use crate::lyra_import::wire;
use crate::text::{self, str_eq};

verus! {

pub const API_BASE: &'static str = "https://interfacepc.music.163.com";

pub const EAPI_KEY: &'static str = "e82ckenh8dichen8";

pub const EAPI_DELIMITER: &'static str = "-36cd479b6b5-";

pub const USER_AGENT: &'static str = "NeteaseMusic 9.0.90/5038 (iPhone; iOS 16.2; zh_CN)";

pub const WEB_USER_AGENT: &'static str = "Mozilla/5.0 (Macintosh; Intel Mac OS X 10_15_7) AppleWebKit/537.36 (KHTML, like Gecko) Chrome/124.0.0.0 Safari/537.36 Edg/124.0.0.0";

pub const WEAPI_NONCE: &'static str = "0CoJUm6Qyw8W8jud";

pub const WEAPI_IV: &'static str = "0102030405060708";

pub const MAX_AUDIO_BYTES: u64 = 67108864;

pub const MAX_COVER_BYTES: u64 = 4194304;

pub const MAX_LYRICS_BYTES: usize = 2097152;

pub const AUDIO_BITRATE_LOW: u32 = 128000;

pub const AUDIO_BITRATE_MEDIUM: u32 = 192000;

pub const AUDIO_BITRATE_HIGH: u32 = 320000;

/// One of the offered bitrates; the lowest one for any other value.
pub open spec fn offered_bitrate(value: u32) -> u32 {
    if value == AUDIO_BITRATE_LOW || value == AUDIO_BITRATE_MEDIUM || value
        == AUDIO_BITRATE_HIGH {
        value
    } else {
        AUDIO_BITRATE_LOW
    }
}

/// The offered bitrate for a value.
pub fn normalized_audio_bitrate(value: u32) -> (r: u32)
    ensures
        r == offered_bitrate(value),
{
    if value == AUDIO_BITRATE_MEDIUM || value == AUDIO_BITRATE_HIGH {
        value
    } else {
        AUDIO_BITRATE_LOW
    }
}

// ---------------------------------------------------------------- cookies

/// The name and value of a cookie, without its attributes.
pub open spec fn pair_of(cookie: Seq<char>) -> Seq<char> {
    text::trimmed(text::parts(cookie, ';')[0])
}

pub fn cookie_pair(value: &str) -> (r: String)
    ensures
        r@ == pair_of(value@),
{
    let parts = text::split(value, ';');
    assert(text::texts(parts@)[0] == parts@[0]@);
    text::trim(parts[0].as_str())
}

/// The name of a cookie.
pub open spec fn cookie_name(item: Seq<char>) -> Option<Seq<char>> {
    if item.contains('=') {
        Some(text::head(item, '='))
    } else {
        None
    }
}

fn name_of(item: &str) -> (r: Option<String>)
    ensures
        text::opt_text(r) == cookie_name(item@),
{
    match text::split_once(item, '=') {
        Some((name, _)) => Some(name),
        None => None,
    }
}

/// Whether a name is an attribute of a cookie, whatever its case.
pub open spec fn is_attribute(name: Seq<char>) -> bool {
    let n = text::lowered(name);
    n == "domain"@ || n == "path"@ || n == "expires"@ || n == "max-age"@ || n == "samesite"@
}

/// Whether an item of a cookie header is a cookie.
pub open spec fn is_cookie(item: Seq<char>) -> bool {
    match cookie_name(item) {
        Some(name) => !is_attribute(name),
        None => false,
    }
}

/// The cookies in some items.
pub open spec fn cookies_in(items: Seq<Seq<char>>) -> Seq<Seq<char>>
    decreases items.len(),
{
    if items.len() == 0 {
        Seq::empty()
    } else {
        let before = cookies_in(items.drop_last());
        let item = text::trimmed(items.last());
        if is_cookie(item) {
            before.push(item)
        } else {
            before
        }
    }
}

fn item_is_cookie(item: &str) -> (r: bool)
    ensures
        r == is_cookie(item@),
{
    match name_of(item) {
        Some(name) => {
            let n = text::to_lower(name.as_str());
            let n = n.as_str();
            !(str_eq(n, "domain") || str_eq(n, "path") || str_eq(n, "expires") || str_eq(
                n,
                "max-age",
            ) || str_eq(n, "samesite"))
        },
        None => false,
    }
}

/// The cookies of a cookie header, without attributes.
pub fn split_cookie_header(value: &str) -> (r: Vec<String>)
    ensures
        text::texts(r@) == cookies_in(text::parts(value@, ';')),
{
    let items = text::split(value, ';');
    let ghost all = text::texts(items@);
    let mut out: Vec<String> = Vec::new();
    let mut i: usize = 0;
    assert(text::texts(out@) =~= cookies_in(all.take(0)));
    while i < items.len()
        invariant
            i <= items@.len(),
            all == text::texts(items@),
            text::texts(out@) == cookies_in(all.take(i as int)),
        decreases items.len() - i,
    {
        let item = text::trim(items[i].as_str());
        proof {
            assert(all.take(i + 1).drop_last() =~= all.take(i as int));
            assert(all.take(i + 1).last() == items@[i as int]@);
        }
        if item_is_cookie(item.as_str()) {
            let ghost before = out@;
            out.push(item);
            assert(text::texts(out@) =~= text::texts(before).push(item@));
        }
        i = i + 1;
    }
    assert(all.take(i as int) =~= all);
    out
}

/// The cookies whose name is another one.
pub open spec fn without_name(jar: Seq<Seq<char>>, name: Seq<char>) -> Seq<Seq<char>>
    decreases jar.len(),
{
    if jar.len() == 0 {
        Seq::empty()
    } else {
        let before = without_name(jar.drop_last(), name);
        if cookie_name(jar.last()) == Some(name) {
            before
        } else {
            before.push(jar.last())
        }
    }
}

/// The jar after one more cookie: it replaces those of its name.
pub open spec fn with_cookie(jar: Seq<Seq<char>>, cookie: Seq<char>) -> Seq<Seq<char>> {
    let pair = pair_of(cookie);
    match cookie_name(pair) {
        Some(name) => if name.len() == 0 {
            jar
        } else {
            without_name(jar, name).push(pair)
        },
        None => jar,
    }
}

pub open spec fn with_cookies(jar: Seq<Seq<char>>, incoming: Seq<Seq<char>>) -> Seq<Seq<char>>
    decreases incoming.len(),
{
    if incoming.len() == 0 {
        jar
    } else {
        with_cookie(with_cookies(jar, incoming.drop_last()), incoming.last())
    }
}

fn drop_name(jar: &Vec<String>, name: &str) -> (r: Vec<String>)
    ensures
        text::texts(r@) == without_name(text::texts(jar@), name@),
{
    let ghost all = text::texts(jar@);
    let mut out: Vec<String> = Vec::new();
    let mut i: usize = 0;
    assert(text::texts(out@) =~= without_name(all.take(0), name@));
    while i < jar.len()
        invariant
            i <= jar@.len(),
            all == text::texts(jar@),
            text::texts(out@) == without_name(all.take(i as int), name@),
        decreases jar.len() - i,
    {
        proof {
            assert(all.take(i + 1).drop_last() =~= all.take(i as int));
            assert(all.take(i + 1).last() == jar@[i as int]@);
        }
        let same = match name_of(jar[i].as_str()) {
            Some(n) => str_eq(n.as_str(), name),
            None => false,
        };
        if !same {
            let ghost before = out@;
            out.push(jar[i].clone());
            assert(text::texts(out@) =~= text::texts(before).push(jar@[i as int]@));
        }
        i = i + 1;
    }
    assert(all.take(i as int) =~= all);
    out
}

/// Puts cookies into a jar: each replaces the one of its name.
pub fn merge_cookies(current: &mut Vec<String>, incoming: Vec<String>)
    ensures
        text::texts(final(current)@) == with_cookies(
            text::texts(old(current)@),
            text::texts(incoming@),
        ),
{
    let ghost start = text::texts(current@);
    let ghost all = text::texts(incoming@);
    let mut i: usize = 0;
    assert(all.take(0) =~= Seq::empty());
    while i < incoming.len()
        invariant
            i <= incoming@.len(),
            all == text::texts(incoming@),
            text::texts(current@) == with_cookies(start, all.take(i as int)),
        decreases incoming.len() - i,
    {
        proof {
            assert(all.take(i + 1).drop_last() =~= all.take(i as int));
            assert(all.take(i + 1).last() == incoming@[i as int]@);
        }
        let pair = cookie_pair(incoming[i].as_str());
        if let Some(name) = name_of(pair.as_str()) {
            if !name.as_str().is_empty() {
                let mut kept = drop_name(current, name.as_str());
                let ghost before = kept@;
                kept.push(pair);
                assert(text::texts(kept@) =~= text::texts(before).push(pair@));
                *current = kept;
            }
        }
        i = i + 1;
    }
    assert(all.take(i as int) =~= all);
}

proof fn lemma_without_name(jar: Seq<Seq<char>>, name: Seq<char>)
    ensures
        forall|i: int|
            0 <= i < without_name(jar, name).len() ==> cookie_name(
                #[trigger] without_name(jar, name)[i],
            ) != Some(name) && jar.contains(without_name(jar, name)[i]),
    decreases jar.len(),
{
    if jar.len() > 0 {
        let rest = jar.drop_last();
        lemma_without_name(rest, name);
        let before = without_name(rest, name);
        let now = without_name(jar, name);
        assert forall|i: int| 0 <= i < now.len() implies cookie_name(#[trigger] now[i]) != Some(name)
            && jar.contains(now[i]) by {
            if i < before.len() {
                assert(now[i] == before[i]);
                assert(rest.contains(before[i]));
                let j = choose|j: int| 0 <= j < rest.len() && rest[j] == before[i];
                assert(jar[j] == before[i]);
            } else {
                assert(now[i] == jar[jar.len() - 1]);
            }
        }
    }
}

proof fn lemma_kept_names(jar: Seq<Seq<char>>, name: Seq<char>, item: Seq<char>)
    requires
        jar.contains(item),
        cookie_name(item) != Some(name),
    ensures
        without_name(jar, name).contains(item),
    decreases jar.len(),
{
    let j = choose|j: int| 0 <= j < jar.len() && jar[j] == item;
    let rest = jar.drop_last();
    let before = without_name(rest, name);
    if j == jar.len() - 1 {
        assert(without_name(jar, name)[before.len() as int] == item);
    } else {
        assert(rest[j] == item);
        lemma_kept_names(rest, name, item);
        let k = choose|k: int| 0 <= k < before.len() && before[k] == item;
        assert(without_name(jar, name)[k] == item);
    }
}

/// A cookie that was put into a jar stands there, no other one has its name, and
/// cookies of other names stay.
pub proof fn newest_cookie_prevails(jar: Seq<Seq<char>>, cookie: Seq<char>)
    requires
        cookie_name(pair_of(cookie)) matches Some(n) && n.len() > 0,
    ensures
        with_cookie(jar, cookie).contains(pair_of(cookie)),
        forall|i: int|
            0 <= i < with_cookie(jar, cookie).len() && cookie_name(
                #[trigger] with_cookie(jar, cookie)[i],
            ) == cookie_name(pair_of(cookie)) ==> with_cookie(jar, cookie)[i] == pair_of(cookie),
        forall|item: Seq<char>| #[trigger]
            jar.contains(item) && cookie_name(item) != cookie_name(pair_of(cookie))
                ==> with_cookie(jar, cookie).contains(item),
{
    let name = cookie_name(pair_of(cookie))->0;
    let kept = without_name(jar, name);
    let now = with_cookie(jar, cookie);
    lemma_without_name(jar, name);
    assert(now[kept.len() as int] == pair_of(cookie));
    assert forall|i: int|
        0 <= i < now.len() && cookie_name(#[trigger] now[i]) == cookie_name(
            pair_of(cookie),
        ) implies now[i] == pair_of(cookie) by {
        if i < kept.len() {
            assert(now[i] == kept[i]);
        }
    }
    assert forall|item: Seq<char>| #[trigger]
        jar.contains(item) && cookie_name(item) != cookie_name(pair_of(cookie)) implies now.contains(
        item,
    ) by {
        lemma_kept_names(jar, name, item);
        let k = choose|k: int| 0 <= k < kept.len() && kept[k] == item;
        assert(now[k] == item);
    }
}

/// The value of a cookie in some items; empty where none has the name.
pub open spec fn value_in(items: Seq<Seq<char>>, name: Seq<char>) -> Seq<char>
    decreases items.len(),
{
    if items.len() == 0 {
        Seq::empty()
    } else {
        let item = text::trimmed(items[0]);
        if cookie_name(item) == Some(name) {
            item.skip(name.len() as int + 1)
        } else {
            value_in(items.skip(1), name)
        }
    }
}

/// The value of the first cookie of a header that has a name.
pub fn cookie_value(cookie: &str, name: &str) -> (r: String)
    ensures
        r@ == value_in(text::parts(cookie@, ';'), name@),
{
    let items = text::split(cookie, ';');
    let ghost all = text::texts(items@);
    let mut i: usize = 0;
    assert(all.skip(0) =~= all);
    while i < items.len()
        invariant
            i <= items@.len(),
            all == text::texts(items@),
            all == text::parts(cookie@, ';'),
            value_in(all.skip(i as int), name@) == value_in(all, name@),
        decreases items.len() - i,
    {
        let item = text::trim(items[i].as_str());
        proof {
            assert(all.skip(i as int)[0] == items@[i as int]@);
            assert(all.skip(i as int).skip(1) =~= all.skip(i + 1));
        }
        if let Some((key, value)) = text::split_once(item.as_str(), '=') {
            if str_eq(key.as_str(), name) {
                return value;
            }
        }
        i = i + 1;
    }
    let none = String::new();
    assert(none@ =~= Seq::empty());
    none
}

// ---------------------------------------------------------------- escaping

/// Whether a byte stands for itself in a URL.
pub open spec fn is_plain(b: u8) -> bool {
    (48 <= b <= 57) || (65 <= b <= 90) || (97 <= b <= 122) || b == 45 || b == 95 || b == 46 || b
        == 126
}

/// The uppercase hexadecimal digit of value `d`.
pub open spec fn hex_upper(d: int) -> char {
    if d < 10 {
        (48 + d) as char
    } else {
        (55 + d) as char
    }
}

/// A byte as it stands in a URL.
pub open spec fn escaped(b: u8) -> Seq<char> {
    if is_plain(b) {
        seq![b as char]
    } else {
        seq!['%', hex_upper(b as int / 16), hex_upper(b as int % 16)]
    }
}

pub open spec fn escaped_bytes(b: Seq<u8>) -> Seq<char>
    decreases b.len(),
{
    if b.len() == 0 {
        Seq::empty()
    } else {
        escaped_bytes(b.drop_last()) + escaped(b.last())
    }
}

fn upper_hex_char(d: u8) -> (c: char)
    requires
        d < 16,
    ensures
        c == hex_upper(d as int),
{
    if d < 10 {
        (48 + d) as char
    } else {
        (55 + d) as char
    }
}

/// Escapes a text for a URL.
pub fn url_encode(input: &str) -> (r: String)
    ensures
        r@ == escaped_bytes(encode_utf8(input@)),
{
    let bytes = input.as_bytes();
    let mut out = String::new();
    let mut i: usize = 0;
    assert(out@ =~= escaped_bytes(bytes@.take(0)));
    while i < bytes.len()
        invariant
            i <= bytes@.len(),
            out@ == escaped_bytes(bytes@.take(i as int)),
        decreases bytes.len() - i,
    {
        let b: u8 = bytes[i];
        proof {
            assert(bytes@.take(i + 1).drop_last() =~= bytes@.take(i as int));
        }
        let ghost before = out@;
        if (48 <= b && b <= 57) || (65 <= b && b <= 90) || (97 <= b && b <= 122) || b == 45 || b
            == 95 || b == 46 || b == 126 {
            out.push(b as char);
            assert(out@ =~= before + escaped(b));
        } else {
            out.push('%');
            out.push(upper_hex_char(b / 16));
            out.push(upper_hex_char(b % 16));
            assert(out@ =~= before + escaped(b));
        }
        i = i + 1;
    }
    assert(bytes@.take(i as int) =~= bytes@);
    out
}

/// Whether a character may stand anywhere in a URL.
pub open spec fn is_url_char(c: char) -> bool {
    c == '%' || ((c as int) < 128 && is_plain(c as u8))
}

/// An escaped text is made of characters that may stand anywhere in a URL.
pub proof fn escaping_is_url_safe(b: Seq<u8>)
    ensures
        forall|i: int| 0 <= i < escaped_bytes(b).len() ==> is_url_char(#[trigger] escaped_bytes(b)[i]),
    decreases b.len(),
{
    if b.len() > 0 {
        escaping_is_url_safe(b.drop_last());
        let before = escaped_bytes(b.drop_last());
        let now = escaped_bytes(b);
        assert forall|i: int| 0 <= i < now.len() implies is_url_char(#[trigger] now[i]) by {
            if i < before.len() {
                assert(now[i] == before[i]);
            } else {
                assert(now[i] == escaped(b.last())[i - before.len()]);
            }
        }
    }
}

// ---------------------------------------------------------------- ciphers

/// A block under the AES cipher with a key of 128 bits.
pub uninterp spec fn aes_block(key: Seq<u8>, block: Seq<u8>) -> Seq<u8>;

/// The MD5 digest of some bytes.
pub uninterp spec fn md5_digest(data: Seq<u8>) -> Seq<u8>;

/// Wrapper of `Aes128::encrypt_block`: a block of sixteen bytes, which depends
/// on the key and the block alone.
#[verifier::external_body]
fn encrypt_block(key: &[u8], block: &[u8]) -> (r: Vec<u8>)
    requires
        key@.len() == 16,
        block@.len() == 16,
    ensures
        r@ == aes_block(key@, block@),
        r@.len() == 16,
{
    let mut out = block.to_vec();
    Aes128::new_from_slice(key).unwrap().encrypt_block(out.as_mut_slice().into());
    out
}

/// Bytes filled up to whole blocks; each added byte counts the added ones.
pub open spec fn block_padded(data: Seq<u8>) -> Seq<u8> {
    let n = 16 - data.len() as int % 16;
    data + Seq::new(n as nat, |i: int| n as u8)
}

/// Whole blocks, each enciphered on its own.
pub open spec fn block_wise(key: Seq<u8>, data: Seq<u8>) -> Seq<u8>
    decreases data.len(),
{
    if data.len() < 16 {
        Seq::empty()
    } else {
        aes_block(key, data.take(16)) + block_wise(key, data.skip(16))
    }
}

/// Wrapper of `Aes128::encrypt_padded_mut` with PKCS#7 padding: the message is
/// padded to whole blocks, with at least one byte, and each block is enciphered on
/// its own.
#[verifier::external_body]
fn encrypt_message(key: &[u8], message: &[u8]) -> (r: Vec<u8>)
    requires
        key@.len() == 16,
    ensures
        r@ == block_wise(key@, block_padded(message@)),
{
    let mut buffer = message.to_vec();
    buffer.resize(message.len() + 16, 0);
    let cipher = Aes128::new_from_slice(key).unwrap();
    cipher.encrypt_padded_mut::<Pkcs7>(&mut buffer, message.len()).unwrap().to_vec()
}

/// Wrapper of `Md5::digest`: sixteen bytes that depend on the data alone.
#[verifier::external_body]
fn md5(data: &[u8]) -> (r: Vec<u8>)
    ensures
        r@ == md5_digest(data@),
        r@.len() == 16,
{
    Md5::digest(data).to_vec()
}

/// The number in bytes, the first one highest.
pub open spec fn big_endian(b: Seq<u8>) -> nat
    decreases b.len(),
{
    if b.len() == 0 {
        0
    } else {
        big_endian(b.drop_last()) * 256 + b.last() as nat
    }
}

/// Wrapper of `BigUint::modpow`, with the numbers read by
/// `BigUint::from_bytes_be` and the result written by `to_bytes_be`: the power of
/// the base modulo the modulus.
#[verifier::external_body]
fn power_bytes(base: &[u8], exponent: u32, modulus: &[u8]) -> (r: Vec<u8>)
    requires
        big_endian(modulus@) > 0,
    ensures
        big_endian(r@) == vstd::arithmetic::power::pow(
            big_endian(base@) as int,
            exponent as nat,
        ) % (big_endian(modulus@) as int),
{
    BigUint::from_bytes_be(base)
        .modpow(&BigUint::from(exponent), &BigUint::from_bytes_be(modulus))
        .to_bytes_be()
}

/// Writes the last hexadecimal digits of the number in the first `n` bytes, two for
/// each of `pairs`.
fn hex_pairs(bytes: &[u8], n: usize, pairs: usize) -> (r: String)
    requires
        n <= bytes@.len(),
    ensures
        r@ == codec::hex_padded(big_endian(bytes@.take(n as int)), pairs as nat * 2),
    decreases pairs,
{
    if pairs == 0 {
        let s = String::new();
        assert(s@ =~= Seq::empty());
        return s;
    }
    let ghost number = big_endian(bytes@.take(n as int));
    let before: usize = if n > 0 {
        n - 1
    } else {
        0
    };
    let last: u8 = if n > 0 {
        bytes[n - 1]
    } else {
        0
    };
    proof {
        if n > 0 {
            assert(bytes@.take(n as int).drop_last() =~= bytes@.take(n - 1));
        }
        assert(number == big_endian(bytes@.take(before as int)) * 256 + last as nat);
        let front = big_endian(bytes@.take(before as int));
        assert(number / 16 / 16 == front && number % 16 == last % 16 && number / 16 % 16 == last
            as nat / 16);
        reveal_with_fuel(codec::hex_padded, 3);
    }
    let mut s = hex_pairs(bytes, before, pairs - 1);
    s.push(codec::hex_char(last / 16));
    s.push(codec::hex_char(last % 16));
    s
}

/// The modulus under which the service takes keys.
pub open spec fn weapi_modulus() -> Seq<u8> {
    seq![
        0xe0u8, 0xb5u8, 0x09u8, 0xf6u8, 0x25u8, 0x9du8, 0xf8u8, 0x64u8,
        0x2du8, 0xbcu8, 0x35u8, 0x66u8, 0x29u8, 0x01u8, 0x47u8, 0x7du8,
        0xf2u8, 0x26u8, 0x77u8, 0xecu8, 0x15u8, 0x2bu8, 0x5fu8, 0xf6u8,
        0x8au8, 0xceu8, 0x61u8, 0x5bu8, 0xb7u8, 0xb7u8, 0x25u8, 0x15u8,
        0x2bu8, 0x3au8, 0xb1u8, 0x7au8, 0x87u8, 0x6au8, 0xeau8, 0x8au8,
        0x5au8, 0xa7u8, 0x6du8, 0x2eu8, 0x41u8, 0x76u8, 0x29u8, 0xecu8,
        0x4eu8, 0xe3u8, 0x41u8, 0xf5u8, 0x61u8, 0x35u8, 0xfcu8, 0xcfu8,
        0x69u8, 0x52u8, 0x80u8, 0x10u8, 0x4eu8, 0x03u8, 0x12u8, 0xecu8,
        0xbdu8, 0xa9u8, 0x25u8, 0x57u8, 0xc9u8, 0x38u8, 0x70u8, 0x11u8,
        0x4au8, 0xf6u8, 0xc9u8, 0xd0u8, 0x5cu8, 0x4fu8, 0x7fu8, 0x0cu8,
        0x36u8, 0x85u8, 0xb7u8, 0xa4u8, 0x6bu8, 0xeeu8, 0x25u8, 0x59u8,
        0x32u8, 0x57u8, 0x5cu8, 0xceu8, 0x10u8, 0xb4u8, 0x24u8, 0xd8u8,
        0x13u8, 0xcfu8, 0xe4u8, 0x87u8, 0x5du8, 0x3eu8, 0x82u8, 0x04u8,
        0x7bu8, 0x97u8, 0xddu8, 0xefu8, 0x52u8, 0x74u8, 0x1du8, 0x54u8,
        0x6bu8, 0x8eu8, 0x28u8, 0x9du8, 0xc6u8, 0x93u8, 0x5bu8, 0x3eu8,
        0xceu8, 0x04u8, 0x62u8, 0xdbu8, 0x0au8, 0x22u8, 0xb8u8, 0xe7u8,
    ]
}

fn modulus() -> (r: Vec<u8>)
    ensures
        r@ == weapi_modulus(),
{
    let v: Vec<u8> = vec![
        0xe0, 0xb5, 0x09, 0xf6, 0x25, 0x9d, 0xf8, 0x64,
        0x2d, 0xbc, 0x35, 0x66, 0x29, 0x01, 0x47, 0x7d,
        0xf2, 0x26, 0x77, 0xec, 0x15, 0x2b, 0x5f, 0xf6,
        0x8a, 0xce, 0x61, 0x5b, 0xb7, 0xb7, 0x25, 0x15,
        0x2b, 0x3a, 0xb1, 0x7a, 0x87, 0x6a, 0xea, 0x8a,
        0x5a, 0xa7, 0x6d, 0x2e, 0x41, 0x76, 0x29, 0xec,
        0x4e, 0xe3, 0x41, 0xf5, 0x61, 0x35, 0xfc, 0xcf,
        0x69, 0x52, 0x80, 0x10, 0x4e, 0x03, 0x12, 0xec,
        0xbd, 0xa9, 0x25, 0x57, 0xc9, 0x38, 0x70, 0x11,
        0x4a, 0xf6, 0xc9, 0xd0, 0x5c, 0x4f, 0x7f, 0x0c,
        0x36, 0x85, 0xb7, 0xa4, 0x6b, 0xee, 0x25, 0x59,
        0x32, 0x57, 0x5c, 0xce, 0x10, 0xb4, 0x24, 0xd8,
        0x13, 0xcf, 0xe4, 0x87, 0x5d, 0x3e, 0x82, 0x04,
        0x7b, 0x97, 0xdd, 0xef, 0x52, 0x74, 0x1d, 0x54,
        0x6b, 0x8e, 0x28, 0x9d, 0xc6, 0x93, 0x5b, 0x3e,
        0xce, 0x04, 0x62, 0xdb, 0x0a, 0x22, 0xb8, 0xe7,
    ];
    assert(v@ =~= weapi_modulus());
    v
}

proof fn lemma_big_endian_positive(b: Seq<u8>)
    requires
        b.len() > 0,
        b[0] > 0,
    ensures
        big_endian(b) > 0,
    decreases b.len(),
{
    if b.len() > 1 {
        assert(b.drop_last()[0] == b[0]);
        lemma_big_endian_positive(b.drop_last());
    } else {
        assert(b.last() == b[0]);
    }
}

/// Two blocks, byte by byte, by exclusive or.
pub open spec fn mixed(a: Seq<u8>, b: Seq<u8>) -> Seq<u8> {
    Seq::new(16, |i: int| a[i] ^ b[i])
}

/// Blocks enciphered so that each depends on the one before it.
pub open spec fn chained(key: Seq<u8>, data: Seq<u8>, previous: Seq<u8>) -> Seq<u8>
    decreases data.len(),
{
    if data.len() < 16 {
        Seq::empty()
    } else {
        let block = aes_block(key, mixed(data.take(16), previous));
        block + chained(key, data.skip(16), block)
    }
}

/// The chained blocks of padded bytes, in Base64.
pub open spec fn cbc_text(key: Seq<u8>, data: Seq<u8>) -> Seq<char> {
    codec::base64_text(chained(key, block_padded(data), encode_utf8(WEAPI_IV@)))
}

proof fn lemma_key_lengths()
    ensures
        encode_utf8(WEAPI_IV@).len() == 16,
        encode_utf8(WEAPI_NONCE@).len() == 16,
        encode_utf8(EAPI_KEY@).len() == 16,
{
    reveal_strlit("0102030405060708");
    reveal_strlit("0CoJUm6Qyw8W8jud");
    reveal_strlit("e82ckenh8dichen8");
    is_ascii_chars_encode_utf8(WEAPI_IV@);
    is_ascii_chars_encode_utf8(WEAPI_NONCE@);
    is_ascii_chars_encode_utf8(EAPI_KEY@);
}

fn mix(a: &[u8], b: &[u8]) -> (r: Vec<u8>)
    requires
        a@.len() == 16,
        b@.len() == 16,
    ensures
        r@ == mixed(a@, b@),
{
    let mut out: Vec<u8> = Vec::new();
    let mut i: usize = 0;
    while i < 16
        invariant
            a@.len() == 16,
            b@.len() == 16,
            i <= 16,
            out@.len() == i,
            forall|j: int| 0 <= j < i ==> #[trigger] out@[j] == mixed(a@, b@)[j],
        decreases 16 - i,
    {
        out.push(a[i] ^ b[i]);
        i = i + 1;
    }
    assert(out@ =~= mixed(a@, b@));
    out
}

fn pad_block(input: &[u8]) -> (r: Vec<u8>)
    ensures
        r@ == block_padded(input@),
        r@.len() % 16 == 0,
{
    let n: usize = 16 - input.len() % 16;
    let mut out = slice_to_vec(input);
    let mut i: usize = 0;
    assert(out@ =~= input@ + Seq::new(0, |i: int| n as u8));
    while i < n
        invariant
            n <= 16,
            i <= n,
            out@ == input@ + Seq::new(i as nat, |i: int| n as u8),
        decreases n - i,
    {
        out.push(n as u8);
        i = i + 1;
        assert(out@ =~= input@ + Seq::new(i as nat, |i: int| n as u8));
    }
    out
}

/// Enciphers bytes in chained blocks and writes them in Base64.
pub fn aes_cbc_base64(input: &[u8], key: &[u8]) -> (r: Result<String, String>)
    requires
        key@.len() == 16,
    ensures
        r matches Ok(t) && t@ == cbc_text(key@, input@),
{
    proof {
        lemma_key_lengths();
    }
    let data = pad_block(input);
    let b = data.as_slice();
    let total: usize = b.len();
    let mut previous = slice_to_vec(WEAPI_IV.as_bytes());
    let ghost iv = previous@;
    let mut out: Vec<u8> = Vec::new();
    let mut i: usize = 0;
    proof {
        assert(b@.skip(0) =~= b@);
        assert(out@ + chained(key@, b@, iv) =~= chained(key@, b@, iv));
    }
    while i < total
        invariant
            key@.len() == 16,
            total == b@.len(),
            total % 16 == 0,
            i <= total,
            i % 16 == 0,
            previous@.len() == 16,
            out@ + chained(key@, b@.skip(i as int), previous@) == chained(key@, b@, iv),
        decreases total - i,
    {
        let ghost before = out@;
        let ghost rest = b@.skip(i as int);
        let block = slice_subrange(b, i, i + 16);
        let input_block = mix(block, previous.as_slice());
        let mut next = encrypt_block(key, input_block.as_slice());
        proof {
            assert(block@ =~= rest.take(16));
            assert(rest.skip(16) =~= b@.skip(i + 16));
            assert(before + (next@ + chained(key@, rest.skip(16), next@)) =~= (before + next@)
                + chained(key@, rest.skip(16), next@));
        }
        previous = slice_to_vec(next.as_slice());
        out.append(&mut next);
        i = i + 16;
    }
    proof {
        assert(out@ + chained(key@, b@.skip(i as int), previous@) =~= out@);
    }
    Ok(wire::base64(out.as_slice()))
}

// ---------------------------------------------------------------- identity

/// A letter or digit for a byte.
pub open spec fn alphanumeric(b: u8) -> u8 {
    let d = b as int % 62;
    (if d < 26 {
        97 + d
    } else if d < 52 {
        39 + d
    } else {
        d - 4
    }) as u8
}

/// The key of a request, of letters and digits.
pub open spec fn secret_of(nonce: nat, counter: nat) -> Seq<u8> {
    md5_digest(
        encode_utf8(text::decimal(nonce) + ":"@ + text::decimal(counter)),
    ).map_values(|b: u8| alphanumeric(b))
}

/// The key of a request, made from the time in milliseconds and a counter.
pub fn random_secret(nonce: u128, counter: u64) -> (r: Vec<u8>)
    ensures
        r@ == secret_of(nonce as nat, counter as nat),
        r@.len() == 16,
{
    let n = text::u128_text(nonce);
    let c = text::u64_text(counter);
    let seed = text::cat3(n.as_str(), ":", c.as_str());
    let digest = md5(seed.as_str().as_bytes());
    let mut out: Vec<u8> = Vec::new();
    let mut i: usize = 0;
    while i < 16
        invariant
            digest@.len() == 16,
            i <= 16,
            out@.len() == i,
            forall|j: int| 0 <= j < i ==> #[trigger] out@[j] == alphanumeric(digest@[j]),
        decreases 16 - i,
    {
        let d: u8 = digest[i] % 62;
        out.push(
            if d < 26 {
                97 + d
            } else if d < 52 {
                39 + d
            } else {
                d - 4
            },
        );
        i = i + 1;
    }
    assert(out@ =~= digest@.map_values(|b: u8| alphanumeric(b)));
    out
}

/// The digest of a text in uppercase hexadecimal.
pub open spec fn digest_upper(t: Seq<char>) -> Seq<char> {
    text::uppered(codec::hex_text(md5_digest(encode_utf8(t))))
}

/// The name under which this device is known.
pub open spec fn identity(nonce: nat, counter: nat) -> Seq<char> {
    let n = text::decimal(nonce);
    let c = text::decimal(counter);
    (digest_upper(n + ":"@ + c + ":0"@) + digest_upper(c + ":"@ + n + ":1"@)).take(52)
}

fn upper_digest(t: &str) -> (r: String)
    ensures
        r@ == digest_upper(t@),
        r@.len() == 32,
{
    let digest = md5(t.as_bytes());
    let hex = codec::hex_encode(digest.as_slice());
    text::to_upper(hex.as_str())
}

/// Names this device after the time in milliseconds and a counter.
pub fn device_id(nonce: u128, counter: u64) -> (r: String)
    ensures
        r@ == identity(nonce as nat, counter as nat),
        r@.len() == 52,
{
    let n = text::u128_text(nonce);
    let c = text::u64_text(counter);
    let mut a = text::cat3(n.as_str(), ":", c.as_str());
    a.append(":0");
    let mut b = text::cat3(c.as_str(), ":", n.as_str());
    b.append(":1");
    let first = upper_digest(a.as_str());
    let second = upper_digest(b.as_str());
    let both = text::cat(first.as_str(), second.as_str());
    let chars = text::chars_of(both.as_str());
    let kept = slice_subrange(chars.as_slice(), 0, 52);
    assert(kept@ =~= both@.take(52));
    text::string_of(kept)
}

// ---------------------------------------------------------------- requests

/// A request to the service.
pub struct ApiRequest {
    pub url: String,
    pub headers: Vec<(String, String)>,
    pub body: Vec<u8>,
}

pub open spec fn headers_view(h: Seq<(String, String)>) -> Seq<(Seq<char>, Seq<char>)> {
    h.map_values(|p: (String, String)| (p.0@, p.1@))
}

fn header(name: &str, value: &str) -> (r: (String, String))
    ensures
        r.0@ == name@,
        r.1@ == value@,
{
    (name.to_owned(), value.to_owned())
}

/// What tells the requests of one call apart.
pub open spec fn request_id(millis: nat, counter: nat) -> Seq<char> {
    text::decimal(millis) + "_"@ + text::padded_decimal(counter % 1000, 4)
}

fn name_request(millis: u128, counter: u64) -> (r: String)
    ensures
        r@ == request_id(millis as nat, counter as nat),
{
    let time = text::u128_text(millis);
    let n = text::padded_text(counter % 1000, 4);
    text::cat3(time.as_str(), "_", n.as_str())
}

/// What a request says of its sender.
pub open spec fn sender_view(device: Seq<char>, millis: nat, counter: nat, cookie: Seq<char>) -> JsonView {
    JsonView::Object(
        Map::<Seq<char>, JsonView>::empty().insert(
            "osver"@,
            JsonView::Str("Microsoft-Windows-10-Professional-build-19045-64bit"@),
        ).insert("deviceId"@, JsonView::Str(device)).insert("os"@, JsonView::Str("pc"@)).insert(
            "appver"@,
            JsonView::Str("3.1.17.204416"@),
        ).insert("versioncode"@, JsonView::Str("140"@)).insert(
            "mobilename"@,
            JsonView::Str(""@),
        ).insert("buildver"@, JsonView::Str(text::decimal(millis / 1000))).insert(
            "resolution"@,
            JsonView::Str("1920x1080"@),
        ).insert(
            "__csrf"@,
            JsonView::Str(value_in(text::parts(cookie, ';'), "__csrf"@)),
        ).insert("channel"@, JsonView::Str("netease"@)).insert(
            "requestId"@,
            JsonView::Str(request_id(millis, counter)),
        ),
    )
}

fn sender(device: &str, millis: u128, counter: u64, cookie: &str) -> (r: Json)
    ensures
        r@ == sender_view(device@, millis as nat, counter as nat, cookie@),
{
    let build = text::u128_text(millis / 1000);
    let id = name_request(millis, counter);
    let mut m = JsonObject::new();
    m.put("osver", Json::string("Microsoft-Windows-10-Professional-build-19045-64bit"));
    m.put("deviceId", Json::string(device));
    m.put("os", Json::string("pc"));
    m.put("appver", Json::string("3.1.17.204416"));
    m.put("versioncode", Json::string("140"));
    m.put("mobilename", Json::string(""));
    m.put("buildver", Json::Str(build));
    m.put("resolution", Json::string("1920x1080"));
    m.put("__csrf", Json::Str(cookie_value(cookie, "__csrf")));
    m.put("channel", Json::string("netease"));
    m.put("requestId", Json::Str(id));
    Json::Object(m)
}

/// The text of a request with its sender.
pub open spec fn eapi_text(
    data: Map<Seq<char>, JsonView>,
    cookie: Seq<char>,
    device: Seq<char>,
    millis: nat,
    counter: nat,
) -> Seq<char> {
    json::json_text(
        JsonView::Object(
            data.insert("header"@, sender_view(device, millis, counter, cookie)).insert(
                "e_r"@,
                JsonView::Bool(false),
            ),
        ),
    )
}

/// A text with its path and a digest over both.
pub open spec fn eapi_signed(path: Seq<char>, t: Seq<char>) -> Seq<char> {
    path + EAPI_DELIMITER@ + t + EAPI_DELIMITER@ + codec::hex_text(
        md5_digest(encode_utf8("nobody"@ + path + "use"@ + t + "md5forencrypt"@)),
    )
}

/// The cookies that name the device.
pub open spec fn identity_cookie(device: Seq<char>, millis: nat, counter: nat) -> Seq<char> {
    "osver=Microsoft-Windows-10-Professional-build-19045-64bit; deviceId="@ + device
        + "; os=pc; appver=3.1.17.204416; versioncode=140; buildver="@ + text::decimal(millis / 1000)
        + "; resolution=1920x1080; channel=netease; requestId="@ + request_id(millis, counter)
}

pub open spec fn cookie_header(cookie: Seq<char>, own: Seq<char>) -> Seq<char> {
    if text::trimmed(cookie).len() == 0 {
        own
    } else {
        text::trimmed(cookie) + "; "@ + own
    }
}

/// The body of an enciphered request.
pub open spec fn eapi_body(signed: Seq<char>) -> Seq<u8> {
    encode_utf8(
        "params="@ + text::uppered(
            codec::hex_text(
                block_wise(encode_utf8(EAPI_KEY@), block_padded(encode_utf8(signed))),
            ),
        ),
    )
}

pub open spec fn form_type() -> (Seq<char>, Seq<char>) {
    ("Content-Type"@, "application/x-www-form-urlencoded"@)
}

/// Enciphers the signed text of a request.
pub fn eapi_encipher(signed: &str) -> (r: Vec<u8>)
    ensures
        r@ == eapi_body(signed@),
{
    proof {
        lemma_key_lengths();
    }
    let bytes = encrypt_message(EAPI_KEY.as_bytes(), signed.as_bytes());
    let hex = codec::hex_encode(bytes.as_slice());
    let params = text::to_upper(hex.as_str());
    let body = text::cat("params=", params.as_str());
    slice_to_vec(body.as_str().as_bytes())
}

/// Signs the text of a request.
pub fn eapi_sign(path: &str, t: &str) -> (r: String)
    ensures
        r@ == eapi_signed(path@, t@),
{
    let mut seed = text::cat3("nobody", path, "use");
    seed.append(t);
    seed.append("md5forencrypt");
    let digest = md5(seed.as_str().as_bytes());
    let hex = codec::hex_encode(digest.as_slice());
    let mut signed = text::cat3(path, EAPI_DELIMITER, t);
    signed.append(EAPI_DELIMITER);
    signed.append(hex.as_str());
    signed
}

/// A request for data, signed and enciphered. `millis` is the time, `counter`
/// tells requests of one millisecond apart, `device` names this device.
pub fn eapi(path: &str, data: JsonObject, cookie: &str, device: &str, millis: u128, counter: u64) -> (r:
    ApiRequest)
    ensures
        r.url@ == API_BASE@ + "/eapi/"@ + text::without_prefix(path@, "/api/"@),
        headers_view(r.headers@) == seq![
            form_type(),
            ("User-Agent"@, USER_AGENT@),
            (
                "Cookie"@,
                cookie_header(
                    cookie@,
                    identity_cookie(device@, millis as nat, counter as nat),
                ),
            ),
        ],
        r.body@ == eapi_body(
            eapi_signed(
                path@,
                eapi_text(data@, cookie@, device@, millis as nat, counter as nat),
            ),
        ),
{
    let build = text::u128_text(millis / 1000);
    let id = name_request(millis, counter);
    let mut fields = data;
    fields.put("header", sender(device, millis, counter, cookie));
    fields.put("e_r", Json::Bool(false));
    let whole = Json::Object(fields);
    let t = json::write_json(&whole);
    let signed = eapi_sign(path, t.as_str());
    let body = eapi_encipher(signed.as_str());
    let mut own = text::cat3(
        "osver=Microsoft-Windows-10-Professional-build-19045-64bit; deviceId=",
        device,
        "; os=pc; appver=3.1.17.204416; versioncode=140; buildver=",
    );
    own.append(build.as_str());
    own.append("; resolution=1920x1080; channel=netease; requestId=");
    own.append(id.as_str());
    let given = text::trim(cookie);
    let cookies = if given.as_str().is_empty() {
        own
    } else {
        text::cat3(given.as_str(), "; ", own.as_str())
    };
    proof {
        reveal_strlit("/api/");
        assert(fields@ == data@.insert("header"@, sender_view(
            device@,
            millis as nat,
            counter as nat,
            cookie@,
        )).insert("e_r"@, JsonView::Bool(false)));
    }
    let rest = text::trim_prefix(path, "/api/");
    let url = text::cat3(API_BASE, "/eapi/", rest.as_str());
    let headers = vec![
        header("Content-Type", "application/x-www-form-urlencoded"),
        header("User-Agent", USER_AGENT),
        header("Cookie", cookies.as_str()),
    ];
    let request = ApiRequest { url, headers, body };
    assert(headers_view(request.headers@) =~= seq![
        form_type(),
        ("User-Agent"@, USER_AGENT@),
        (
            "Cookie"@,
            cookie_header(cookie@, identity_cookie(device@, millis as nat, counter as nat)),
        ),
    ]);
    request
}

/// The key of a request as only the service can read it.
pub open spec fn wrapped_key(secret: Seq<u8>) -> Seq<char> {
    codec::hex_padded(
        (vstd::arithmetic::power::pow(big_endian(secret.reverse()) as int, 65537)
            % (big_endian(weapi_modulus()) as int)) as nat,
        256,
    )
}

/// The text of a web request.
pub open spec fn weapi_text(data: Map<Seq<char>, JsonView>, cookie: Seq<char>) -> Seq<char> {
    json::json_text(
        JsonView::Object(
            data.insert(
                "csrf_token"@,
                JsonView::Str(value_in(text::parts(cookie, ';'), "__csrf"@)),
            ),
        ),
    )
}

/// The body of a web request: its text enciphered twice, and the key.
pub open spec fn weapi_body(t: Seq<char>, secret: Seq<u8>) -> Seq<u8> {
    let first = cbc_text(encode_utf8(WEAPI_NONCE@), encode_utf8(t));
    encode_utf8(
        "params="@ + escaped_bytes(encode_utf8(cbc_text(secret, encode_utf8(first))))
            + "&encSecKey="@ + wrapped_key(secret),
    )
}

fn reversed(b: &Vec<u8>) -> (r: Vec<u8>)
    ensures
        r@ == b@.reverse(),
{
    let mut out: Vec<u8> = Vec::new();
    let mut i: usize = b.len();
    while i > 0
        invariant
            i <= b@.len(),
            out@.len() == b@.len() - i,
            forall|j: int| 0 <= j < out@.len() ==> #[trigger] out@[j] == b@[b@.len() - 1 - j],
        decreases i,
    {
        i = i - 1;
        out.push(b[i]);
    }
    assert(out@ =~= b@.reverse());
    out
}

/// Enciphers the text of a web request under a key.
pub fn weapi_encipher(t: &str, secret: &Vec<u8>) -> (r: Result<Vec<u8>, String>)
    requires
        secret@.len() == 16,
    ensures
        r matches Ok(b) && b@ == weapi_body(t@, secret@),
{
    proof {
        lemma_key_lengths();
        lemma_big_endian_positive(weapi_modulus());
    }
    let first = match aes_cbc_base64(t.as_bytes(), WEAPI_NONCE.as_bytes()) {
        Ok(first) => first,
        Err(e) => {
            return Err(e);
        },
    };
    let params = match aes_cbc_base64(first.as_str().as_bytes(), secret.as_slice()) {
        Ok(params) => params,
        Err(e) => {
            return Err(e);
        },
    };
    let m = modulus();
    let backwards = reversed(secret);
    let power = power_bytes(backwards.as_slice(), 65537, m.as_slice());
    let key = hex_pairs(power.as_slice(), power.len(), m.len());
    assert(power@.take(power@.len() as int) =~= power@);
    let escaped_params = url_encode(params.as_str());
    let mut body = text::cat3("params=", escaped_params.as_str(), "&encSecKey=");
    body.append(key.as_str());
    Ok(slice_to_vec(body.as_str().as_bytes()))
}

/// A request to the web interface, enciphered under a key of its own.
pub fn weapi(path: &str, data: JsonObject, cookie: &str, secret: &Vec<u8>) -> (r: Result<
    ApiRequest,
    String,
>)
    requires
        secret@.len() == 16,
    ensures
        r matches Ok(q) && q.url@ == "https://music.163.com/weapi/"@ + text::without_prefix(
            path@,
            "/api/"@,
        ) && headers_view(q.headers@) == seq![
            form_type(),
            ("Referer"@, "https://music.163.com"@),
            ("User-Agent"@, WEB_USER_AGENT@),
            ("Cookie"@, cookie@),
        ] && q.body@ == weapi_body(weapi_text(data@, cookie@), secret@),
{
    let mut fields = data;
    fields.put("csrf_token", Json::Str(cookie_value(cookie, "__csrf")));
    let whole = Json::Object(fields);
    let t = json::write_json(&whole);
    let body = match weapi_encipher(t.as_str(), secret) {
        Ok(body) => body,
        Err(e) => {
            return Err(e);
        },
    };
    proof {
        reveal_strlit("/api/");
    }
    let rest = text::trim_prefix(path, "/api/");
    let url = text::cat("https://music.163.com/weapi/", rest.as_str());
    let headers = vec![
        header("Content-Type", "application/x-www-form-urlencoded"),
        header("Referer", "https://music.163.com"),
        header("User-Agent", WEB_USER_AGENT),
        header("Cookie", cookie),
    ];
    let request = ApiRequest { url, headers, body };
    assert(headers_view(request.headers@) =~= seq![
        form_type(),
        ("Referer"@, "https://music.163.com"@),
        ("User-Agent"@, WEB_USER_AGENT@),
        ("Cookie"@, cookie@),
    ]);
    Ok(request)
}

// ---------------------------------------------------------------- questions

pub open spec fn object() -> Map<Seq<char>, JsonView> {
    Map::empty()
}

/// What a search asks for.
pub fn search_data(query: &str) -> (r: JsonObject)
    ensures
        r@ == object().insert("s"@, JsonView::Str(query@)).insert("type"@, JsonView::UInt(1)).insert(
            "limit"@,
            JsonView::UInt(20),
        ).insert("offset"@, JsonView::UInt(0)),
        JsonView::Object(r@).str_at("s"@) == Some(query@),
        JsonView::Object(r@).u64_at("type"@) == Some(1nat),
        JsonView::Object(r@).u64_at("limit"@) == Some(20nat),
        JsonView::Object(r@).u64_at("offset"@) == Some(0nat),
{
    let mut m = JsonObject::new();
    m.put("s", Json::string(query));
    m.put("type", Json::UInt(1));
    m.put("limit", Json::UInt(20));
    m.put("offset", Json::UInt(0));
    proof {
        lemma_query_keys();
    }
    m
}

/// What the playlists of a user are asked for by.
pub fn playlists_data(uid: u64) -> (r: JsonObject)
    ensures
        r@ == object().insert("uid"@, JsonView::UInt(uid as nat)).insert(
            "limit"@,
            JsonView::UInt(100),
        ).insert("offset"@, JsonView::UInt(0)).insert("includeVideo"@, JsonView::Bool(true)),
        JsonView::Object(r@).u64_at("uid"@) == Some(uid as nat),
        JsonView::Object(r@).u64_at("limit"@) == Some(100nat),
{
    let mut m = JsonObject::new();
    m.put("uid", Json::UInt(uid));
    m.put("limit", Json::UInt(100));
    m.put("offset", Json::UInt(0));
    m.put("includeVideo", Json::Bool(true));
    proof {
        lemma_query_keys();
    }
    m
}

/// What the songs of a playlist are asked for by.
pub fn playlist_data(id: u64) -> (r: JsonObject)
    ensures
        r@ == object().insert("id"@, JsonView::UInt(id as nat)).insert("n"@, JsonView::UInt(1000)).insert(
            "s"@,
            JsonView::UInt(8),
        ),
        JsonView::Object(r@).u64_at("id"@) == Some(id as nat),
        JsonView::Object(r@).u64_at("n"@) == Some(1000nat),
{
    let mut m = JsonObject::new();
    m.put("id", Json::UInt(id));
    m.put("n", Json::UInt(1000));
    m.put("s", Json::UInt(8));
    proof {
        lemma_query_keys();
    }
    m
}

pub open spec fn song_url_view(id: u64, audio_bitrate: u32) -> Map<Seq<char>, JsonView> {
    object().insert("ids"@, JsonView::Str("[\""@ + text::decimal(id as nat) + "\"]"@)).insert(
        "br"@,
        JsonView::UInt(audio_bitrate as nat),
    )
}

/// What the address of a song is asked for by.
pub fn song_url_data(id: u64, audio_bitrate: u32) -> (r: JsonObject)
    ensures
        r@ == song_url_view(id, audio_bitrate),
{
    let n = text::u64_text(id);
    let ids = text::cat3("[\"", n.as_str(), "\"]");
    let mut m = JsonObject::new();
    m.put("ids", Json::Str(ids));
    m.put("br", Json::UInt(audio_bitrate as u64));
    m
}

pub open spec fn lyric_view(id: u64) -> Map<Seq<char>, JsonView> {
    object().insert("id"@, JsonView::UInt(id as nat)).insert("cp"@, JsonView::Bool(false)).insert(
        "tv"@,
        JsonView::UInt(0),
    ).insert("lv"@, JsonView::UInt(0)).insert("rv"@, JsonView::UInt(0)).insert(
        "kv"@,
        JsonView::UInt(0),
    ).insert("yv"@, JsonView::UInt(0)).insert("ytv"@, JsonView::UInt(0)).insert(
        "yrv"@,
        JsonView::UInt(0),
    )
}

/// What the lyrics of a song are asked for by.
pub fn lyric_data(id: u64) -> (r: JsonObject)
    ensures
        r@ == lyric_view(id),
{
    let mut m = JsonObject::new();
    m.put("id", Json::UInt(id));
    m.put("cp", Json::Bool(false));
    m.put("tv", Json::UInt(0));
    m.put("lv", Json::UInt(0));
    m.put("rv", Json::UInt(0));
    m.put("kv", Json::UInt(0));
    m.put("yv", Json::UInt(0));
    m.put("ytv", Json::UInt(0));
    m.put("yrv", Json::UInt(0));
    m
}

/// What a login code is asked for by.
pub fn qr_key_data() -> (r: JsonObject)
    ensures
        r@ == object().insert("type"@, JsonView::UInt(1)).insert(
            "noCheckToken"@,
            JsonView::Bool(true),
        ),
{
    let mut m = JsonObject::new();
    m.put("type", Json::UInt(1));
    m.put("noCheckToken", Json::Bool(true));
    m
}

/// What the state of a login code is asked for by.
pub fn qr_check_data(key: &str) -> (r: JsonObject)
    ensures
        r@ == object().insert("key"@, JsonView::Str(key@)).insert("type"@, JsonView::UInt(1)).insert(
            "noCheckToken"@,
            JsonView::Bool(true),
        ),
        JsonView::Object(r@).str_at("key"@) == Some(key@),
{
    let mut m = JsonObject::new();
    m.put("key", Json::string(key));
    m.put("type", Json::UInt(1));
    m.put("noCheckToken", Json::Bool(true));
    proof {
        lemma_query_keys();
    }
    m
}

// ---------------------------------------------------------------- answers

/// A song as the service describes it.
pub struct SongWire {
    pub id: u64,
    pub name: String,
    /// The names of its artists.
    pub ar: Vec<String>,
    pub al: AlbumWire,
    pub dt: u32,
}

pub struct AlbumWire {
    pub id: u64,
    pub name: String,
    pub pic_url: String,
}

/// The song that the service describes.
pub open spec fn song_of(w: SongWire) -> CloudSong {
    CloudSong {
        id: w.id,
        name: w.name,
        artists: w.ar,
        album: w.al.name,
        album_id: w.al.id,
        duration_ms: w.dt,
        cover_url: w.al.pic_url,
    }
}

pub fn cloud_song(song: SongWire) -> (r: CloudSong)
    ensures
        r == song_of(song),
{
    CloudSong {
        id: song.id,
        name: song.name,
        artists: song.ar,
        album: song.al.name,
        album_id: song.al.id,
        duration_ms: song.dt,
        cover_url: song.al.pic_url,
    }
}

fn cloud_songs(songs: Vec<SongWire>) -> (r: Vec<CloudSong>)
    ensures
        r@ == songs@.map_values(|w: SongWire| song_of(w)),
{
    let ghost all = songs@;
    let mut left = songs;
    let mut backwards: Vec<CloudSong> = Vec::new();
    while left.len() > 0
        invariant
            left@ == all.take(left@.len() as int),
            left@.len() <= all.len(),
            backwards@.len() == all.len() - left@.len(),
            forall|j: int|
                0 <= j < backwards@.len() ==> #[trigger] backwards@[j] == song_of(
                    all[all.len() - 1 - j],
                ),
        decreases left@.len(),
    {
        if let Some(song) = left.pop() {
            backwards.push(cloud_song(song));
        }
        assert(left@ =~= all.take(left@.len() as int));
    }
    let mut out: Vec<CloudSong> = Vec::new();
    while backwards.len() > 0
        invariant
            out@.len() + backwards@.len() == all.len(),
            forall|j: int|
                0 <= j < backwards@.len() ==> #[trigger] backwards@[j] == song_of(
                    all[all.len() - 1 - j],
                ),
            forall|j: int| 0 <= j < out@.len() ==> #[trigger] out@[j] == song_of(all[j]),
        decreases backwards@.len(),
    {
        if let Some(song) = backwards.pop() {
            out.push(song);
        }
    }
    assert(out@ =~= all.map_values(|w: SongWire| song_of(w)));
    out
}

/// A message that ends in the code of an answer.
fn with_code(message: &str, code: i32) -> (r: String)
    ensures
        r@ == message@ + text::signed_decimal(code as int),
{
    let n = text::i32_text(code);
    text::cat(message, n.as_str())
}

/// The songs that a search found.
pub fn search_result(code: i32, songs: Vec<SongWire>) -> (r: Result<Vec<CloudSong>, String>)
    ensures
        match r {
            Ok(found) => code == 200 && found@ == songs@.map_values(|w: SongWire| song_of(w)),
            Err(e) => code != 200 && e@ == "网易云搜索失败："@ + text::signed_decimal(code as int),
        },
{
    if code != 200 {
        return Err(with_code("网易云搜索失败：", code));
    }
    Ok(cloud_songs(songs))
}

/// Checks that there is a login before playlists are asked for.
pub fn check_login(cookie: &str) -> (r: Result<(), String>)
    ensures
        match r {
            Ok(_) => text::trimmed(cookie@).len() > 0,
            Err(e) => text::trimmed(cookie@).len() == 0 && e@
                == "请先扫码登录或填写网易云 Cookie。"@,
        },
{
    let kept = text::trim(cookie);
    if kept.as_str().is_empty() {
        Err("请先扫码登录或填写网易云 Cookie。".to_owned())
    } else {
        Ok(())
    }
}

/// The user that is logged in.
pub fn account_user(code: i32, user: Option<u64>) -> (r: Result<u64, String>)
    ensures
        match r {
            Ok(uid) => code == 200 && user == Some(uid),
            Err(e) => if code != 200 {
                e@ == "网易云账号请求失败："@ + text::signed_decimal(code as int)
            } else {
                user is None && e@ == "Cookie 已失效或未登录网易云账号。"@
            },
        },
{
    if code != 200 {
        return Err(with_code("网易云账号请求失败：", code));
    }
    match user {
        Some(uid) => Ok(uid),
        None => Err("Cookie 已失效或未登录网易云账号。".to_owned()),
    }
}

/// The playlists of the user.
pub fn user_playlists(code: i32, playlists: Vec<CloudPlaylist>) -> (r: Result<
    Vec<CloudPlaylist>,
    String,
>)
    ensures
        match r {
            Ok(p) => code == 200 && p == playlists,
            Err(e) => code != 200 && e@ == "个人歌单请求失败："@ + text::signed_decimal(code as int),
        },
{
    if code != 200 {
        return Err(with_code("个人歌单请求失败：", code));
    }
    Ok(playlists)
}

/// The name and the songs of a playlist.
pub fn playlist_tracks(code: i32, name: String, tracks: Vec<SongWire>) -> (r: Result<
    (String, Vec<CloudSong>),
    String,
>)
    ensures
        match r {
            Ok((n, songs)) => code == 200 && n == name && songs@ == tracks@.map_values(
                |w: SongWire| song_of(w),
            ),
            Err(e) => code != 200 && e@ == "歌单详情请求失败："@ + text::signed_decimal(code as int),
        },
{
    if code != 200 {
        return Err(with_code("歌单详情请求失败：", code));
    }
    Ok((name, cloud_songs(tracks)))
}

// ---------------------------------------------------------------- login

/// A login by code that is under way.
pub struct QrSession {
    pub key: String,
    pub cookies: Vec<String>,
}

impl Default for QrSession {
    fn default() -> (r: Self)
        ensures
            r.key@.len() == 0,
            r.cookies@.len() == 0,
    {
        QrSession { key: String::new(), cookies: Vec::new() }
    }
}

/// The cookie that names the device to the web interface.
pub open spec fn device_cookie(device: Seq<char>) -> Seq<char> {
    "sDeviceId="@ + device
}

pub fn initial_cookie(device: &str) -> (r: String)
    ensures
        r@ == device_cookie(device@),
{
    text::cat("sDeviceId=", device)
}

/// The key of a login code: the answer holds it in one of two places.
pub open spec fn login_key(unikey: Seq<char>, nested: Option<Seq<char>>) -> Seq<char> {
    if unikey.len() > 0 {
        unikey
    } else {
        text::or_else_text(nested, Seq::empty())
    }
}

/// What a login code leads to.
pub open spec fn login_url(key: Seq<char>, device: Seq<char>, millis: nat) -> Seq<char> {
    "http://music.163.com/login?codekey="@ + escaped_bytes(encode_utf8(key)) + "&chainId="@
        + escaped_bytes(
        encode_utf8("v1_"@ + device + "_web_login_"@ + text::decimal(millis)),
    )
}

/// Takes the answer to a request for a login code: opens the session, and gives
/// the key and the address that the code shows.
pub fn begin_qr_login(
    session: &mut QrSession,
    code: i32,
    unikey: String,
    nested: Option<String>,
    device: &str,
    cookies: Vec<String>,
    millis: u128,
) -> (r: Result<(String, String), String>)
    ensures
        ({
            let key = login_key(unikey@, text::opt_text(nested));
            match r {
                Ok((k, url)) => {
                    &&& code == 200
                    &&& key.len() > 0
                    &&& k@ == key
                    &&& url@ == login_url(key, device@, millis as nat)
                    &&& final(session).key@ == key
                    &&& text::texts(final(session).cookies@) == with_cookies(
                        seq![device_cookie(device@)],
                        text::texts(cookies@),
                    )
                },
                Err(e) => *final(session) == *old(session) && if code != 200 {
                    e@ == "二维码登录初始化失败："@ + text::signed_decimal(code as int)
                } else {
                    key.len() == 0 && e@ == "网易云未返回二维码 key"@
                },
            }
        }),
{
    if code != 200 {
        return Err(with_code("二维码登录初始化失败：", code));
    }
    let key = if unikey.as_str().is_empty() {
        match nested {
            Some(k) => k,
            None => unikey,
        }
    } else {
        unikey
    };
    assert(key@ =~= login_key(unikey@, text::opt_text(nested)));
    if key.as_str().is_empty() {
        return Err("网易云未返回二维码 key".to_owned());
    }
    let mut jar: Vec<String> = vec![initial_cookie(device)];
    assert(text::texts(jar@) =~= seq![device_cookie(device@)]);
    merge_cookies(&mut jar, cookies);
    let time = text::u128_text(millis);
    let mut chain = text::cat3("v1_", device, "_web_login_");
    chain.append(time.as_str());
    let escaped_key = url_encode(key.as_str());
    let escaped_chain = url_encode(chain.as_str());
    let mut url = text::cat3(
        "http://music.163.com/login?codekey=",
        escaped_key.as_str(),
        "&chainId=",
    );
    url.append(escaped_chain.as_str());
    session.key = key.clone();
    session.cookies = jar;
    Ok((key, url))
}

/// The cookies with which the state of a login code is asked for.
pub fn poll_cookie(session: &QrSession, key: &str) -> (r: Result<String, String>)
    ensures
        match r {
            Ok(c) => session.key@ == key@ && c@ == text::joined(
                text::texts(session.cookies@),
                "; "@,
            ),
            Err(e) => session.key@ != key@ && e@ == "二维码登录会话已失效，请重新生成"@,
        },
{
    if !str_eq(session.key.as_str(), key) {
        return Err("二维码登录会话已失效，请重新生成".to_owned());
    }
    Ok(text::join(&session.cookies, "; "))
}

/// The cookies of a session after an answer, and after a login that hands out
/// more of them.
pub open spec fn polled_jar(
    jar: Seq<Seq<char>>,
    cookies: Seq<Seq<char>>,
    code: int,
    cookie: Option<Seq<char>>,
) -> Seq<Seq<char>> {
    let jar = with_cookies(jar, cookies);
    match cookie {
        Some(c) => if code == 803 && c.len() > 0 {
            with_cookies(jar, cookies_in(text::parts(c, ';')))
        } else {
            jar
        },
        None => jar,
    }
}

/// Takes the answer on the state of a login code: nothing while it waits, the
/// cookies of the login once it is confirmed.
pub fn poll_qr_login(
    session: &mut QrSession,
    code: i32,
    cookie: Option<String>,
    cookies: Vec<String>,
) -> (r: Result<Option<String>, String>)
    ensures
        text::texts(final(session).cookies@) == polled_jar(
            text::texts(old(session).cookies@),
            text::texts(cookies@),
            code as int,
            text::opt_text(cookie),
        ),
        code != 803 ==> final(session).key == old(session).key,
        code == 803 ==> final(session).key@.len() == 0,
        ({
            let login = text::joined(text::texts(final(session).cookies@), "; "@);
            match r {
                Ok(Some(c)) => code == 803 && c@ == login && login.len() > 0,
                Ok(None) => code == 801 || code == 802,
                Err(e) => if code == 800 {
                    e@ == "二维码已过期，请重新生成"@
                } else if code == 803 {
                    login.len() == 0 && e@ == "登录成功但未返回 Cookie"@
                } else if code == 8821 {
                    e@ == "网易云触发了环境风险验证，请稍后重试或使用官方网页登录 Cookie"@
                } else {
                    code != 801 && code != 802 && e@ == "扫码登录失败："@ + text::signed_decimal(
                        code as int,
                    )
                },
            }
        }),
{
    merge_cookies(&mut session.cookies, cookies);
    if code == 800 {
        Err("二维码已过期，请重新生成".to_owned())
    } else if code == 801 || code == 802 {
        Ok(None)
    } else if code == 803 {
        if let Some(c) = cookie {
            if !c.as_str().is_empty() {
                let more = split_cookie_header(c.as_str());
                merge_cookies(&mut session.cookies, more);
            }
        }
        let login = text::join(&session.cookies, "; ");
        session.key = String::new();
        if login.as_str().is_empty() {
            Err("登录成功但未返回 Cookie".to_owned())
        } else {
            Ok(Some(login))
        }
    } else if code == 8821 {
        Err("网易云触发了环境风险验证，请稍后重试或使用官方网页登录 Cookie".to_owned())
    } else {
        Err(with_code("扫码登录失败：", code))
    }
}

// ---------------------------------------------------------------- transport

/// The cookies that some headers set.
pub open spec fn pairs_in(values: Seq<Seq<char>>) -> Seq<Seq<char>>
    decreases values.len(),
{
    if values.len() == 0 {
        Seq::empty()
    } else {
        let before = pairs_in(values.drop_last());
        let pair = pair_of(values.last());
        if pair.len() == 0 {
            before
        } else {
            before.push(pair)
        }
    }
}

/// The cookies that the headers of an answer set.
pub fn response_cookies(values: &Vec<String>) -> (r: Vec<String>)
    ensures
        text::texts(r@) == pairs_in(text::texts(values@)),
{
    let ghost all = text::texts(values@);
    let mut out: Vec<String> = Vec::new();
    let mut i: usize = 0;
    assert(text::texts(out@) =~= pairs_in(all.take(0)));
    while i < values.len()
        invariant
            i <= values@.len(),
            all == text::texts(values@),
            text::texts(out@) == pairs_in(all.take(i as int)),
        decreases values.len() - i,
    {
        proof {
            assert(all.take(i + 1).drop_last() =~= all.take(i as int));
            assert(all.take(i + 1).last() == values@[i as int]@);
        }
        let pair = cookie_pair(values[i].as_str());
        if !pair.as_str().is_empty() {
            let ghost before = out@;
            out.push(pair);
            assert(text::texts(out@) =~= text::texts(before).push(pair@));
        }
        i = i + 1;
    }
    assert(all.take(i as int) =~= all);
    out
}

fn check_status(message: &str, status: u16) -> (r: Result<(), String>)
    ensures
        match r {
            Ok(_) => 200 <= status < 300,
            Err(e) => !(200 <= status < 300) && e@ == message@ + text::decimal(status as nat),
        },
{
    if 200 <= status && status < 300 {
        Ok(())
    } else {
        let n = text::u64_text(status as u64);
        Err(text::cat(message, n.as_str()))
    }
}

/// Checks the status of an answer.
pub fn accept_response(status: u16) -> (r: Result<(), String>)
    ensures
        match r {
            Ok(_) => 200 <= status < 300,
            Err(e) => !(200 <= status < 300) && e@ == "网易云 HTTP "@ + text::decimal(status as nat),
        },
{
    check_status("网易云 HTTP ", status)
}

/// Checks the status of a download.
pub fn accept_download(status: u16) -> (r: Result<(), String>)
    ensures
        match r {
            Ok(_) => 200 <= status < 300,
            Err(e) => !(200 <= status < 300) && e@ == "下载 HTTP "@ + text::decimal(status as nat),
        },
{
    check_status("下载 HTTP ", status)
}

/// Counts a piece of a download; one that grows past the limit is given up.
pub fn count_download(total: u64, piece: usize, limit: u64) -> (r: Result<u64, String>)
    ensures
        ({
            let sum = if total + piece > u64::MAX {
                u64::MAX as int
            } else {
                total + piece
            };
            match r {
                Ok(n) => n == sum && n <= limit,
                Err(e) => sum > limit && e@ == "下载内容超过导入上限"@,
            }
        }),
        r is Ok <==> total + piece <= limit || limit == u64::MAX,
        r matches Ok(n) ==> total <= n <= limit && (total + piece <= u64::MAX ==> n - total == piece),
{
    let sum: u64 = if piece as u64 > u64::MAX - total {
        u64::MAX
    } else {
        total + piece as u64
    };
    if sum > limit {
        Err("下载内容超过导入上限".to_owned())
    } else {
        Ok(sum)
    }
}

/// Ends a download; an empty one is no file.
pub fn finish_download(total: u64) -> (r: Result<u64, String>)
    ensures
        match r {
            Ok(n) => n == total && total > 0,
            Err(e) => total == 0 && e@ == "下载内容为空"@,
        },
{
    if total == 0 {
        Err("下载内容为空".to_owned())
    } else {
        Ok(total)
    }
}

// ---------------------------------------------------------------- songs

/// Where a song can be loaded from.
pub struct SongAddress {
    pub url: Option<String>,
    pub proxy_url: String,
}

/// The address of a song: through the proxy where there is one.
pub open spec fn address_of(a: SongAddress) -> Seq<char> {
    if a.proxy_url@.len() > 0 {
        a.proxy_url@
    } else {
        text::or_else_text(text::opt_text(a.url), Seq::empty())
    }
}

/// The directory into which the files of a song are loaded.
pub fn download_directory(id: u64, nonce: u128) -> (r: String)
    ensures
        r@ == "media/netease-"@ + text::decimal(id as nat) + "-"@ + text::decimal(nonce as nat),
{
    let n = text::u64_text(id);
    let t = text::u128_text(nonce);
    let mut r = text::cat3("media/netease-", n.as_str(), "-");
    r.append(t.as_str());
    r
}

/// The address of the first song of an answer, or why there is none.
pub open spec fn first_address(code: i32, data: Seq<SongAddress>) -> Result<
    Seq<char>,
    Seq<char>,
> {
    if code != 200 {
        Err("歌曲地址请求失败："@ + text::signed_decimal(code as int))
    } else if data.len() == 0 {
        Err("网易云未返回歌曲地址"@)
    } else if address_of(data[0]).len() == 0 {
        Err("歌曲因版权或区域限制无法下载"@)
    } else {
        Ok(address_of(data[0]))
    }
}

pub fn song_address(code: i32, data: &Vec<SongAddress>) -> (r: Result<String, String>)
    ensures
        match r {
            Ok(u) => first_address(code, data@) == Ok::<Seq<char>, Seq<char>>(u@),
            Err(e) => first_address(code, data@) == Err::<Seq<char>, Seq<char>>(e@),
        },
{
    if code != 200 {
        return Err(with_code("歌曲地址请求失败：", code));
    }
    if data.len() == 0 {
        return Err("网易云未返回歌曲地址".to_owned());
    }
    let item = &data[0];
    let address = if item.proxy_url.as_str().is_empty() {
        let none = String::new();
        assert(none@ =~= Seq::empty());
        text::or_text(&item.url, none.as_str())
    } else {
        item.proxy_url.clone()
    };
    if address.as_str().is_empty() {
        return Err("歌曲因版权或区域限制无法下载".to_owned());
    }
    Ok(address)
}

/// The assets of the images of a song.
pub open spec fn artwork_assets(a: Option<PreparedArtwork>) -> Seq<ImportAsset> {
    match a {
        None => Seq::empty(),
        Some(a) => {
            let cover = seq![
                ImportAsset {
                    kind: "cover",
                    path: a.cover_path,
                    size: a.cover_size,
                    extension: Some("bin"),
                    format: Some(artwork::LVGL_V9_FORMAT),
                    width: Some(artwork::COVER_WIDTH),
                    height: Some(artwork::COVER_HEIGHT),
                },
            ];
            match (a.background_path, a.background_size) {
                (Some(path), Some(size)) => cover.push(
                    ImportAsset {
                        kind: "background",
                        path,
                        size,
                        extension: Some("bin"),
                        format: Some(artwork::LVGL_V9_FORMAT),
                        width: Some(artwork::BACKGROUND_WIDTH),
                        height: Some(artwork::BACKGROUND_HEIGHT),
                    },
                ),
                _ => cover,
            }
        },
    }
}

pub open spec fn audio_asset(path: String, size: u64) -> ImportAsset {
    ImportAsset {
        kind: "audio",
        path,
        size,
        extension: None,
        format: None,
        width: None,
        height: None,
    }
}

pub open spec fn lyrics_asset(path: String, size: u64, format: &'static str) -> ImportAsset {
    ImportAsset {
        kind: "lyrics",
        path,
        size,
        extension: None,
        format: Some(format),
        width: None,
        height: None,
    }
}

/// The assets of a song, in the order in which they are sent.
pub open spec fn song_assets(
    audio: ImportAsset,
    images: Option<PreparedArtwork>,
    lyrics: Option<ImportAsset>,
) -> Seq<ImportAsset> {
    let both = seq![audio] + artwork_assets(images);
    match lyrics {
        Some(l) => both.push(l),
        None => both,
    }
}

/// Puts the assets of a song together.
pub fn gather_assets(
    audio: ImportAsset,
    images: Option<PreparedArtwork>,
    lyrics: Option<ImportAsset>,
) -> (r: Vec<ImportAsset>)
    ensures
        r@ == song_assets(audio, images, lyrics),
{
    let mut assets: Vec<ImportAsset> = vec![audio];
    if let Some(a) = images {
        assets.push(ImportAsset::cover_bin(a.cover_path, a.cover_size));
        if let Some(path) = a.background_path {
            if let Some(size) = a.background_size {
                assets.push(ImportAsset::background_bin(path, size));
            }
        }
    }
    assert(assets@ =~= seq![audio] + artwork_assets(images));
    if let Some(l) = lyrics {
        assets.push(l);
    }
    assets
}

/// A song with all that is sent of it.
pub struct PreparedCloud {
    pub song: CloudSong,
    pub assets: Vec<ImportAsset>,
}

/// The assets of a song, with images of the fixed sizes and nothing empty, are
/// ones that can be imported.
pub proof fn gathered_assets_are_valid(
    audio: ImportAsset,
    images: Option<PreparedArtwork>,
    lyrics: Option<ImportAsset>,
)
    requires
        exists|path: String, size: u64| size > 0 && audio == #[trigger] audio_asset(path, size),
        images matches Some(a) ==> a.cover_size == artwork::COVER_BIN_BYTES && (
        a.background_size matches Some(n) ==> n == artwork::BACKGROUND_BIN_BYTES),
        lyrics matches Some(l) ==> l.size > 0 && (l == lyrics_asset(l.path, l.size, "lrc") || l
            == lyrics_asset(l.path, l.size, "json")),
    ensures
        import::assets_fault(song_assets(audio, images, lyrics)) is None,
{
    reveal_strlit("audio");
    reveal_strlit("cover");
    reveal_strlit("background");
    reveal_strlit("lyrics");
    reveal_strlit("lrc");
    reveal_strlit("json");
    reveal_strlit("lvgl-v9-argb8888-bin");
    assert("audio"@.len() == 5);
    assert("cover"@.len() == 5);
    assert("background"@.len() == 10);
    assert("lyrics"@.len() == 6);
    assert("audio"@[0] != "cover"@[0]);
    assert("lrc"@.len() == 3);
    assert("json"@.len() == 4);
    assert("lvgl-v9-argb8888-bin"@.len() == 20);
    let all = song_assets(audio, images, lyrics);
    assert(all[0] == audio);
    assert forall|i: int| 0 <= i < all.len() implies import::asset_fault(
        all.take(i),
        #[trigger] all[i],
    ) is None by {
        let before = all.take(i);
        assert forall|j: int| 0 <= j < before.len() implies (#[trigger] before[j]).kind@
            != all[i].kind@ by {
            assert(before[j] == all[j]);
        }
    }
    lemma_no_fault(all);
}

proof fn lemma_no_fault(all: Seq<ImportAsset>)
    requires
        forall|i: int|
            0 <= i < all.len() ==> import::asset_fault(all.take(i), #[trigger] all[i]) is None,
    ensures
        import::first_fault(all) is None,
    decreases all.len(),
{
    if all.len() > 0 {
        let rest = all.drop_last();
        assert forall|i: int| 0 <= i < rest.len() implies import::asset_fault(
            rest.take(i),
            #[trigger] rest[i],
        ) is None by {
            assert(rest.take(i) =~= all.take(i));
            assert(rest[i] == all[i]);
        }
        lemma_no_fault(rest);
        assert(all.take(all.len() - 1) =~= rest);
        assert(all[all.len() - 1] == all.last());
    }
}

// ---------------------------------------------------------------- laws

proof fn lemma_lyric_keys()
    ensures
        "id"@ != "cp"@,
        "id"@ != "tv"@,
        "id"@ != "lv"@,
        "id"@ != "rv"@,
        "id"@ != "kv"@,
        "id"@ != "yv"@,
        "id"@ != "ytv"@,
        "id"@ != "yrv"@,
        "cp"@ != "tv"@,
        "cp"@ != "lv"@,
        "cp"@ != "rv"@,
        "cp"@ != "kv"@,
        "cp"@ != "yv"@,
        "cp"@ != "ytv"@,
        "cp"@ != "yrv"@,
        "tv"@ != "lv"@,
        "tv"@ != "rv"@,
        "tv"@ != "kv"@,
        "tv"@ != "yv"@,
        "tv"@ != "ytv"@,
        "tv"@ != "yrv"@,
        "lv"@ != "rv"@,
        "lv"@ != "kv"@,
        "lv"@ != "yv"@,
        "lv"@ != "ytv"@,
        "lv"@ != "yrv"@,
        "rv"@ != "kv"@,
        "rv"@ != "yv"@,
        "rv"@ != "ytv"@,
        "rv"@ != "yrv"@,
        "kv"@ != "yv"@,
        "kv"@ != "ytv"@,
        "kv"@ != "yrv"@,
        "yv"@ != "ytv"@,
        "yv"@ != "yrv"@,
        "ytv"@ != "yrv"@,
{
    reveal_strlit("id");
    reveal_strlit("cp");
    reveal_strlit("tv");
    reveal_strlit("lv");
    reveal_strlit("rv");
    reveal_strlit("kv");
    reveal_strlit("yv");
    reveal_strlit("ytv");
    reveal_strlit("yrv");
    assert("id"@[0] != "cp"@[0]);
    assert("id"@[0] != "tv"@[0]);
    assert("id"@[0] != "lv"@[0]);
    assert("id"@[0] != "rv"@[0]);
    assert("id"@[0] != "kv"@[0]);
    assert("id"@[0] != "yv"@[0]);
    assert("id"@.len() != "ytv"@.len());
    assert("id"@.len() != "yrv"@.len());
    assert("cp"@[0] != "tv"@[0]);
    assert("cp"@[0] != "lv"@[0]);
    assert("cp"@[0] != "rv"@[0]);
    assert("cp"@[0] != "kv"@[0]);
    assert("cp"@[0] != "yv"@[0]);
    assert("cp"@.len() != "ytv"@.len());
    assert("cp"@.len() != "yrv"@.len());
    assert("tv"@[0] != "lv"@[0]);
    assert("tv"@[0] != "rv"@[0]);
    assert("tv"@[0] != "kv"@[0]);
    assert("tv"@[0] != "yv"@[0]);
    assert("tv"@.len() != "ytv"@.len());
    assert("tv"@.len() != "yrv"@.len());
    assert("lv"@[0] != "rv"@[0]);
    assert("lv"@[0] != "kv"@[0]);
    assert("lv"@[0] != "yv"@[0]);
    assert("lv"@.len() != "ytv"@.len());
    assert("lv"@.len() != "yrv"@.len());
    assert("rv"@[0] != "kv"@[0]);
    assert("rv"@[0] != "yv"@[0]);
    assert("rv"@.len() != "ytv"@.len());
    assert("rv"@.len() != "yrv"@.len());
    assert("kv"@[0] != "yv"@[0]);
    assert("kv"@.len() != "ytv"@.len());
    assert("kv"@.len() != "yrv"@.len());
    assert("yv"@.len() != "ytv"@.len());
    assert("yv"@.len() != "yrv"@.len());
    assert("ytv"@[1] != "yrv"@[1]);
}

proof fn lemma_sender_keys()
    ensures
        "osver"@ != "deviceId"@,
        "osver"@ != "os"@,
        "osver"@ != "appver"@,
        "osver"@ != "versioncode"@,
        "osver"@ != "mobilename"@,
        "osver"@ != "buildver"@,
        "osver"@ != "resolution"@,
        "osver"@ != "__csrf"@,
        "osver"@ != "channel"@,
        "osver"@ != "requestId"@,
        "deviceId"@ != "os"@,
        "deviceId"@ != "appver"@,
        "deviceId"@ != "versioncode"@,
        "deviceId"@ != "mobilename"@,
        "deviceId"@ != "buildver"@,
        "deviceId"@ != "resolution"@,
        "deviceId"@ != "__csrf"@,
        "deviceId"@ != "channel"@,
        "deviceId"@ != "requestId"@,
        "os"@ != "appver"@,
        "os"@ != "versioncode"@,
        "os"@ != "mobilename"@,
        "os"@ != "buildver"@,
        "os"@ != "resolution"@,
        "os"@ != "__csrf"@,
        "os"@ != "channel"@,
        "os"@ != "requestId"@,
        "appver"@ != "versioncode"@,
        "appver"@ != "mobilename"@,
        "appver"@ != "buildver"@,
        "appver"@ != "resolution"@,
        "appver"@ != "__csrf"@,
        "appver"@ != "channel"@,
        "appver"@ != "requestId"@,
        "versioncode"@ != "mobilename"@,
        "versioncode"@ != "buildver"@,
        "versioncode"@ != "resolution"@,
        "versioncode"@ != "__csrf"@,
        "versioncode"@ != "channel"@,
        "versioncode"@ != "requestId"@,
        "mobilename"@ != "buildver"@,
        "mobilename"@ != "resolution"@,
        "mobilename"@ != "__csrf"@,
        "mobilename"@ != "channel"@,
        "mobilename"@ != "requestId"@,
        "buildver"@ != "resolution"@,
        "buildver"@ != "__csrf"@,
        "buildver"@ != "channel"@,
        "buildver"@ != "requestId"@,
        "resolution"@ != "__csrf"@,
        "resolution"@ != "channel"@,
        "resolution"@ != "requestId"@,
        "__csrf"@ != "channel"@,
        "__csrf"@ != "requestId"@,
        "channel"@ != "requestId"@,
{
    reveal_strlit("osver");
    reveal_strlit("deviceId");
    reveal_strlit("os");
    reveal_strlit("appver");
    reveal_strlit("versioncode");
    reveal_strlit("mobilename");
    reveal_strlit("buildver");
    reveal_strlit("resolution");
    reveal_strlit("__csrf");
    reveal_strlit("channel");
    reveal_strlit("requestId");
    assert("osver"@.len() != "deviceId"@.len());
    assert("osver"@.len() != "os"@.len());
    assert("osver"@.len() != "appver"@.len());
    assert("osver"@.len() != "versioncode"@.len());
    assert("osver"@.len() != "mobilename"@.len());
    assert("osver"@.len() != "buildver"@.len());
    assert("osver"@.len() != "resolution"@.len());
    assert("osver"@.len() != "__csrf"@.len());
    assert("osver"@.len() != "channel"@.len());
    assert("osver"@.len() != "requestId"@.len());
    assert("deviceId"@.len() != "os"@.len());
    assert("deviceId"@.len() != "appver"@.len());
    assert("deviceId"@.len() != "versioncode"@.len());
    assert("deviceId"@.len() != "mobilename"@.len());
    assert("deviceId"@[0] != "buildver"@[0]);
    assert("deviceId"@.len() != "resolution"@.len());
    assert("deviceId"@.len() != "__csrf"@.len());
    assert("deviceId"@.len() != "channel"@.len());
    assert("deviceId"@.len() != "requestId"@.len());
    assert("os"@.len() != "appver"@.len());
    assert("os"@.len() != "versioncode"@.len());
    assert("os"@.len() != "mobilename"@.len());
    assert("os"@.len() != "buildver"@.len());
    assert("os"@.len() != "resolution"@.len());
    assert("os"@.len() != "__csrf"@.len());
    assert("os"@.len() != "channel"@.len());
    assert("os"@.len() != "requestId"@.len());
    assert("appver"@.len() != "versioncode"@.len());
    assert("appver"@.len() != "mobilename"@.len());
    assert("appver"@.len() != "buildver"@.len());
    assert("appver"@.len() != "resolution"@.len());
    assert("appver"@[0] != "__csrf"@[0]);
    assert("appver"@.len() != "channel"@.len());
    assert("appver"@.len() != "requestId"@.len());
    assert("versioncode"@.len() != "mobilename"@.len());
    assert("versioncode"@.len() != "buildver"@.len());
    assert("versioncode"@.len() != "resolution"@.len());
    assert("versioncode"@.len() != "__csrf"@.len());
    assert("versioncode"@.len() != "channel"@.len());
    assert("versioncode"@.len() != "requestId"@.len());
    assert("mobilename"@.len() != "buildver"@.len());
    assert("mobilename"@[0] != "resolution"@[0]);
    assert("mobilename"@.len() != "__csrf"@.len());
    assert("mobilename"@.len() != "channel"@.len());
    assert("mobilename"@.len() != "requestId"@.len());
    assert("buildver"@.len() != "resolution"@.len());
    assert("buildver"@.len() != "__csrf"@.len());
    assert("buildver"@.len() != "channel"@.len());
    assert("buildver"@.len() != "requestId"@.len());
    assert("resolution"@.len() != "__csrf"@.len());
    assert("resolution"@.len() != "channel"@.len());
    assert("resolution"@.len() != "requestId"@.len());
    assert("__csrf"@.len() != "channel"@.len());
    assert("__csrf"@.len() != "requestId"@.len());
    assert("channel"@.len() != "requestId"@.len());
}

proof fn lemma_url_keys()
    ensures
        "ids"@ != "br"@,
{
    reveal_strlit("ids");
    reveal_strlit("br");
    assert("ids"@.len() != "br"@.len());
}

proof fn lemma_body_keys()
    ensures
        "header"@ != "e_r"@,
{
    reveal_strlit("header");
    reveal_strlit("e_r");
    assert("header"@.len() != "e_r"@.len());
}

/// The bit rate that is asked for is one of the three that are offered: the wished
/// one where it is, and the lowest otherwise.
pub proof fn offered_rates_are_kept(v: u32)
    ensures
        offered_bitrate(v) == 128000 || offered_bitrate(v) == 192000 || offered_bitrate(v) == 320000,
        v == 128000 || v == 192000 || v == 320000 ==> offered_bitrate(v) == v,
        v != 192000 && v != 320000 ==> offered_bitrate(v) == 128000,
        offered_bitrate(offered_bitrate(v)) == offered_bitrate(v),
{
}

/// A cookie is what stands before the first semicolon, and its name what stands
/// before the first equals sign; attributes behind the semicolon do not count.
pub proof fn cookies_are_cut_at_their_marks(
    name: Seq<char>,
    value: Seq<char>,
    attributes: Seq<Seq<char>>,
)
    requires
        !name.contains('='),
        !name.contains(';'),
        !value.contains(';'),
        forall|i: int| 0 <= i < attributes.len() ==> !(#[trigger] attributes[i]).contains(';'),
    ensures
        cookie_name(name + seq!['='] + value) == Some(name),
        pair_of(text::joined(seq![name + seq!['='] + value] + attributes, seq![';']))
            == text::trimmed(name + seq!['='] + value),
{
    let pair = name + seq!['='] + value;
    text::cutting_finds_the_first(name, '=', value);
    assert(pair[name.len() as int] == '=');
    assert(!pair.contains(';')) by {
        if pair.contains(';') {
            let i = choose|i: int| 0 <= i < pair.len() && pair[i] == ';';
            if i < name.len() {
                assert(name[i] == ';');
            } else if i > name.len() {
                assert(value[i - name.len() - 1] == ';');
            }
        }
    }
    let all = seq![pair] + attributes;
    assert forall|i: int| 0 <= i < all.len() implies !(#[trigger] all[i]).contains(';') by {
        if i > 0 {
            assert(all[i] == attributes[i - 1]);
        }
    }
    text::splitting_undoes_joining(all, ';');
}

/// The cookies of a header are read one by one, without the white space around
/// them; attributes and items without a value are no cookies.
pub proof fn cookie_headers_are_read_in_order(a: Seq<Seq<char>>, b: Seq<Seq<char>>, item: Seq<char>)
    ensures
        cookies_in(a + b) == cookies_in(a) + cookies_in(b),
        !text::trimmed(item).contains('=') ==> cookies_in(seq![item]).len() == 0,
        text::trimmed(item).contains('=') && !is_attribute(text::head(text::trimmed(item), '='))
            ==> cookies_in(seq![item]) == seq![text::trimmed(item)],
        text::trimmed(item).contains('=') && is_attribute(text::head(text::trimmed(item), '='))
            ==> cookies_in(seq![item]).len() == 0,
    decreases b.len(),
{
    let one = seq![item];
    assert(one.drop_last() =~= Seq::empty());
    assert(one.last() == item);
    assert(cookies_in(Seq::<Seq<char>>::empty()) =~= Seq::empty());
    assert(Seq::<Seq<char>>::empty().push(text::trimmed(item)) =~= seq![text::trimmed(item)]);
    if b.len() == 0 {
        assert(a + b =~= a);
        assert(b =~= Seq::empty());
        assert(cookies_in(a) + cookies_in(b) =~= cookies_in(a));
    } else {
        cookie_headers_are_read_in_order(a, b.drop_last(), item);
        assert((a + b).drop_last() =~= a + b.drop_last());
        assert((a + b).last() == b.last());
        assert(cookies_in(a + b) =~= cookies_in(a) + cookies_in(b));
    }
}

/// Replacing a cookie takes away what had its name, and nothing else.
pub proof fn other_cookies_stay(jar: Seq<Seq<char>>, name: Seq<char>, c: Seq<char>)
    ensures
        without_name(jar, name).contains(c) <==> jar.contains(c) && cookie_name(c) != Some(name),
    decreases jar.len(),
{
    let now = without_name(jar, name);
    if jar.len() > 0 {
        let rest = jar.drop_last();
        let before = without_name(rest, name);
        other_cookies_stay(rest, name, c);
        if now.contains(c) {
            let i = choose|i: int| 0 <= i < now.len() && now[i] == c;
            if i < before.len() {
                assert(before[i] == c);
                let j = choose|j: int| 0 <= j < rest.len() && rest[j] == c;
                assert(jar[j] == c);
            } else {
                assert(jar[jar.len() - 1] == c);
            }
        }
        if jar.contains(c) && cookie_name(c) != Some(name) {
            let j = choose|j: int| 0 <= j < jar.len() && jar[j] == c;
            if j < rest.len() {
                assert(rest[j] == c);
                let i = choose|i: int| 0 <= i < before.len() && before[i] == c;
                assert(now[i] == c);
            } else {
                assert(now[before.len() as int] == c);
            }
        }
    }
}

/// Cookies that come later are taken in after those that came before.
pub proof fn jars_are_filled_in_order(jar: Seq<Seq<char>>, a: Seq<Seq<char>>, b: Seq<Seq<char>>)
    ensures
        with_cookies(jar, a + b) == with_cookies(with_cookies(jar, a), b),
    decreases b.len(),
{
    if b.len() == 0 {
        assert(a + b =~= a);
    } else {
        jars_are_filled_in_order(jar, a, b.drop_last());
        assert((a + b).drop_last() =~= a + b.drop_last());
        assert((a + b).last() == b.last());
    }
}

/// The value of a cookie is what stands behind its equals sign, whole; of several
/// with one name the first one counts.
pub proof fn cookie_values_are_found(
    before: Seq<Seq<char>>,
    name: Seq<char>,
    value: Seq<char>,
    behind: Seq<Seq<char>>,
)
    requires
        !name.contains('='),
        text::trimmed(name + seq!['='] + value) == name + seq!['='] + value,
        forall|i: int|
            0 <= i < before.len() ==> cookie_name(text::trimmed(#[trigger] before[i])) != Some(name),
    ensures
        value_in(before + seq![name + seq!['='] + value] + behind, name) == value,
    decreases before.len(),
{
    let item = name + seq!['='] + value;
    let all = before + seq![item] + behind;
    if before.len() == 0 {
        assert(all[0] == item);
        text::cutting_finds_the_first(name, '=', value);
        assert(item[name.len() as int] == '=');
    } else {
        assert(all[0] == before[0]);
        let rest = before.skip(1);
        assert forall|i: int| 0 <= i < rest.len() implies cookie_name(
            text::trimmed(#[trigger] rest[i]),
        ) != Some(name) by {
            assert(rest[i] == before[i + 1]);
        }
        cookie_values_are_found(rest, name, value, behind);
        assert(all.skip(1) =~= rest + seq![item] + behind);
    }
}

/// A cookie that is not there has an empty value.
pub proof fn absent_cookies_are_empty(items: Seq<Seq<char>>, name: Seq<char>)
    requires
        forall|i: int|
            0 <= i < items.len() ==> cookie_name(text::trimmed(#[trigger] items[i])) != Some(name),
    ensures
        value_in(items, name).len() == 0,
    decreases items.len(),
{
    if items.len() > 0 {
        assert(cookie_name(text::trimmed(items[0])) != Some(name));
        let rest = items.skip(1);
        assert forall|i: int| 0 <= i < rest.len() implies cookie_name(
            text::trimmed(#[trigger] rest[i]),
        ) != Some(name) by {
            assert(rest[i] == items[i + 1]);
        }
        absent_cookies_are_empty(rest, name);
    }
}

/// The byte that an escape stands for.
pub open spec fn unescaped(high: char, low: char) -> int {
    (if high <= '9' {
        high as int - '0' as int
    } else {
        high as int - 'A' as int + 10
    }) * 16 + if low <= '9' {
        low as int - '0' as int
    } else {
        low as int - 'A' as int + 10
    }
}

/// Letters, digits and four marks stand for themselves in a URL; every other byte
/// is a percent sign and two hexadecimal digits that spell it.
pub proof fn escapes_spell_their_bytes(b: u8)
    ensures
        is_plain(b) <==> {
            let c = b as char;
            ||| '0' <= c <= '9'
            ||| 'A' <= c <= 'Z'
            ||| 'a' <= c <= 'z'
            ||| c == '-' || c == '_' || c == '.' || c == '~'
        },
        is_plain(b) ==> escaped(b) == seq![b as char],
        !is_plain(b) ==> escaped(b).len() == 3 && escaped(b)[0] == '%' && unescaped(
            escaped(b)[1],
            escaped(b)[2],
        ) == b,
{
}

/// What is escaped is escaped byte by byte, in order.
pub proof fn escaping_goes_byte_by_byte(a: Seq<u8>, b: Seq<u8>)
    ensures
        escaped_bytes(a + b) == escaped_bytes(a) + escaped_bytes(b),
    decreases b.len(),
{
    if b.len() == 0 {
        assert(a + b =~= a);
        assert(escaped_bytes(a) + escaped_bytes(b) =~= escaped_bytes(a));
    } else {
        escaping_goes_byte_by_byte(a, b.drop_last());
        assert((a + b).drop_last() =~= a + b.drop_last());
        assert((a + b).last() == b.last());
        assert(escaped_bytes(a) + (escaped_bytes(b.drop_last()) + escaped(b.last()))
            =~= escaped_bytes(a + b.drop_last()) + escaped(b.last()));
    }
}

/// Padding fills up whole blocks, with at least one byte, and each byte of it says
/// how many there are: so it can be told from the data, and taken away.
pub proof fn padding_can_be_taken_away(data: Seq<u8>)
    ensures
        ({
            let p = block_padded(data);
            let n = p.last() as int;
            &&& p.len() % 16 == 0
            &&& 1 <= n <= 16
            &&& p.len() == data.len() + n
            &&& p.take(p.len() - n) == data
            &&& forall|i: int| data.len() <= i < p.len() ==> #[trigger] p[i] == n
        }),
{
    let p = block_padded(data);
    let n = 16 - data.len() as int % 16;
    assert(p.last() == n as u8);
    assert(p.take(p.len() - n) =~= data);
}

/// Blocks are enciphered one by one, each for itself.
pub proof fn blocks_are_enciphered_one_by_one(key: Seq<u8>, a: Seq<u8>, b: Seq<u8>)
    requires
        a.len() % 16 == 0,
    ensures
        block_wise(key, a + b) == block_wise(key, a) + block_wise(key, b),
        a.len() == 16 ==> block_wise(key, a) == aes_block(key, a),
    decreases a.len(),
{
    if a.len() == 0 {
        assert(a + b =~= b);
        assert(block_wise(key, a) + block_wise(key, b) =~= block_wise(key, b));
    } else {
        blocks_are_enciphered_one_by_one(key, a.skip(16), b);
        assert((a + b).take(16) =~= a.take(16));
        assert((a + b).skip(16) =~= a.skip(16) + b);
        assert(aes_block(key, a.take(16)) + (block_wise(key, a.skip(16)) + block_wise(key, b))
            =~= block_wise(key, a) + block_wise(key, b));
        if a.len() == 16 {
            assert(a.take(16) =~= a);
            assert(block_wise(key, a.skip(16)) =~= Seq::empty());
            assert(aes_block(key, a) + Seq::<u8>::empty() =~= aes_block(key, a));
        }
    }
}

/// Mixing a block in twice leaves nothing of it.
pub proof fn mixing_undoes_itself(a: Seq<u8>, b: Seq<u8>)
    requires
        a.len() == 16,
        b.len() == 16,
    ensures
        mixed(mixed(a, b), b) == a,
        mixed(a, b) == mixed(b, a),
{
    assert forall|i: int| 0 <= i < 16 implies mixed(mixed(a, b), b)[i] == a[i] && mixed(a, b)[i]
        == mixed(b, a)[i] by {
        let x = a[i];
        let y = b[i];
        assert((x ^ y) ^ y == x && x ^ y == y ^ x) by (bit_vector);
    }
    assert(mixed(mixed(a, b), b) =~= a);
    assert(mixed(a, b) =~= mixed(b, a));
}

/// In a chain each block is mixed with the enciphered one before it: the first with
/// what the chain starts from, and the rest as if they started from the first.
pub proof fn blocks_are_chained(key: Seq<u8>, first: Seq<u8>, rest: Seq<u8>, start: Seq<u8>)
    requires
        first.len() == 16,
    ensures
        ({
            let c = aes_block(key, mixed(first, start));
            &&& chained(key, first + rest, start) == c + chained(key, rest, c)
            &&& chained(key, first, start) == c
        }),
{
    let c = aes_block(key, mixed(first, start));
    assert((first + rest).take(16) =~= first);
    assert((first + rest).skip(16) =~= rest);
    assert(first.take(16) =~= first);
    assert(chained(key, first.skip(16), c) =~= Seq::empty());
    assert(c + Seq::<u8>::empty() =~= c);
}

/// The first byte of a number counts most.
pub proof fn first_bytes_count_most(a: Seq<u8>, b: u8)
    ensures
        big_endian(a.push(b)) == big_endian(a) * 256 + b,
        big_endian(seq![0u8] + a) == big_endian(a),
    decreases a.len(),
{
    assert(a.push(b).drop_last() =~= a);
    let z = seq![0u8] + a;
    if a.len() == 0 {
        assert(z.drop_last() =~= Seq::empty());
        assert(big_endian(Seq::<u8>::empty()) == 0);
        assert(z.last() == 0);
    } else {
        first_bytes_count_most(a.drop_last(), b);
        assert(z.drop_last() =~= seq![0u8] + a.drop_last());
        assert(z.last() == a.last());
    }
}

/// The characters of a secret are letters and digits, and bytes that differ by less
/// than there are characters give different ones.
pub proof fn secrets_are_letters_and_digits(a: u8, b: u8)
    ensures
        ({
            let c = alphanumeric(a) as char;
            ||| 'a' <= c <= 'z'
            ||| 'A' <= c <= 'Z'
            ||| '0' <= c <= '9'
        }),
        alphanumeric(a) == alphanumeric(b) <==> a as int % 62 == b as int % 62,
        wrapped_key(seq![a]).len() == 256,
{
    codec::padded_numbers_are_told_apart(0, 0, 256);
    let n = (vstd::arithmetic::power::pow(big_endian(seq![a].reverse()) as int, 65537) % (big_endian(
        weapi_modulus(),
    ) as int)) as nat;
    codec::padded_numbers_are_told_apart(n, n, 256);
}

/// A request is named by its time and a counter of four digits.
pub proof fn requests_are_named_by_time(millis: nat, counter: nat)
    ensures
        ({
            let id = request_id(millis, counter);
            let n = text::decimal(millis).len() as int;
            &&& id.take(n) == text::decimal(millis)
            &&& id[n] == '_'
            &&& id.skip(n + 1).len() == 4
            &&& text::digits_value(id.skip(n + 1)) == counter % 1000
        }),
{
    let id = request_id(millis, counter);
    let d = text::decimal(millis);
    let n = d.len() as int;
    let p = text::padded_decimal(counter % 1000, 4);
    reveal_strlit("_");
    text::padding_keeps_the_number(counter % 1000, 4);
    lemma_short_decimal(counter % 1000);
    assert(id.take(n) =~= d);
    assert(id.skip(n + 1) =~= p);
}

proof fn lemma_short_decimal(n: nat)
    requires
        n < 1000,
    ensures
        text::decimal(n).len() <= 3,
{
    reveal_with_fuel(text::decimal, 4);
}

/// What is sent to the service names the sender under its fields: the device, the
/// time, the request and the token in the cookie.
pub proof fn senders_name_themselves(
    device: Seq<char>,
    millis: nat,
    counter: nat,
    cookie: Seq<char>,
)
    ensures
        ({
            let v = sender_view(device, millis, counter, cookie);
            &&& v.str_at("deviceId"@) == Some(device)
            &&& v.str_at("buildver"@) == Some(text::decimal(millis / 1000))
            &&& v.str_at("requestId"@) == Some(request_id(millis, counter))
            &&& v.str_at("__csrf"@) == Some(value_in(text::parts(cookie, ';'), "__csrf"@))
            &&& v.str_at("os"@) == Some("pc"@)
        }),
{
    lemma_sender_keys();
}

/// A song is asked for by its number: in a list of one for its address, with the
/// bit rate, and by itself for its lyrics.
pub proof fn songs_are_asked_for_by_number(id: u64, rate: u32)
    ensures
        JsonView::Object(song_url_view(id, rate)).u64_at("br"@) == Some(rate as nat),
        JsonView::Object(song_url_view(id, rate)).str_at("ids"@) == Some(
            "[\""@ + text::decimal(id as nat) + "\"]"@,
        ),
        JsonView::Object(lyric_view(id)).u64_at("id"@) == Some(id as nat),
{
    lemma_url_keys();
    lemma_lyric_keys();
}

/// Cookies that the service set go out again, before those that name the sender.
pub proof fn cookies_go_out_together(cookie: Seq<char>, own: Seq<char>)
    ensures
        text::trimmed(cookie).len() == 0 ==> cookie_header(cookie, own) == own,
        text::trimmed(cookie).len() > 0 ==> {
            let h = cookie_header(cookie, own);
            let n = text::trimmed(cookie).len() as int;
            &&& h.take(n) == text::trimmed(cookie)
            &&& h.skip(n + 2) == own
            &&& h[n] == ';'
        },
{
    reveal_strlit("; ");
    let n = text::trimmed(cookie).len() as int;
    if n > 0 {
        let h = cookie_header(cookie, own);
        assert(h.take(n) =~= text::trimmed(cookie));
        assert(h.skip(n + 2) =~= own);
    }
}

/// A song keeps its number, its names, its length and its picture as the service
/// gives them.
pub proof fn songs_are_taken_over(w: SongWire)
    ensures
        song_of(w).id == w.id,
        song_of(w).name == w.name,
        song_of(w).artists == w.ar,
        song_of(w).album == w.al.name,
        song_of(w).album_id == w.al.id,
        song_of(w).duration_ms == w.dt,
        song_of(w).cover_url == w.al.pic_url,
{
}

/// A code to be scanned leads to the login page with its key, escaped.
pub proof fn login_codes_carry_the_key(key: Seq<char>, device: Seq<char>, millis: nat)
    ensures
        text::begins_with(
            login_url(key, device, millis),
            "http://music.163.com/login?codekey="@ + escaped_bytes(encode_utf8(key)) + "&chainId="@,
        ),
        key.len() > 0 ==> login_key(key, None) == key,
        login_key(Seq::empty(), Some(key)) == key,
        login_key(Seq::empty(), None).len() == 0,
{
    let p = "http://music.163.com/login?codekey="@ + escaped_bytes(encode_utf8(key)) + "&chainId="@;
    assert(login_url(key, device, millis).subrange(0, p.len() as int) =~= p);
}

/// While a code waits to be scanned only the cookies of the answers are taken in;
/// once it was confirmed, those of the login too.
pub proof fn confirmed_logins_bring_cookies(
    jar: Seq<Seq<char>>,
    cookies: Seq<Seq<char>>,
    code: int,
    c: Seq<char>,
)
    ensures
        code != 803 ==> polled_jar(jar, cookies, code, Some(c)) == with_cookies(jar, cookies),
        polled_jar(jar, cookies, code, None) == with_cookies(jar, cookies),
        c.len() > 0 ==> polled_jar(jar, cookies, 803, Some(c)) == with_cookies(
            jar,
            cookies + cookies_in(text::parts(c, ';')),
        ),
{
    jars_are_filled_in_order(jar, cookies, cookies_in(text::parts(c, ';')));
}

/// The cookies of an answer are its pairs, in order, with empty ones left out.
pub proof fn answers_set_cookies_in_order(a: Seq<Seq<char>>, b: Seq<Seq<char>>, v: Seq<char>)
    ensures
        pairs_in(a + b) == pairs_in(a) + pairs_in(b),
        pair_of(v).len() > 0 ==> pairs_in(seq![v]) == seq![pair_of(v)],
        pair_of(v).len() == 0 ==> pairs_in(seq![v]).len() == 0,
    decreases b.len(),
{
    let one = seq![v];
    assert(one.drop_last() =~= Seq::empty());
    assert(one.last() == v);
    assert(pairs_in(Seq::<Seq<char>>::empty()) =~= Seq::empty());
    assert(Seq::<Seq<char>>::empty().push(pair_of(v)) =~= seq![pair_of(v)]);
    if b.len() == 0 {
        assert(a + b =~= a);
        assert(b =~= Seq::empty());
        assert(pairs_in(a) + pairs_in(b) =~= pairs_in(a));
    } else {
        answers_set_cookies_in_order(a, b.drop_last(), v);
        assert((a + b).drop_last() =~= a + b.drop_last());
        assert((a + b).last() == b.last());
        assert(pairs_in(a + b) =~= pairs_in(a) + pairs_in(b));
    }
}

/// A song is loaded from the first address that the service gives: through the
/// proxy where there is one, and not at all where both are empty.
pub proof fn proxies_go_before_addresses(code: i32, data: Seq<SongAddress>)
    ensures
        first_address(code, data) is Ok ==> code == 200 && data.len() > 0,
        code == 200 && data.len() > 0 && data[0].proxy_url@.len() > 0 ==> first_address(code, data)
            == Ok::<Seq<char>, Seq<char>>(data[0].proxy_url@),
        code == 200 && data.len() > 0 && data[0].proxy_url@.len() == 0 && data[0].url is Some
            && data[0].url->0@.len() > 0 ==> first_address(code, data) == Ok::<
            Seq<char>,
            Seq<char>,
        >(data[0].url->0@),
        code == 200 && data.len() > 0 && data[0].proxy_url@.len() == 0 && data[0].url is None
            ==> first_address(code, data) is Err,
{
}

/// The assets of a song begin with the audio and end with the lyrics where there are
/// any; between them stand the cover and, where there is one, the background.
pub proof fn assets_stand_in_their_order(
    audio: ImportAsset,
    images: Option<PreparedArtwork>,
    lyrics: Option<ImportAsset>,
)
    ensures
        ({
            let s = song_assets(audio, images, lyrics);
            &&& s[0] == audio
            &&& lyrics matches Some(l) ==> s.last() == l
            &&& s.len() == 1 + artwork_assets(images).len() + if lyrics is Some {
                1int
            } else {
                0
            }
            &&& images is None ==> artwork_assets(images).len() == 0
            &&& images matches Some(a) ==> {
                &&& s[1].kind@ == "cover"@
                &&& s[1].path == a.cover_path
                &&& s[1].size == a.cover_size
                &&& a.background_path is Some && a.background_size is Some ==> {
                    &&& s[2].kind@ == "background"@
                    &&& Some(s[2].path) == a.background_path
                    &&& Some(s[2].size) == a.background_size
                }
                &&& a.background_path is None ==> artwork_assets(images).len() == 1
            }
        }),
{
}

/// What is sent enciphered can be read by whoever has the key: behind the name of
/// the field stand the enciphered blocks of the padded text, in hexadecimal.
pub proof fn enciphered_requests_can_be_read(signed: Seq<char>)
    ensures
        ({
            let form = "params="@ + text::uppered(
                codec::hex_text(
                    block_wise(encode_utf8(EAPI_KEY@), block_padded(encode_utf8(signed))),
                ),
            );
            &&& eapi_body(signed) == encode_utf8(form)
            &&& codec::hex_bytes(text::lowered(form.skip("params="@.len() as int))) == block_wise(
                encode_utf8(EAPI_KEY@),
                block_padded(encode_utf8(signed)),
            )
        }),
{
    let data = block_wise(encode_utf8(EAPI_KEY@), block_padded(encode_utf8(signed)));
    let hex = codec::hex_text(data);
    let form = "params="@ + text::uppered(hex);
    assert(form.skip("params="@.len() as int) =~= text::uppered(hex));
    assert forall|i: int| 0 <= i < hex.len() implies text::lower_char(
        text::upper_char(#[trigger] hex[i]),
    ) == hex[i] by {
        codec::hex_digits_are_lowercase(data, i / 2);
        assert(i == 2 * (i / 2) || i == 2 * (i / 2) + 1);
    }
    assert(text::lowered(text::uppered(hex)) =~= hex);
    codec::hex_round_trip(data);
}

/// What is signed begins with the path and ends with the digest of the path and the
/// text; the text stands between them, whole.
pub proof fn signed_texts_stand_between_their_marks(path: Seq<char>, t: Seq<char>)
    ensures
        ({
            let s = eapi_signed(path, t);
            let n = path.len() as int;
            let d = EAPI_DELIMITER@.len() as int;
            &&& s.take(n) == path
            &&& s.subrange(n, n + d) == EAPI_DELIMITER@
            &&& s.subrange(n + d, n + d + t.len()) == t
            &&& s.subrange(n + d + t.len(), n + d + t.len() + d) == EAPI_DELIMITER@
            &&& codec::hex_bytes(s.skip(n + d + t.len() + d)) == md5_digest(
                encode_utf8("nobody"@ + path + "use"@ + t + "md5forencrypt"@),
            )
        }),
{
    let s = eapi_signed(path, t);
    let n = path.len() as int;
    let d = EAPI_DELIMITER@.len() as int;
    let digest = md5_digest(encode_utf8("nobody"@ + path + "use"@ + t + "md5forencrypt"@));
    assert(s.take(n) =~= path);
    assert(s.subrange(n, n + d) =~= EAPI_DELIMITER@);
    assert(s.subrange(n + d, n + d + t.len()) =~= t);
    assert(s.subrange(n + d + t.len(), n + d + t.len() + d) =~= EAPI_DELIMITER@);
    assert(s.skip(n + d + t.len() + d) =~= codec::hex_text(digest));
    codec::hex_round_trip(digest);
}

/// What is asked for is sent with all its fields, beside the sender.
pub proof fn requests_keep_their_fields(
    data: Map<Seq<char>, JsonView>,
    cookie: Seq<char>,
    device: Seq<char>,
    millis: nat,
    counter: nat,
    key: Seq<char>,
)
    ensures
        exists|v: JsonView|
            {
                &&& eapi_text(data, cookie, device, millis, counter) == #[trigger] json::json_text(v)
                &&& v.get("header"@) == Some(sender_view(device, millis, counter, cookie))
                &&& v.bool_at("e_r"@) == Some(false)
                &&& key != "header"@ && key != "e_r"@ ==> v.get(key) == JsonView::Object(data).get(key)
            },
        exists|v: JsonView|
            {
                &&& weapi_text(data, cookie) == #[trigger] json::json_text(v)
                &&& v.str_at("csrf_token"@) == Some(value_in(text::parts(cookie, ';'), "__csrf"@))
                &&& key != "csrf_token"@ ==> v.get(key) == JsonView::Object(data).get(key)
            },
{
    lemma_body_keys();
    let v = JsonView::Object(
        data.insert("header"@, sender_view(device, millis, counter, cookie)).insert(
            "e_r"@,
            JsonView::Bool(false),
        ),
    );
    assert(eapi_text(data, cookie, device, millis, counter) == json::json_text(v));
    let w = JsonView::Object(
        data.insert(
            "csrf_token"@,
            JsonView::Str(value_in(text::parts(cookie, ';'), "__csrf"@)),
        ),
    );
    assert(weapi_text(data, cookie) == json::json_text(w));
}

/// A text is enciphered as a chain from the fixed start, padded, and sent in base64.
pub proof fn chains_can_be_read(key: Seq<u8>, data: Seq<u8>)
    ensures
        codec::base64_bytes(cbc_text(key, data)) == chained(
            key,
            block_padded(data),
            encode_utf8(WEAPI_IV@),
        ),
{
    codec::base64_round_trip(chained(key, block_padded(data), encode_utf8(WEAPI_IV@)));
}

/// The form of a request holds the text enciphered twice, first with the fixed key
/// and then with the secret, and the secret itself, wrapped.
pub proof fn forms_hold_text_and_secret(t: Seq<char>, secret: Seq<u8>)
    ensures
        exists|twice: Seq<char>|
            {
                &&& #[trigger] encode_utf8(twice) == encode_utf8(
                    cbc_text(
                        secret,
                        encode_utf8(cbc_text(encode_utf8(WEAPI_NONCE@), encode_utf8(t))),
                    ),
                )
                &&& weapi_body(t, secret) == encode_utf8(
                    "params="@ + escaped_bytes(encode_utf8(twice)) + "&encSecKey="@ + wrapped_key(
                        secret,
                    ),
                )
            },
        wrapped_key(secret).len() == 256,
{
    let twice = cbc_text(
        secret,
        encode_utf8(cbc_text(encode_utf8(WEAPI_NONCE@), encode_utf8(t))),
    );
    assert(encode_utf8(twice) == encode_utf8(twice));
    let n = (vstd::arithmetic::power::pow(big_endian(secret.reverse()) as int, 65537) % (big_endian(
        weapi_modulus(),
    ) as int)) as nat;
    codec::padded_numbers_are_told_apart(n, n, 256);
}

/// What has no name is no cookie, and changes nothing in a jar.
pub proof fn nameless_cookies_are_ignored(jar: Seq<Seq<char>>, cookie: Seq<char>)
    requires
        !pair_of(cookie).contains('=') || text::head(pair_of(cookie), '=').len() == 0,
    ensures
        with_cookie(jar, cookie) == jar,
{
}

/// Five names, in whatever case, say how a cookie is kept and are none themselves.
pub proof fn attributes_are_no_cookies(name: Seq<char>)
    ensures
        is_attribute(name) <==> text::lowered(name) == "domain"@ || text::lowered(name) == "path"@
            || text::lowered(name) == "expires"@ || text::lowered(name) == "max-age"@
            || text::lowered(name) == "samesite"@,
        is_attribute(text::uppered(name)) == is_attribute(name),
{
    assert(text::lowered(text::uppered(name)) =~= text::lowered(name));
}

proof fn lemma_query_keys()
    ensures
        "s"@ != "type"@,
        "s"@ != "limit"@,
        "s"@ != "offset"@,
        "s"@ != "uid"@,
        "s"@ != "includeVideo"@,
        "s"@ != "id"@,
        "s"@ != "n"@,
        "s"@ != "key"@,
        "s"@ != "noCheckToken"@,
        "type"@ != "limit"@,
        "type"@ != "offset"@,
        "type"@ != "uid"@,
        "type"@ != "includeVideo"@,
        "type"@ != "id"@,
        "type"@ != "n"@,
        "type"@ != "key"@,
        "type"@ != "noCheckToken"@,
        "limit"@ != "offset"@,
        "limit"@ != "uid"@,
        "limit"@ != "includeVideo"@,
        "limit"@ != "id"@,
        "limit"@ != "n"@,
        "limit"@ != "key"@,
        "limit"@ != "noCheckToken"@,
        "offset"@ != "uid"@,
        "offset"@ != "includeVideo"@,
        "offset"@ != "id"@,
        "offset"@ != "n"@,
        "offset"@ != "key"@,
        "offset"@ != "noCheckToken"@,
        "uid"@ != "includeVideo"@,
        "uid"@ != "id"@,
        "uid"@ != "n"@,
        "uid"@ != "key"@,
        "uid"@ != "noCheckToken"@,
        "includeVideo"@ != "id"@,
        "includeVideo"@ != "n"@,
        "includeVideo"@ != "key"@,
        "includeVideo"@ != "noCheckToken"@,
        "id"@ != "n"@,
        "id"@ != "key"@,
        "id"@ != "noCheckToken"@,
        "n"@ != "key"@,
        "n"@ != "noCheckToken"@,
        "key"@ != "noCheckToken"@,
{
    reveal_strlit("s");
    reveal_strlit("type");
    reveal_strlit("limit");
    reveal_strlit("offset");
    reveal_strlit("uid");
    reveal_strlit("includeVideo");
    reveal_strlit("id");
    reveal_strlit("n");
    reveal_strlit("key");
    reveal_strlit("noCheckToken");
    assert("s"@.len() != "type"@.len());
    assert("s"@.len() != "limit"@.len());
    assert("s"@.len() != "offset"@.len());
    assert("s"@.len() != "uid"@.len());
    assert("s"@.len() != "includeVideo"@.len());
    assert("s"@.len() != "id"@.len());
    assert("s"@[0] != "n"@[0]);
    assert("s"@.len() != "key"@.len());
    assert("s"@.len() != "noCheckToken"@.len());
    assert("type"@.len() != "limit"@.len());
    assert("type"@.len() != "offset"@.len());
    assert("type"@.len() != "uid"@.len());
    assert("type"@.len() != "includeVideo"@.len());
    assert("type"@.len() != "id"@.len());
    assert("type"@.len() != "n"@.len());
    assert("type"@.len() != "key"@.len());
    assert("type"@.len() != "noCheckToken"@.len());
    assert("limit"@.len() != "offset"@.len());
    assert("limit"@.len() != "uid"@.len());
    assert("limit"@.len() != "includeVideo"@.len());
    assert("limit"@.len() != "id"@.len());
    assert("limit"@.len() != "n"@.len());
    assert("limit"@.len() != "key"@.len());
    assert("limit"@.len() != "noCheckToken"@.len());
    assert("offset"@.len() != "uid"@.len());
    assert("offset"@.len() != "includeVideo"@.len());
    assert("offset"@.len() != "id"@.len());
    assert("offset"@.len() != "n"@.len());
    assert("offset"@.len() != "key"@.len());
    assert("offset"@.len() != "noCheckToken"@.len());
    assert("uid"@.len() != "includeVideo"@.len());
    assert("uid"@.len() != "id"@.len());
    assert("uid"@.len() != "n"@.len());
    assert("uid"@[0] != "key"@[0]);
    assert("uid"@.len() != "noCheckToken"@.len());
    assert("includeVideo"@.len() != "id"@.len());
    assert("includeVideo"@.len() != "n"@.len());
    assert("includeVideo"@.len() != "key"@.len());
    assert("includeVideo"@[0] != "noCheckToken"@[0]);
    assert("id"@.len() != "n"@.len());
    assert("id"@.len() != "key"@.len());
    assert("id"@.len() != "noCheckToken"@.len());
    assert("n"@.len() != "key"@.len());
    assert("n"@.len() != "noCheckToken"@.len());
    assert("key"@.len() != "noCheckToken"@.len());
}

} // verus!
