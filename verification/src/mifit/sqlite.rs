//! A reader of the tables in an SQLite database file.
use vstd::prelude::*;
use vstd::string::*;
use vstd::utf8::*;

use crate::bridge::codec;
use crate::text::{self, str_eq};

verus! {

/// Why a database could not be read.
#[derive(Debug, Clone, Copy, PartialEq, Eq, Structural)]
pub enum SqliteError {
    TooSmall,
    NotSqlite,
    BadPageSize,
    PageZero,
    PageOutOfRange { page: u32, page_size: usize, file_len: usize },
    ShortPageHeader { page: u32 },
    UnknownPageType { kind: u8, page: u32 },
    UnsupportedPageType { kind: u8, page: u32 },
    InteriorCellOutOfRange { page: u32, offset: usize },
    LeafCellOutOfRange { page: u32, offset: usize },
    PayloadOutOfRange { page: u32, start: usize, local: usize, page_len: usize },
    OverflowPointerOutOfRange { page: u32, pos: usize },
    OverflowEndsEarly,
    OverflowOutOfRange { page: u32, chunk: usize, page_len: usize },
    BadRecordHeader,
    RealOutOfRange,
    ReservedSerialType,
    BlobOutOfRange,
    TextOutOfRange,
    IntegerOutOfRange,
    VarintOutOfRange,
    WordOutOfRange,
    LongOutOfRange,
    /// The pages of a table refer to each other in a circle.
    PagesInCircle,
    /// The pages are too small for the share of a payload to be defined.
    NoRoomForPayload,
}

// ---------------------------------------------------------------- numbers

/// The number that some bytes spell, the first one highest.
pub open spec fn be_value(s: Seq<u8>) -> nat
    decreases s.len(),
{
    if s.len() == 0 {
        0
    } else {
        be_value(s.drop_last()) * 256 + s.last() as nat
    }
}

/// `256` to the power of `n`.
pub open spec fn pow256(n: nat) -> nat
    decreases n,
{
    if n == 0 {
        1
    } else {
        pow256((n - 1) as nat) * 256
    }
}

pub open spec fn word_at(data: Seq<u8>, off: int) -> Result<u16, SqliteError> {
    if off + 2 > data.len() {
        Err(SqliteError::WordOutOfRange)
    } else {
        Ok((data[off] as int * 256 + data[off + 1] as int) as u16)
    }
}

pub fn read_u16(data: &[u8], offset: usize) -> (r: Result<u16, SqliteError>)
    ensures
        r == word_at(data@, offset as int),
{
    if data.len() < 2 || offset > data.len() - 2 {
        return Err(SqliteError::WordOutOfRange);
    }
    Ok(data[offset] as u16 * 256 + data[offset + 1] as u16)
}

pub open spec fn long_at(data: Seq<u8>, off: int) -> Result<u32, SqliteError> {
    if off + 4 > data.len() {
        Err(SqliteError::LongOutOfRange)
    } else {
        Ok(
            (data[off] as int * 16777216 + data[off + 1] as int * 65536 + data[off + 2] as int * 256
                + data[off + 3] as int) as u32,
        )
    }
}

pub fn read_u32(data: &[u8], offset: usize) -> (r: Result<u32, SqliteError>)
    ensures
        r == long_at(data@, offset as int),
{
    if data.len() < 4 || offset > data.len() - 4 {
        return Err(SqliteError::LongOutOfRange);
    }
    Ok(
        data[offset] as u32 * 16777216 + data[offset + 1] as u32 * 65536 + data[offset + 2] as u32
            * 256 + data[offset + 3] as u32,
    )
}

/// How many bytes the variable-length number at an offset has, counted from its
/// `i`-th byte: it ends with the first byte below 128, and after nine bytes.
pub open spec fn varint_len(data: Seq<u8>, off: int, i: int) -> Option<int>
    decreases 8 - i,
{
    if off + i >= data.len() {
        None
    } else if i >= 8 || data[off + i] < 128 {
        Some(i + 1)
    } else {
        varint_len(data, off, i + 1)
    }
}

/// The number that the low seven bits of some bytes spell.
pub open spec fn septets(s: Seq<u8>) -> nat
    decreases s.len(),
{
    if s.len() == 0 {
        0
    } else {
        septets(s.drop_last()) * 128 + s.last() as nat % 128
    }
}

/// The variable-length number at an offset and its length. The ninth byte counts
/// in full.
pub open spec fn varint_at(data: Seq<u8>, off: int) -> Result<(u64, int), SqliteError> {
    match varint_len(data, off, 0) {
        None => Err(SqliteError::VarintOutOfRange),
        Some(n) => if n == 9 {
            Ok(
                (
                    (septets(data.subrange(off, off + 8)) * 256 + data[off + 8] as nat) as u64,
                    9,
                ),
            )
        } else {
            Ok((septets(data.subrange(off, off + n)) as u64, n))
        },
    }
}

pub open spec fn pow128(n: nat) -> nat
    decreases n,
{
    if n == 0 {
        1
    } else {
        pow128((n - 1) as nat) * 128
    }
}

proof fn lemma_septets_bound(s: Seq<u8>)
    ensures
        septets(s) < pow128(s.len()),
    decreases s.len(),
{
    if s.len() > 0 {
        lemma_septets_bound(s.drop_last());
    }
}

proof fn lemma_pow128()
    ensures
        pow128(0) == 1,
        pow128(1) == 128,
        pow128(2) == 16384,
        pow128(3) == 2097152,
        pow128(4) == 268435456,
        pow128(5) == 34359738368,
        pow128(6) == 4398046511104,
        pow128(7) == 562949953421312,
        pow128(8) == 72057594037927936,
{
    reveal_with_fuel(pow128, 9);
}

pub fn read_varint(data: &[u8], offset: usize) -> (r: Result<(u64, usize), SqliteError>)
    ensures
        match r {
            Ok((v, n)) => varint_at(data@, offset as int) == Ok::<(u64, int), SqliteError>(
                (v, n as int),
            ) && 1 <= n <= 9 && offset + n <= data@.len(),
            Err(e) => varint_at(data@, offset as int) == Err::<(u64, int), SqliteError>(e),
        },
{
    if offset >= data.len() {
        return Err(SqliteError::VarintOutOfRange);
    }
    let total: usize = data.len();
    let mut value: u64 = 0;
    let mut i: usize = 0;
    assert(data@.subrange(offset as int, offset as int) =~= Seq::empty());
    loop
        invariant
            i <= 8,
            total == data@.len(),
            offset + i <= total,
            varint_len(data@, offset as int, 0) == varint_len(data@, offset as int, i as int),
            value == septets(data@.subrange(offset as int, offset + i)),
        decreases 8 - i,
    {
        if i >= total - offset {
            return Err(SqliteError::VarintOutOfRange);
        }
        let byte: u8 = data[offset + i];
        proof {
            lemma_septets_bound(data@.subrange(offset as int, offset + i));
            lemma_pow128();
            lemma_pow128_small(i as nat);
            assert(data@.subrange(offset as int, offset + i + 1).drop_last() =~= data@.subrange(
                offset as int,
                offset + i,
            ));
        }
        if i == 8 {
            return Ok((value * 256 + byte as u64, 9));
        }
        value = value * 128 + (byte % 128) as u64;
        if byte < 128 {
            return Ok((value, i + 1));
        }
        i = i + 1;
    }
}

proof fn lemma_pow128_small(n: nat)
    requires
        n <= 8,
    ensures
        pow128(n) <= 72057594037927936,
    decreases 8 - n,
{
    if n < 8 {
        lemma_pow128_small(n + 1);
    } else {
        lemma_pow128();
    }
}

/// The two's complement number that some bytes spell, the first one highest.
pub open spec fn signed_value(s: Seq<u8>) -> int {
    if s.len() > 0 && s[0] >= 128 {
        be_value(s) - pow256(s.len())
    } else {
        be_value(s) as int
    }
}

proof fn lemma_be_bound(s: Seq<u8>)
    ensures
        be_value(s) < pow256(s.len()),
    decreases s.len(),
{
    if s.len() > 0 {
        lemma_be_bound(s.drop_last());
    }
}

proof fn lemma_be_top(s: Seq<u8>)
    requires
        s.len() > 0,
    ensures
        s[0] as int * pow256((s.len() - 1) as nat) <= be_value(s) < (s[0] as int + 1) * pow256(
            (s.len() - 1) as nat,
        ),
    decreases s.len(),
{
    if s.len() == 1 {
        assert(s.drop_last() =~= Seq::empty());
        assert(be_value(s.drop_last()) == 0);
        assert(pow256(0) == 1);
        let b = s[0] as int;
        assert(b * 1 == b && (b + 1) * 1 == b + 1);
        assert(be_value(s) == b);
    } else {
        let t = s.drop_last();
        lemma_be_top(t);
        let p = pow256((t.len() - 1) as nat);
        let b = s[0] as int;
        assert(t[0] == s[0]);
        let big = pow256(t.len()) as int;
        let low = b * p;
        let high = (b + 1) * p;
        assert(big == p * 256);
        assert(b * big == low * 256) by (nonlinear_arith)
            requires
                big == p * 256,
                low == b * p,
        ;
        assert((b + 1) * big == high * 256) by (nonlinear_arith)
            requires
                big == p * 256,
                high == (b + 1) * p,
        ;
        assert(low <= be_value(t) < high);
        assert(be_value(s) == be_value(t) * 256 + s.last());
    }
}

proof fn lemma_pow256()
    ensures
        pow256(0) == 1,
        pow256(1) == 256,
        pow256(2) == 65536,
        pow256(3) == 16777216,
        pow256(4) == 4294967296,
        pow256(5) == 1099511627776,
        pow256(6) == 281474976710656,
        pow256(7) == 72057594037927936,
        pow256(8) == 18446744073709551616,
{
    reveal_with_fuel(pow256, 9);
}

pub open spec fn signed_at(data: Seq<u8>, len: int) -> Result<int, SqliteError> {
    if data.len() < len {
        Err(SqliteError::IntegerOutOfRange)
    } else {
        Ok(signed_value(data.take(len)))
    }
}

pub fn read_signed(data: &[u8], len: usize) -> (r: Result<i64, SqliteError>)
    requires
        1 <= len <= 8,
    ensures
        match r {
            Ok(v) => signed_at(data@, len as int) == Ok::<int, SqliteError>(v as int),
            Err(e) => signed_at(data@, len as int) == Err::<int, SqliteError>(e),
        },
{
    if data.len() < len {
        return Err(SqliteError::IntegerOutOfRange);
    }
    let mut value: i128 = 0;
    let mut modulus: i128 = 1;
    let mut i: usize = 0;
    while i < len
        invariant
            i <= len <= 8,
            len <= data@.len(),
            value == be_value(data@.take(i as int)),
            modulus == pow256(i as nat),
        decreases len - i,
    {
        proof {
            lemma_be_bound(data@.take(i as int));
            lemma_pow256();
            lemma_pow256_small(i as nat);
            assert(data@.take(i + 1).drop_last() =~= data@.take(i as int));
        }
        value = value * 256 + data[i] as i128;
        modulus = modulus * 256;
        i = i + 1;
    }
    proof {
        let s = data@.take(len as int);
        lemma_be_bound(s);
        lemma_be_top(s);
        lemma_pow256();
        lemma_pow256_small(len as nat);
        let p = pow256((len - 1) as nat) as int;
        assert(pow256(len as nat) == p * 256);
        assert(p <= 72057594037927936) by {
            lemma_pow256_below((len - 1) as nat);
        }
        assert(s[0] >= 128 ==> s[0] as int * p >= 128 * p) by (nonlinear_arith)
            requires
                p >= 0,
        ;
        assert(s[0] < 128 ==> (s[0] as int + 1) * p <= 128 * p) by (nonlinear_arith)
            requires
                p >= 0,
        ;
    }
    if data[0] >= 128 {
        Ok((value - modulus) as i64)
    } else {
        Ok(value as i64)
    }
}

proof fn lemma_pow256_small(n: nat)
    requires
        n <= 8,
    ensures
        pow256(n) <= 18446744073709551616,
    decreases 8 - n,
{
    if n < 8 {
        lemma_pow256_small(n + 1);
    } else {
        lemma_pow256();
    }
}

proof fn lemma_pow256_below(n: nat)
    requires
        n <= 7,
    ensures
        pow256(n) <= 72057594037927936,
    decreases 7 - n,
{
    if n < 7 {
        lemma_pow256_below(n + 1);
    } else {
        lemma_pow256();
    }
}

// ---------------------------------------------------------------- records

/// A value of a row. A real number keeps its bits.
#[derive(Debug)]
pub enum SqliteCellValue {
    Null,
    Integer(i64),
    Real(u64),
    Text(String),
    Blob(Vec<u8>),
}

/// The mathematical value of a [`SqliteCellValue`].
pub enum CellView {
    Null,
    Integer(int),
    Real(nat),
    Text(Seq<char>),
    Blob(Seq<u8>),
}

impl SqliteCellValue {
    pub open spec fn view(&self) -> CellView {
        match self {
            SqliteCellValue::Null => CellView::Null,
            SqliteCellValue::Integer(n) => CellView::Integer(*n as int),
            SqliteCellValue::Real(n) => CellView::Real(*n as nat),
            SqliteCellValue::Text(s) => CellView::Text(s@),
            SqliteCellValue::Blob(b) => CellView::Blob(b@),
        }
    }

    pub fn as_text(&self) -> (r: Option<&str>)
        ensures
            match r {
                Some(s) => self@ == CellView::Text(s@),
                None => !(self@ is Text),
            },
    {
        match self {
            SqliteCellValue::Text(v) => Some(v.as_str()),
            _ => None,
        }
    }

    pub fn as_blob(&self) -> (r: Option<&[u8]>)
        ensures
            match r {
                Some(b) => self@ == CellView::Blob(b@),
                None => !(self@ is Blob),
            },
    {
        match self {
            SqliteCellValue::Blob(v) => Some(v.as_slice()),
            _ => None,
        }
    }

    pub fn as_integer(&self) -> (r: Option<i64>)
        ensures
            match r {
                Some(n) => self@ == CellView::Integer(n as int),
                None => !(self@ is Integer),
            },
    {
        match self {
            SqliteCellValue::Integer(v) => Some(*v),
            _ => None,
        }
    }
}

/// The values of a row.
pub open spec fn row_view(row: Seq<SqliteCellValue>) -> Seq<CellView> {
    row.map_values(|c: SqliteCellValue| c@)
}

/// The values of some rows.
pub open spec fn rows_view(rows: Seq<Vec<SqliteCellValue>>) -> Seq<Seq<CellView>> {
    rows.map_values(|row: Vec<SqliteCellValue>| row_view(row@))
}

/// The text that some bytes stand for, with a replacement character for what is
/// not UTF-8.
pub uninterp spec fn lossy_text(data: Seq<u8>) -> Seq<char>;

/// Wrapper of `String::from_utf8_lossy`: valid UTF-8 gives its text. The result
/// depends on the bytes alone.
#[verifier::external_body]
pub(crate) fn utf8_lossy(data: &[u8]) -> (r: String)
    ensures
        r@ == lossy_text(data@),
        valid_utf8(data@) ==> r@ == decode_utf8(data@),
{
    String::from_utf8_lossy(data).to_string()
}

/// How many bytes an integer of a serial type has.
pub open spec fn integer_len(serial: u64) -> int {
    if serial <= 4 {
        serial as int
    } else if serial == 5 {
        6
    } else {
        8
    }
}

/// The value of a serial type at the start of some data, and its length.
pub open spec fn serial_value(serial: u64, data: Seq<u8>) -> Result<(CellView, int), SqliteError> {
    if serial == 0 {
        Ok((CellView::Null, 0))
    } else if serial <= 6 {
        match signed_at(data, integer_len(serial)) {
            Ok(v) => Ok((CellView::Integer(v), integer_len(serial))),
            Err(e) => Err(e),
        }
    } else if serial == 7 {
        if data.len() < 8 {
            Err(SqliteError::RealOutOfRange)
        } else {
            Ok((CellView::Real(be_value(data.take(8))), 8))
        }
    } else if serial == 8 {
        Ok((CellView::Integer(0), 0))
    } else if serial == 9 {
        Ok((CellView::Integer(1), 0))
    } else if serial <= 11 {
        Err(SqliteError::ReservedSerialType)
    } else if serial % 2 == 0 {
        let len = (serial as int - 12) / 2;
        if data.len() < len {
            Err(SqliteError::BlobOutOfRange)
        } else {
            Ok((CellView::Blob(data.take(len)), len))
        }
    } else {
        let len = (serial as int - 13) / 2;
        if data.len() < len {
            Err(SqliteError::TextOutOfRange)
        } else {
            Ok((CellView::Text(lossy_text(data.take(len))), len))
        }
    }
}

fn read_real_bits(data: &[u8]) -> (r: u64)
    requires
        data@.len() >= 8,
    ensures
        r == be_value(data@.take(8)),
{
    let mut value: u64 = 0;
    let mut i: usize = 0;
    while i < 8
        invariant
            i <= 8,
            8 <= data@.len(),
            value == be_value(data@.take(i as int)),
        decreases 8 - i,
    {
        proof {
            lemma_be_bound(data@.take(i as int));
            lemma_pow256_below(i as nat);
            assert(data@.take(i + 1).drop_last() =~= data@.take(i as int));
        }
        value = value * 256 + data[i] as u64;
        i = i + 1;
    }
    value
}

pub fn parse_sqlite_serial_type(serial_type: u64, data: &[u8]) -> (r: Result<
    (SqliteCellValue, usize),
    SqliteError,
>)
    ensures
        match r {
            Ok((v, n)) => serial_value(serial_type, data@) == Ok::<(CellView, int), SqliteError>(
                (v@, n as int),
            ) && n <= data@.len(),
            Err(e) => serial_value(serial_type, data@) == Err::<(CellView, int), SqliteError>(e),
        },
{
    if serial_type == 0 {
        return Ok((SqliteCellValue::Null, 0));
    }
    if serial_type <= 6 {
        let len: usize = if serial_type <= 4 {
            serial_type as usize
        } else if serial_type == 5 {
            6
        } else {
            8
        };
        return match read_signed(data, len) {
            Ok(v) => Ok((SqliteCellValue::Integer(v), len)),
            Err(e) => Err(e),
        };
    }
    if serial_type == 7 {
        if data.len() < 8 {
            return Err(SqliteError::RealOutOfRange);
        }
        return Ok((SqliteCellValue::Real(read_real_bits(data)), 8));
    }
    if serial_type == 8 {
        return Ok((SqliteCellValue::Integer(0), 0));
    }
    if serial_type == 9 {
        return Ok((SqliteCellValue::Integer(1), 0));
    }
    if serial_type <= 11 {
        return Err(SqliteError::ReservedSerialType);
    }
    if serial_type % 2 == 0 {
        let len: u64 = (serial_type - 12) / 2;
        if (data.len() as u64) < len {
            return Err(SqliteError::BlobOutOfRange);
        }
        let n: usize = len as usize;
        let part = vstd::slice::slice_subrange(data, 0, n);
        assert(part@ =~= data@.take(n as int));
        Ok((SqliteCellValue::Blob(vstd::slice::slice_to_vec(part)), n))
    } else {
        let len: u64 = (serial_type - 13) / 2;
        if (data.len() as u64) < len {
            return Err(SqliteError::TextOutOfRange);
        }
        let n: usize = len as usize;
        let part = vstd::slice::slice_subrange(data, 0, n);
        assert(part@ =~= data@.take(n as int));
        Ok((SqliteCellValue::Text(utf8_lossy(part)), n))
    }
}

/// The serial types in a record header, from a position to its end.
pub open spec fn serials_from(payload: Seq<u8>, cursor: int, end: int) -> Result<
    Seq<u64>,
    SqliteError,
>
    decreases
            if end > cursor {
                end - cursor
            } else {
                0
            },
{
    if cursor >= end {
        Ok(Seq::empty())
    } else {
        match varint_at(payload, cursor) {
            Err(e) => Err(e),
            Ok((serial, n)) => if n <= 0 {
                Err(SqliteError::VarintOutOfRange)
            } else {
                match serials_from(payload, cursor + n, end) {
                    Ok(rest) => Ok(seq![serial] + rest),
                    Err(e) => Err(e),
                }
            },
        }
    }
}

/// The values of some serial types, one after the other.
pub open spec fn values_of(serials: Seq<u64>, data: Seq<u8>) -> Result<Seq<CellView>, SqliteError>
    decreases serials.len(),
{
    if serials.len() == 0 {
        Ok(Seq::empty())
    } else {
        match serial_value(serials[0], data) {
            Err(e) => Err(e),
            Ok((v, n)) => match values_of(serials.drop_first(), data.skip(n)) {
                Ok(rest) => Ok(seq![v] + rest),
                Err(e) => Err(e),
            },
        }
    }
}

/// The values of a record.
pub open spec fn record_values(payload: Seq<u8>) -> Result<Seq<CellView>, SqliteError> {
    match varint_at(payload, 0) {
        Err(e) => Err(e),
        Ok((size, n)) => if size > payload.len() || size < n {
            Err(SqliteError::BadRecordHeader)
        } else {
            match serials_from(payload, n, size as int) {
                Err(e) => Err(e),
                Ok(serials) => values_of(serials, payload.skip(size as int)),
            }
        },
    }
}

fn read_serials(payload: &[u8], start: usize, end: usize) -> (r: Result<Vec<u64>, SqliteError>)
    requires
        end <= payload@.len(),
    ensures
        match r {
            Ok(v) => serials_from(payload@, start as int, end as int) == Ok::<
                Seq<u64>,
                SqliteError,
            >(v@),
            Err(e) => serials_from(payload@, start as int, end as int) == Err::<
                Seq<u64>,
                SqliteError,
            >(e),
        },
{
    let ghost whole = serials_from(payload@, start as int, end as int);
    let mut out: Vec<u64> = Vec::new();
    let mut cursor: usize = start;
    let total: usize = payload.len();
    proof {
        let rest = serials_from(payload@, cursor as int, end as int);
        if rest is Ok {
            assert(out@ + rest->Ok_0 =~= rest->Ok_0);
        }
    }
    while cursor < end
        invariant
            end <= payload@.len(),
            total == payload@.len(),
            whole == (match serials_from(payload@, cursor as int, end as int) {
                Ok(rest) => Ok::<Seq<u64>, SqliteError>(out@ + rest),
                Err(e) => Err(e),
            }),
            whole == serials_from(payload@, start as int, end as int),
        decreases
            if end > cursor {
                end - cursor
            } else {
                0
            },
    {
        match read_varint(payload, cursor) {
            Err(e) => return Err(e),
            Ok((serial, n)) => {
                let ghost before = out@;
                out.push(serial);
                proof {
                    let rest = serials_from(payload@, cursor + n, end as int);
                    if rest is Ok {
                        assert(before + (seq![serial] + rest->Ok_0) =~= out@ + rest->Ok_0);
                    }
                }
                cursor = cursor + n;
            },
        }
    }
    assert(out@ + Seq::<u64>::empty() =~= out@);
    Ok(out)
}

fn read_values(serials: &Vec<u64>, payload: &[u8], start: usize) -> (r: Result<
    Vec<SqliteCellValue>,
    SqliteError,
>)
    requires
        start <= payload@.len(),
    ensures
        match r {
            Ok(v) => values_of(serials@, payload@.skip(start as int)) == Ok::<
                Seq<CellView>,
                SqliteError,
            >(row_view(v@)),
            Err(e) => values_of(serials@, payload@.skip(start as int)) == Err::<
                Seq<CellView>,
                SqliteError,
            >(e),
        },
{
    let ghost whole = values_of(serials@, payload@.skip(start as int));
    let mut out: Vec<SqliteCellValue> = Vec::new();
    let mut cursor: usize = start;
    let mut i: usize = 0;
    proof {
        assert(serials@.skip(0) =~= serials@);
        assert(row_view(out@) =~= Seq::empty());
        if whole is Ok {
            assert(row_view(out@) + whole->Ok_0 =~= whole->Ok_0);
        }
    }
    while i < serials.len()
        invariant
            i <= serials@.len(),
            cursor <= payload@.len(),
            whole == values_of(serials@, payload@.skip(start as int)),
            whole == (match values_of(serials@.skip(i as int), payload@.skip(cursor as int)) {
                Ok(rest) => Ok::<Seq<CellView>, SqliteError>(row_view(out@) + rest),
                Err(e) => Err(e),
            }),
        decreases serials.len() - i,
    {
        let rest = vstd::slice::slice_subrange(payload, cursor, payload.len());
        proof {
            assert(rest@ =~= payload@.skip(cursor as int));
            assert(serials@.skip(i as int).drop_first() =~= serials@.skip(i + 1));
        }
        match parse_sqlite_serial_type(serials[i], rest) {
            Err(e) => return Err(e),
            Ok((v, n)) => {
                let ghost before = out@;
                out.push(v);
                proof {
                    assert(payload@.skip(cursor as int).skip(n as int) =~= payload@.skip(
                        cursor + n,
                    ));
                    assert(row_view(out@) =~= row_view(before).push(v@));
                    let tail = values_of(serials@.skip(i + 1), payload@.skip(cursor + n));
                    if tail is Ok {
                        assert(row_view(before) + (seq![v@] + tail->Ok_0) =~= row_view(out@)
                            + tail->Ok_0);
                    }
                }
                cursor = cursor + n;
            },
        }
        i = i + 1;
    }
    assert(serials@.skip(i as int) =~= Seq::empty());
    assert(row_view(out@) + Seq::<CellView>::empty() =~= row_view(out@));
    Ok(out)
}

pub fn parse_sqlite_record(payload: &[u8]) -> (r: Result<Vec<SqliteCellValue>, SqliteError>)
    ensures
        match r {
            Ok(v) => record_values(payload@) == Ok::<Seq<CellView>, SqliteError>(row_view(v@)),
            Err(e) => record_values(payload@) == Err::<Seq<CellView>, SqliteError>(e),
        },
{
    let (size, n) = match read_varint(payload, 0) {
        Ok(v) => v,
        Err(e) => return Err(e),
    };
    if size > payload.len() as u64 || size < n as u64 {
        return Err(SqliteError::BadRecordHeader);
    }
    let header_size: usize = size as usize;
    match read_serials(payload, n, header_size) {
        Ok(serials) => read_values(&serials, payload, header_size),
        Err(e) => Err(e),
    }
}

// ---------------------------------------------------------------- pages

/// A database file.
pub struct SqliteFile {
    pub bytes: Vec<u8>,
    pub page_size: usize,
    /// Bytes of a page that hold data.
    pub usable_size: usize,
}

/// The header of a B-tree page.
#[derive(Clone, Copy)]
pub struct PageHeader {
    pub page_type: u8,
    pub cell_count: u16,
    pub cell_pointer_array_offset: usize,
    pub right_most_pointer: Option<u32>,
}

/// Fewest usable bytes of a page for which the share of a payload that a page
/// holds is defined.
pub const MIN_USABLE_SIZE: usize = 196;

/// The text with which every database file begins.
pub open spec fn magic() -> Seq<u8> {
    seq![83u8, 81, 76, 105, 116, 101, 32, 102, 111, 114, 109, 97, 116, 32, 51, 0]
}

/// The page size that a file names.
pub open spec fn named_page_size(bytes: Seq<u8>) -> int {
    let raw = bytes[16] as int * 256 + bytes[17] as int;
    if raw == 1 {
        65536
    } else {
        raw
    }
}

/// The page size and the usable size of a file.
pub open spec fn file_sizes(bytes: Seq<u8>) -> Result<(int, int), SqliteError> {
    if bytes.len() < 100 {
        Err(SqliteError::TooSmall)
    } else if bytes.take(16) != magic() {
        Err(SqliteError::NotSqlite)
    } else if named_page_size(bytes) <= bytes[20] + 4 {
        Err(SqliteError::BadPageSize)
    } else {
        Ok((named_page_size(bytes), named_page_size(bytes) - bytes[20]))
    }
}

fn has_magic(bytes: &[u8]) -> (r: bool)
    requires
        bytes@.len() >= 16,
    ensures
        r == (bytes@.take(16) == magic()),
{
    let want: [u8; 16] = [83, 81, 76, 105, 116, 101, 32, 102, 111, 114, 109, 97, 116, 32, 51, 0];
    assert(want@ =~= magic());
    let mut i: usize = 0;
    while i < 16
        invariant
            i <= 16,
            bytes@.len() >= 16,
            want@ == magic(),
            forall|j: int| 0 <= j < i ==> bytes@[j] == #[trigger] want@[j],
        decreases 16 - i,
    {
        if bytes[i] != want[i] {
            assert(bytes@.take(16)[i as int] != magic()[i as int]);
            return false;
        }
        i = i + 1;
    }
    assert(bytes@.take(16) =~= magic());
    true
}

impl SqliteFile {
    pub open spec fn wf(self) -> bool {
        4 < self.usable_size <= self.page_size <= 65536
    }

    /// Reads the header of a file.
    pub fn parse(bytes: Vec<u8>) -> (r: Result<SqliteFile, SqliteError>)
        ensures
            match r {
                Ok(f) => f.wf() && f.bytes == bytes && file_sizes(bytes@) == Ok::<
                    (int, int),
                    SqliteError,
                >((f.page_size as int, f.usable_size as int)),
                Err(e) => file_sizes(bytes@) == Err::<(int, int), SqliteError>(e),
            },
    {
        if bytes.len() < 100 {
            return Err(SqliteError::TooSmall);
        }
        if !has_magic(bytes.as_slice()) {
            return Err(SqliteError::NotSqlite);
        }
        let raw: usize = bytes[16] as usize * 256 + bytes[17] as usize;
        let page_size: usize = if raw == 1 {
            65536
        } else {
            raw
        };
        let reserved: usize = bytes[20] as usize;
        if page_size <= reserved + 4 {
            return Err(SqliteError::BadPageSize);
        }
        Ok(SqliteFile { bytes, page_size, usable_size: page_size - reserved })
    }

    /// The bytes of a page; pages are numbered from one.
    pub open spec fn page(self, page_no: u32) -> Result<Seq<u8>, SqliteError> {
        let start = (page_no - 1) * self.page_size;
        if page_no == 0 {
            Err(SqliteError::PageZero)
        } else if start + self.page_size > self.bytes@.len() {
            Err(
                SqliteError::PageOutOfRange {
                    page: page_no,
                    page_size: self.page_size,
                    file_len: self.bytes@.len() as usize,
                },
            )
        } else {
            Ok(self.bytes@.subrange(start, start + self.page_size))
        }
    }

    pub fn page_data(&self, page_no: u32) -> (r: Result<&[u8], SqliteError>)
        requires
            self.wf(),
        ensures
            match r {
                Ok(p) => self.page(page_no) == Ok::<Seq<u8>, SqliteError>(p@) && p@.len()
                    == self.page_size,
                Err(e) => self.page(page_no) == Err::<Seq<u8>, SqliteError>(e),
            },
    {
        if page_no == 0 {
            return Err(SqliteError::PageZero);
        }
        proof {
            assert((page_no - 1) * self.page_size <= 4294967295 * 65536) by (nonlinear_arith)
                requires
                    1 <= page_no <= 4294967295,
                    self.page_size <= 65536,
            ;
        }
        let start: u64 = (page_no as u64 - 1) * self.page_size as u64;
        let end: u64 = start + self.page_size as u64;
        if end > self.bytes.len() as u64 {
            return Err(
                SqliteError::PageOutOfRange {
                    page: page_no,
                    page_size: self.page_size,
                    file_len: self.bytes.len(),
                },
            );
        }
        Ok(vstd::slice::slice_subrange(self.bytes.as_slice(), start as usize, end as usize))
    }

    /// The header of a page. The first page has the file header before it.
    pub open spec fn header(self, page_no: u32) -> Result<PageHeader, SqliteError> {
        match self.page(page_no) {
            Err(e) => Err(e),
            Ok(page) => {
                let base: int = if page_no == 1 {
                    100
                } else {
                    0
                };
                if page.len() < base + 8 {
                    Err(SqliteError::ShortPageHeader { page: page_no })
                } else {
                    let kind = page[base];
                    let count = word_at(page, base + 3)->Ok_0;
                    if kind == 0x05 || kind == 0x02 {
                        match long_at(page, base + 8) {
                            Err(e) => Err(e),
                            Ok(right) => Ok(
                                PageHeader {
                                    page_type: kind,
                                    cell_count: count,
                                    cell_pointer_array_offset: (base + 12) as usize,
                                    right_most_pointer: Some(right),
                                },
                            ),
                        }
                    } else if kind == 0x0D || kind == 0x0A {
                        Ok(
                            PageHeader {
                                page_type: kind,
                                cell_count: count,
                                cell_pointer_array_offset: (base + 8) as usize,
                                right_most_pointer: None,
                            },
                        )
                    } else {
                        Err(SqliteError::UnknownPageType { kind, page: page_no })
                    }
                }
            },
        }
    }

    pub fn page_header(&self, page_no: u32) -> (r: Result<PageHeader, SqliteError>)
        requires
            self.wf(),
        ensures
            r == self.header(page_no),
            r matches Ok(h) ==> h.cell_pointer_array_offset <= 112 && self.page(page_no) is Ok,
    {
        let page = match self.page_data(page_no) {
            Ok(p) => p,
            Err(e) => return Err(e),
        };
        let base: usize = if page_no == 1 {
            100
        } else {
            0
        };
        if page.len() < base + 8 {
            return Err(SqliteError::ShortPageHeader { page: page_no });
        }
        let kind = page[base];
        let cell_count = match read_u16(page, base + 3) {
            Ok(n) => n,
            Err(e) => return Err(e),
        };
        if kind == 0x05 || kind == 0x02 {
            match read_u32(page, base + 8) {
                Err(e) => Err(e),
                Ok(right) => Ok(
                    PageHeader {
                        page_type: kind,
                        cell_count,
                        cell_pointer_array_offset: base + 12,
                        right_most_pointer: Some(right),
                    },
                ),
            }
        } else if kind == 0x0D || kind == 0x0A {
            Ok(
                PageHeader {
                    page_type: kind,
                    cell_count,
                    cell_pointer_array_offset: base + 8,
                    right_most_pointer: None,
                },
            )
        } else {
            Err(SqliteError::UnknownPageType { kind, page: page_no })
        }
    }

    /// Most bytes of a payload that a leaf page holds.
    pub open spec fn max_local(self) -> int {
        self.usable_size - 35
    }

    /// Fewest bytes of a longer payload that a leaf page holds.
    pub open spec fn min_local(self) -> int {
        (self.usable_size - 12) * 32 / 255 - 23
    }

    /// How many bytes of a payload stand on the leaf page itself; the rest is in
    /// overflow pages.
    pub open spec fn local_size(self, payload_size: int) -> int {
        if payload_size <= self.max_local() {
            payload_size
        } else {
            let local = self.min_local() + (payload_size - self.min_local()) % (self.usable_size
                - 4);
            if local > self.max_local() {
                self.min_local()
            } else {
                local
            }
        }
    }

    pub fn local_payload_size(&self, payload_size: u64) -> (r: usize)
        requires
            self.wf(),
            self.usable_size >= MIN_USABLE_SIZE,
        ensures
            r == self.local_size(payload_size as int),
            r <= self.max_local(),
            r <= payload_size,
    {
        let max_local: u64 = self.usable_size as u64 - 35;
        let min_local: u64 = (self.usable_size as u64 - 12) * 32 / 255 - 23;
        if payload_size <= max_local {
            return payload_size as usize;
        }
        let span: u64 = self.usable_size as u64 - 4;
        let local: u64 = min_local + (payload_size - min_local) % span;
        if local > max_local {
            min_local as usize
        } else {
            local as usize
        }
    }

    /// The bytes of a payload that stand in a chain of overflow pages.
    pub open spec fn overflow(self, page_no: u32, remaining: int) -> Result<Seq<u8>, SqliteError>
        decreases remaining,
    {
        let room = self.usable_size - 4;
        if remaining <= 0 || room <= 0 {
            Ok(Seq::empty())
        } else if page_no == 0 {
            Err(SqliteError::OverflowEndsEarly)
        } else {
            match self.page(page_no) {
                Err(e) => Err(e),
                Ok(page) => {
                    let chunk = if remaining < room {
                        remaining
                    } else {
                        room
                    };
                    if 4 + chunk > page.len() {
                        Err(
                            SqliteError::OverflowOutOfRange {
                                page: page_no,
                                chunk: chunk as usize,
                                page_len: page.len() as usize,
                            },
                        )
                    } else {
                        match self.overflow(long_at(page, 0)->Ok_0, remaining - chunk) {
                            Err(e) => Err(e),
                            Ok(rest) => Ok(page.subrange(4, 4 + chunk) + rest),
                        }
                    }
                },
            }
        }
    }

    pub fn read_overflow_chain(&self, first_page: u32, size: u64) -> (r: Result<
        Vec<u8>,
        SqliteError,
    >)
        requires
            self.wf(),
        ensures
            match r {
                Ok(v) => self.overflow(first_page, size as int) == Ok::<Seq<u8>, SqliteError>(v@),
                Err(e) => self.overflow(first_page, size as int) == Err::<Seq<u8>, SqliteError>(e),
            },
    {
        let ghost whole = self.overflow(first_page, size as int);
        let mut out: Vec<u8> = Vec::new();
        let mut page_no: u32 = first_page;
        let mut remaining: u64 = size;
        proof {
            if whole is Ok {
                assert(out@ + whole->Ok_0 =~= whole->Ok_0);
            }
        }
        while remaining > 0
            invariant
                self.wf(),
                whole == self.overflow(first_page, size as int),
                whole == (match self.overflow(page_no, remaining as int) {
                    Ok(rest) => Ok::<Seq<u8>, SqliteError>(out@ + rest),
                    Err(e) => Err(e),
                }),
            decreases remaining,
        {
            if page_no == 0 {
                return Err(SqliteError::OverflowEndsEarly);
            }
            let page = match self.page_data(page_no) {
                Ok(p) => p,
                Err(e) => return Err(e),
            };
            let next = match read_u32(page, 0) {
                Ok(n) => n,
                Err(e) => return Err(e),
            };
            let room: u64 = self.usable_size as u64 - 4;
            let chunk: u64 = if remaining < room {
                remaining
            } else {
                room
            };
            if 4 + chunk > page.len() as u64 {
                return Err(
                    SqliteError::OverflowOutOfRange {
                        page: page_no,
                        chunk: chunk as usize,
                        page_len: page.len(),
                    },
                );
            }
            let part = vstd::slice::slice_subrange(page, 4, 4 + chunk as usize);
            let mut piece = vstd::slice::slice_to_vec(part);
            let ghost before = out@;
            out.append(&mut piece);
            proof {
                let rest = self.overflow(next, remaining - chunk);
                if rest is Ok {
                    assert(before + (part@ + rest->Ok_0) =~= out@ + rest->Ok_0);
                }
            }
            remaining = remaining - chunk;
            page_no = next;
        }
        assert(out@ + Seq::<u8>::empty() =~= out@);
        Ok(out)
    }

    /// The row in a cell of a leaf page.
    pub open spec fn leaf_row(self, page_no: u32, page: Seq<u8>, offset: int) -> Result<
        Seq<CellView>,
        SqliteError,
    > {
        if offset >= page.len() {
            Err(SqliteError::LeafCellOutOfRange { page: page_no, offset: offset as usize })
        } else {
            match varint_at(page, offset) {
                Err(e) => Err(e),
                Ok((size, n)) => match varint_at(page, offset + n) {
                    Err(e) => Err(e),
                    Ok((_, m)) => {
                        let start = offset + n + m;
                        let local = self.local_size(size as int);
                        if self.usable_size < MIN_USABLE_SIZE {
                            Err(SqliteError::NoRoomForPayload)
                        } else if start + local > page.len() {
                            Err(
                                SqliteError::PayloadOutOfRange {
                                    page: page_no,
                                    start: start as usize,
                                    local: local as usize,
                                    page_len: page.len() as usize,
                                },
                            )
                        } else if size <= local {
                            record_values(page.subrange(start, start + local))
                        } else if start + local + 4 > page.len() {
                            Err(
                                SqliteError::OverflowPointerOutOfRange {
                                    page: page_no,
                                    pos: (start + local) as usize,
                                },
                            )
                        } else {
                            match self.overflow(
                                long_at(page, start + local)->Ok_0,
                                size - local,
                            ) {
                                Err(e) => Err(e),
                                Ok(rest) => record_values(
                                    page.subrange(start, start + local) + rest,
                                ),
                            }
                        }
                    },
                },
            }
        }
    }

    pub fn parse_table_leaf_cell(&self, page_no: u32, page: &[u8], cell_offset: usize) -> (r: Result<
        Vec<SqliteCellValue>,
        SqliteError,
    >)
        requires
            self.wf(),
            page@.len() <= 65536,
        ensures
            match r {
                Ok(v) => self.leaf_row(page_no, page@, cell_offset as int) == Ok::<
                    Seq<CellView>,
                    SqliteError,
                >(row_view(v@)),
                Err(e) => self.leaf_row(page_no, page@, cell_offset as int) == Err::<
                    Seq<CellView>,
                    SqliteError,
                >(e),
            },
    {
        if cell_offset >= page.len() {
            return Err(
                SqliteError::LeafCellOutOfRange { page: page_no, offset: cell_offset },
            );
        }
        let (size, n) = match read_varint(page, cell_offset) {
            Ok(v) => v,
            Err(e) => return Err(e),
        };
        let (_, m) = match read_varint(page, cell_offset + n) {
            Ok(v) => v,
            Err(e) => return Err(e),
        };
        let start: usize = cell_offset + n + m;
        if self.usable_size < MIN_USABLE_SIZE {
            return Err(SqliteError::NoRoomForPayload);
        }
        let local: usize = self.local_payload_size(size);
        if start + local > page.len() {
            return Err(
                SqliteError::PayloadOutOfRange {
                    page: page_no,
                    start,
                    local,
                    page_len: page.len(),
                },
            );
        }
        let head = vstd::slice::slice_subrange(page, start, start + local);
        if size <= local as u64 {
            return parse_sqlite_record(head);
        }
        let pos: usize = start + local;
        if pos + 4 > page.len() {
            return Err(SqliteError::OverflowPointerOutOfRange { page: page_no, pos });
        }
        let first = match read_u32(page, pos) {
            Ok(p) => p,
            Err(e) => return Err(e),
        };
        let mut rest = match self.read_overflow_chain(first, size - local as u64) {
            Ok(v) => v,
            Err(e) => return Err(e),
        };
        let mut payload = vstd::slice::slice_to_vec(head);
        payload.append(&mut rest);
        parse_sqlite_record(payload.as_slice())
    }

    // ------------------------------------------------------------ tables

    /// The rows of a leaf page, from its `i`-th cell on.
    pub open spec fn leaf_rows(self, page_no: u32, page: Seq<u8>, h: PageHeader, i: int) -> Result<
        Seq<Seq<CellView>>,
        SqliteError,
    >
        decreases h.cell_count - i,
    {
        if i >= h.cell_count {
            Ok(Seq::empty())
        } else {
            match word_at(page, h.cell_pointer_array_offset + i * 2) {
                Err(e) => Err(e),
                Ok(offset) => match self.leaf_row(page_no, page, offset as int) {
                    Err(e) => Err(e),
                    Ok(row) => match self.leaf_rows(page_no, page, h, i + 1) {
                        Err(e) => Err(e),
                        Ok(rest) => Ok(seq![row] + rest),
                    },
                },
            }
        }
    }

    /// The rows under an interior page, from its `i`-th child on; the right-most
    /// child comes last.
    pub open spec fn interior_rows(
        self,
        page_no: u32,
        page: Seq<u8>,
        h: PageHeader,
        i: int,
        depth: nat,
    ) -> Result<Seq<Seq<CellView>>, SqliteError>
        decreases depth, 65536 - i,
    {
        if depth == 0 || i < 0 || i > 65535 {
            Err(SqliteError::PagesInCircle)
        } else if i >= h.cell_count {
            match h.right_most_pointer {
                Some(right) => self.table_rows(right, (depth - 1) as nat),
                None => Ok(Seq::empty()),
            }
        } else {
            match word_at(page, h.cell_pointer_array_offset + i * 2) {
                Err(e) => Err(e),
                Ok(offset) => if offset + 4 > page.len() {
                    Err(
                        SqliteError::InteriorCellOutOfRange {
                            page: page_no,
                            offset: offset as usize,
                        },
                    )
                } else {
                    match self.table_rows(
                        long_at(page, offset as int)->Ok_0,
                        (depth - 1) as nat,
                    ) {
                        Err(e) => Err(e),
                        Ok(rows) => match self.interior_rows(page_no, page, h, i + 1, depth) {
                            Err(e) => Err(e),
                            Ok(rest) => Ok(rows + rest),
                        },
                    }
                },
            }
        }
    }

    /// The rows of the table whose tree has its root on a page, with no more than
    /// `depth` interior pages above one another.
    pub open spec fn table_rows(self, page_no: u32, depth: nat) -> Result<
        Seq<Seq<CellView>>,
        SqliteError,
    >
        decreases depth, 65537int,
    {
        match self.page(page_no) {
            Err(e) => Err(e),
            Ok(page) => match self.header(page_no) {
                Err(e) => Err(e),
                Ok(h) => if h.page_type == 0x0D {
                    self.leaf_rows(page_no, page, h, 0)
                } else if h.page_type == 0x05 {
                    self.interior_rows(page_no, page, h, 0, depth)
                } else {
                    Err(SqliteError::UnsupportedPageType { kind: h.page_type, page: page_no })
                },
            },
        }
    }

    /// How many pages the file has: no tree is deeper.
    pub open spec fn page_count(self) -> int {
        self.bytes@.len() as int / self.page_size as int
    }

    fn walk_leaf(
        &self,
        page_no: u32,
        page: &[u8],
        h: PageHeader,
        out_rows: &mut Vec<Vec<SqliteCellValue>>,
    ) -> (r: Result<(), SqliteError>)
        requires
            self.wf(),
            page@.len() <= 65536,
            h.cell_pointer_array_offset <= 112,
        ensures
            match r {
                Ok(_) => self.leaf_rows(page_no, page@, h, 0) is Ok && rows_view(final(out_rows)@)
                    == rows_view(old(out_rows)@) + self.leaf_rows(page_no, page@, h, 0)->Ok_0,
                Err(e) => self.leaf_rows(page_no, page@, h, 0) == Err::<
                    Seq<Seq<CellView>>,
                    SqliteError,
                >(e),
            },
    {
        let ghost whole = self.leaf_rows(page_no, page@, h, 0);
        let ghost first = rows_view(out_rows@);
        let mut i: u16 = 0;
        while i < h.cell_count
            invariant
                i <= h.cell_count,
                self.wf(),
                page@.len() <= 65536,
                h.cell_pointer_array_offset <= 112,
                whole == self.leaf_rows(page_no, page@, h, 0),
                match self.leaf_rows(page_no, page@, h, i as int) {
                    Ok(rest) => whole is Ok && first + whole->Ok_0 == rows_view(out_rows@) + rest,
                    Err(e) => whole == Err::<Seq<Seq<CellView>>, SqliteError>(e),
                },
            decreases h.cell_count - i,
        {
            let at: usize = h.cell_pointer_array_offset + i as usize * 2;
            let offset: usize = match read_u16(page, at) {
                Ok(o) => o as usize,
                Err(e) => return Err(e),
            };
            match self.parse_table_leaf_cell(page_no, page, offset) {
                Err(e) => return Err(e),
                Ok(row) => {
                    let ghost before = out_rows@;
                    out_rows.push(row);
                    proof {
                        assert(rows_view(out_rows@) =~= rows_view(before).push(row_view(row@)));
                        let rest = self.leaf_rows(page_no, page@, h, i + 1);
                        if rest is Ok {
                            assert(rows_view(before) + (seq![row_view(row@)] + rest->Ok_0)
                                =~= rows_view(out_rows@) + rest->Ok_0);
                        }
                    }
                },
            }
            i = i + 1;
        }
        proof {
            assert(rows_view(out_rows@) + Seq::<Seq<CellView>>::empty() =~= rows_view(out_rows@));
        }
        Ok(())
    }

    fn walk_interior(
        &self,
        page_no: u32,
        page: &[u8],
        h: PageHeader,
        depth: usize,
        out_rows: &mut Vec<Vec<SqliteCellValue>>,
    ) -> (r: Result<(), SqliteError>)
        requires
            self.wf(),
            page@.len() <= 65536,
            h.cell_pointer_array_offset <= 112,
        ensures
            match r {
                Ok(_) => self.interior_rows(page_no, page@, h, 0, depth as nat) is Ok && rows_view(
                    final(out_rows)@,
                ) == rows_view(old(out_rows)@) + self.interior_rows(
                    page_no,
                    page@,
                    h,
                    0,
                    depth as nat,
                )->Ok_0,
                Err(e) => self.interior_rows(page_no, page@, h, 0, depth as nat) == Err::<
                    Seq<Seq<CellView>>,
                    SqliteError,
                >(e),
            },
        decreases depth, 1int,
    {
        if depth == 0 {
            return Err(SqliteError::PagesInCircle);
        }
        let ghost whole = self.interior_rows(page_no, page@, h, 0, depth as nat);
        let ghost first = rows_view(out_rows@);
        let mut i: u16 = 0;
        while i < h.cell_count
            invariant
                i <= h.cell_count,
                depth > 0,
                self.wf(),
                page@.len() <= 65536,
                h.cell_pointer_array_offset <= 112,
                whole == self.interior_rows(page_no, page@, h, 0, depth as nat),
                match self.interior_rows(page_no, page@, h, i as int, depth as nat) {
                    Ok(rest) => whole is Ok && first + whole->Ok_0 == rows_view(out_rows@) + rest,
                    Err(e) => whole == Err::<Seq<Seq<CellView>>, SqliteError>(e),
                },
            decreases h.cell_count - i,
        {
            let at: usize = h.cell_pointer_array_offset + i as usize * 2;
            let offset: usize = match read_u16(page, at) {
                Ok(o) => o as usize,
                Err(e) => return Err(e),
            };
            if offset + 4 > page.len() {
                return Err(SqliteError::InteriorCellOutOfRange { page: page_no, offset });
            }
            let child = match read_u32(page, offset) {
                Ok(c) => c,
                Err(e) => return Err(e),
            };
            let ghost before = rows_view(out_rows@);
            match self.walk_table_btree(child, depth - 1, out_rows) {
                Err(e) => return Err(e),
                Ok(_) => {},
            }
            proof {
                let rows = self.table_rows(child, (depth - 1) as nat)->Ok_0;
                let rest = self.interior_rows(page_no, page@, h, i + 1, depth as nat);
                if rest is Ok {
                    assert(before + (rows + rest->Ok_0) =~= rows_view(out_rows@) + rest->Ok_0);
                }
            }
            i = i + 1;
        }
        match h.right_most_pointer {
            Some(right) => self.walk_table_btree(right, depth - 1, out_rows),
            None => {
                proof {
                    assert(rows_view(out_rows@) + Seq::<Seq<CellView>>::empty() =~= rows_view(
                        out_rows@,
                    ));
                }
                Ok(())
            },
        }
    }

    /// Adds the rows of a table to those given.
    fn walk_table_btree(
        &self,
        page_no: u32,
        depth: usize,
        out_rows: &mut Vec<Vec<SqliteCellValue>>,
    ) -> (r: Result<(), SqliteError>)
        requires
            self.wf(),
        ensures
            match r {
                Ok(_) => self.table_rows(page_no, depth as nat) is Ok && rows_view(
                    final(out_rows)@,
                ) == rows_view(old(out_rows)@) + self.table_rows(page_no, depth as nat)->Ok_0,
                Err(e) => self.table_rows(page_no, depth as nat) == Err::<
                    Seq<Seq<CellView>>,
                    SqliteError,
                >(e),
            },
        decreases depth, 2int,
    {
        let page = match self.page_data(page_no) {
            Ok(p) => p,
            Err(e) => return Err(e),
        };
        let h = match self.page_header(page_no) {
            Ok(h) => h,
            Err(e) => return Err(e),
        };
        if h.page_type == 0x0D {
            self.walk_leaf(page_no, page, h, out_rows)
        } else if h.page_type == 0x05 {
            self.walk_interior(page_no, page, h, depth, out_rows)
        } else {
            Err(SqliteError::UnsupportedPageType { kind: h.page_type, page: page_no })
        }
    }

    /// The rows of the table whose tree has its root on a page.
    pub fn read_table_rows(&self, root_page: u32) -> (r: Result<
        Vec<Vec<SqliteCellValue>>,
        SqliteError,
    >)
        requires
            self.wf(),
        ensures
            match r {
                Ok(rows) => self.table_rows(root_page, self.page_count() as nat) == Ok::<
                    Seq<Seq<CellView>>,
                    SqliteError,
                >(rows_view(rows@)),
                Err(e) => self.table_rows(root_page, self.page_count() as nat) == Err::<
                    Seq<Seq<CellView>>,
                    SqliteError,
                >(e),
            },
    {
        let mut rows: Vec<Vec<SqliteCellValue>> = Vec::new();
        let depth: usize = self.bytes.len() / self.page_size;
        let r = self.walk_table_btree(root_page, depth, &mut rows);
        match r {
            Ok(_) => {
                proof {
                    let all = self.table_rows(root_page, depth as nat)->Ok_0;
                    assert(Seq::<Seq<CellView>>::empty() + all =~= all);
                    assert(rows_view(Seq::<Vec<SqliteCellValue>>::empty()) =~= Seq::empty());
                }
                Ok(rows)
            },
            Err(e) => Err(e),
        }
    }
}

/// Whether a row of the schema table names a table, and its root page.
pub open spec fn schema_entry(row: Seq<CellView>, table: Seq<char>) -> Option<u32> {
    if row.len() > 3 && row[0] == CellView::Text("table"@) && row[1] == CellView::Text(table) {
        match row[3] {
            CellView::Integer(n) => if n > 0 {
                Some((n as i64) as u32)
            } else {
                None
            },
            _ => None,
        }
    } else {
        None
    }
}

/// The root page of the first table of a name.
pub open spec fn root_page_in(rows: Seq<Seq<CellView>>, table: Seq<char>) -> Option<u32>
    decreases rows.len(),
{
    if rows.len() == 0 {
        None
    } else {
        match schema_entry(rows[0], table) {
            Some(p) => Some(p),
            None => root_page_in(rows.drop_first(), table),
        }
    }
}

fn read_schema_entry(row: &Vec<SqliteCellValue>, table: &str) -> (r: Option<u32>)
    ensures
        r == schema_entry(row_view(row@), table@),
{
    if row.len() <= 3 {
        return None;
    }
    let is_table = match row[0].as_text() {
        Some(t) => str_eq(t, "table"),
        None => false,
    };
    let is_named = match row[1].as_text() {
        Some(t) => str_eq(t, table),
        None => false,
    };
    if !is_table || !is_named {
        return None;
    }
    match row[3].as_integer() {
        Some(n) => if n > 0 {
            Some(n as u32)
        } else {
            None
        },
        None => None,
    }
}

impl SqliteFile {
    /// The root page of a table, none where the schema does not name it.
    pub fn find_table_root_page(&self, table_name: &str) -> (r: Result<Option<u32>, SqliteError>)
        requires
            self.wf(),
        ensures
            match self.table_rows(1, self.page_count() as nat) {
                Ok(rows) => r == Ok::<Option<u32>, SqliteError>(root_page_in(rows, table_name@)),
                Err(e) => r == Err::<Option<u32>, SqliteError>(e),
            },
    {
        let rows = match self.read_table_rows(1) {
            Ok(rows) => rows,
            Err(e) => return Err(e),
        };
        let ghost all = rows_view(rows@);
        let mut i: usize = 0;
        assert(all.skip(0) =~= all);
        while i < rows.len()
            invariant
                i <= rows@.len(),
                all == rows_view(rows@),
                self.table_rows(1, self.page_count() as nat) == Ok::<
                    Seq<Seq<CellView>>,
                    SqliteError,
                >(all),
                root_page_in(all, table_name@) == root_page_in(all.skip(i as int), table_name@),
            decreases rows.len() - i,
        {
            assert(all.skip(i as int)[0] == row_view(rows@[i as int]@));
            assert(all.skip(i as int).drop_first() =~= all.skip(i + 1));
            if let Some(p) = read_schema_entry(&rows[i], table_name) {
                return Ok(Some(p));
            }
            i = i + 1;
        }
        Ok(None)
    }
}

// ---------------------------------------------------------------- messages

/// Two uppercase hexadecimal digits.
pub open spec fn hex2(b: u8) -> Seq<char> {
    text::uppered(codec::hex_text(seq![b]))
}

fn hex2_text(b: u8) -> (r: String)
    ensures
        r@ == hex2(b),
{
    let one: [u8; 1] = [b];
    assert(one@ =~= seq![b]);
    let low = codec::hex_encode(&one);
    text::to_upper(low.as_str())
}

/// What is said of an error.
pub open spec fn error_text(e: SqliteError) -> Seq<char> {
    match e {
        SqliteError::TooSmall => "sqlite 文件过小，不是有效 SQLite 文件"@,
        SqliteError::NotSqlite => "文件头不是 SQLite format 3"@,
        SqliteError::BadPageSize => "SQLite 页大小异常"@,
        SqliteError::PageZero => "页号不能为 0"@,
        SqliteError::PageOutOfRange { page, page_size, file_len } => "页号越界 (page="@ + text::decimal(page as nat) + ", page_size="@ + text::decimal(page_size as nat) + ", file_len="@ + text::decimal(file_len as nat) + ")"@,
        SqliteError::ShortPageHeader { page } => "页头长度不足 (page="@ + text::decimal(page as nat) + ")"@,
        SqliteError::UnknownPageType { kind, page } => "未知 B-Tree 页类型 "@ + hex2(kind) + " (page="@ + text::decimal(page as nat) + ")"@,
        SqliteError::UnsupportedPageType { kind, page } => "不支持的表 B-Tree 页类型 "@ + hex2(kind) + " (page="@ + text::decimal(page as nat) + ")"@,
        SqliteError::InteriorCellOutOfRange { page, offset } => "页 "@ + text::decimal(page as nat) + " 内部节点 cell 偏移越界 (offset="@ + text::decimal(offset as nat) + ")"@,
        SqliteError::LeafCellOutOfRange { page, offset } => "页 "@ + text::decimal(page as nat) + " 叶子节点 cell 偏移越界 (offset="@ + text::decimal(offset as nat) + ")"@,
        SqliteError::PayloadOutOfRange { page, start, local, page_len } => "页 "@ + text::decimal(page as nat) + " payload 越界 (start="@ + text::decimal(start as nat) + ", local="@ + text::decimal(local as nat) + ", page_len="@ + text::decimal(page_len as nat) + ")"@,
        SqliteError::OverflowPointerOutOfRange { page, pos } => "页 "@ + text::decimal(page as nat) + " overflow 指针越界 (ptr_pos="@ + text::decimal(pos as nat) + ")"@,
        SqliteError::OverflowEndsEarly => "overflow 链提前结束"@,
        SqliteError::OverflowOutOfRange { page, chunk, page_len } => "overflow 页 "@ + text::decimal(page as nat) + " 数据越界 (chunk="@ + text::decimal(chunk as nat) + ", page_len="@ + text::decimal(page_len as nat) + ")"@,
        SqliteError::BadRecordHeader => "SQLite 记录头大小非法"@,
        SqliteError::RealOutOfRange => "REAL 数据越界"@,
        SqliteError::ReservedSerialType => "遇到保留的 SQLite serial type"@,
        SqliteError::BlobOutOfRange => "BLOB 数据越界"@,
        SqliteError::TextOutOfRange => "TEXT 数据越界"@,
        SqliteError::IntegerOutOfRange => "整数数据越界"@,
        SqliteError::VarintOutOfRange => "读取 varint 越界"@,
        SqliteError::WordOutOfRange => "读取 u16 越界"@,
        SqliteError::LongOutOfRange => "读取 u32 越界"@,
        SqliteError::PagesInCircle => "表 B-Tree 页循环引用"@,
        SqliteError::NoRoomForPayload => "SQLite 页过小，无法存放 payload"@,
    }
}

impl SqliteError {
    /// What is said of the error.
    pub fn message(&self) -> (r: String)
        ensures
            r@ == error_text(*self),
    {
        match *self {
            SqliteError::TooSmall => "sqlite 文件过小，不是有效 SQLite 文件".to_owned(),
            SqliteError::NotSqlite => "文件头不是 SQLite format 3".to_owned(),
            SqliteError::BadPageSize => "SQLite 页大小异常".to_owned(),
            SqliteError::PageZero => "页号不能为 0".to_owned(),
            SqliteError::PageOutOfRange { page, page_size, file_len } => {
                let mut m = "页号越界 (page=".to_owned();
                m.append(text::u64_text(page as u64).as_str());
                m.append(", page_size=");
                m.append(text::u64_text(page_size as u64).as_str());
                m.append(", file_len=");
                m.append(text::u64_text(file_len as u64).as_str());
                m.append(")");
                m
            },
            SqliteError::ShortPageHeader { page } => {
                let mut m = "页头长度不足 (page=".to_owned();
                m.append(text::u64_text(page as u64).as_str());
                m.append(")");
                m
            },
            SqliteError::UnknownPageType { kind, page } => {
                let mut m = "未知 B-Tree 页类型 ".to_owned();
                m.append(hex2_text(kind).as_str());
                m.append(" (page=");
                m.append(text::u64_text(page as u64).as_str());
                m.append(")");
                m
            },
            SqliteError::UnsupportedPageType { kind, page } => {
                let mut m = "不支持的表 B-Tree 页类型 ".to_owned();
                m.append(hex2_text(kind).as_str());
                m.append(" (page=");
                m.append(text::u64_text(page as u64).as_str());
                m.append(")");
                m
            },
            SqliteError::InteriorCellOutOfRange { page, offset } => {
                let mut m = "页 ".to_owned();
                m.append(text::u64_text(page as u64).as_str());
                m.append(" 内部节点 cell 偏移越界 (offset=");
                m.append(text::u64_text(offset as u64).as_str());
                m.append(")");
                m
            },
            SqliteError::LeafCellOutOfRange { page, offset } => {
                let mut m = "页 ".to_owned();
                m.append(text::u64_text(page as u64).as_str());
                m.append(" 叶子节点 cell 偏移越界 (offset=");
                m.append(text::u64_text(offset as u64).as_str());
                m.append(")");
                m
            },
            SqliteError::PayloadOutOfRange { page, start, local, page_len } => {
                let mut m = "页 ".to_owned();
                m.append(text::u64_text(page as u64).as_str());
                m.append(" payload 越界 (start=");
                m.append(text::u64_text(start as u64).as_str());
                m.append(", local=");
                m.append(text::u64_text(local as u64).as_str());
                m.append(", page_len=");
                m.append(text::u64_text(page_len as u64).as_str());
                m.append(")");
                m
            },
            SqliteError::OverflowPointerOutOfRange { page, pos } => {
                let mut m = "页 ".to_owned();
                m.append(text::u64_text(page as u64).as_str());
                m.append(" overflow 指针越界 (ptr_pos=");
                m.append(text::u64_text(pos as u64).as_str());
                m.append(")");
                m
            },
            SqliteError::OverflowEndsEarly => "overflow 链提前结束".to_owned(),
            SqliteError::OverflowOutOfRange { page, chunk, page_len } => {
                let mut m = "overflow 页 ".to_owned();
                m.append(text::u64_text(page as u64).as_str());
                m.append(" 数据越界 (chunk=");
                m.append(text::u64_text(chunk as u64).as_str());
                m.append(", page_len=");
                m.append(text::u64_text(page_len as u64).as_str());
                m.append(")");
                m
            },
            SqliteError::BadRecordHeader => "SQLite 记录头大小非法".to_owned(),
            SqliteError::RealOutOfRange => "REAL 数据越界".to_owned(),
            SqliteError::ReservedSerialType => "遇到保留的 SQLite serial type".to_owned(),
            SqliteError::BlobOutOfRange => "BLOB 数据越界".to_owned(),
            SqliteError::TextOutOfRange => "TEXT 数据越界".to_owned(),
            SqliteError::IntegerOutOfRange => "整数数据越界".to_owned(),
            SqliteError::VarintOutOfRange => "读取 varint 越界".to_owned(),
            SqliteError::WordOutOfRange => "读取 u16 越界".to_owned(),
            SqliteError::LongOutOfRange => "读取 u32 越界".to_owned(),
            SqliteError::PagesInCircle => "表 B-Tree 页循环引用".to_owned(),
            SqliteError::NoRoomForPayload => "SQLite 页过小，无法存放 payload".to_owned(),
        }
    }
}

// ---------------------------------------------------------------- laws

/// The pages to which an interior page refers: those that its cells name, in their
/// order, and the right-most one.
pub open spec fn children(page: Seq<u8>, h: PageHeader) -> Seq<u32> {
    Seq::new(
        h.cell_count as nat + 1,
        |i: int|
            if i < h.cell_count {
                let cell = be_value(
                    page.subrange(
                        h.cell_pointer_array_offset + i * 2,
                        h.cell_pointer_array_offset + i * 2 + 2,
                    ),
                ) as int;
                be_value(page.subrange(cell, cell + 4)) as u32
            } else {
                h.right_most_pointer->Some_0
            },
    )
}

/// Words and long words are numbers of two and of four bytes, the first one
/// highest.
pub proof fn words_are_big_endian(data: Seq<u8>, off: int)
    requires
        0 <= off,
    ensures
        word_at(data, off) is Ok == (off + 2 <= data.len()),
        long_at(data, off) is Ok == (off + 4 <= data.len()),
        off + 2 <= data.len() ==> word_at(data, off)->Ok_0 == be_value(data.subrange(off, off + 2)),
        off + 4 <= data.len() ==> long_at(data, off)->Ok_0 == be_value(data.subrange(off, off + 4)),
{
    reveal_with_fuel(be_value, 5);
    if off + 2 <= data.len() {
        let s = data.subrange(off, off + 2);
        assert(s.drop_last().last() == data[off]);
        assert(s.last() == data[off + 1]);
        assert(s.drop_last().drop_last().len() == 0);
    }
    if off + 4 <= data.len() {
        let s = data.subrange(off, off + 4);
        assert(s.last() == data[off + 3]);
        assert(s.drop_last().last() == data[off + 2]);
        assert(s.drop_last().drop_last().last() == data[off + 1]);
        assert(s.drop_last().drop_last().drop_last().last() == data[off]);
        assert(s.drop_last().drop_last().drop_last().drop_last().len() == 0);
    }
}

/// A byte in front of others counts as many times more as those have places.
pub proof fn first_byte_is_highest(b: u8, s: Seq<u8>)
    ensures
        be_value(seq![b] + s) == b * pow256(s.len()) + be_value(s),
        be_value(s) < pow256(s.len()),
    decreases s.len(),
{
    lemma_be_bound(s);
    let all = seq![b] + s;
    if s.len() == 0 {
        assert(all =~= seq![b]);
        assert(seq![b].drop_last() =~= Seq::empty());
        assert(be_value(Seq::<u8>::empty()) == 0);
        assert(seq![b].last() == b);
        assert(b * 1 == b);
    } else {
        first_byte_is_highest(b, s.drop_last());
        assert(all.drop_last() =~= seq![b] + s.drop_last());
        assert(all.last() == s.last());
        let p = pow256((s.len() - 1) as nat);
        assert((b * p) * 256 == b * (p * 256)) by (nonlinear_arith);
    }
}

/// Signed numbers are in two's complement: they agree with the unsigned number of
/// the same bytes but for a multiple of the range, and lie evenly around zero.
pub proof fn signed_numbers_wrap(s: Seq<u8>)
    requires
        s.len() > 0,
    ensures
        signed_value(s) == be_value(s) || signed_value(s) == be_value(s) - pow256(s.len()),
        -(pow256(s.len()) as int) <= 2 * signed_value(s) < pow256(s.len()),
{
    lemma_be_bound(s);
    lemma_be_top(s);
    let p = pow256((s.len() - 1) as nat) as int;
    let b = s[0] as int;
    assert(pow256(s.len()) == p * 256);
    assert(b >= 128 ==> 128 * p <= b * p) by (nonlinear_arith)
        requires
            0 <= p,
    ;
    assert(b < 128 ==> (b + 1) * p <= 128 * p) by (nonlinear_arith)
        requires
            0 <= p,
    ;
}

proof fn lemma_septets_front(d: nat, s: Seq<u8>)
    requires
        d < 128,
    ensures
        septets(seq![(128 + d) as u8] + s) == d * pow128(s.len()) + septets(s),
    decreases s.len(),
{
    let b = (128 + d) as u8;
    let all = seq![b] + s;
    if s.len() == 0 {
        assert(all =~= seq![b]);
        assert(seq![b].drop_last() =~= Seq::empty());
        assert(septets(Seq::<u8>::empty()) == 0);
        assert(seq![b].last() == b);
        assert(b as nat % 128 == d);
        assert(d * 1 == d);
    } else {
        lemma_septets_front(d, s.drop_last());
        assert(all.drop_last() =~= seq![b] + s.drop_last());
        assert(all.last() == s.last());
        let p = pow128((s.len() - 1) as nat);
        assert((d * p) * 128 == d * (p * 128)) by (nonlinear_arith);
    }
}

proof fn lemma_varint_len_front(b: u8, data: Seq<u8>, i: int)
    requires
        b >= 128,
        0 <= i < 8,
        varint_len(data, 0, i) matches Some(k) && k <= 7,
    ensures
        varint_len(seq![b] + data, 0, i + 1) == Some(varint_len(data, 0, i)->Some_0 + 1),
    decreases 8 - i,
{
    let all = seq![b] + data;
    assert(all[i + 1] == data[i]);
    if data[i] >= 128 {
        if i >= 7 {
            lemma_varint_len_more(data, i);
        }
        lemma_varint_len_front(b, data, i + 1);
    }
}

proof fn lemma_varint_len_more(data: Seq<u8>, i: int)
    requires
        varint_len(data, 0, i) is Some,
    ensures
        varint_len(data, 0, i)->Some_0 > i,
    decreases 8 - i,
{
    if !(i >= 8 || data[i] < 128) {
        lemma_varint_len_more(data, i + 1);
    }
}

proof fn lemma_varint_len_fits(data: Seq<u8>, off: int, i: int)
    requires
        0 <= i,
        varint_len(data, off, i) is Some,
    ensures
        i < varint_len(data, off, i)->Some_0 <= data.len() - off,
        i <= 8 ==> varint_len(data, off, i)->Some_0 <= 9,
    decreases 8 - i,
{
    if !(i >= 8 || data[off + i] < 128) {
        lemma_varint_len_fits(data, off, i + 1);
    }
}

/// A byte below 128 is a number by itself, and a byte with its highest bit set in
/// front of a number of up to seven bytes puts seven more bits before it.
pub proof fn numbers_grow_by_seven_bits(d: nat, data: Seq<u8>)
    requires
        d < 128,
        data.len() > 0,
    ensures
        data[0] < 128 ==> varint_at(data, 0) == Ok::<(u64, int), SqliteError>((data[0] as u64, 1)),
        varint_at(data, 0) matches Ok((n, k)) ==> k <= 7 ==> varint_at(
            seq![(128 + d) as u8] + data,
            0,
        ) == Ok::<(u64, int), SqliteError>(((d * pow128(k as nat) + n) as u64, k + 1)),
{
    let b = (128 + d) as u8;
    let all = seq![b] + data;
    if data[0] < 128 {
        let s = data.subrange(0, 1);
        assert(s.drop_last() =~= Seq::empty());
        assert(septets(Seq::<u8>::empty()) == 0);
        assert(s.last() == data[0]);
        assert(septets(s) == data[0]);
    }
    if varint_at(data, 0) is Ok && varint_at(data, 0)->Ok_0.1 <= 7 {
        let k = varint_at(data, 0)->Ok_0.1;
        lemma_varint_len_fits(data, 0, 0);
        lemma_varint_len_front(b, data, 0);
        assert(all[0] == b);
        assert(varint_len(all, 0, 0) == varint_len(all, 0, 1));
        let s = data.subrange(0, k);
        assert(all.subrange(0, k + 1) =~= seq![b] + s);
        lemma_septets_front(d, s);
        lemma_septets_bound(s);
        lemma_pow128_small(k as nat);
        assert(septets(s) <= u64::MAX) by {
            lemma_pow128();
        }
    }
}

/// A number whose first eight bytes all have their highest bit set ends with a
/// ninth byte, all of whose bits count.
pub proof fn ninth_byte_counts_in_full(data: Seq<u8>)
    requires
        data.len() >= 9,
        forall|i: int| 0 <= i < 8 ==> #[trigger] data[i] >= 128,
    ensures
        varint_at(data, 0) == Ok::<(u64, int), SqliteError>(
            ((septets(data.take(8)) * 256 + data[8]) as u64, 9),
        ),
{
    reveal_with_fuel(varint_len, 10);
    assert(data[0] >= 128 && data[1] >= 128 && data[2] >= 128 && data[3] >= 128);
    assert(data[4] >= 128 && data[5] >= 128 && data[6] >= 128 && data[7] >= 128);
    assert(data.subrange(0, 8) =~= data.take(8));
}

/// How many bytes a value of a serial type has.
pub open spec fn width(serial: u64) -> int {
    if serial == 0 || serial == 8 || serial == 9 {
        0
    } else if serial == 1 || serial == 2 || serial == 3 || serial == 4 {
        serial as int
    } else if serial == 5 {
        6
    } else if serial == 6 || serial == 7 {
        8
    } else if serial % 2 == 0 {
        (serial - 12) / 2
    } else {
        (serial - 13) / 2
    }
}

/// A value has as many bytes as its serial type says, and is there whenever that
/// many bytes are: a blob is these bytes, a text what they spell, an integer or
/// a real the number in them.
pub proof fn values_take_their_width(serial: u64, data: Seq<u8>)
    requires
        serial != 10,
        serial != 11,
    ensures
        serial_value(serial, data) is Ok == (width(serial) <= data.len()),
        serial_value(serial, data) matches Ok((v, n)) ==> {
            &&& n == width(serial)
            &&& serial == 0 <==> v == CellView::Null
            &&& 1 <= serial <= 6 ==> v == CellView::Integer(signed_value(data.take(n)))
            &&& serial == 7 ==> v == CellView::Real(be_value(data.take(n)))
            &&& serial == 8 ==> v == CellView::Integer(0)
            &&& serial == 9 ==> v == CellView::Integer(1)
            &&& serial >= 12 && serial % 2 == 0 ==> v == CellView::Blob(data.take(n))
            &&& serial >= 12 && serial % 2 == 1 ==> v == CellView::Text(lossy_text(data.take(n)))
        },
{
}

/// Where the value with an index begins.
pub open spec fn value_offset(serials: Seq<u64>, i: int) -> int
    decreases i,
{
    if i <= 0 {
        0
    } else {
        value_offset(serials, i - 1) + width(serials[i - 1])
    }
}

proof fn lemma_offset_shift(serials: Seq<u64>, i: int)
    requires
        1 <= i <= serials.len(),
    ensures
        value_offset(serials, i) == width(serials[0]) + value_offset(serials.drop_first(), i - 1),
    decreases i,
{
    if i > 1 {
        lemma_offset_shift(serials, i - 1);
        assert(serials.drop_first()[i - 2] == serials[i - 1]);
    } else {
        assert(value_offset(serials, 0) == 0);
    }
}

/// A record has one value for each serial type, and each begins where the one
/// before it ends.
pub proof fn values_follow_one_another(serials: Seq<u64>, data: Seq<u8>)
    requires
        values_of(serials, data) is Ok,
    ensures
        values_of(serials, data)->Ok_0.len() == serials.len(),
        forall|i: int|
            0 <= i < serials.len() ==> 0 <= value_offset(serials, i) <= data.len()
                && #[trigger] serial_value(serials[i], data.skip(value_offset(serials, i))) == Ok::<
                (CellView, int),
                SqliteError,
            >((values_of(serials, data)->Ok_0[i], width(serials[i]))),
    decreases serials.len(),
{
    if serials.len() > 0 {
        let (v, n) = serial_value(serials[0], data)->Ok_0;
        values_take_their_width(serials[0], data);
        assert(0 <= n <= data.len());
        let rest = serials.drop_first();
        values_follow_one_another(rest, data.skip(n));
        let vs = values_of(serials, data)->Ok_0;
        assert forall|i: int| 0 <= i < serials.len() implies 0 <= value_offset(serials, i) <= data.len()
            && #[trigger] serial_value(serials[i], data.skip(value_offset(serials, i))) == Ok::<
            (CellView, int),
            SqliteError,
        >((vs[i], width(serials[i]))) by {
            if i == 0 {
                assert(data.skip(0) =~= data);
            } else {
                lemma_offset_shift(serials, i);
                let o = value_offset(rest, i - 1);
                assert(serial_value(rest[i - 1], data.skip(n).skip(o)) is Ok);
                assert(data.skip(n).skip(o) =~= data.skip(n + o));
            }
        }
    }
}

/// A record is a header with its own length and the serial types, then the values:
/// where each of them has one byte, the values are those of these types.
pub proof fn records_are_a_header_and_values(types: Seq<u8>, data: Seq<u8>)
    requires
        types.len() < 127,
        forall|i: int| 0 <= i < types.len() ==> #[trigger] types[i] < 128,
    ensures
        record_values(seq![(types.len() + 1) as u8] + types + data) == values_of(
            types.map_values(|t: u8| t as u64),
            data,
        ),
{
    let payload = seq![(types.len() + 1) as u8] + types + data;
    let end = types.len() as int + 1;
    numbers_grow_by_seven_bits(0, payload);
    lemma_plain_serials(payload, 1, end);
    let serials = types.map_values(|t: u8| t as u64);
    assert(serials =~= payload.subrange(1, end).map_values(|t: u8| t as u64));
    assert(payload.skip(end) =~= data);
}

proof fn lemma_plain_serials(payload: Seq<u8>, cursor: int, end: int)
    requires
        0 <= cursor <= end <= payload.len(),
        forall|i: int| cursor <= i < end ==> #[trigger] payload[i] < 128,
    ensures
        serials_from(payload, cursor, end) == Ok::<Seq<u64>, SqliteError>(
            payload.subrange(cursor, end).map_values(|t: u8| t as u64),
        ),
    decreases end - cursor,
{
    let serials = payload.subrange(cursor, end).map_values(|t: u8| t as u64);
    if cursor < end {
        lemma_plain_serials(payload, cursor + 1, end);
        assert(payload[cursor] < 128);
        assert(varint_len(payload, cursor, 0) == Some(1int));
        let s = payload.subrange(cursor, cursor + 1);
        assert(s.drop_last() =~= Seq::empty());
        assert(septets(Seq::<u8>::empty()) == 0);
        assert(s.last() == payload[cursor]);
        assert(septets(s) == payload[cursor]);
        assert(serials =~= seq![payload[cursor] as u64] + payload.subrange(
            cursor + 1,
            end,
        ).map_values(|t: u8| t as u64));
    } else {
        assert(serials =~= Seq::empty());
    }
}

/// A file begins with the mark of the format; its page size stands behind that, in
/// two bytes, of which one alone stands for the largest size.
pub proof fn headers_name_the_page_size(bytes: Seq<u8>)
    requires
        bytes.len() >= 100,
    ensures
        file_sizes(bytes) matches Ok((page, usable)) ==> {
            &&& bytes.take(16) == magic()
            &&& page == if be_value(bytes.subrange(16, 18)) == 1 {
                65536
            } else {
                be_value(bytes.subrange(16, 18)) as int
            }
            &&& page - usable == bytes[20]
            &&& usable > 4
        },
        bytes.take(16) == magic() && be_value(bytes.subrange(16, 18)) >= 512 ==> file_sizes(
            bytes,
        ) is Ok,
{
    words_are_big_endian(bytes, 16);
}

impl SqliteFile {
    /// The pages lie behind one another in the file, the first one at its start,
    /// and every whole page can be had.
    pub proof fn pages_tile_the_file(self, page_no: u32, j: int)
        requires
            self.wf(),
            page_no > 0,
            0 <= j < self.page_size,
        ensures
            self.page(page_no) is Ok == (page_no * self.page_size <= self.bytes@.len()),
            self.page(page_no) matches Ok(page) ==> page.len() == self.page_size && page[j]
                == self.bytes@[(page_no - 1) * self.page_size + j],
    {
        assert((page_no - 1) * self.page_size + self.page_size == page_no * self.page_size)
            by (nonlinear_arith);
        assert((page_no - 1) * self.page_size >= 0) by (nonlinear_arith)
            requires
                page_no >= 1,
                self.page_size >= 0,
        ;
    }

    /// A page tells its kind, how many cells it has and where their pointers
    /// stand: behind eight bytes on a leaf, behind twelve on an interior page,
    /// the last four of which name its right-most child.
    pub proof fn pages_tell_their_cells(self, page_no: u32)
        requires
            self.wf(),
            self.header(page_no) is Ok,
        ensures
            ({
                let h = self.header(page_no)->Ok_0;
                let page = self.page(page_no)->Ok_0;
                let b: int = if page_no == 1 {
                    100
                } else {
                    0
                };
                &&& self.page(page_no) is Ok
                &&& h.page_type == page[b]
                &&& h.cell_count == be_value(page.subrange(b + 3, b + 5))
                &&& h.page_type == 0x0D || h.page_type == 0x0A ==> h.cell_pointer_array_offset == b
                    + 8 && h.right_most_pointer is None
                &&& h.page_type == 0x05 || h.page_type == 0x02 ==> h.cell_pointer_array_offset == b
                    + 12 && h.right_most_pointer == Some(be_value(page.subrange(b + 8, b + 12)) as u32)
            }),
    {
        let page = self.page(page_no)->Ok_0;
        let b: int = if page_no == 1 {
            100
        } else {
            0
        };
        words_are_big_endian(page, b + 3);
        words_are_big_endian(page, b + 8);
    }

    #[verifier::rlimit(60)]
    #[verifier::spinoff_prover]
    proof fn lemma_interior_rows(
        self,
        page_no: u32,
        page: Seq<u8>,
        h: PageHeader,
        i: int,
        depth: nat,
    )
        requires
            0 <= i <= h.cell_count,
            h.right_most_pointer is Some,
            self.interior_rows(page_no, page, h, i, depth) is Ok,
        ensures
            depth > 0,
            forall|k: int|
                i <= k <= h.cell_count ==> self.table_rows(
                    #[trigger] children(page, h)[k],
                    (depth - 1) as nat,
                ) is Ok,
            self.interior_rows(page_no, page, h, i, depth)->Ok_0 == children(page, h).skip(
                i,
            ).map_values(|c: u32| self.table_rows(c, (depth - 1) as nat)->Ok_0).flatten(),
        decreases h.cell_count - i,
    {
        let all = children(page, h);
        let f = |c: u32| self.table_rows(c, (depth - 1) as nat)->Ok_0;
        let here = all.skip(i).map_values(f);
        if i == h.cell_count {
            assert(all[i] == h.right_most_pointer->Some_0);
            assert(here =~= seq![f(all[i])]);
            seq![f(all[i])].lemma_flatten_one_element();
        } else {
            let at = h.cell_pointer_array_offset + i * 2;
            let offset = word_at(page, at)->Ok_0 as int;
            lemma_child(page, h, i);
            assert(all[i] == long_at(page, offset)->Ok_0);
            self.lemma_interior_rows(page_no, page, h, i + 1, depth);
            let later = all.skip(i + 1).map_values(f);
            assert(here.drop_first() =~= later);
            assert(here.first() == f(all[i]));
        }
    }

    /// The rows under an interior page are those under each of its children, one
    /// child after the other: the ones that its cells name, then the right-most.
    pub proof fn rows_of_all_children_are_read(self, page_no: u32, depth: nat)
        requires
            self.wf(),
            self.table_rows(page_no, depth) is Ok,
            self.header(page_no)->Ok_0.page_type == 0x05,
        ensures
            ({
                let below = children(self.page(page_no)->Ok_0, self.header(page_no)->Ok_0);
                &&& depth > 0
                &&& forall|k: int|
                    0 <= k < below.len() ==> self.table_rows(
                        #[trigger] below[k],
                        (depth - 1) as nat,
                    ) is Ok
                &&& self.table_rows(page_no, depth)->Ok_0 == below.map_values(
                    |c: u32| self.table_rows(c, (depth - 1) as nat)->Ok_0,
                ).flatten()
            }),
    {
        let page = self.page(page_no)->Ok_0;
        let h = self.header(page_no)->Ok_0;
        self.lemma_interior_rows(page_no, page, h, 0, depth);
        assert(children(page, h).skip(0) =~= children(page, h));
    }

    proof fn lemma_leaf_rows(self, page_no: u32, page: Seq<u8>, h: PageHeader, i: int)
        requires
            0 <= i <= h.cell_count,
            self.leaf_rows(page_no, page, h, i) is Ok,
        ensures
            self.leaf_rows(page_no, page, h, i)->Ok_0.len() == h.cell_count - i,
            forall|k: int|
                i <= k < h.cell_count ==> self.leaf_row(
                    page_no,
                    page,
                    be_value(
                        #[trigger] page.subrange(
                            h.cell_pointer_array_offset + k * 2,
                            h.cell_pointer_array_offset + k * 2 + 2,
                        ),
                    ) as int,
                ) == Ok::<Seq<CellView>, SqliteError>(
                    self.leaf_rows(page_no, page, h, i)->Ok_0[k - i],
                ),
        decreases h.cell_count - i,
    {
        if i < h.cell_count {
            words_are_big_endian(page, h.cell_pointer_array_offset + i * 2);
            self.lemma_leaf_rows(page_no, page, h, i + 1);
        }
    }

    /// The rows of a leaf page are those of its cells, each of them once and in the
    /// order of their pointers.
    pub proof fn rows_of_all_cells_are_read(self, page_no: u32, depth: nat)
        requires
            self.wf(),
            self.table_rows(page_no, depth) is Ok,
            self.header(page_no)->Ok_0.page_type == 0x0D,
        ensures
            ({
                let page = self.page(page_no)->Ok_0;
                let h = self.header(page_no)->Ok_0;
                let rows = self.table_rows(page_no, depth)->Ok_0;
                &&& rows.len() == h.cell_count
                &&& forall|k: int|
                    0 <= k < h.cell_count ==> self.leaf_row(
                        page_no,
                        page,
                        be_value(
                            #[trigger] page.subrange(
                                h.cell_pointer_array_offset + k * 2,
                                h.cell_pointer_array_offset + k * 2 + 2,
                            ),
                        ) as int,
                    ) == Ok::<Seq<CellView>, SqliteError>(rows[k])
            }),
    {
        self.lemma_leaf_rows(page_no, self.page(page_no)->Ok_0, self.header(page_no)->Ok_0, 0);
    }

    /// Whether a way leads from a page down to a leaf page.
    pub open spec fn leads_to(self, page_no: u32, leaf: u32, depth: nat) -> bool
        decreases depth,
    {
        ||| page_no == leaf && self.header(leaf) is Ok && self.header(leaf)->Ok_0.page_type == 0x0D
        ||| {
            &&& depth > 0
            &&& self.header(page_no) is Ok
            &&& self.header(page_no)->Ok_0.page_type == 0x05
            &&& exists|k: int|
                0 <= k <= self.header(page_no)->Ok_0.cell_count && self.leads_to(
                    #[trigger] children(self.page(page_no)->Ok_0, self.header(page_no)->Ok_0)[k],
                    leaf,
                    (depth - 1) as nat,
                )
        }
    }

    /// Every row of a leaf page to which a way leads from the root is among the
    /// rows that are read.
    pub proof fn no_reachable_row_is_missed(self, root: u32, leaf: u32, depth: nat, k: int)
        requires
            self.wf(),
            self.table_rows(root, depth) is Ok,
            self.leads_to(root, leaf, depth),
            0 <= k < self.header(leaf)->Ok_0.cell_count,
        ensures
            ({
                let page = self.page(leaf)->Ok_0;
                let h = self.header(leaf)->Ok_0;
                let row = self.leaf_row(
                    leaf,
                    page,
                    be_value(
                        page.subrange(
                            h.cell_pointer_array_offset + k * 2,
                            h.cell_pointer_array_offset + k * 2 + 2,
                        ),
                    ) as int,
                );
                row is Ok && self.table_rows(root, depth)->Ok_0.contains(row->Ok_0)
            }),
        decreases depth,
    {
        let rows = self.table_rows(root, depth)->Ok_0;
        if root == leaf && self.header(leaf)->Ok_0.page_type == 0x0D {
            self.rows_of_all_cells_are_read(root, depth);
            let page = self.page(leaf)->Ok_0;
            let h = self.header(leaf)->Ok_0;
            assert(self.leaf_row(
                leaf,
                page,
                be_value(
                    page.subrange(
                        h.cell_pointer_array_offset + k * 2,
                        h.cell_pointer_array_offset + k * 2 + 2,
                    ),
                ) as int,
            ) == Ok::<Seq<CellView>, SqliteError>(rows[k]));
        } else {
            let below = children(self.page(root)->Ok_0, self.header(root)->Ok_0);
            let c = choose|c: int|
                0 <= c < below.len() && self.leads_to(#[trigger] below[c], leaf, (depth - 1) as nat);
            self.rows_of_all_children_are_read(root, depth);
            assert(self.table_rows(below[c], (depth - 1) as nat) is Ok);
            self.no_reachable_row_is_missed(below[c], leaf, (depth - 1) as nat, k);
            let parts = below.map_values(
                |c: u32| self.table_rows(c, (depth - 1) as nat)->Ok_0,
            );
            let part = parts[c];
            let page = self.page(leaf)->Ok_0;
            let h = self.header(leaf)->Ok_0;
            let row = self.leaf_row(
                leaf,
                page,
                be_value(
                    page.subrange(
                        h.cell_pointer_array_offset + k * 2,
                        h.cell_pointer_array_offset + k * 2 + 2,
                    ),
                ) as int,
            )->Ok_0;
            assert(part.contains(row));
            lemma_flatten_holds(parts, c, row);
        }
    }

    /// A payload is split between its page and overflow pages so that the page
    /// keeps a bounded share: all of it where that fits, else what fills the last
    /// overflow page, or the least share.
    pub proof fn long_payloads_are_shared(self, size: int)
        requires
            self.wf(),
            self.usable_size >= MIN_USABLE_SIZE,
            0 <= size,
        ensures
            ({
                let local = self.local_size(size);
                &&& 0 <= local <= size
                &&& local <= self.usable_size - 35
                &&& (self.min_local() + 23) * 255 <= (self.usable_size - 12) * 32 < (self.min_local()
                    + 24) * 255
                &&& size <= self.usable_size - 35 <==> local == size
                &&& local < size ==> local >= self.min_local() && (local == self.min_local() || (size
                    - local) % (self.usable_size - 4) == 0)
            }),
    {
        let room = self.usable_size - 4;
        let min = self.min_local();
        assert(0 <= min < self.max_local());
        if size > self.max_local() {
            let rest = size - min;
            let q = rest / room;
            let m = rest % room;
            vstd::arithmetic::div_mod::lemma_fundamental_div_mod(rest, room);
            assert(0 <= m < room);
            assert(rest - m == room * q);
            vstd::arithmetic::div_mod::lemma_mod_multiples_basic(q, room);
            assert(room * q == q * room) by (nonlinear_arith);
            assert(size - (min + m) == q * room);
        }
    }

    /// The bytes of an overflow chain are as many as asked for, and asking for fewer
    /// gives the first of them.
    pub proof fn overflow_bytes_are_in_order(self, page_no: u32, fewer: int, size: int)
        requires
            self.wf(),
            0 <= fewer <= size,
            self.overflow(page_no, size) is Ok,
        ensures
            self.overflow(page_no, size)->Ok_0.len() == size,
            self.overflow(page_no, fewer) == Ok::<Seq<u8>, SqliteError>(
                self.overflow(page_no, size)->Ok_0.take(fewer),
            ),
        decreases size,
    {
        let room = self.usable_size - 4;
        let all = self.overflow(page_no, size)->Ok_0;
        if size > 0 {
            let page = self.page(page_no)->Ok_0;
            let chunk = if size < room {
                size
            } else {
                room
            };
            let next = long_at(page, 0)->Ok_0;
            if fewer <= chunk {
                self.overflow_bytes_are_in_order(next, 0, size - chunk);
                if fewer > 0 {
                    assert(self.overflow(next, 0) == Ok::<Seq<u8>, SqliteError>(Seq::empty()));
                    assert(page.subrange(4, 4 + fewer) + Seq::<u8>::empty() =~= all.take(fewer));
                } else {
                    assert(all.take(0) =~= Seq::empty());
                }
            } else {
                self.overflow_bytes_are_in_order(next, fewer - chunk, size - chunk);
                let rest = self.overflow(next, size - chunk)->Ok_0;
                assert(page.subrange(4, 4 + chunk) + rest.take(fewer - chunk) =~= all.take(fewer));
            }
        } else {
            assert(all.take(0) =~= Seq::empty());
        }
    }

    /// An overflow page names the next one in its first four bytes, and the bytes
    /// behind them go before those of the pages that follow.
    pub proof fn overflow_pages_follow_one_another(self, page_no: u32, size: int)
        requires
            self.wf(),
            size > self.usable_size - 4,
            self.overflow(page_no, size) is Ok,
        ensures
            ({
                let page = self.page(page_no)->Ok_0;
                let room = self.usable_size - 4;
                let next = be_value(page.subrange(0, 4)) as u32;
                &&& self.page(page_no) is Ok
                &&& self.overflow(next, size - room) is Ok
                &&& self.overflow(page_no, size)->Ok_0 == page.subrange(4, 4 + room)
                    + self.overflow(next, size - room)->Ok_0
            }),
    {
        words_are_big_endian(self.page(page_no)->Ok_0, 0);
    }

    /// A row is the record in its cell, behind the length of the record and the
    /// number of the row; of a record that does not fit the page the rest comes
    /// from the overflow chain that the cell names.
    pub proof fn rows_are_the_records_of_cells(self, page_no: u32, page: Seq<u8>, offset: int)
        requires
            self.wf(),
            self.usable_size >= MIN_USABLE_SIZE,
            0 <= offset,
            self.leaf_row(page_no, page, offset) is Ok,
        ensures
            exists|record: Seq<u8>|
                {
                    let (size, n) = varint_at(page, offset)->Ok_0;
                    let (_, m) = varint_at(page, offset + n)->Ok_0;
                    let start = offset + n + m;
                    let local = self.local_size(size as int);
                    &&& self.leaf_row(page_no, page, offset) == #[trigger] record_values(record)
                    &&& record.len() == size
                    &&& record.take(local) == page.subrange(start, start + local)
                    &&& local < size ==> self.overflow(
                        be_value(page.subrange(start + local, start + local + 4)) as u32,
                        size - local,
                    ) == Ok::<Seq<u8>, SqliteError>(record.skip(local))
                },
    {
        let (size, n) = varint_at(page, offset)->Ok_0;
        let (_, m) = varint_at(page, offset + n)->Ok_0;
        let start = offset + n + m;
        let local = self.local_size(size as int);
        lemma_varint_len_fits(page, offset, 0);
        lemma_varint_len_fits(page, offset + n, 0);
        self.long_payloads_are_shared(size as int);
        words_are_big_endian(page, start + local);
        let here = page.subrange(start, start + local);
        if size <= local {
            assert(here.take(local) =~= here);
            assert(self.leaf_row(page_no, page, offset) == record_values(here));
        } else {
            let rest = self.overflow(long_at(page, start + local)->Ok_0, size - local)->Ok_0;
            self.overflow_bytes_are_in_order(
                long_at(page, start + local)->Ok_0,
                0,
                size - local,
            );
            assert((here + rest).take(local) =~= here);
            assert((here + rest).skip(local) =~= rest);
            assert(self.leaf_row(page_no, page, offset) == record_values(here + rest));
        }
    }
}

proof fn lemma_child(page: Seq<u8>, h: PageHeader, i: int)
    requires
        0 <= i < h.cell_count,
        word_at(page, h.cell_pointer_array_offset + i * 2) is Ok,
        word_at(page, h.cell_pointer_array_offset + i * 2)->Ok_0 + 4 <= page.len(),
    ensures
        children(page, h)[i] == long_at(
            page,
            word_at(page, h.cell_pointer_array_offset + i * 2)->Ok_0 as int,
        )->Ok_0,
{
    let at = h.cell_pointer_array_offset + i * 2;
    words_are_big_endian(page, at);
    words_are_big_endian(page, word_at(page, at)->Ok_0 as int);
}

proof fn lemma_flatten_holds<A>(parts: Seq<Seq<A>>, i: int, a: A)
    requires
        0 <= i < parts.len(),
        parts[i].contains(a),
    ensures
        parts.flatten().contains(a),
    decreases parts.len(),
{
    let rest = parts.drop_first().flatten();
    assert(parts.flatten() == parts.first() + rest);
    if i == 0 {
        let k = choose|k: int| 0 <= k < parts[0].len() && parts[0][k] == a;
        assert(parts.flatten()[k] == a);
    } else {
        assert(parts.drop_first()[i - 1] == parts[i]);
        lemma_flatten_holds(parts.drop_first(), i - 1, a);
        let k = choose|k: int| 0 <= k < rest.len() && rest[k] == a;
        assert(parts.flatten()[parts.first().len() + k] == a);
    }
}

/// The root page of a table is what the first row of the schema says that is about
/// a table of that name and gives a page.
pub proof fn schema_names_the_root(rows: Seq<Seq<CellView>>, table: Seq<char>, i: int)
    requires
        0 <= i < rows.len(),
        rows[i].len() > 3,
        rows[i][0] == CellView::Text("table"@),
        rows[i][1] == CellView::Text(table),
        rows[i][3] matches CellView::Integer(n) && 0 < n <= u32::MAX,
        forall|j: int|
            0 <= j < i && (#[trigger] rows[j]).len() > 3 ==> rows[j][0] != CellView::Text("table"@)
                || rows[j][1] != CellView::Text(table),
    ensures
        root_page_in(rows, table) == Some(rows[i][3]->Integer_0 as u32),
    decreases rows.len(),
{
    if i > 0 {
        assert(schema_entry(rows[0], table) is None);
        let rest = rows.drop_first();
        assert forall|j: int| 0 <= j < i - 1 && (#[trigger] rest[j]).len() > 3 implies rest[j][0]
            != CellView::Text("table"@) || rest[j][1] != CellView::Text(table) by {
            assert(rest[j] == rows[j + 1]);
        }
        schema_names_the_root(rest, table, i - 1);
    }
}

/// A table that no row of the schema is about has no root page.
pub proof fn unnamed_tables_have_no_root(rows: Seq<Seq<CellView>>, table: Seq<char>)
    requires
        forall|j: int|
            0 <= j < rows.len() && (#[trigger] rows[j]).len() > 3 ==> rows[j][0] != CellView::Text(
                "table"@,
            ) || rows[j][1] != CellView::Text(table),
    ensures
        root_page_in(rows, table) is None,
    decreases rows.len(),
{
    if rows.len() > 0 {
        assert(schema_entry(rows[0], table) is None);
        let rest = rows.drop_first();
        assert forall|j: int| 0 <= j < rest.len() && (#[trigger] rest[j]).len() > 3 implies rest[j][0]
            != CellView::Text("table"@) || rest[j][1] != CellView::Text(table) by {
            assert(rest[j] == rows[j + 1]);
        }
        unnamed_tables_have_no_root(rest, table);
    }
}

proof fn lemma_serials_first(payload: Seq<u8>, cursor: int, end: int)
    requires
        cursor < end,
        serials_from(payload, cursor, end) is Ok,
    ensures
        ({
            let (serial, n) = varint_at(payload, cursor)->Ok_0;
            &&& varint_at(payload, cursor) is Ok
            &&& n > 0
            &&& serials_from(payload, cursor + n, end) is Ok
            &&& serials_from(payload, cursor, end)->Ok_0 == seq![serial] + serials_from(
                payload,
                cursor + n,
                end,
            )->Ok_0
        }),
{
}

/// The serial types in a header are read one behind the other: a number of any
/// length is one of them, and what is read up to a place goes before what is read
/// from there on.
pub proof fn serial_types_are_read_in_order(payload: Seq<u8>, cursor: int, end: int, more: int)
    requires
        0 <= cursor <= end <= more,
        serials_from(payload, cursor, end) is Ok,
        serials_from(payload, end, more) is Ok,
        varint_ends_at(payload, cursor, end),
    ensures
        serials_from(payload, cursor, more) == Ok::<Seq<u64>, SqliteError>(
            serials_from(payload, cursor, end)->Ok_0 + serials_from(payload, end, more)->Ok_0,
        ),
        varint_at(payload, cursor) matches Ok((serial, n)) ==> cursor + n == end && cursor < end
            ==> serials_from(payload, cursor, end)->Ok_0 == seq![serial],
    decreases end - cursor,
{
    if cursor == end {
        let rest = serials_from(payload, end, more)->Ok_0;
        assert(serials_from(payload, cursor, end)->Ok_0 =~= Seq::empty());
        assert(Seq::<u64>::empty() + rest =~= rest);
    } else {
        lemma_serials_first(payload, cursor, end);
        let (serial, n) = varint_at(payload, cursor)->Ok_0;
        serial_types_are_read_in_order(payload, cursor + n, end, more);
        let a = serials_from(payload, cursor + n, end)->Ok_0;
        let b = serials_from(payload, end, more)->Ok_0;
        assert(seq![serial] + (a + b) =~= (seq![serial] + a) + b);
        if cursor + n == end {
            assert(a =~= Seq::empty());
            assert(seq![serial] + a =~= seq![serial]);
        }
    }
}

/// Whether the numbers from a place on end exactly at another one.
pub open spec fn varint_ends_at(payload: Seq<u8>, cursor: int, end: int) -> bool
    decreases
            if end > cursor {
                end - cursor
            } else {
                0
            },
{
    ||| cursor == end
    ||| {
        &&& cursor < end
        &&& varint_at(payload, cursor) matches Ok((_, n)) && n > 0 && cursor + n <= end
            && varint_ends_at(payload, cursor + n, end)
    }
}

// ---------------------------------------------------------------- what can be read

/// Values can be read wherever there are enough bytes for all of them and no type is
/// one of the reserved ones.
pub proof fn values_with_enough_bytes_are_read(serials: Seq<u64>, data: Seq<u8>)
    requires
        forall|i: int|
            0 <= i < serials.len() ==> #[trigger] serials[i] != 10 && serials[i] != 11,
        value_offset(serials, serials.len() as int) <= data.len(),
    ensures
        values_of(serials, data) is Ok,
    decreases serials.len(),
{
    if serials.len() > 0 {
        let rest = serials.drop_first();
        assert(serials[0] != 10 && serials[0] != 11);
        values_take_their_width(serials[0], data);
        lemma_offset_shift(serials, serials.len() as int);
        assert forall|i: int| 0 <= i < rest.len() implies #[trigger] rest[i] != 10 && rest[i]
            != 11 by {
            assert(rest[i] == serials[i + 1]);
        }
        lemma_offset_positive(rest, rest.len() as int);
        let n = width(serials[0]);
        assert(width(serials[0]) <= data.len());
        values_with_enough_bytes_are_read(rest, data.skip(n));
    }
}

proof fn lemma_offset_positive(serials: Seq<u64>, i: int)
    requires
        0 <= i <= serials.len(),
        forall|j: int|
            0 <= j < serials.len() ==> #[trigger] serials[j] != 10 && serials[j] != 11,
    ensures
        0 <= value_offset(serials, i),
    decreases i,
{
    if i > 0 {
        lemma_offset_positive(serials, i - 1);
        assert(serials[i - 1] != 10 && serials[i - 1] != 11);
    }
}

impl SqliteFile {
    /// A page that is there can be read where it is of one of the four kinds and long
    /// enough for its header.
    pub proof fn known_pages_are_read(self, page_no: u32)
        requires
            self.wf(),
            page_no > 0,
            page_no * self.page_size <= self.bytes@.len(),
            self.page_size >= 112,
            ({
                let page = self.page(page_no)->Ok_0;
                let b: int = if page_no == 1 {
                    100
                } else {
                    0
                };
                page[b] == 0x02 || page[b] == 0x05 || page[b] == 0x0A || page[b] == 0x0D
            }),
        ensures
            self.header(page_no) is Ok,
    {
        self.pages_tile_the_file(page_no, 0);
    }

    /// A cell whose record stands on the page gives the values of that record, and one
    /// whose record goes on in overflow pages those of both parts together.
    pub proof fn whole_cells_are_read(
        self,
        page_no: u32,
        page: Seq<u8>,
        offset: int,
        size: u64,
        n: int,
        row_id: u64,
        m: int,
    )
        requires
            self.wf(),
            self.usable_size >= MIN_USABLE_SIZE,
            0 <= offset < page.len(),
            varint_at(page, offset) == Ok::<(u64, int), SqliteError>((size, n)),
            varint_at(page, offset + n) == Ok::<(u64, int), SqliteError>((row_id, m)),
        ensures
            ({
                let start = offset + n + m;
                let local = self.local_size(size as int);
                let next = be_value(page.subrange(start + local, start + local + 4)) as u32;
                &&& size <= self.usable_size - 35 && start + size <= page.len() ==> self.leaf_row(
                    page_no,
                    page,
                    offset,
                ) == record_values(page.subrange(start, start + size))
                &&& size > self.usable_size - 35 && start + local + 4 <= page.len() && self.overflow(
                    next,
                    size - local,
                ) is Ok ==> self.leaf_row(page_no, page, offset) == record_values(
                    page.subrange(start, start + local) + self.overflow(next, size - local)->Ok_0,
                )
            }),
    {
        let start = offset + n + m;
        let local = self.local_size(size as int);
        lemma_varint_len_fits(page, offset, 0);
        lemma_varint_len_fits(page, offset + n, 0);
        self.long_payloads_are_shared(size as int);
        words_are_big_endian(page, start + local);
    }

    /// A chain of overflow pages can be read exactly where each page of it is there, up
    /// to the one that holds the last byte.
    pub proof fn whole_chains_are_read(self, page_no: u32, size: int)
        requires
            self.wf(),
            size > 0,
        ensures
            ({
                let room = self.usable_size - 4;
                let next = be_value(self.page(page_no)->Ok_0.subrange(0, 4)) as u32;
                self.overflow(page_no, size) is Ok <==> {
                    &&& page_no > 0
                    &&& page_no * self.page_size <= self.bytes@.len()
                    &&& size <= room || self.overflow(next, size - room) is Ok
                }
            }),
    {
        if page_no > 0 {
            self.pages_tile_the_file(page_no, 0);
            if self.page(page_no) is Ok {
                let page = self.page(page_no)->Ok_0;
                words_are_big_endian(page, 0);
                let room = self.usable_size - 4;
                if size <= room {
                    assert(self.overflow(long_at(page, 0)->Ok_0, 0) is Ok);
                }
            }
        }
    }

    proof fn lemma_leaf_is_read(self, page_no: u32, page: Seq<u8>, h: PageHeader, i: int)
        requires
            0 <= i <= h.cell_count,
            h.cell_pointer_array_offset + 2 * h.cell_count <= page.len(),
            forall|k: int|
                #![trigger word_at(page, h.cell_pointer_array_offset + k * 2)]
                i <= k < h.cell_count ==> self.leaf_row(
                    page_no,
                    page,
                    word_at(page, h.cell_pointer_array_offset + k * 2)->Ok_0 as int,
                ) is Ok,
        ensures
            self.leaf_rows(page_no, page, h, i) is Ok,
        decreases h.cell_count - i,
    {
        if i < h.cell_count {
            let w = word_at(page, h.cell_pointer_array_offset + i * 2);
            assert(w is Ok);
            assert(self.leaf_row(page_no, page, w->Ok_0 as int) is Ok);
            self.lemma_leaf_is_read(page_no, page, h, i + 1);
        }
    }

    /// A leaf page can be read where the pointers of its cells stand on it and each of
    /// them leads to a row.
    pub proof fn whole_leaves_are_read(self, page_no: u32, depth: nat)
        requires
            self.wf(),
            self.header(page_no) is Ok,
            self.header(page_no)->Ok_0.page_type == 0x0D,
            ({
                let page = self.page(page_no)->Ok_0;
                let h = self.header(page_no)->Ok_0;
                &&& h.cell_pointer_array_offset + 2 * h.cell_count <= page.len()
                &&& forall|k: int|
                    #![trigger word_at(page, h.cell_pointer_array_offset + k * 2)]
                    0 <= k < h.cell_count ==> self.leaf_row(
                        page_no,
                        page,
                        word_at(page, h.cell_pointer_array_offset + k * 2)->Ok_0 as int,
                    ) is Ok
            }),
        ensures
            self.table_rows(page_no, depth) is Ok,
    {
        self.lemma_leaf_is_read(page_no, self.page(page_no)->Ok_0, self.header(page_no)->Ok_0, 0);
    }

    proof fn lemma_interior_is_read(
        self,
        page_no: u32,
        page: Seq<u8>,
        h: PageHeader,
        i: int,
        depth: nat,
    )
        requires
            depth > 0,
            0 <= i <= h.cell_count,
            h.right_most_pointer is Some,
            h.cell_pointer_array_offset + 2 * h.cell_count <= page.len(),
            forall|k: int|
                #![trigger word_at(page, h.cell_pointer_array_offset + k * 2)]
                0 <= k < h.cell_count ==> word_at(page, h.cell_pointer_array_offset + k * 2)->Ok_0
                    + 4 <= page.len(),
            forall|k: int|
                0 <= k <= h.cell_count ==> self.table_rows(
                    #[trigger] children(page, h)[k],
                    (depth - 1) as nat,
                ) is Ok,
        ensures
            self.interior_rows(page_no, page, h, i, depth) is Ok,
        decreases h.cell_count - i,
    {
        if i < h.cell_count {
            let w = word_at(page, h.cell_pointer_array_offset + i * 2);
            assert(w is Ok);
            lemma_child(page, h, i);
            assert(self.table_rows(children(page, h)[i], (depth - 1) as nat) is Ok);
            self.lemma_interior_is_read(page_no, page, h, i + 1, depth);
        } else {
            assert(children(page, h)[i] == h.right_most_pointer->Some_0);
            assert(self.table_rows(children(page, h)[i], (depth - 1) as nat) is Ok);
        }
    }

    /// An interior page can be read where its cells stand on it and every child can be
    /// read.
    pub proof fn whole_trees_are_read(self, page_no: u32, depth: nat)
        requires
            self.wf(),
            depth > 0,
            self.header(page_no) is Ok,
            self.header(page_no)->Ok_0.page_type == 0x05,
            ({
                let page = self.page(page_no)->Ok_0;
                let h = self.header(page_no)->Ok_0;
                &&& h.cell_pointer_array_offset + 2 * h.cell_count <= page.len()
                &&& forall|k: int|
                    #![trigger word_at(page, h.cell_pointer_array_offset + k * 2)]
                    0 <= k < h.cell_count ==> word_at(page, h.cell_pointer_array_offset + k * 2)->Ok_0
                        + 4 <= page.len()
                &&& forall|k: int|
                    0 <= k <= h.cell_count ==> self.table_rows(
                        #[trigger] children(page, h)[k],
                        (depth - 1) as nat,
                    ) is Ok
            }),
        ensures
            self.table_rows(page_no, depth) is Ok,
    {
        self.lemma_interior_is_read(
            page_no,
            self.page(page_no)->Ok_0,
            self.header(page_no)->Ok_0,
            0,
            depth,
        );
    }
}

/// An error on a page names the page.
pub proof fn errors_name_their_page(page: u32, kind: u8, offset: usize, size: usize, len: usize)
    ensures
        ({
            let p = text::decimal(page as nat);
            &&& text::has_part(
                error_text(SqliteError::PageOutOfRange { page, page_size: size, file_len: len }),
                p,
            )
            &&& text::has_part(error_text(SqliteError::ShortPageHeader { page }), p)
            &&& text::has_part(error_text(SqliteError::UnknownPageType { kind, page }), p)
            &&& text::has_part(error_text(SqliteError::UnsupportedPageType { kind, page }), p)
            &&& text::has_part(error_text(SqliteError::InteriorCellOutOfRange { page, offset }), p)
            &&& text::has_part(error_text(SqliteError::LeafCellOutOfRange { page, offset }), p)
            &&& text::has_part(
                error_text(SqliteError::OverflowPointerOutOfRange { page, pos: offset }),
                p,
            )
        }),
{
    let p = text::decimal(page as nat);
    let o = text::decimal(offset as nat);
    let a = error_text(SqliteError::PageOutOfRange { page, page_size: size, file_len: len });
    let a1 = "页号越界 (page="@;
    let a2 = ", page_size="@ + text::decimal(size as nat) + ", file_len="@ + text::decimal(
        len as nat,
    ) + ")"@;
    assert(a =~= a1 + p + a2);
    text::parts_are_found_anywhere(a1, p, a2);
    text::parts_are_found_anywhere("页头长度不足 (page="@, p, ")"@);
    let b1 = "未知 B-Tree 页类型 "@ + hex2(kind) + " (page="@;
    text::parts_are_found_anywhere(b1, p, ")"@);
    let c1 = "不支持的表 B-Tree 页类型 "@ + hex2(kind) + " (page="@;
    text::parts_are_found_anywhere(c1, p, ")"@);
    let d = error_text(SqliteError::InteriorCellOutOfRange { page, offset });
    let d2 = " 内部节点 cell 偏移越界 (offset="@ + o + ")"@;
    assert(d =~= "页 "@ + p + d2);
    text::parts_are_found_anywhere("页 "@, p, d2);
    let e = error_text(SqliteError::LeafCellOutOfRange { page, offset });
    let e2 = " 叶子节点 cell 偏移越界 (offset="@ + o + ")"@;
    assert(e =~= "页 "@ + p + e2);
    text::parts_are_found_anywhere("页 "@, p, e2);
    let f = error_text(SqliteError::OverflowPointerOutOfRange { page, pos: offset });
    let f2 = " overflow 指针越界 (ptr_pos="@ + o + ")"@;
    assert(f =~= "页 "@ + p + f2);
    text::parts_are_found_anywhere("页 "@, p, f2);
}

} // verus!
