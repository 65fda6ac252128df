use vstd::prelude::*;
use vstd::string::*;
use vstd::utf8::*;

verus! {

/// `String::push` appends one character.
pub assume_specification[ String::push ](s: &mut String, c: char)
    ensures
        final(s)@ == old(s)@.push(c),
;

/// Wrapper of `str`'s `==`: two strings are equal when their characters are.
#[verifier::external_body]
pub(crate) fn str_eq(a: &str, b: &str) -> (r: bool)
    ensures
        r == (a@ == b@),
{
    a == b
}

/// Wrapper of `std::str::from_utf8`: the text that valid UTF-8 bytes encode, and
/// nothing for any other bytes.
#[verifier::external_body]
pub(crate) fn utf8_text(data: &[u8]) -> (r: Option<String>)
    ensures
        match r {
            Some(s) => valid_utf8(data@) && s@ == decode_utf8(data@),
            None => !valid_utf8(data@),
        },
{
    std::str::from_utf8(data).ok().map(|s| s.to_string())
}

/// The decimal digit with value `d`.
pub open spec fn digit_char(d: nat) -> char {
    (48 + d) as char
}

/// The decimal numeral of `n`, without leading zeros.
pub open spec fn decimal(n: nat) -> Seq<char>
    decreases n,
{
    if n < 10 {
        seq![digit_char(n)]
    } else {
        decimal(n / 10).push(digit_char(n % 10))
    }
}

fn digit_of(d: u64) -> (c: char)
    requires
        d < 10,
    ensures
        c == digit_char(d as nat),
{
    (48u8 + d as u8) as char
}

/// Writes `n` in decimal.
pub fn u128_text(n: u128) -> (r: String)
    ensures
        r@ == decimal(n as nat),
    decreases n,
{
    if n < 10 {
        let mut s = String::new();
        s.push(digit_of(n as u64));
        assert(s@ =~= decimal(n as nat));
        s
    } else {
        let mut s = u128_text(n / 10);
        s.push(digit_of((n % 10) as u64));
        s
    }
}

/// Writes `n` in decimal.
pub fn u64_text(n: u64) -> (r: String)
    ensures
        r@ == decimal(n as nat),
{
    u128_text(n as u128)
}

/// The decimal numeral of an integer.
pub open spec fn signed_decimal(n: int) -> Seq<char> {
    if n < 0 {
        seq!['-'] + decimal((-n) as nat)
    } else {
        decimal(n as nat)
    }
}

/// Writes an integer in decimal.
pub fn i32_text(n: i32) -> (r: String)
    ensures
        r@ == signed_decimal(n as int),
{
    if n < 0 {
        let digits = u64_text((-(n as i64)) as u64);
        let mut s = String::new();
        s.push('-');
        s.append(digits.as_str());
        assert(s@ =~= signed_decimal(n as int));
        s
    } else {
        u64_text(n as u64)
    }
}

/// The decimal numeral of a number, with zeros in front up to a width.
pub open spec fn padded_decimal(n: nat, width: nat) -> Seq<char> {
    let d = decimal(n);
    if d.len() >= width {
        d
    } else {
        Seq::new((width - d.len()) as nat, |i: int| '0') + d
    }
}

/// Writes a number in decimal with zeros in front up to a width.
pub fn padded_text(n: u64, width: usize) -> (r: String)
    ensures
        r@ == padded_decimal(n as nat, width as nat),
{
    let digits = u64_text(n);
    let chars = chars_of(digits.as_str());
    let len: usize = chars.len();
    let mut s = String::new();
    let mut i: usize = len;
    assert(s@ =~= Seq::new(0, |i: int| '0'));
    while i < width
        invariant
            len <= i,
            len < width ==> i <= width,
            len >= width ==> i == len,
            s@ == Seq::new((i - len) as nat, |i: int| '0'),
        decreases width - i,
    {
        s.push('0');
        i = i + 1;
        assert(s@ =~= Seq::new((i - len) as nat, |i: int| '0'));
    }
    s.append(digits.as_str());
    assert(s@ =~= padded_decimal(n as nat, width as nat));
    s
}

/// The characters of a string as a vector.
pub fn chars_of(s: &str) -> (r: Vec<char>)
    ensures
        r@ == s@,
{
    let mut out: Vec<char> = Vec::new();
    for c in it: s.chars()
        invariant
            out@ == s@.take(it.index()),
            it.seq() == s@,
    {
        out.push(c);
    }
    out
}

/// The string made of the given characters.
pub fn string_of(chars: &[char]) -> (r: String)
    ensures
        r@ == chars@,
{
    let mut out = String::new();
    let mut i: usize = 0;
    while i < chars.len()
        invariant
            i <= chars@.len(),
            out@ == chars@.take(i as int),
        decreases chars.len() - i,
    {
        out.push(chars[i]);
        i = i + 1;
    }
    assert(chars@.take(i as int) =~= chars@);
    out
}

/// Joins two strings.
pub fn cat(a: &str, b: &str) -> (r: String)
    ensures
        r@ == a@ + b@,
{
    let mut s = a.to_owned();
    s.append(b);
    s
}

/// Joins three strings.
pub fn cat3(a: &str, b: &str, c: &str) -> (r: String)
    ensures
        r@ == a@ + b@ + c@,
{
    let mut s = cat(a, b);
    s.append(c);
    s
}

/// Whether `a` comes before `b` in the order of their characters, a prefix
/// first.
pub open spec fn text_lt(a: Seq<char>, b: Seq<char>) -> bool
    decreases a.len(),
{
    if b.len() == 0 {
        false
    } else if a.len() == 0 {
        true
    } else if a[0] != b[0] {
        (a[0] as int) < (b[0] as int)
    } else {
        text_lt(a.drop_first(), b.drop_first())
    }
}

pub proof fn text_lt_irreflexive(a: Seq<char>)
    ensures
        !text_lt(a, a),
    decreases a.len(),
{
    if a.len() > 0 {
        text_lt_irreflexive(a.drop_first());
    }
}

pub proof fn text_lt_transitive(a: Seq<char>, b: Seq<char>, c: Seq<char>)
    requires
        text_lt(a, b),
        text_lt(b, c),
    ensures
        text_lt(a, c),
    decreases a.len(),
{
    if a.len() > 0 && b.len() > 0 && c.len() > 0 && a[0] == b[0] && b[0] == c[0] {
        text_lt_transitive(a.drop_first(), b.drop_first(), c.drop_first());
    }
}

pub proof fn text_lt_total(a: Seq<char>, b: Seq<char>)
    ensures
        text_lt(a, b) || a == b || text_lt(b, a),
    decreases a.len(),
{
    if a.len() == 0 || b.len() == 0 {
        assert(a.len() == 0 && b.len() == 0 ==> a =~= b);
    } else if a[0] == b[0] {
        text_lt_total(a.drop_first(), b.drop_first());
        if a.drop_first() == b.drop_first() {
            assert(a =~= seq![a[0]] + a.drop_first());
            assert(b =~= seq![b[0]] + b.drop_first());
        }
    } else {
        assert((a[0] as int) != (b[0] as int));
    }
}

proof fn lemma_text_lt_skip(a: Seq<char>, b: Seq<char>, n: int)
    requires
        0 <= n <= a.len(),
        n <= b.len(),
        a.take(n) == b.take(n),
    ensures
        text_lt(a, b) == text_lt(a.skip(n), b.skip(n)),
    decreases n,
{
    if n == 0 {
        assert(a.skip(0) =~= a);
        assert(b.skip(0) =~= b);
    } else {
        assert(a[0] == a.take(n)[0]);
        assert(b[0] == b.take(n)[0]);
        assert(a.drop_first().take(n - 1) =~= a.take(n).drop_first());
        assert(b.drop_first().take(n - 1) =~= b.take(n).drop_first());
        lemma_text_lt_skip(a.drop_first(), b.drop_first(), n - 1);
        assert(a.drop_first().skip(n - 1) =~= a.skip(n));
        assert(b.drop_first().skip(n - 1) =~= b.skip(n));
    }
}

fn char_lt(a: char, b: char) -> (r: bool)
    ensures
        r == ((a as int) < (b as int)),
{
    (a as u32) < (b as u32)
}

/// Whether `a` comes before `b`.
pub fn str_lt(a: &str, b: &str) -> (r: bool)
    ensures
        r == text_lt(a@, b@),
{
    let x = chars_of(a);
    let y = chars_of(b);
    let mut i: usize = 0;
    while i < x.len() && i < y.len()
        invariant
            x@ == a@,
            y@ == b@,
            i <= x@.len(),
            i <= y@.len(),
            x@.take(i as int) == y@.take(i as int),
        decreases x.len() - i,
    {
        if x[i] != y[i] {
            proof {
                lemma_text_lt_skip(x@, y@, i as int);
                assert(x@.skip(i as int)[0] == x@[i as int]);
                assert(y@.skip(i as int)[0] == y@[i as int]);
            }
            return char_lt(x[i], y[i]);
        }
        proof {
            assert(x@.take(i + 1) =~= x@.take(i as int).push(x@[i as int]));
            assert(y@.take(i + 1) =~= y@.take(i as int).push(y@[i as int]));
        }
        i = i + 1;
    }
    proof {
        lemma_text_lt_skip(x@, y@, i as int);
    }
    i < y.len()
}

/// A copy of an optional string.
pub fn opt_copy(s: &Option<String>) -> (r: Option<String>)
    ensures
        r == *s,
{
    match s {
        Some(t) => Some(t.clone()),
        None => None,
    }
}

/// The view of an optional string.
pub open spec fn opt_text(s: Option<String>) -> Option<Seq<char>> {
    match s {
        Some(t) => Some(t@),
        None => None,
    }
}

// ---------------------------------------------------------------- ASCII case

pub open spec fn lower_char(c: char) -> char {
    if 65 <= c as int <= 90 {
        (c as int + 32) as char
    } else {
        c
    }
}

pub open spec fn upper_char(c: char) -> char {
    if 97 <= c as int <= 122 {
        (c as int - 32) as char
    } else {
        c
    }
}

/// A text with its ASCII letters in lower case.
pub open spec fn lowered(s: Seq<char>) -> Seq<char> {
    s.map_values(|c: char| lower_char(c))
}

/// A text with its ASCII letters in upper case.
pub open spec fn uppered(s: Seq<char>) -> Seq<char> {
    s.map_values(|c: char| upper_char(c))
}

pub fn to_lower_char(c: char) -> (r: char)
    ensures
        r == lower_char(c),
{
    let n: u32 = c as u32;
    if 65 <= n && n <= 90 {
        (n as u8 + 32) as char
    } else {
        c
    }
}

fn to_upper_char(c: char) -> (r: char)
    ensures
        r == upper_char(c),
{
    let n: u32 = c as u32;
    if 97 <= n && n <= 122 {
        (n as u8 - 32) as char
    } else {
        c
    }
}

pub fn to_lower(s: &str) -> (r: String)
    ensures
        r@ == lowered(s@),
{
    let chars = chars_of(s);
    let mut out = String::new();
    let mut i: usize = 0;
    while i < chars.len()
        invariant
            i <= chars@.len(),
            chars@ == s@,
            out@ == lowered(chars@.take(i as int)),
        decreases chars.len() - i,
    {
        out.push(to_lower_char(chars[i]));
        proof {
            assert(out@ =~= lowered(chars@.take(i + 1)));
        }
        i = i + 1;
    }
    assert(chars@.take(i as int) =~= chars@);
    out
}

pub fn to_upper(s: &str) -> (r: String)
    ensures
        r@ == uppered(s@),
{
    let chars = chars_of(s);
    let mut out = String::new();
    let mut i: usize = 0;
    while i < chars.len()
        invariant
            i <= chars@.len(),
            chars@ == s@,
            out@ == uppered(chars@.take(i as int)),
        decreases chars.len() - i,
    {
        out.push(to_upper_char(chars[i]));
        proof {
            assert(out@ =~= uppered(chars@.take(i + 1)));
        }
        i = i + 1;
    }
    assert(chars@.take(i as int) =~= chars@);
    out
}

/// Whether two texts are equal but for the case of ASCII letters.
pub fn eq_ignore_case(a: &str, b: &str) -> (r: bool)
    ensures
        r == (lowered(a@) == lowered(b@)),
{
    let x = to_lower(a);
    let y = to_lower(b);
    str_eq(x.as_str(), y.as_str())
}

// ---------------------------------------------------------------- parts

/// Whether `part` stands in `s` from index `i` on.
pub open spec fn occurs_at<A>(s: Seq<A>, part: Seq<A>, i: int) -> bool {
    0 <= i && i + part.len() <= s.len() && s.subrange(i, i + part.len()) == part
}

pub open spec fn begins_with<A>(s: Seq<A>, part: Seq<A>) -> bool {
    occurs_at(s, part, 0)
}

/// Whether `part` stands anywhere in `s`.
pub open spec fn has_part<A>(s: Seq<A>, part: Seq<A>) -> bool {
    exists|i: int| occurs_at(s, part, i)
}

fn chars_at(s: &[char], part: &[char], i: usize) -> (r: bool)
    ensures
        r == occurs_at(s@, part@, i as int),
{
    if i > s.len() || part.len() > s.len() - i {
        return false;
    }
    let total: usize = s.len();
    let mut k: usize = 0;
    while k < part.len()
        invariant
            k <= part@.len(),
            total == s@.len(),
            i + part@.len() <= total,
            forall|j: int| 0 <= j < k ==> s@[i + j] == #[trigger] part@[j],
        decreases part.len() - k,
    {
        if s[i + k] != part[k] {
            assert(s@.subrange(i as int, i + part@.len())[k as int] == s@[i + k]);
            return false;
        }
        k = k + 1;
    }
    assert(s@.subrange(i as int, i + part@.len()) =~= part@);
    true
}

pub fn starts_with(s: &str, part: &str) -> (r: bool)
    ensures
        r == begins_with(s@, part@),
{
    let x = chars_of(s);
    let y = chars_of(part);
    chars_at(x.as_slice(), y.as_slice(), 0)
}

/// What follows a prefix.
pub fn strip_prefix(s: &str, part: &str) -> (r: Option<String>)
    ensures
        match r {
            Some(rest) => begins_with(s@, part@) && rest@ == s@.skip(part@.len() as int),
            None => !begins_with(s@, part@),
        },
{
    let x = chars_of(s);
    let y = chars_of(part);
    if chars_at(x.as_slice(), y.as_slice(), 0) {
        let rest = vstd::slice::slice_subrange(x.as_slice(), y.len(), x.len());
        assert(rest@ =~= s@.skip(part@.len() as int));
        Some(string_of(rest))
    } else {
        None
    }
}

pub fn contains(s: &str, part: &str) -> (r: bool)
    ensures
        r == has_part(s@, part@),
{
    let x = chars_of(s);
    let y = chars_of(part);
    let mut i: usize = 0;
    loop
        invariant
            x@ == s@,
            y@ == part@,
            i <= x@.len(),
            forall|j: int| 0 <= j < i ==> !occurs_at(x@, y@, j),
        decreases x.len() - i,
    {
        if chars_at(x.as_slice(), y.as_slice(), i) {
            return true;
        }
        if i == x.len() {
            return false;
        }
        i = i + 1;
    }
}

// ---------------------------------------------------------------- numbers

pub open spec fn is_digit(c: char) -> bool {
    48 <= c as int <= 57
}

pub open spec fn all_digits(s: Seq<char>) -> bool {
    forall|i: int| 0 <= i < s.len() ==> is_digit(#[trigger] s[i])
}

/// The number that some digits spell.
pub open spec fn digits_value(s: Seq<char>) -> nat
    decreases s.len(),
{
    if s.len() == 0 {
        0
    } else {
        (digits_value(s.drop_last()) * 10 + (s.last() as int - 48)) as nat
    }
}

proof fn lemma_digits_prefix(s: Seq<char>, n: int)
    requires
        0 <= n <= s.len(),
        all_digits(s),
    ensures
        digits_value(s.take(n)) <= digits_value(s),
    decreases s.len() - n,
{
    if n < s.len() {
        lemma_digits_prefix(s, n + 1);
        assert(s.take(n + 1).drop_last() =~= s.take(n));
        assert(is_digit(s[n]));
    } else {
        assert(s.take(n) =~= s);
    }
}

/// The unsigned number that a text spells, with an optional plus sign, where it
/// is no more than `max`.
pub open spec fn parsed_uint(s: Seq<char>, max: nat) -> Option<nat> {
    let d = if s.len() > 0 && s[0] == '+' {
        s.skip(1)
    } else {
        s
    };
    if d.len() > 0 && all_digits(d) && digits_value(d) <= max {
        Some(digits_value(d))
    } else {
        None
    }
}

pub fn char_digit(c: char) -> (r: Option<u8>)
    ensures
        match r {
            Some(d) => is_digit(c) && d == c as int - 48 && d < 10,
            None => !is_digit(c),
        },
{
    let n: u32 = c as u32;
    if 48 <= n && n <= 57 {
        Some(n as u8 - 48)
    } else {
        None
    }
}

/// Reads an unsigned number that is no more than `max`.
pub fn parse_uint(s: &str, max: u64) -> (r: Option<u64>)
    ensures
        match r {
            Some(n) => parsed_uint(s@, max as nat) == Some(n as nat),
            None => parsed_uint(s@, max as nat) is None,
        },
{
    let chars = chars_of(s);
    let start: usize = if chars.len() > 0 && chars[0] == '+' {
        1
    } else {
        0
    };
    let digits = vstd::slice::slice_subrange(chars.as_slice(), start, chars.len());
    assert(digits@ =~= if s@.len() > 0 && s@[0] == '+' {
        s@.skip(1)
    } else {
        s@
    });
    parse_digits(digits, max)
}

/// Reads the digits of an unsigned number that is no more than `max`.
pub fn parse_digits(d: &[char], max: u64) -> (r: Option<u64>)
    ensures
        match r {
            Some(n) => d@.len() > 0 && all_digits(d@) && n == digits_value(d@) && n <= max,
            None => d@.len() == 0 || !all_digits(d@) || digits_value(d@) > max,
        },
{
    if d.len() == 0 {
        return None;
    }
    let mut n: u64 = 0;
    let mut i: usize = 0;
    while i < d.len()
        invariant
            i <= d@.len(),
            n <= max,
            n == digits_value(d@.take(i as int)),
            forall|j: int| 0 <= j < i ==> is_digit(#[trigger] d@[j]),
        decreases d.len() - i,
    {
        let v = match char_digit(d[i]) {
            Some(v) => v,
            None => {
                assert(!is_digit(d@[i as int]));
                return None;
            },
        };
        proof {
            assert(d@.take(i + 1).drop_last() =~= d@.take(i as int));
            if all_digits(d@) {
                lemma_digits_prefix(d@, i + 1);
            }
        }
        let next: u128 = n as u128 * 10 + v as u128;
        if next > max as u128 {
            return None;
        }
        n = next as u64;
        i = i + 1;
    }
    assert(d@.take(i as int) =~= d@);
    Some(n)
}

/// A decimal numeral is made of digits that spell its number.
pub proof fn decimal_is_digits(n: nat)
    ensures
        decimal(n).len() > 0,
        all_digits(decimal(n)),
        digits_value(decimal(n)) == n,
    decreases n,
{
    if n < 10 {
        let s = seq![digit_char(n)];
        assert(s.drop_last() =~= Seq::empty());
        assert(digits_value(Seq::<char>::empty()) == 0);
        assert(s.last() == digit_char(n));
    } else {
        decimal_is_digits(n / 10);
        let s = decimal(n);
        assert(s.drop_last() =~= decimal(n / 10));
    }
}

/// Reading the decimal numeral of a number gives the number back.
pub proof fn decimal_round_trip(n: nat, max: nat)
    requires
        n <= max,
    ensures
        parsed_uint(decimal(n), max) == Some(n),
{
    decimal_is_digits(n);
    assert(is_digit(decimal(n)[0]));
}

// ---------------------------------------------------------------- white space

/// The characters with the Unicode property `White_Space`.
pub open spec fn is_white(c: char) -> bool {
    let n = c as int;
    ||| 9 <= n <= 13
    ||| n == 32
    ||| n == 0x85
    ||| n == 0xa0
    ||| n == 0x1680
    ||| 0x2000 <= n <= 0x200a
    ||| n == 0x2028
    ||| n == 0x2029
    ||| n == 0x202f
    ||| n == 0x205f
    ||| n == 0x3000
}

pub fn white(c: char) -> (r: bool)
    ensures
        r == is_white(c),
{
    let n: u32 = c as u32;
    (9 <= n && n <= 13) || n == 32 || n == 0x85 || n == 0xa0 || n == 0x1680 || (0x2000 <= n && n
        <= 0x200a) || n == 0x2028 || n == 0x2029 || n == 0x202f || n == 0x205f || n == 0x3000
}

/// A text without the white space before it.
pub open spec fn trimmed_start(s: Seq<char>) -> Seq<char>
    decreases s.len(),
{
    if s.len() > 0 && is_white(s[0]) {
        trimmed_start(s.drop_first())
    } else {
        s
    }
}

/// A text without the white space behind it.
pub open spec fn trimmed_end(s: Seq<char>) -> Seq<char>
    decreases s.len(),
{
    if s.len() > 0 && is_white(s.last()) {
        trimmed_end(s.drop_last())
    } else {
        s
    }
}

/// A text without the white space around it.
pub open spec fn trimmed(s: Seq<char>) -> Seq<char> {
    trimmed_end(trimmed_start(s))
}

/// The range of characters that trimming keeps.
pub fn trim_range(s: &[char]) -> (r: (usize, usize))
    ensures
        r.0 <= r.1 <= s@.len(),
        s@.subrange(r.0 as int, r.1 as int) == trimmed(s@),
{
    let mut a: usize = 0;
    assert(s@.skip(0) =~= s@);
    while a < s.len() && white(s[a])
        invariant
            a <= s@.len(),
            trimmed_start(s@.skip(a as int)) == trimmed_start(s@),
        decreases s.len() - a,
    {
        assert(s@.skip(a as int).drop_first() =~= s@.skip(a + 1));
        a = a + 1;
    }
    assert(trimmed_start(s@) == s@.skip(a as int));
    let mut b: usize = s.len();
    assert(s@.subrange(a as int, b as int) =~= s@.skip(a as int));
    while b > a && white(s[b - 1])
        invariant
            a <= b <= s@.len(),
            trimmed_end(s@.subrange(a as int, b as int)) == trimmed(s@),
        decreases b,
    {
        assert(s@.subrange(a as int, b as int).drop_last() =~= s@.subrange(a as int, b - 1));
        b = b - 1;
    }
    (a, b)
}

pub fn trim(s: &str) -> (r: String)
    ensures
        r@ == trimmed(s@),
{
    let chars = chars_of(s);
    let (a, b) = trim_range(chars.as_slice());
    string_of(vstd::slice::slice_subrange(chars.as_slice(), a, b))
}

proof fn lemma_trim_start_kept(s: Seq<char>)
    ensures
        trimmed_start(s).len() <= s.len(),
        trimmed_start(s).len() > 0 ==> !is_white(trimmed_start(s)[0]),
    decreases s.len(),
{
    if s.len() > 0 && is_white(s[0]) {
        lemma_trim_start_kept(s.drop_first());
    }
}

proof fn lemma_trim_end_kept(s: Seq<char>)
    ensures
        trimmed_end(s).len() <= s.len(),
        trimmed_end(s) == s.take(trimmed_end(s).len() as int),
        trimmed_end(s).len() > 0 ==> !is_white(trimmed_end(s).last()),
    decreases s.len(),
{
    if s.len() > 0 && is_white(s.last()) {
        lemma_trim_end_kept(s.drop_last());
        assert(s.drop_last().take(trimmed_end(s).len() as int) =~= s.take(
            trimmed_end(s).len() as int,
        ));
    } else {
        assert(s.take(s.len() as int) =~= s);
    }
}

/// Trimming leaves no white space at either end, and nothing is trimmed twice.
pub proof fn trimming_is_idempotent(s: Seq<char>)
    ensures
        trimmed(trimmed(s)) == trimmed(s),
        trimmed(s).len() > 0 ==> !is_white(trimmed(s)[0]) && !is_white(trimmed(s).last()),
{
    lemma_trim_start_kept(s);
    lemma_trim_end_kept(trimmed_start(s));
    let t = trimmed(s);
    if t.len() > 0 {
        assert(t[0] == trimmed_start(s)[0]);
    }
    lemma_trim_end_kept(t);
}

/// The text, or another one where there is none.
pub open spec fn or_else_text(o: Option<Seq<char>>, other: Seq<char>) -> Seq<char> {
    match o {
        Some(t) => t,
        None => other,
    }
}

pub fn or_text(o: &Option<String>, other: &str) -> (r: String)
    ensures
        r@ == or_else_text(opt_text(*o), other@),
{
    match o {
        Some(t) => t.clone(),
        None => other.to_owned(),
    }
}


// ---------------------------------------------------------------- splitting

/// The views of some strings.
pub open spec fn texts(s: Seq<String>) -> Seq<Seq<char>> {
    s.map_values(|t: String| t@)
}

/// The parts of a text between separators.
pub open spec fn parts(s: Seq<char>, sep: char) -> Seq<Seq<char>>
    decreases s.len(),
{
    if s.len() == 0 {
        seq![Seq::empty()]
    } else {
        let before = parts(s.drop_last(), sep);
        if s.last() == sep {
            before.push(Seq::empty())
        } else {
            before.drop_last().push(before.last().push(s.last()))
        }
    }
}

proof fn lemma_parts_some(s: Seq<char>, sep: char)
    ensures
        parts(s, sep).len() > 0,
    decreases s.len(),
{
    if s.len() > 0 {
        lemma_parts_some(s.drop_last(), sep);
    }
}

/// Splits a text at each separator.
pub fn split(s: &str, sep: char) -> (r: Vec<String>)
    ensures
        texts(r@) == parts(s@, sep),
        r@.len() > 0,
{
    let chars = chars_of(s);
    let mut out: Vec<String> = Vec::new();
    let mut part = String::new();
    let mut i: usize = 0;
    proof {
        assert(chars@.take(0) =~= Seq::empty());
        assert(part@ =~= Seq::empty());
        assert(texts(out@).push(part@) =~= parts(chars@.take(0), sep));
    }
    while i < chars.len()
        invariant
            i <= chars@.len(),
            chars@ == s@,
            texts(out@).push(part@) == parts(chars@.take(i as int), sep),
        decreases chars.len() - i,
    {
        let c = chars[i];
        let ghost before = parts(chars@.take(i as int), sep);
        let ghost done = out@;
        proof {
            assert(chars@.take(i + 1).drop_last() =~= chars@.take(i as int));
            assert(chars@.take(i + 1).last() == c);
            assert(before.last() == part@);
            assert(before.drop_last() =~= texts(out@));
        }
        if c == sep {
            out.push(part);
            part = String::new();
            proof {
                assert(part@ =~= Seq::empty());
                assert(texts(out@) =~= before);
            }
        } else {
            part.push(c);
        }
        i = i + 1;
    }
    let ghost done = out@;
    out.push(part);
    proof {
        assert(chars@.take(i as int) =~= chars@);
        assert(texts(out@) =~= texts(done).push(part@));
    }
    out
}

/// What stands before the first `c`; all of the text where there is none.
pub open spec fn head(s: Seq<char>, c: char) -> Seq<char>
    decreases s.len(),
{
    if s.len() == 0 || s[0] == c {
        Seq::empty()
    } else {
        seq![s[0]] + head(s.skip(1), c)
    }
}

proof fn lemma_head(s: Seq<char>, c: char, n: int)
    requires
        0 <= n <= s.len(),
        forall|i: int| 0 <= i < n ==> s[i] != c,
        n < s.len() ==> s[n] == c,
    ensures
        head(s, c) == s.take(n),
        s.contains(c) == (n < s.len()),
    decreases n,
{
    if n < s.len() {
        assert(s[n] == c);
    }
    if n == 0 {
        assert(s.take(0) =~= Seq::empty());
    } else {
        assert(s[0] != c);
        assert forall|i: int| 0 <= i < n - 1 implies s.skip(1)[i] != c by {
            assert(s[i + 1] != c);
        }
        lemma_head(s.skip(1), c, n - 1);
        assert(seq![s[0]] + s.skip(1).take(n - 1) =~= s.take(n));
    }
}

/// What stands before the first `c` leaves room for it.
pub proof fn head_is_shorter(s: Seq<char>, c: char)
    ensures
        head(s, c).len() <= s.len(),
        s.contains(c) ==> head(s, c).len() < s.len(),
    decreases s.len(),
{
    if s.len() > 0 && s[0] != c {
        head_is_shorter(s.skip(1), c);
        if s.contains(c) {
            let i = choose|i: int| 0 <= i < s.len() && s[i] == c;
            assert(s.skip(1)[i - 1] == c);
        }
    }
}

/// Cuts a text at the first `c`.
pub fn split_once(s: &str, c: char) -> (r: Option<(String, String)>)
    ensures
        match r {
            Some((a, b)) => s@.contains(c) && a@ == head(s@, c) && b@ == s@.skip(a@.len() as int + 1),
            None => !s@.contains(c),
        },
{
    let chars = chars_of(s);
    let mut i: usize = 0;
    while i < chars.len() && chars[i] != c
        invariant
            i <= chars@.len(),
            chars@ == s@,
            forall|j: int| 0 <= j < i ==> chars@[j] != c,
        decreases chars.len() - i,
    {
        i = i + 1;
    }
    proof {
        lemma_head(s@, c, i as int);
    }
    if i < chars.len() {
        let a = vstd::slice::slice_subrange(chars.as_slice(), 0, i);
        let b = vstd::slice::slice_subrange(chars.as_slice(), i + 1, chars.len());
        assert(a@ =~= s@.take(i as int));
        assert(b@ =~= s@.skip(i + 1));
        Some((string_of(a), string_of(b)))
    } else {
        None
    }
}

/// What stands behind the last `c`; all of the text where there is none.
pub open spec fn tail(s: Seq<char>, c: char) -> Seq<char>
    decreases s.len(),
{
    if s.len() == 0 || s.last() == c {
        Seq::empty()
    } else {
        tail(s.drop_last(), c).push(s.last())
    }
}

proof fn lemma_tail(s: Seq<char>, c: char, n: int)
    requires
        0 <= n <= s.len(),
        forall|i: int| n <= i < s.len() ==> s[i] != c,
        n > 0 ==> s[n - 1] == c,
    ensures
        tail(s, c) == s.skip(n),
        s.contains(c) == (n > 0),
    decreases s.len(),
{
    if n > 0 {
        assert(s[n - 1] == c);
    }
    if n == s.len() {
        assert(s.skip(n) =~= Seq::empty());
    } else {
        assert forall|i: int| n <= i < s.len() - 1 implies s.drop_last()[i] != c by {
            assert(s[i] != c);
        }
        lemma_tail(s.drop_last(), c, n);
        assert(s.drop_last().skip(n).push(s.last()) =~= s.skip(n));
    }
}

/// Cuts a text at the last `c`.
pub fn rsplit_once(s: &str, c: char) -> (r: Option<(String, String)>)
    ensures
        match r {
            Some((a, b)) => s@.contains(c) && b@ == tail(s@, c) && a@ == s@.take(
                s@.len() - b@.len() - 1,
            ),
            None => !s@.contains(c) && tail(s@, c) == s@,
        },
{
    let chars = chars_of(s);
    let mut n: usize = chars.len();
    while n > 0 && chars[n - 1] != c
        invariant
            n <= chars@.len(),
            chars@ == s@,
            forall|j: int| n <= j < chars@.len() ==> chars@[j] != c,
        decreases n,
    {
        n = n - 1;
    }
    proof {
        lemma_tail(s@, c, n as int);
    }
    if n > 0 {
        let a = vstd::slice::slice_subrange(chars.as_slice(), 0, n - 1);
        let b = vstd::slice::slice_subrange(chars.as_slice(), n, chars.len());
        assert(a@ =~= s@.take(n - 1));
        assert(b@ =~= s@.skip(n as int));
        Some((string_of(a), string_of(b)))
    } else {
        assert(s@.skip(0) =~= s@);
        None
    }
}

/// Texts with a separator between them.
pub open spec fn joined(texts: Seq<Seq<char>>, separator: Seq<char>) -> Seq<char>
    decreases texts.len(),
{
    if texts.len() == 0 {
        Seq::empty()
    } else if texts.len() == 1 {
        texts[0]
    } else {
        joined(texts.drop_last(), separator) + separator + texts.last()
    }
}

/// Joins texts with a separator between them.
pub fn join(items: &Vec<String>, separator: &str) -> (r: String)
    ensures
        r@ == joined(texts(items@), separator@),
{
    let mut out = String::new();
    let mut i: usize = 0;
    assert(out@ =~= Seq::empty());
    while i < items.len()
        invariant
            i <= items@.len(),
            out@ == joined(texts(items@).take(i as int), separator@),
        decreases items.len() - i,
    {
        let ghost all = texts(items@);
        proof {
            assert(all.take(i + 1).drop_last() =~= all.take(i as int));
            assert(all.take(i + 1).last() == items@[i as int]@);
        }
        if i == 0 {
            assert(all.take(1)[0] == items@[0]@);
            out = items[0].clone();
        } else {
            out.append(separator);
            out.append(items[i].as_str());
        }
        i = i + 1;
    }
    assert(texts(items@).take(i as int) =~= texts(items@));
    out
}

/// A text without a prefix before it, however often that stands there.
pub open spec fn without_prefix(s: Seq<char>, prefix: Seq<char>) -> Seq<char>
    decreases s.len(),
{
    if prefix.len() > 0 && begins_with(s, prefix) {
        without_prefix(s.skip(prefix.len() as int), prefix)
    } else {
        s
    }
}

/// Takes a prefix away as often as it stands before a text.
pub fn trim_prefix(s: &str, prefix: &str) -> (r: String)
    requires
        prefix@.len() > 0,
    ensures
        r@ == without_prefix(s@, prefix@),
{
    let mut rest = s.to_owned();
    let mut open = true;
    while open
        invariant
            prefix@.len() > 0,
            without_prefix(rest@, prefix@) == without_prefix(s@, prefix@),
            !open ==> !begins_with(rest@, prefix@),
        decreases rest@.len() + (if open {
            1nat
        } else {
            0nat
        }),
    {
        match strip_prefix(rest.as_str(), prefix) {
            Some(next) => {
                rest = next;
            },
            None => {
                open = false;
            },
        }
    }
    rest
}

/// A text joined from the parts of another one, at the same separator, is that
/// text.
pub proof fn joining_undoes_splitting(s: Seq<char>, sep: char)
    ensures
        joined(parts(s, sep), seq![sep]) == s,
    decreases s.len(),
{
    if s.len() > 0 {
        let before = parts(s.drop_last(), sep);
        lemma_parts_some(s.drop_last(), sep);
        joining_undoes_splitting(s.drop_last(), sep);
        let now = parts(s, sep);
        if s.last() == sep {
            assert(now.drop_last() =~= before);
            assert(joined(now, seq![sep]) =~= s.drop_last() + seq![sep] + Seq::empty());
            assert(s.drop_last() + seq![sep] + Seq::<char>::empty() =~= s);
        } else {
            assert(now.drop_last() =~= before.drop_last());
            assert(now.last() =~= before.last().push(s.last()));
            if before.len() == 1 {
                assert(before[0] == s.drop_last());
                assert(now[0] == before.last().push(s.last()));
            } else {
                assert(joined(now, seq![sep]) =~= joined(before, seq![sep]).push(s.last()));
            }
            assert(s.drop_last().push(s.last()) =~= s);
        }
    } else {
        assert(parts(s, sep)[0] =~= s);
    }
}

// ---------------------------------------------------------------- laws

/// Whether a text is nothing but white space.
pub open spec fn blank(s: Seq<char>) -> bool {
    forall|i: int| 0 <= i < s.len() ==> is_white(#[trigger] s[i])
}

proof fn lemma_trim_start_cut(w: Seq<char>, s: Seq<char>)
    requires
        blank(w),
        s.len() > 0 ==> !is_white(s[0]),
    ensures
        trimmed_start(w + s) == s,
    decreases w.len(),
{
    if w.len() > 0 {
        assert((w + s)[0] == w[0]);
        assert((w + s).drop_first() =~= w.drop_first() + s);
        assert forall|i: int| 0 <= i < w.drop_first().len() implies is_white(
            #[trigger] w.drop_first()[i],
        ) by {
            assert(w.drop_first()[i] == w[i + 1]);
        }
        lemma_trim_start_cut(w.drop_first(), s);
    } else {
        assert(w + s =~= s);
    }
}

proof fn lemma_trim_end_cut(s: Seq<char>, w: Seq<char>)
    requires
        blank(w),
        s.len() > 0 ==> !is_white(s.last()),
    ensures
        trimmed_end(s + w) == s,
    decreases w.len(),
{
    if w.len() > 0 {
        assert((s + w).last() == w.last());
        assert(is_white(w[w.len() - 1]));
        assert((s + w).drop_last() =~= s + w.drop_last());
        lemma_trim_end_cut(s, w.drop_last());
    } else {
        assert(s + w =~= s);
    }
}

/// Trimming takes the white space away that stands around a text, and nothing of
/// the text, white space inside it included.
pub proof fn trimming_takes_only_the_ends(before: Seq<char>, s: Seq<char>, behind: Seq<char>)
    requires
        blank(before),
        blank(behind),
        s.len() > 0 ==> !is_white(s[0]) && !is_white(s.last()),
    ensures
        trimmed(before + s + behind) == s,
{
    assert(before + s + behind =~= before + (s + behind));
    if s.len() > 0 {
        assert((s + behind)[0] == s[0]);
        lemma_trim_start_cut(before, s + behind);
        lemma_trim_end_cut(s, behind);
    } else {
        let all = before + behind;
        assert(before + s + behind =~= all + s);
        assert forall|i: int| 0 <= i < all.len() implies is_white(#[trigger] all[i]) by {
            if i < before.len() {
                assert(is_white(before[i]));
            } else {
                assert(is_white(behind[i - before.len()]));
            }
        }
        lemma_trim_start_cut(all, s);
        assert(trimmed_end(s) =~= s);
    }
}

/// What is trimmed away of a text is white space before it and behind it.
pub proof fn trimming_cuts_a_middle(s: Seq<char>) -> (r: (int, int))
    ensures
        0 <= r.0 <= r.1 <= s.len(),
        trimmed(s) == s.subrange(r.0, r.1),
        blank(s.take(r.0)),
        blank(s.skip(r.1)),
    decreases s.len(),
{
    if s.len() > 0 && is_white(s[0]) {
        let inner = s.drop_first();
        let (a, b) = trimming_cuts_a_middle(inner);
        assert(s.subrange(a + 1, b + 1) =~= inner.subrange(a, b));
        assert forall|i: int| 0 <= i < a + 1 implies is_white(#[trigger] s.take(a + 1)[i]) by {
            if i > 0 {
                assert(is_white(inner.take(a)[i - 1]));
            }
        }
        assert(s.skip(b + 1) =~= inner.skip(b));
        (a + 1, b + 1)
    } else {
        assert(trimmed(s) == trimmed_end(s));
        let b = lemma_trim_end_middle(s);
        assert(s.subrange(0, b) =~= s.take(b));
        (0, b)
    }
}

proof fn lemma_trim_end_middle(s: Seq<char>) -> (b: int)
    ensures
        0 <= b <= s.len(),
        trimmed_end(s) == s.take(b),
        blank(s.skip(b)),
    decreases s.len(),
{
    if s.len() > 0 && is_white(s.last()) {
        let inner = s.drop_last();
        let b = lemma_trim_end_middle(inner);
        assert(inner.take(b) =~= s.take(b));
        assert forall|i: int| 0 <= i < s.len() - b implies is_white(#[trigger] s.skip(b)[i]) by {
            if i < inner.len() - b {
                assert(is_white(inner.skip(b)[i]));
            }
        }
        b
    } else {
        assert(s.take(s.len() as int) =~= s);
        s.len() as int
    }
}

/// A text is cut at the first of several separators: what stands before it is
/// kept whole.
pub proof fn cutting_finds_the_first(a: Seq<char>, c: char, b: Seq<char>)
    requires
        !a.contains(c),
    ensures
        head(a, c) == a,
        head(a + seq![c] + b, c) == a,
        (a + seq![c] + b).skip(a.len() as int + 1) == b,
{
    let s = a + seq![c] + b;
    assert(s[a.len() as int] == c);
    assert forall|i: int| 0 <= i < a.len() implies s[i] != c by {
        assert(a.contains(a[i]));
    }
    lemma_head(s, c, a.len() as int);
    assert(s.take(a.len() as int) =~= a);
    assert forall|i: int| 0 <= i < a.len() implies a[i] != c by {
        assert(a.contains(a[i]));
    }
    lemma_head(a, c, a.len() as int);
    assert(a.take(a.len() as int) =~= a);
    assert(s.skip(a.len() as int + 1) =~= b);
}

/// A text is cut at the last of several separators where it is read from its end:
/// what stands behind that one is kept whole.
pub proof fn cutting_finds_the_last(a: Seq<char>, c: char, b: Seq<char>)
    requires
        !b.contains(c),
    ensures
        tail(b, c) == b,
        tail(a + seq![c] + b, c) == b,
{
    let s = a + seq![c] + b;
    let n = a.len() as int + 1;
    assert(s[n - 1] == c);
    assert forall|i: int| n <= i < s.len() implies s[i] != c by {
        assert(b.contains(b[i - n]));
        assert(s[i] == b[i - n]);
    }
    lemma_tail(s, c, n);
    assert(s.skip(n) =~= b);
    assert forall|i: int| 0 <= i < b.len() implies b[i] != c by {
        assert(b.contains(b[i]));
    }
    lemma_tail(b, c, 0);
    assert(b.skip(0) =~= b);
}

/// No part of a text that was split holds the separator, and there is one part
/// more than there are separators.
pub proof fn parts_hold_no_separator(s: Seq<char>, sep: char)
    ensures
        forall|i: int, k: int|
            0 <= i < parts(s, sep).len() && 0 <= k < parts(s, sep)[i].len() ==> #[trigger] parts(
                s,
                sep,
            )[i][k] != sep,
        parts(s, sep).len() == s.filter(|c: char| c == sep).len() + 1,
    decreases s.len(),
{
    let separates = |c: char| c == sep;
    reveal(Seq::filter);
    if s.len() > 0 {
        parts_hold_no_separator(s.drop_last(), sep);
        let before = parts(s.drop_last(), sep);
        let now = parts(s, sep);
        assert forall|i: int, k: int|
            0 <= i < now.len() && 0 <= k < now[i].len() implies #[trigger] now[i][k] != sep by {
            if i < before.len() && k < before[i].len() {
                assert(before[i][k] != sep);
            }
        }
    }
}

/// Splitting what was joined gives the parts back, where none of them holds the
/// separator.
pub proof fn splitting_undoes_joining(items: Seq<Seq<char>>, sep: char)
    requires
        items.len() > 0,
        forall|i: int| 0 <= i < items.len() ==> !(#[trigger] items[i]).contains(sep),
    ensures
        parts(joined(items, seq![sep]), sep) == items,
    decreases items.len(),
{
    let last = items.last();
    assert(!items[items.len() - 1].contains(sep));
    if items.len() == 1 {
        lemma_parts_tail(Seq::empty(), last, sep);
        assert(Seq::<char>::empty() + last =~= last);
        let none = parts(Seq::empty(), sep);
        assert(none.drop_last().push(none.last() + last) =~= items);
    } else {
        let rest = items.drop_last();
        assert forall|i: int| 0 <= i < rest.len() implies !(#[trigger] rest[i]).contains(sep) by {
            assert(rest[i] == items[i]);
        }
        splitting_undoes_joining(rest, sep);
        let front = joined(rest, seq![sep]) + seq![sep];
        assert(front.drop_last() =~= joined(rest, seq![sep]));
        lemma_parts_tail(front, last, sep);
        assert(parts(front, sep) == rest.push(Seq::empty()));
        assert(parts(front, sep).drop_last() =~= rest);
        assert(Seq::<char>::empty() + last =~= last);
        assert(rest.push(last) =~= items);
    }
}

proof fn lemma_parts_tail(s: Seq<char>, t: Seq<char>, sep: char)
    requires
        !t.contains(sep),
    ensures
        parts(s + t, sep) == parts(s, sep).drop_last().push(parts(s, sep).last() + t),
    decreases t.len(),
{
    lemma_parts_some(s, sep);
    if t.len() == 0 {
        assert(s + t =~= s);
        assert(parts(s, sep).last() + t =~= parts(s, sep).last());
        assert(parts(s, sep).drop_last().push(parts(s, sep).last()) =~= parts(s, sep));
    } else {
        let u = t.drop_last();
        assert(!u.contains(sep)) by {
            if u.contains(sep) {
                let i = choose|i: int| 0 <= i < u.len() && u[i] == sep;
                assert(t[i] == sep);
            }
        }
        lemma_parts_tail(s, u, sep);
        assert((s + t).drop_last() =~= s + u);
        assert((s + t).last() == t.last());
        assert(t[t.len() - 1] != sep) by {
            assert(t.contains(t[t.len() - 1]));
        }
        let before = parts(s + u, sep);
        assert(before.drop_last() =~= parts(s, sep).drop_last());
        assert((parts(s, sep).last() + u).push(t.last()) =~= parts(s, sep).last() + t);
    }
}

/// Digits are read with the first one counting most: a digit behind others makes
/// ten times their number, and itself.
pub proof fn digits_count_by_place(a: Seq<char>, b: Seq<char>)
    requires
        all_digits(b),
    ensures
        digits_value(a + b) == digits_value(a) * pow10(b.len()) + digits_value(b),
    decreases b.len(),
{
    if b.len() == 0 {
        assert(a + b =~= a);
        assert(digits_value(a) * 1 == digits_value(a));
        assert(pow10(0) == 1);
        assert(digits_value(b) == 0);
    } else {
        let c = b.drop_last();
        assert forall|i: int| 0 <= i < c.len() implies is_digit(#[trigger] c[i]) by {
            assert(is_digit(b[i]));
        }
        assert(is_digit(b[b.len() - 1]));
        digits_count_by_place(a, c);
        assert((a + b).drop_last() =~= a + c);
        let x = digits_value(a);
        let p = pow10(c.len());
        assert((x * p) * 10 == x * (p * 10)) by (nonlinear_arith);
        assert((a + b).last() == b.last());
        assert(pow10(b.len()) == p * 10);
    }
}

/// A power of ten.
pub open spec fn pow10(n: nat) -> nat
    decreases n,
{
    if n == 0 {
        1
    } else {
        pow10((n - 1) as nat) * 10
    }
}

/// Numbers are read with or without a plus sign and with zeros in front; what is
/// larger than the limit, or holds anything but digits, is none.
pub proof fn numbers_are_read_by_value(d: Seq<char>, max: nat)
    requires
        d.len() > 0,
        d[0] != '+',
    ensures
        all_digits(d) && digits_value(d) <= max ==> parsed_uint(d, max) == Some(digits_value(d)),
        !all_digits(d) || digits_value(d) > max ==> parsed_uint(d, max) is None,
        parsed_uint(seq!['+'] + d, max) == parsed_uint(d, max),
        parsed_uint(seq!['0'] + d, max) == parsed_uint(d, max),
        parsed_uint(Seq::empty(), max) is None,
{
    assert((seq!['+'] + d).skip(1) =~= d);
    let z = seq!['0'] + d;
    if all_digits(d) {
        assert forall|i: int| 0 <= i < z.len() implies is_digit(#[trigger] z[i]) by {
            if i > 0 {
                assert(is_digit(d[i - 1]));
            }
        }
        digits_count_by_place(seq!['0'], d);
        assert(seq!['0'].drop_last() =~= Seq::empty());
        assert(digits_value(Seq::<char>::empty()) == 0);
        assert(seq!['0'].last() == '0');
        assert(digits_value(seq!['0']) == 0);
    } else {
        let i = choose|i: int| 0 <= i < d.len() && !is_digit(#[trigger] d[i]);
        assert(z[i + 1] == d[i]);
    }
}

/// A numeral with zeros in front still spells its number, in no less than the
/// width asked for and no more digits than that unless it needs them.
pub proof fn padding_keeps_the_number(n: nat, width: nat)
    ensures
        all_digits(padded_decimal(n, width)),
        digits_value(padded_decimal(n, width)) == n,
        padded_decimal(n, width).len() >= width,
        padded_decimal(n, width).len() > width ==> padded_decimal(n, width) == decimal(n),
{
    let d = decimal(n);
    decimal_is_digits(n);
    if d.len() < width {
        let z = Seq::new((width - d.len()) as nat, |i: int| '0');
        digits_count_by_place(z, d);
        lemma_zeros((width - d.len()) as nat);
        assert(0 * pow10(d.len()) == 0);
        let r = z + d;
        assert forall|i: int| 0 <= i < r.len() implies is_digit(#[trigger] r[i]) by {
            if i >= z.len() {
                assert(is_digit(d[i - z.len()]));
            }
        }
    }
}

proof fn lemma_zeros(k: nat)
    ensures
        digits_value(Seq::new(k, |i: int| '0')) == 0,
    decreases k,
{
    let z = Seq::new(k, |i: int| '0');
    if k > 0 {
        lemma_zeros((k - 1) as nat);
        assert(z.drop_last() =~= Seq::new((k - 1) as nat, |i: int| '0'));
    }
}

/// Texts are ordered by the first character in which they differ.
pub proof fn first_difference_orders(p: Seq<char>, a: Seq<char>, b: Seq<char>)
    requires
        a.len() > 0 && b.len() > 0 ==> a[0] != b[0],
    ensures
        a.len() > 0 && b.len() > 0 ==> text_lt(p + a, p + b) == ((a[0] as int) < (b[0] as int)),
        a.len() == 0 ==> text_lt(p + a, p + b) == (b.len() > 0),
        b.len() == 0 ==> !text_lt(p + a, p + b),
    decreases p.len(),
{
    if p.len() == 0 {
        assert(p + a =~= a);
        assert(p + b =~= b);
    } else {
        first_difference_orders(p.drop_first(), a, b);
        assert((p + a).drop_first() =~= p.drop_first() + a);
        assert((p + b).drop_first() =~= p.drop_first() + b);
    }
}

/// Lower case and upper case differ in ASCII letters alone, by the distance
/// between the two alphabets, and changing case twice changes nothing more.
pub proof fn case_changes_letters_only(s: Seq<char>, i: int)
    requires
        0 <= i < s.len(),
    ensures
        lowered(s).len() == s.len(),
        uppered(s).len() == s.len(),
        'A' <= s[i] <= 'Z' ==> lowered(s)[i] as int - 'a' as int == s[i] as int - 'A' as int,
        'a' <= s[i] <= 'z' ==> uppered(s)[i] as int - 'A' as int == s[i] as int - 'a' as int,
        !('A' <= s[i] <= 'Z') ==> lowered(s)[i] == s[i],
        !('a' <= s[i] <= 'z') ==> uppered(s)[i] == s[i],
        lowered(lowered(s)) == lowered(s),
        uppered(lowered(s)) == uppered(s),
{
    assert(lowered(lowered(s)) =~= lowered(s));
    assert(uppered(lowered(s)) =~= uppered(s));
}

/// A prefix that is taken away does not stand before what is left, and what was
/// taken is nothing but that prefix.
pub proof fn prefixes_are_taken_whole(prefix: Seq<char>, s: Seq<char>)
    requires
        prefix.len() > 0,
    ensures
        without_prefix(prefix + s, prefix) == without_prefix(s, prefix),
        !begins_with(without_prefix(s, prefix), prefix),
        !begins_with(s, prefix) ==> without_prefix(s, prefix) == s,
    decreases s.len(),
{
    assert((prefix + s).subrange(0, prefix.len() as int) =~= prefix);
    assert((prefix + s).skip(prefix.len() as int) =~= s);
    if begins_with(s, prefix) {
        prefixes_are_taken_whole(prefix, s.skip(prefix.len() as int));
    }
}

/// A part is found wherever it stands, and a prefix at the start.
pub proof fn parts_are_found_anywhere(a: Seq<char>, part: Seq<char>, b: Seq<char>)
    ensures
        has_part(a + part + b, part),
        begins_with(part + b, part),
        begins_with(a, part) ==> has_part(a, part) && a == part + a.skip(part.len() as int),
{
    let s = a + part + b;
    let n = a.len() as int;
    assert(s.subrange(n, n + part.len()) =~= part);
    assert(occurs_at(s, part, n));
    assert((part + b).subrange(0, part.len() as int) =~= part);
    if begins_with(a, part) {
        assert(occurs_at(a, part, 0));
        assert(a =~= a.subrange(0, part.len() as int) + a.skip(part.len() as int));
    }
}

/// An integer is written with a minus sign where it is negative, and its digits
/// spell its size.
pub proof fn signs_are_written(n: int)
    ensures
        n >= 0 ==> digits_value(signed_decimal(n)) == n && all_digits(signed_decimal(n)),
        n < 0 ==> signed_decimal(n)[0] == '-' && digits_value(signed_decimal(n).skip(1)) == -n
            && all_digits(signed_decimal(n).skip(1)),
{
    if n < 0 {
        decimal_is_digits((-n) as nat);
        assert(signed_decimal(n).skip(1) =~= decimal((-n) as nat));
    } else {
        decimal_is_digits(n as nat);
    }
}

/// A numeral of one digit is that digit; a longer one is the numeral of all but its
/// last digit, and has no zero in front.
pub proof fn numerals_are_decimal(n: nat, d: nat)
    requires
        d < 10,
    ensures
        decimal(d).len() == 1 && decimal(d)[0] as int == '0' as int + d,
        n > 0 ==> decimal(n * 10 + d) == decimal(n) + decimal(d),
        n > 0 ==> decimal(n)[0] != '0',
    decreases n,
{
    if n > 0 {
        assert((n * 10 + d) / 10 == n && (n * 10 + d) % 10 == d);
        assert(decimal(n * 10 + d) =~= decimal(n) + decimal(d));
        if n >= 10 {
            numerals_are_decimal(n / 10, n % 10);
            assert(n == n / 10 * 10 + n % 10);
            assert(decimal(n)[0] == decimal(n / 10)[0]) by {
                decimal_is_digits(n / 10);
            }
        }
    }
}

/// White space is what separates words: blanks, tabs and line breaks, also those
/// beyond ASCII, and no visible character of ASCII.
pub proof fn white_space_separates_words(c: char)
    ensures
        c == ' ' || c == '\t' || c == '\n' || c == '\r' ==> is_white(c),
        c as int == 0x3000 || c as int == 0xa0 ==> is_white(c),
        '!' <= c <= '~' ==> !is_white(c),
        is_digit(c) <==> '0' <= c <= '9',
        is_digit(c) ==> !is_white(c),
{
}

} // verus!
