//! Device names and encryption keys from the exports of the Mi Fitness app: the
//! log of the Android app, and a database of the iOS app.
use vstd::prelude::*;
use vstd::string::*;
use vstd::utf8::*;

use crate::json::{self, Json, JsonView};
use crate::mifit::archive;
use crate::mifit::package::{self, Unpacked, UnpackedView};
use crate::mifit::sqlite::{self, CellView, SqliteCellValue, SqliteError, SqliteFile};
use crate::text::{self, chars_of, str_eq, str_lt, string_of, utf8_text};

verus! {

#[derive(Clone, Copy, Debug, Eq, PartialEq, Structural)]
pub enum Platform {
    Android,
    Ios,
}

impl Platform {
    pub open spec fn label(self) -> Seq<char> {
        match self {
            Platform::Android => "Android"@,
            Platform::Ios => "iOS"@,
        }
    }

    pub fn as_label(self) -> (r: &'static str)
        ensures
            r@ == self.label(),
    {
        match self {
            Platform::Android => "Android",
            Platform::Ios => "iOS",
        }
    }
}

/// A device with the key that its watch was paired with.
#[derive(Debug)]
pub struct DeviceInfo {
    pub name: String,
    pub encrypt_key: String,
    pub platform: Platform,
}

impl DeviceInfo {
    pub fn duplicate(&self) -> (r: DeviceInfo)
        ensures
            r == *self,
    {
        DeviceInfo {
            name: self.name.clone(),
            encrypt_key: self.encrypt_key.clone(),
            platform: self.platform,
        }
    }
}

// ---------------------------------------------------------------- names and keys

pub open spec fn is_hex_char(c: char) -> bool {
    let n = c as int;
    48 <= n <= 57 || 97 <= n <= 102 || 65 <= n <= 70
}

/// Whether a text is a key: thirty-two hexadecimal digits.
pub open spec fn is_key(s: Seq<char>) -> bool {
    s.len() == 32 && forall|i: int| 0 <= i < s.len() ==> is_hex_char(#[trigger] s[i])
}

fn hex_char(c: char) -> (r: bool)
    ensures
        r == is_hex_char(c),
{
    let n: u32 = c as u32;
    (48 <= n && n <= 57) || (97 <= n && n <= 102) || (65 <= n && n <= 70)
}

pub fn is_hex_32(s: &str) -> (r: bool)
    ensures
        r == is_key(s@),
{
    let chars = chars_of(s);
    if chars.len() != 32 {
        return false;
    }
    let mut i: usize = 0;
    while i < chars.len()
        invariant
            i <= chars@.len(),
            chars@ == s@,
            chars@.len() == 32,
            forall|j: int| 0 <= j < i ==> is_hex_char(#[trigger] chars@[j]),
        decreases chars.len() - i,
    {
        if !hex_char(chars[i]) {
            assert(!is_hex_char(s@[i as int]));
            return false;
        }
        i = i + 1;
    }
    true
}

/// The name in a raw text: nothing where it is blank or the null marker.
pub open spec fn name_of(raw: Seq<char>) -> Option<Seq<char>> {
    let t = text::trimmed(raw);
    if t.len() == 0 || t == "$null"@ {
        None
    } else {
        Some(t)
    }
}

pub fn normalize_name(raw: &str) -> (r: Option<String>)
    ensures
        text::opt_text(r) == name_of(raw@),
{
    let t = text::trim(raw);
    if t.as_str().is_empty() || str_eq(t.as_str(), "$null") {
        None
    } else {
        Some(t)
    }
}

/// The key in a field, where it is one.
pub open spec fn key_at(v: JsonView, field: Seq<char>) -> Option<Seq<char>> {
    match v.str_at(field) {
        Some(s) => if is_key(s) {
            Some(s)
        } else {
            None
        },
        None => None,
    }
}

/// The first key among the fields that may hold one.
pub open spec fn key_in(v: JsonView) -> Option<Seq<char>> {
    match key_at(v, "encryptKey"@) {
        Some(k) => Some(k),
        None => match key_at(v, "encrypt_key"@) {
            Some(k) => Some(k),
            None => key_at(v, "encryptkey"@),
        },
    }
}

/// The name in a field, where it has one.
pub open spec fn name_at(v: JsonView, field: Seq<char>) -> Option<Seq<char>> {
    match v.str_at(field) {
        Some(s) => name_of(s),
        None => None,
    }
}

/// The first name among the fields that may hold one.
pub open spec fn name_in(v: JsonView) -> Option<Seq<char>> {
    match name_at(v, "name"@) {
        Some(n) => Some(n),
        None => match name_at(v, "deviceName"@) {
            Some(n) => Some(n),
            None => match name_at(v, "device_name"@) {
                Some(n) => Some(n),
                None => match name_at(v, "productName"@) {
                    Some(n) => Some(n),
                    None => match name_at(v, "product_name"@) {
                        Some(n) => Some(n),
                        None => name_at(v, "bltNamePrefix"@),
                    },
                },
            },
        },
    }
}

fn read_key(v: &Json, field: &str) -> (r: Option<String>)
    ensures
        text::opt_text(r) == key_at(v@, field@),
{
    match v.str_at(field) {
        Some(s) => if is_hex_32(s) {
            Some(s.to_owned())
        } else {
            None
        },
        None => None,
    }
}

fn extract_encrypt_key(v: &Json) -> (r: Option<String>)
    ensures
        text::opt_text(r) == key_in(v@),
{
    if let Some(k) = read_key(v, "encryptKey") {
        return Some(k);
    }
    if let Some(k) = read_key(v, "encrypt_key") {
        return Some(k);
    }
    read_key(v, "encryptkey")
}

fn read_name(v: &Json, field: &str) -> (r: Option<String>)
    ensures
        text::opt_text(r) == name_at(v@, field@),
{
    match v.str_at(field) {
        Some(s) => normalize_name(s),
        None => None,
    }
}

fn extract_name(v: &Json) -> (r: Option<String>)
    ensures
        text::opt_text(r) == name_in(v@),
{
    if let Some(n) = read_name(v, "name") {
        return Some(n);
    }
    if let Some(n) = read_name(v, "deviceName") {
        return Some(n);
    }
    if let Some(n) = read_name(v, "device_name") {
        return Some(n);
    }
    if let Some(n) = read_name(v, "productName") {
        return Some(n);
    }
    if let Some(n) = read_name(v, "product_name") {
        return Some(n);
    }
    read_name(v, "bltNamePrefix")
}

// ---------------------------------------------------------------- pairs

/// The name in force inside an object: its own, else the one around it.
pub open spec fn name_inside(v: JsonView, around: Option<Seq<char>>) -> Option<Seq<char>> {
    match name_in(v) {
        Some(n) => Some(n),
        None => around,
    }
}

/// Whether a value holds a key under a name: an object with the key, named by
/// itself or by the nearest object around it that has a name.
pub open spec fn has_pair(
    v: JsonView,
    around: Option<Seq<char>>,
    name: Seq<char>,
    key: Seq<char>,
) -> bool
    decreases v,
{
    match v {
        JsonView::Object(m) => {
            ||| key_in(v) == Some(key) && name == text::or_else_text(
                name_inside(v, around),
                "未知设备"@,
            )
            ||| exists|f: Seq<char>|
                #[trigger] m.dom().contains(f) && has_pair(m[f], name_inside(v, around), name, key)
        },
        JsonView::Array(items) => some_has_pair(items, around, name, key),
        _ => false,
    }
}

/// Whether one of some values holds a key under a name.
pub open spec fn some_has_pair(
    items: Seq<JsonView>,
    around: Option<Seq<char>>,
    name: Seq<char>,
    key: Seq<char>,
) -> bool
    decreases items,
{
    items.len() > 0 && (has_pair(items.last(), around, name, key) || some_has_pair(
        items.drop_last(),
        around,
        name,
        key,
    ))
}

proof fn lemma_object_pair(
    m: Map<Seq<char>, JsonView>,
    around: Option<Seq<char>>,
    name: Seq<char>,
    key: Seq<char>,
)
    ensures
        ({
            let v = JsonView::Object(m);
            let within = name_inside(v, around);
            has_pair(v, around, name, key) <==> (key_in(v) == Some(key) && name
                == text::or_else_text(within, "未知设备"@)) || exists|f: Seq<char>|
                #[trigger] m.dom().contains(f) && has_pair(m[f], within, name, key)
        }),
{
}

/// Whether a list holds a pair.
pub open spec fn lists(pairs: Seq<(String, String)>, name: Seq<char>, key: Seq<char>) -> bool {
    exists|i: int|
        0 <= i < pairs.len() && (#[trigger] pairs[i]).0@ == name && pairs[i].1@ == key
}

proof fn lemma_lists_push(pairs: Seq<(String, String)>, p: (String, String), name: Seq<char>, key: Seq<char>)
    ensures
        lists(pairs.push(p), name, key) <==> lists(pairs, name, key) || (p.0@ == name && p.1@
            == key),
{
    let all = pairs.push(p);
    if lists(pairs, name, key) {
        let i = choose|i: int|
            0 <= i < pairs.len() && (#[trigger] pairs[i]).0@ == name && pairs[i].1@ == key;
        assert(all[i].0@ == name);
    }
    if p.0@ == name && p.1@ == key {
        assert(all[pairs.len() as int].0@ == name);
    }
    if lists(all, name, key) {
        let i = choose|i: int|
            0 <= i < all.len() && (#[trigger] all[i]).0@ == name && all[i].1@ == key;
        if i < pairs.len() {
            assert(pairs[i].0@ == name);
        }
    }
}

/// Whether an entry of an object is replaced by a later one.
pub open spec fn replaced(entries: Seq<(String, Json)>, i: int) -> bool {
    exists|j: int| i < j < entries.len() && (#[trigger] entries[j]).0@ == entries[i].0@
}

pub(crate) fn is_replaced(entries: &Vec<(String, Json)>, i: usize) -> (r: bool)
    requires
        i < entries@.len(),
    ensures
        r == replaced(entries@, i as int),
{
    let total: usize = entries.len();
    let mut j: usize = i + 1;
    while j < total
        invariant
            i < j <= entries@.len(),
            total == entries@.len(),
            forall|k: int| i < k < j ==> (#[trigger] entries@[k]).0@ != entries@[i as int].0@,
        decreases total - j,
    {
        if str_eq(entries[j].0.as_str(), entries[i].0.as_str()) {
            return true;
        }
        j = j + 1;
    }
    false
}

pub(crate) proof fn lemma_entry_kept(entries: Seq<(String, Json)>, i: int)
    requires
        0 <= i < entries.len(),
        !replaced(entries, i),
    ensures
        json::entries_view(entries).dom().contains(entries[i].0@),
        json::entries_view(entries)[entries[i].0@] == entries[i].1@,
    decreases entries.len(),
{
    if i < entries.len() - 1 {
        let front = entries.drop_last();
        assert(entries[entries.len() - 1].0@ != entries[i].0@);
        assert(!replaced(front, i)) by {
            if replaced(front, i) {
                let j = choose|j: int| i < j < front.len() && (#[trigger] front[j]).0@ == front[i].0@;
                assert(entries[j].0@ == entries[i].0@);
            }
        }
        lemma_entry_kept(front, i);
    }
}

pub(crate) proof fn lemma_field_entry(entries: Seq<(String, Json)>, f: Seq<char>) -> (i: int)
    requires
        json::entries_view(entries).dom().contains(f),
    ensures
        0 <= i < entries.len(),
        entries[i].0@ == f,
        !replaced(entries, i),
        json::entries_view(entries)[f] == entries[i].1@,
    decreases entries.len(),
{
    if entries.last().0@ == f {
        entries.len() - 1
    } else {
        let i = lemma_field_entry(entries.drop_last(), f);
        assert(!replaced(entries, i)) by {
            if replaced(entries, i) {
                let j = choose|j: int| i < j < entries.len() && (#[trigger] entries[j]).0@ == entries[i].0@;
                if j < entries.len() - 1 {
                    assert(entries.drop_last()[j].0@ == entries.drop_last()[i].0@);
                }
            }
        }
        i
    }
}

/// Adds the pairs of a value to those given.
fn collect_pairs(v: &Json, around: &Option<String>, out: &mut Vec<(String, String)>)
    ensures
        forall|n: Seq<char>, k: Seq<char>| #[trigger]
            lists(final(out)@, n, k) <==> lists(old(out)@, n, k) || has_pair(
                v@,
                text::opt_text(*around),
                n,
                k,
            ),
    decreases v,
{
    match v {
        Json::Object(o) => {
            let own = extract_name(v);
            let inside = match own {
                Some(n) => Some(n),
                None => text::opt_copy(around),
            };
            let ghost within = text::opt_text(inside);
            assert(within == name_inside(v@, text::opt_text(*around)));
            let ghost first = out@;
            if let Some(key) = extract_encrypt_key(v) {
                let name = text::or_text(&inside, "未知设备");
                proof {
                    assert forall|n: Seq<char>, k: Seq<char>| #[trigger]
                        lists(out@.push((name, key)), n, k) <==> lists(out@, n, k) || (name@ == n
                            && key@ == k) by {
                        lemma_lists_push(out@, (name, key), n, k);
                    }
                }
                out.push((name, key));
            }
            let ghost own_key = key_in(v@);
            let ghost own_name = text::or_else_text(within, "未知设备"@);
            let mut i: usize = 0;
            while i < o.entries.len()
                invariant
                    i <= o.entries@.len(),
                    *v == Json::Object(*o),
                    within == text::opt_text(inside),
                    forall|n: Seq<char>, k: Seq<char>| #[trigger]
                        lists(out@, n, k) <==> lists(first, n, k) || (own_key == Some(k) && n
                            == own_name) || child_pair(o.entries@, i as int, within, n, k),
                decreases o.entries.len() - i,
            {
                let skip = is_replaced(&o.entries, i);
                let ghost before = out@;
                if !skip {
                    proof {
                        assert(decreases_to!(o.entries@[i as int] => o.entries@[i as int].1));
                        assert(decreases_to!(o.entries@ => o.entries@[i as int]));
                        assert(decreases_to!(o.entries => o.entries@));
                        assert(decreases_to!(*o => o.entries));
                        assert(decreases_to!(*v => v->Object_0));
                    }
                    collect_pairs(&o.entries[i].1, &inside, out);
                }
                proof {
                    assert forall|n: Seq<char>, k: Seq<char>| #[trigger]
                        lists(out@, n, k) <==> lists(first, n, k) || (own_key == Some(k) && n
                            == own_name) || child_pair(o.entries@, i + 1, within, n, k) by {
                        assert(lists(before, n, k) <==> lists(first, n, k) || (own_key == Some(k)
                            && n == own_name) || child_pair(o.entries@, i as int, within, n, k));
                        if child_pair(o.entries@, i + 1, within, n, k) {
                            let next = i + 1;
                            let j = choose|j: int| child_pair_at(o.entries@, j, next, within, n, k);
                            if j < i {
                                assert(child_pair_at(o.entries@, j, i as int, within, n, k));
                            }
                        }
                        if child_pair(o.entries@, i as int, within, n, k) {
                            let j = choose|j: int| child_pair_at(o.entries@, j, i as int, within, n, k);
                            assert(child_pair_at(o.entries@, j, i + 1, within, n, k));
                        }
                        if !skip && has_pair(o.entries@[i as int].1@, within, n, k) {
                            assert(child_pair_at(o.entries@, i as int, i + 1, within, n, k));
                        }
                    }
                }
                i = i + 1;
            }
            proof {
                let m = json::entries_view(o.entries@);
                let around_text = text::opt_text(*around);
                assert forall|n: Seq<char>, k: Seq<char>| #[trigger]
                    lists(out@, n, k) <==> lists(first, n, k) || has_pair(
                        v@,
                        around_text,
                        n,
                        k,
                    ) by {
                    lemma_object_pair(m, around_text, n, k);
                    assert(v@ == JsonView::Object(m));
                    if child_pair(o.entries@, i as int, within, n, k) {
                        let j = choose|j: int| child_pair_at(o.entries@, j, i as int, within, n, k);
                        lemma_entry_kept(o.entries@, j);
                        let f = o.entries@[j].0@;
                        assert(m.dom().contains(f) && has_pair(m[f], within, n, k));
                    }
                    if exists|f: Seq<char>|
                        #[trigger] m.dom().contains(f) && has_pair(m[f], within, n, k) {
                        let f = choose|f: Seq<char>|
                            #[trigger] m.dom().contains(f) && has_pair(m[f], within, n, k);
                        let j = lemma_field_entry(o.entries@, f);
                        assert(child_pair_at(o.entries@, j, i as int, within, n, k));
                    }
                }
            }
        },
        Json::Array(items) => {
            let ghost first = out@;
            let ghost around_text = text::opt_text(*around);
            let ghost views = json::items_view(items@);
            proof {
                json::lemma_items_view_index(items@);
            }
            let mut i: usize = 0;
            while i < items.len()
                invariant
                    i <= items@.len(),
                    *v == Json::Array(*items),
                    views.len() == items@.len(),
                    forall|j: int| 0 <= j < items@.len() ==> views[j] == #[trigger] items@[j].view(),
                    around_text == text::opt_text(*around),
                    forall|n: Seq<char>, k: Seq<char>| #[trigger]
                        lists(out@, n, k) <==> lists(first, n, k) || some_has_pair(
                            views.take(i as int),
                            around_text,
                            n,
                            k,
                        ),
                decreases items.len() - i,
            {
                proof {
                    assert(decreases_to!(items@ => items@[i as int]));
                    assert(decreases_to!(*items => items@));
                    assert(decreases_to!(*v => v->Array_0));
                    assert(views.take(i + 1).drop_last() =~= views.take(i as int));
                    assert(views.take(i + 1).last() == items@[i as int].view());
                }
                collect_pairs(&items[i], around, out);
                i = i + 1;
            }
            proof {
                assert(views.take(i as int) =~= views);
                assert(v@ == JsonView::Array(views));
            }
        },
        _ => {},
    }
}

spec fn child_pair_at(
    entries: Seq<(String, Json)>,
    j: int,
    n: int,
    within: Option<Seq<char>>,
    name: Seq<char>,
    key: Seq<char>,
) -> bool {
    0 <= j < n && j < entries.len() && !replaced(entries, j) && has_pair(
        entries[j].1@,
        within,
        name,
        key,
    )
}

spec fn child_pair(
    entries: Seq<(String, Json)>,
    n: int,
    within: Option<Seq<char>>,
    name: Seq<char>,
    key: Seq<char>,
) -> bool {
    exists|j: int| child_pair_at(entries, j, n, within, name, key)
}

// ---------------------------------------------------------------- devices

/// Whether one device is listed before another: by name, then by key.
pub open spec fn device_before(a: DeviceInfo, b: DeviceInfo) -> bool {
    pair_before(a.name@, a.encrypt_key@, b.name@, b.encrypt_key@)
}

pub open spec fn pair_before(n1: Seq<char>, k1: Seq<char>, n2: Seq<char>, k2: Seq<char>) -> bool {
    text::text_lt(n1, n2) || (n1 == n2 && text::text_lt(k1, k2))
}

/// Devices in strictly ascending order: no device twice.
pub open spec fn devices_ascend(d: Seq<DeviceInfo>) -> bool {
    forall|i: int, j: int|
        0 <= i < j < d.len() ==> device_before(#[trigger] d[i], #[trigger] d[j])
}

/// Whether a device is listed.
pub open spec fn has_device(d: Seq<DeviceInfo>, name: Seq<char>, key: Seq<char>) -> bool {
    exists|i: int| device_at(d, i, name, key)
}

pub open spec fn device_at(d: Seq<DeviceInfo>, i: int, name: Seq<char>, key: Seq<char>) -> bool {
    0 <= i < d.len() && d[i].name@ == name && d[i].encrypt_key@ == key
}

/// Whether a raw pair stands for a device: its name cleaned, its key in lower
/// case and a key at all.
pub open spec fn pair_is(raw_name: Seq<char>, raw_key: Seq<char>, name: Seq<char>, key: Seq<char>) -> bool {
    &&& name == text::or_else_text(name_of(raw_name), "未知设备"@)
    &&& key == text::lowered(raw_key)
    &&& is_key(key)
}

/// Whether a list is the devices of one platform that have a property, each once
/// and in order.
pub open spec fn devices_with(
    d: Seq<DeviceInfo>,
    platform: Platform,
    p: spec_fn(Seq<char>, Seq<char>) -> bool,
) -> bool {
    &&& devices_ascend(d)
    &&& forall|i: int| 0 <= i < d.len() ==> (#[trigger] d[i]).platform == platform
    &&& forall|n: Seq<char>, k: Seq<char>| #[trigger] has_device(d, n, k) <==> p(n, k)
}

/// Whether some of the first `n` raw pairs stands for a device.
pub open spec fn pair_listed(raw: Seq<(String, String)>, n: int, name: Seq<char>, key: Seq<char>) -> bool {
    exists|i: int| pair_listed_at(raw, i, n, name, key)
}

pub open spec fn pair_listed_at(raw: Seq<(String, String)>, i: int, n: int, name: Seq<char>, key: Seq<char>) -> bool {
    0 <= i < n && i < raw.len() && pair_is(raw[i].0@, raw[i].1@, name, key)
}

fn pair_lt(n1: &str, k1: &str, n2: &str, k2: &str) -> (r: bool)
    ensures
        r == pair_before(n1@, k1@, n2@, k2@),
{
    if str_lt(n1, n2) {
        true
    } else if str_eq(n1, n2) {
        str_lt(k1, k2)
    } else {
        false
    }
}

proof fn lemma_pair_order(n1: Seq<char>, k1: Seq<char>, n2: Seq<char>, k2: Seq<char>)
    ensures
        pair_before(n1, k1, n2, k2) || (n1 == n2 && k1 == k2) || pair_before(n2, k2, n1, k1),
        !pair_before(n1, k1, n1, k1),
{
    text::text_lt_total(n1, n2);
    text::text_lt_total(k1, k2);
    text::text_lt_irreflexive(n1);
    text::text_lt_irreflexive(k1);
}

proof fn lemma_pair_transitive(
    n1: Seq<char>,
    k1: Seq<char>,
    n2: Seq<char>,
    k2: Seq<char>,
    n3: Seq<char>,
    k3: Seq<char>,
)
    requires
        pair_before(n1, k1, n2, k2),
        pair_before(n2, k2, n3, k3),
    ensures
        pair_before(n1, k1, n3, k3),
{
    if text::text_lt(n1, n2) && text::text_lt(n2, n3) {
        text::text_lt_transitive(n1, n2, n3);
    }
    if n1 == n2 && n2 == n3 {
        text::text_lt_irreflexive(n1);
        text::text_lt_transitive(k1, k2, k3);
    }
}

/// Adds a device to an ordered list, unless it is there.
fn add_device(d: &mut Vec<DeviceInfo>, name: String, key: String, platform: Platform)
    requires
        devices_ascend(old(d)@),
        forall|i: int| 0 <= i < old(d)@.len() ==> (#[trigger] old(d)@[i]).platform == platform,
    ensures
        devices_ascend(final(d)@),
        forall|i: int| 0 <= i < final(d)@.len() ==> (#[trigger] final(d)@[i]).platform == platform,
        forall|n: Seq<char>, k: Seq<char>| #[trigger]
            has_device(final(d)@, n, k) <==> has_device(old(d)@, n, k) || (n == name@ && k
                == key@),
{
    let ghost before = d@;
    let mut i: usize = 0;
    while i < d.len() && pair_lt(
        d[i].name.as_str(),
        d[i].encrypt_key.as_str(),
        name.as_str(),
        key.as_str(),
    )
        invariant
            i <= d@.len(),
            d@ == before,
            devices_ascend(d@),
            forall|j: int|
                0 <= j < i ==> pair_before(
                    (#[trigger] d@[j]).name@,
                    d@[j].encrypt_key@,
                    name@,
                    key@,
                ),
        decreases d.len() - i,
    {
        i = i + 1;
    }
    if i < d.len() && str_eq(d[i].name.as_str(), name.as_str()) && str_eq(
        d[i].encrypt_key.as_str(),
        key.as_str(),
    ) {
        assert(device_at(d@, i as int, name@, key@));
        return ;
    }
    let e = DeviceInfo { name, encrypt_key: key, platform };
    proof {
        assert forall|j: int| i <= j < before.len() implies pair_before(
            name@,
            key@,
            (#[trigger] before[j]).name@,
            before[j].encrypt_key@,
        ) by {
            lemma_pair_order(
                before[i as int].name@,
                before[i as int].encrypt_key@,
                name@,
                key@,
            );
            if j > i {
                assert(device_before(before[i as int], before[j]));
                lemma_pair_transitive(
                    name@,
                    key@,
                    before[i as int].name@,
                    before[i as int].encrypt_key@,
                    before[j].name@,
                    before[j].encrypt_key@,
                );
            }
        }
    }
    d.insert(i, e);
    proof {
        let after = d@;
        assert(after == before.insert(i as int, e));
        assert forall|a: int, b: int| 0 <= a < b < after.len() implies device_before(
            #[trigger] after[a],
            #[trigger] after[b],
        ) by {
            let a0 = if a < i { a } else { a - 1 };
            let b0 = if b < i { b } else { b - 1 };
            if a != i && b != i {
                assert(device_before(before[a0], before[b0]));
            }
        }
        assert forall|n: Seq<char>, k: Seq<char>| #[trigger]
            has_device(after, n, k) <==> has_device(before, n, k) || (n == name@ && k == key@) by {
            if has_device(after, n, k) {
                let a = choose|a: int| device_at(after, a, n, k);
                if a != i {
                    assert(device_at(before, if a < i { a } else { a - 1 }, n, k));
                }
            }
            if has_device(before, n, k) {
                let a = choose|a: int| device_at(before, a, n, k);
                assert(device_at(after, if a < i { a } else { a + 1 }, n, k));
            }
            if n == name@ && k == key@ {
                assert(device_at(after, i as int, n, k));
            }
        }
    }
}

/// The devices that raw pairs stand for, each once, by name and then by key.
pub fn dedup_pairs(raw_pairs: &Vec<(String, String)>, platform: Platform) -> (out: Vec<DeviceInfo>)
    ensures
        devices_with(
            out@,
            platform,
            |n: Seq<char>, k: Seq<char>| pair_listed(raw_pairs@, raw_pairs@.len() as int, n, k),
        ),
{
    let mut out: Vec<DeviceInfo> = Vec::new();
    let mut i: usize = 0;
    proof {
        assert forall|n: Seq<char>, k: Seq<char>| #[trigger]
            has_device(out@, n, k) <==> pair_listed(raw_pairs@, 0, n, k) by {
            if has_device(out@, n, k) {
                let a = choose|a: int| device_at(out@, a, n, k);
                assert(false);
            }
        }
    }
    while i < raw_pairs.len()
        invariant
            i <= raw_pairs@.len(),
            devices_ascend(out@),
            forall|j: int| 0 <= j < out@.len() ==> (#[trigger] out@[j]).platform == platform,
            forall|n: Seq<char>, k: Seq<char>| #[trigger]
                has_device(out@, n, k) <==> pair_listed(raw_pairs@, i as int, n, k),
        decreases raw_pairs.len() - i,
    {
        let ghost before = out@;
        let cleaned = normalize_name(raw_pairs[i].0.as_str());
        let name = text::or_text(&cleaned, "未知设备");
        let key = text::to_lower(raw_pairs[i].1.as_str());
        let good = is_hex_32(key.as_str());
        let ghost name_text = name@;
        let ghost key_text = key@;
        if good {
            add_device(&mut out, name, key, platform);
        }
        proof {
            assert forall|n: Seq<char>, k: Seq<char>| #[trigger]
                has_device(out@, n, k) <==> pair_listed(raw_pairs@, i + 1, n, k) by {
                assert(has_device(before, n, k) <==> pair_listed(raw_pairs@, i as int, n, k));
                if pair_listed(raw_pairs@, i + 1, n, k) {
                    let next = i + 1;
                            let j = choose|j: int| pair_listed_at(raw_pairs@, j, next, n, k);
                    if j < i {
                        assert(pair_listed_at(raw_pairs@, j, i as int, n, k));
                    }
                }
                if pair_listed(raw_pairs@, i as int, n, k) {
                    let j = choose|j: int| pair_listed_at(raw_pairs@, j, i as int, n, k);
                    assert(pair_listed_at(raw_pairs@, j, i + 1, n, k));
                }
                if good && n == name_text && k == key_text {
                    assert(pair_listed_at(raw_pairs@, i as int, i + 1, n, k));
                }
            }
        }
        i = i + 1;
    }
    proof {
        let p = |n: Seq<char>, k: Seq<char>|
            pair_listed(raw_pairs@, raw_pairs@.len() as int, n, k);
        assert forall|n: Seq<char>, k: Seq<char>| #[trigger] has_device(out@, n, k) <==> p(n, k) by {}
    }
    out
}

/// Whether a value holds a device.
pub open spec fn device_in(v: JsonView, name: Seq<char>, key: Seq<char>) -> bool {
    exists|n: Seq<char>, k: Seq<char>| #[trigger]
        has_pair(v, None, n, k) && #[trigger] pair_is(n, k, name, key)
}

/// The devices that a value holds.
pub fn devices_in(value: &Json, platform: Platform) -> (out: Vec<DeviceInfo>)
    ensures
        devices_with(
            out@,
            platform,
            |n: Seq<char>, k: Seq<char>| device_in(value@, n, k),
        ),
{
    let mut raw: Vec<(String, String)> = Vec::new();
    let none: Option<String> = None;
    collect_pairs(value, &none, &mut raw);
    let out = dedup_pairs(&raw, platform);
    proof {
        let p = |n: Seq<char>, k: Seq<char>| pair_listed(raw@, raw@.len() as int, n, k);
        let q = |n: Seq<char>, k: Seq<char>| device_in(value@, n, k);
        assert forall|n: Seq<char>, k: Seq<char>| #[trigger] has_device(out@, n, k) <==> q(n, k) by {
            assert(has_device(out@, n, k) <==> p(n, k));
            if p(n, k) {
                let i = choose|i: int| pair_listed_at(raw@, i, raw@.len() as int, n, k);
                assert(pair_listed_at(raw@, i, raw@.len() as int, n, k));
                assert(lists(raw@, raw@[i].0@, raw@[i].1@));
                assert(has_pair(value@, None, raw@[i].0@, raw@[i].1@));
            }
            if q(n, k) {
                let (rn, rk) = choose|rn: Seq<char>, rk: Seq<char>| #[trigger]
                    has_pair(value@, None, rn, rk) && #[trigger] pair_is(rn, rk, n, k);
                assert(lists(raw@, rn, rk));
                let i = choose|i: int|
                    0 <= i < raw@.len() && (#[trigger] raw@[i]).0@ == rn && raw@[i].1@ == rk;
                assert(pair_listed_at(raw@, i, raw@.len() as int, n, k));
            }
        }
    }
    out
}

// ---------------------------------------------------------------- Android

/// The state of the scan for objects in a log.
pub struct Scan {
    /// How many braces are open.
    pub depth: nat,
    /// Where the outermost open brace stands.
    pub start: int,
    pub quoted: bool,
    pub escaped: bool,
}

/// The scan after one more character, the `i`-th one.
pub open spec fn scan_step(s: Scan, c: char, i: int) -> Scan {
    if s.quoted {
        if s.escaped {
            Scan { escaped: false, ..s }
        } else if c == '\\' {
            Scan { escaped: true, ..s }
        } else if c == '"' {
            Scan { quoted: false, ..s }
        } else {
            s
        }
    } else if c == '"' {
        Scan { quoted: true, ..s }
    } else if c == '{' {
        Scan {
            depth: s.depth + 1,
            start: if s.depth == 0 {
                i
            } else {
                s.start
            },
            ..s
        }
    } else if c == '}' && s.depth > 0 {
        Scan { depth: (s.depth - 1) as nat, ..s }
    } else {
        s
    }
}

/// The scan after the first `n` characters.
pub open spec fn scanned(input: Seq<char>, n: int) -> Scan
    decreases n,
{
    if n <= 0 {
        Scan { depth: 0, start: 0, quoted: false, escaped: false }
    } else {
        scan_step(scanned(input, n - 1), input[n - 1], n - 1)
    }
}

/// Whether an outermost object ends with the `i`-th character.
pub open spec fn closes(input: Seq<char>, i: int) -> bool {
    let s = scanned(input, i);
    !s.quoted && input[i] == '}' && s.depth == 1
}

/// The outermost objects in the first `n` characters: what stands between braces
/// that match, where braces inside quotes do not count.
pub open spec fn objects(input: Seq<char>, n: int) -> Seq<Seq<char>>
    decreases n,
{
    if n <= 0 {
        Seq::empty()
    } else if closes(input, n - 1) {
        objects(input, n - 1).push(input.subrange(scanned(input, n - 1).start, n))
    } else {
        objects(input, n - 1)
    }
}

proof fn lemma_scan_start(input: Seq<char>, n: int)
    requires
        0 <= n <= input.len(),
    ensures
        0 <= scanned(input, n).start,
        scanned(input, n).depth <= n,
        scanned(input, n).depth > 0 ==> scanned(input, n).start < n && input[scanned(input, n).start]
            == '{',
        scanned(input, n).start <= n,
    decreases n,
{
    if n > 0 {
        lemma_scan_start(input, n - 1);
    }
}

/// Every object that is found begins and ends with its braces.
pub proof fn objects_are_braced(input: Seq<char>, n: int, k: int)
    requires
        0 <= n <= input.len(),
        0 <= k < objects(input, n).len(),
    ensures
        objects(input, n)[k].len() >= 2,
        objects(input, n)[k][0] == '{',
        objects(input, n)[k].last() == '}',
    decreases n,
{
    if n > 0 {
        lemma_scan_start(input, n - 1);
        if k < objects(input, n - 1).len() {
            objects_are_braced(input, n - 1, k);
        }
    }
}

/// The outermost objects in a text.
pub fn iter_json_objects(input: &str) -> (out: Vec<String>)
    ensures
        out@.len() == objects(input@, input@.len() as int).len(),
        forall|i: int|
            0 <= i < out@.len() ==> (#[trigger] out@[i])@ == objects(
                input@,
                input@.len() as int,
            )[i],
{
    let chars = chars_of(input);
    let mut out: Vec<String> = Vec::new();
    let mut depth: usize = 0;
    let mut start: usize = 0;
    let mut quoted = false;
    let mut escaped = false;
    let mut i: usize = 0;
    while i < chars.len()
        invariant
            i <= chars@.len(),
            chars@ == input@,
            scanned(chars@, i as int) == (Scan {
                depth: depth as nat,
                start: start as int,
                quoted,
                escaped,
            }),
            out@.len() == objects(chars@, i as int).len(),
            forall|j: int|
                0 <= j < out@.len() ==> (#[trigger] out@[j])@ == objects(chars@, i as int)[j],
        decreases chars.len() - i,
    {
        let c = chars[i];
        proof {
            lemma_scan_start(chars@, i as int);
        }
        if quoted {
            if escaped {
                escaped = false;
            } else if c == '\\' {
                escaped = true;
            } else if c == '"' {
                quoted = false;
            }
        } else if c == '"' {
            quoted = true;
        } else if c == '{' {
            if depth == 0 {
                start = i;
            }
            depth = depth + 1;
        } else if c == '}' {
            if depth > 0 {
                depth = depth - 1;
                if depth == 0 {
                    let part = vstd::slice::slice_subrange(chars.as_slice(), start, i + 1);
                    out.push(string_of(part));
                }
            }
        }
        i = i + 1;
    }
    out
}

/// The values of the texts that are JSON, in order.
pub open spec fn parsed_values(texts: Seq<Seq<char>>) -> Seq<JsonView>
    decreases texts.len(),
{
    if texts.len() == 0 {
        Seq::empty()
    } else {
        match json::json_parsed(texts.last()) {
            Ok(v) => parsed_values(texts.drop_last()).push(v),
            Err(_) => parsed_values(texts.drop_last()),
        }
    }
}

/// Whether some devices are those in a log: what the objects in it that are JSON
/// hold.
pub open spec fn devices_of_log(log: Seq<char>, out: Seq<DeviceInfo>) -> bool {
    let found = parsed_values(objects(log, log.len() as int));
    devices_with(
        out,
        Platform::Android,
        |n: Seq<char>, k: Seq<char>| device_in(JsonView::Array(found), n, k),
    )
}

/// The devices in a log, of which there has to be one.
pub fn parse_android_log(log_text: &str) -> (r: Result<Vec<DeviceInfo>, String>)
    ensures
        match r {
            Ok(d) => devices_of_log(log_text@, d@) && d@.len() > 0,
            Err(e) => devices_of_log(log_text@, Seq::empty()) && e@
                == "未在日志中找到有效的设备 encryptKey 信息"@,
        },
{
    let devices = parse_android_log_text(log_text);
    if devices.len() == 0 {
        proof {
            assert(devices@ =~= Seq::empty());
        }
        return Err("未在日志中找到有效的设备 encryptKey 信息".to_owned());
    }
    Ok(devices)
}

/// The devices in a log.
pub fn parse_android_log_text(log_text: &str) -> (out: Vec<DeviceInfo>)
    ensures
        devices_of_log(log_text@, out@),
{
    let texts = iter_json_objects(log_text);
    let ghost all = objects(log_text@, log_text@.len() as int);
    let mut values: Vec<Json> = Vec::new();
    let mut i: usize = 0;
    assert(all.take(0) =~= Seq::empty());
    while i < texts.len()
        invariant
            i <= texts@.len(),
            texts@.len() == all.len(),
            forall|j: int| 0 <= j < texts@.len() ==> (#[trigger] texts@[j])@ == all[j],
            json::items_view(values@) == parsed_values(all.take(i as int)),
        decreases texts.len() - i,
    {
        assert(all.take(i + 1).drop_last() =~= all.take(i as int));
        match json::parse_json(texts[i].as_str()) {
            Ok(v) => {
                let ghost before = values@;
                values.push(v);
                assert(values@.drop_last() =~= before);
            },
            Err(_) => {},
        }
        i = i + 1;
    }
    assert(all.take(i as int) =~= all);
    let value = Json::Array(values);
    devices_in(&value, Platform::Android)
}

/// The name of the log in a package.
pub const LOG_NAME: &'static str = "XiaomiFit.main.log";

/// Whether a result is the devices in the log among some files, and its path: there
/// has to be a log, it has to be text, and it has to hold a device.
pub open spec fn log_outcome(
    files: Seq<UnpackedView>,
    dir: Seq<char>,
    r: Result<(Vec<DeviceInfo>, String), String>,
) -> bool {
    match package::last_named(files, LOG_NAME@) {
        None => r matches Err(e) && e@ == "未在 zip 内找到 XiaomiFit.main.log"@,
        Some(i) => {
            let path = package::in_directory(dir, files[i].place());
            let content = files[i]->content;
            if valid_utf8(content) {
                match r {
                    Ok((devices, p)) => devices_of_log(decode_utf8(content), devices@)
                        && devices@.len() > 0 && p@ == path,
                    Err(e) => devices_of_log(decode_utf8(content), Seq::empty()) && e@
                        == "未在日志中找到有效的设备 encryptKey 信息"@,
                }
            } else {
                r matches Err(e) && e@ == "读取日志失败 ("@ + path
                    + "): stream did not contain valid UTF-8"@
            }
        },
    }
}

/// The devices in the log among some files, and its path.
pub fn parse_unpacked(files: &Vec<Unpacked>, dir: &str) -> (r: Result<
    (Vec<DeviceInfo>, String),
    String,
>)
    ensures
        log_outcome(package::files_view(files@), dir@, r),
{
    let i: usize = match package::find_file_by_name(files, LOG_NAME) {
        Some(i) => i,
        None => return Err("未在 zip 内找到 XiaomiFit.main.log".to_owned()),
    };
    proof {
        lemma_last_is_named(package::files_view(files@));
        assert(package::files_view(files@)[i as int] == files@[i as int]@);
    }
    match &files[i] {
        Unpacked::Directory(_) => Err("未在 zip 内找到 XiaomiFit.main.log".to_owned()),
        Unpacked::File { path, content } => {
            let shown = text::cat3(dir, "/", path.as_str());
            match utf8_text(content.as_slice()) {
                Some(log) => match parse_android_log(log.as_str()) {
                    Ok(devices) => Ok((devices, shown)),
                    Err(e) => Err(e),
                },
                None => Err(
                    text::cat3(
                        "读取日志失败 (",
                        shown.as_str(),
                        "): stream did not contain valid UTF-8",
                    ),
                ),
            }
        },
    }
}

proof fn lemma_last_is_named(files: Seq<UnpackedView>)
    ensures
        package::last_named(files, LOG_NAME@) matches Some(i) ==> 0 <= i < files.len()
            && package::is_named(files[i], LOG_NAME@),
    decreases files.len(),
{
    if files.len() > 0 {
        lemma_last_is_named(files.drop_last());
    }
}

/// Whether a result is the devices in the log of a package, and its path.
pub open spec fn zip_outcome(
    files: Result<Seq<UnpackedView>, Seq<char>>,
    dir: Seq<char>,
    r: Result<(Vec<DeviceInfo>, String), String>,
) -> bool {
    match files {
        Ok(files) => log_outcome(files, dir, r),
        Err(fault) => r matches Err(e) && e@ == fault,
    }
}

/// The devices in the log of a package, and the path of the log. `dir` is the
/// directory that the files of the package go into.
pub fn parse_android_zip(bytes: &[u8], dir: &str) -> (r: Result<(Vec<DeviceInfo>, String), String>)
    ensures
        exists|files: Result<Seq<UnpackedView>, Seq<char>>| #[trigger]
            package::unpacks(bytes@, dir@, files) && zip_outcome(files, dir@, r),
{
    let unpacked = package::unpack(bytes, dir);
    let ghost files = package::result_view(unpacked);
    assert(package::unpacks(bytes@, dir@, files));
    match unpacked {
        Ok(files) => parse_unpacked(&files, dir),
        Err(e) => Err(e),
    }
}

// ---------------------------------------------------------------- iOS

/// The data of the device list in a row, where it is the row of the list.
pub open spec fn register_list_in(row: Seq<CellView>) -> Option<Seq<u8>> {
    if row.len() > 3 && row[0] == CellView::Text("registerList_cn"@) {
        match row[3] {
            CellView::Blob(b) => Some(b),
            _ => None,
        }
    } else {
        None
    }
}

/// The data of the device list in the first row that has it.
pub open spec fn first_register_list(rows: Seq<Seq<CellView>>) -> Option<Seq<u8>>
    decreases rows.len(),
{
    if rows.len() == 0 {
        None
    } else {
        match register_list_in(rows[0]) {
            Some(b) => Some(b),
            None => first_register_list(rows.drop_first()),
        }
    }
}

/// The data of the device list in a database, or what is missing.
pub open spec fn register_list(f: SqliteFile) -> Result<Seq<u8>, Seq<char>> {
    let depth = f.page_count() as nat;
    match f.table_rows(1, depth) {
        Err(e) => Err(sqlite::error_text(e)),
        Ok(schema) => match sqlite::root_page_in(schema, "manifest"@) {
            None => Err("未在 sqlite_master 中找到表 manifest"@),
            Some(root) => match f.table_rows(root, depth) {
                Err(e) => Err(sqlite::error_text(e)),
                Ok(rows) => match first_register_list(rows) {
                    Some(b) => Ok(b),
                    None => Err("sqlite 中未找到 key=registerList_cn 的 inline_data"@),
                },
            },
        },
    }
}

fn row_register_list(row: &Vec<SqliteCellValue>) -> (r: Option<Vec<u8>>)
    ensures
        match r {
            Some(b) => register_list_in(sqlite::row_view(row@)) == Some(b@),
            None => register_list_in(sqlite::row_view(row@)) is None,
        },
{
    if row.len() <= 3 {
        return None;
    }
    match row[0].as_text() {
        Some(t) => if !str_eq(t, "registerList_cn") {
            return None;
        },
        None => return None,
    }
    match row[3].as_blob() {
        Some(b) => Some(vstd::slice::slice_to_vec(b)),
        None => None,
    }
}

/// Reads the data of the device list out of a database.
pub fn read_register_list(f: &SqliteFile) -> (r: Result<Vec<u8>, String>)
    requires
        f.wf(),
    ensures
        match r {
            Ok(b) => register_list(*f) == Ok::<Seq<u8>, Seq<char>>(b@),
            Err(e) => register_list(*f) == Err::<Seq<u8>, Seq<char>>(e@),
        },
{
    let root = match f.find_table_root_page("manifest") {
        Ok(Some(p)) => p,
        Ok(None) => return Err("未在 sqlite_master 中找到表 manifest".to_owned()),
        Err(e) => return Err(e.message()),
    };
    let rows = match f.read_table_rows(root) {
        Ok(rows) => rows,
        Err(e) => return Err(e.message()),
    };
    let ghost all = sqlite::rows_view(rows@);
    let mut i: usize = 0;
    assert(all.skip(0) =~= all);
    while i < rows.len()
        invariant
            i <= rows@.len(),
            all == sqlite::rows_view(rows@),
            f.table_rows(1, f.page_count() as nat) is Ok,
            sqlite::root_page_in(f.table_rows(1, f.page_count() as nat)->Ok_0, "manifest"@)
                == Some(root),
            f.table_rows(root, f.page_count() as nat) == Ok::<
                Seq<Seq<CellView>>,
                sqlite::SqliteError,
            >(all),
            first_register_list(all) == first_register_list(all.skip(i as int)),
        decreases rows.len() - i,
    {
        assert(all.skip(i as int)[0] == sqlite::row_view(rows@[i as int]@));
        assert(all.skip(i as int).drop_first() =~= all.skip(i + 1));
        if let Some(b) = row_register_list(&rows[i]) {
            return Ok(b);
        }
        i = i + 1;
    }
    Err("sqlite 中未找到 key=registerList_cn 的 inline_data".to_owned())
}

/// What is said of an archive that could not be decoded.
pub open spec fn archive_error(reading: bool, message: Seq<char>) -> Seq<char> {
    (if reading {
        "解析 NSKeyedArchiver 二进制 plist 失败: "@
    } else {
        "解码 NSKeyedArchiver 失败: "@
    }) + message
}

/// Whether a result is the devices of a decoded archive: an archive without any
/// device is an error.
pub open spec fn archive_outcome(
    decoded: Result<JsonView, (bool, Seq<char>)>,
    r: Result<Vec<DeviceInfo>, String>,
) -> bool {
    match decoded {
        Err((reading, e)) => r matches Err(m) && m@ == archive_error(reading, e),
        Ok(v) => match r {
            Ok(d) => d@.len() > 0 && devices_with(
                d@,
                Platform::Ios,
                |n: Seq<char>, k: Seq<char>| device_in(v, n, k),
            ),
            Err(m) => m@ == "iOS 数据中未找到有效的设备 encryptKey 信息"@ && forall|
                n: Seq<char>,
                k: Seq<char>,
            |
                !#[trigger] device_in(v, n, k),
        },
    }
}

pub open spec fn decoded_view(d: Result<Json, (bool, String)>) -> Result<
    JsonView,
    (bool, Seq<char>),
> {
    match d {
        Ok(v) => Ok(v@),
        Err((reading, e)) => Err((reading, e@)),
    }
}

/// The devices of a decoded archive.
pub fn devices_of_archive(decoded: Result<Json, (bool, String)>) -> (r: Result<
    Vec<DeviceInfo>,
    String,
>)
    ensures
        archive_outcome(decoded_view(decoded), r),
{
    match decoded {
        Err((reading, e)) => {
            let head = if reading {
                "解析 NSKeyedArchiver 二进制 plist 失败: "
            } else {
                "解码 NSKeyedArchiver 失败: "
            };
            Err(text::cat(head, e.as_str()))
        },
        Ok(v) => {
            let d = devices_in(&v, Platform::Ios);
            if d.len() == 0 {
                proof {
                    let q = |n: Seq<char>, k: Seq<char>| device_in(v@, n, k);
                    assert forall|n: Seq<char>, k: Seq<char>| !#[trigger] device_in(v@, n, k) by {
                        assert(has_device(d@, n, k) <==> q(n, k));
                        if has_device(d@, n, k) {
                            let i = choose|i: int| device_at(d@, i, n, k);
                            assert(device_at(d@, i, n, k));
                        }
                    }
                }
                Err("iOS 数据中未找到有效的设备 encryptKey 信息".to_owned())
            } else {
                Ok(d)
            }
        },
    }
}

/// Whether the device list of a database can be looked for: on the way to it no cell
/// stands on a page that is too small for the share of a payload to be defined.
pub open spec fn readable(f: SqliteFile) -> bool {
    let depth = f.page_count() as nat;
    match f.table_rows(1, depth) {
        Err(e) => e != SqliteError::NoRoomForPayload,
        Ok(schema) => match sqlite::root_page_in(schema, "manifest"@) {
            None => true,
            Some(root) => f.table_rows(root, depth) != Err::<
                Seq<Seq<CellView>>,
                SqliteError,
            >(SqliteError::NoRoomForPayload),
        },
    }
}

/// Whether the device list of a database can be looked for.
pub fn has_readable_pages(f: &SqliteFile) -> (r: bool)
    requires
        f.wf(),
    ensures
        r == readable(*f),
{
    let root = match f.find_table_root_page("manifest") {
        Ok(Some(p)) => p,
        Ok(None) => return true,
        Err(e) => return e != SqliteError::NoRoomForPayload,
    };
    match f.read_table_rows(root) {
        Ok(_) => true,
        Err(e) => e != SqliteError::NoRoomForPayload,
    }
}

/// The file of a database.
pub open spec fn file_of(bytes: Vec<u8>, page_size: int, usable_size: int) -> SqliteFile {
    SqliteFile { bytes, page_size: page_size as usize, usable_size: usable_size as usize }
}

/// Whether the device list of a database can be looked for and, where there is one,
/// decoded.
pub open spec fn holds_decodable(bytes: Vec<u8>) -> bool {
    match sqlite::file_sizes(bytes@) {
        Ok((page_size, usable_size)) => {
            let f = file_of(bytes, page_size, usable_size);
            &&& readable(f)
            &&& match register_list(f) {
                Ok(blob) => archive::decodable(blob),
                Err(_) => true,
            }
        },
        Err(_) => true,
    }
}

/// Whether a result is the devices in a database of the iOS app.
pub open spec fn ios_outcome(bytes: Vec<u8>, r: Result<Vec<DeviceInfo>, String>) -> bool {
    match sqlite::file_sizes(bytes@) {
        Err(e) => r matches Err(m) && m@ == sqlite::error_text(e),
        Ok((page_size, usable_size)) => match register_list(
            file_of(bytes, page_size, usable_size),
        ) {
            Err(e) => r matches Err(m) && m@ == e,
            Ok(blob) => archive_outcome(archive::archive_decoded(blob), r),
        },
    }
}

/// The devices in a database of the iOS app.
pub fn parse_ios_sqlite(bytes: Vec<u8>) -> (r: Result<Vec<DeviceInfo>, String>)
    requires
        holds_decodable(bytes),
    ensures
        ios_outcome(bytes, r),
{
    let f = match SqliteFile::parse(bytes) {
        Ok(f) => f,
        Err(e) => return Err(e.message()),
    };
    match read_register_list(&f) {
        Err(e) => Err(e),
        Ok(blob) => {
            let decoded = archive::decode_archive(blob.as_slice());
            devices_of_archive(decoded)
        },
    }
}

/// The devices in any file that is taken for a database of the iOS app. There is no
/// answer where a cell stands on a page without room for a payload, or where the
/// device list cannot be decoded.
pub fn read_ios_sqlite(bytes: Vec<u8>) -> (r: Option<Result<Vec<DeviceInfo>, String>>)
    ensures
        r is Some <==> holds_decodable(bytes),
        r matches Some(outcome) ==> ios_outcome(bytes, outcome),
{
    let f = match SqliteFile::parse(bytes) {
        Ok(f) => f,
        Err(e) => return Some(Err(e.message())),
    };
    if !has_readable_pages(&f) {
        return None;
    }
    match read_register_list(&f) {
        Err(e) => Some(Err(e)),
        Ok(blob) => if archive::is_decodable(blob.as_slice()) {
            Some(parse_ios_sqlite(f.bytes))
        } else {
            None
        },
    }
}

// ---------------------------------------------------------------- laws

/// Every key that is reported is thirty-two hexadecimal digits in lower case.
pub proof fn reported_keys_are_normal(v: JsonView, name: Seq<char>, key: Seq<char>)
    requires
        device_in(v, name, key),
    ensures
        is_key(key),
        text::lowered(key) == key,
        name.len() > 0,
{
    let (n, k) = choose|n: Seq<char>, k: Seq<char>| #[trigger]
        has_pair(v, None, n, k) && #[trigger] pair_is(n, k, name, key);
    assert(text::lowered(key) =~= key);
    reveal_strlit("未知设备");
}

/// The list of devices with a property is unique: two lists that hold the same
/// devices are the same names and keys in the same order.
pub proof fn device_list_is_unique(
    a: Seq<DeviceInfo>,
    b: Seq<DeviceInfo>,
    platform: Platform,
    p: spec_fn(Seq<char>, Seq<char>) -> bool,
    i: int,
)
    requires
        devices_with(a, platform, p),
        devices_with(b, platform, p),
        0 <= i < a.len(),
    ensures
        i < b.len(),
        a[i].name@ == b[i].name@,
        a[i].encrypt_key@ == b[i].encrypt_key@,
    decreases i,
{
    assert forall|j: int| 0 <= j < i implies j < b.len() && a[j].name@ == b[j].name@
        && a[j].encrypt_key@ == b[j].encrypt_key@ by {
        device_list_is_unique(a, b, platform, p, j);
    }
    let n = a[i].name@;
    let k = a[i].encrypt_key@;
    assert(device_at(a, i, n, k));
    assert(has_device(a, n, k));
    assert(p(n, k));
    assert(has_device(b, n, k));
    let j = choose|j: int| device_at(b, j, n, k);
    assert(device_at(b, j, n, k));
    if j < i {
        assert(device_before(a[j], a[i]));
        lemma_pair_order(n, k, n, k);
        assert(false);
    }
    if j > i {
        let n2 = b[i].name@;
        let k2 = b[i].encrypt_key@;
        assert(device_at(b, i, n2, k2));
        assert(has_device(b, n2, k2));
        assert(p(n2, k2));
        assert(has_device(a, n2, k2));
        let m = choose|m: int| device_at(a, m, n2, k2);
        assert(device_at(a, m, n2, k2));
        assert(device_before(b[i], b[j]));
        if m < i {
            assert(device_before(b[m], b[i]));
            lemma_pair_order(n2, k2, n2, k2);
        } else if m > i {
            assert(device_before(a[i], a[m]));
            lemma_pair_transitive(n, k, n2, k2, n, k);
            lemma_pair_order(n, k, n, k);
        } else {
            lemma_pair_order(n, k, n, k);
        }
        assert(false);
    }
}

/// Whether one value stands somewhere in another one, or is it.
pub open spec fn stands_in(inner: JsonView, outer: JsonView) -> bool
    decreases outer,
{
    ||| inner == outer
    ||| match outer {
        JsonView::Object(m) => exists|f: Seq<char>|
            #[trigger] m.dom().contains(f) && stands_in(inner, m[f]),
        JsonView::Array(items) => stands_among(inner, items),
        _ => false,
    }
}

pub open spec fn stands_among(inner: JsonView, items: Seq<JsonView>) -> bool
    decreases items,
{
    items.len() > 0 && (stands_in(inner, items.last()) || stands_among(inner, items.drop_last()))
}

/// A device is found wherever it stands: an object with a name and a key of its
/// own gives this name and this key, however deep it is nested.
pub proof fn devices_are_found_wherever_they_stand(
    inner: JsonView,
    outer: JsonView,
    around: Option<Seq<char>>,
)
    requires
        inner is Object,
        stands_in(inner, outer),
        name_in(inner) is Some,
        key_in(inner) is Some,
    ensures
        has_pair(outer, around, name_in(inner)->0, key_in(inner)->0),
    decreases outer,
{
    if inner != outer {
        match outer {
            JsonView::Object(m) => {
                let f = choose|f: Seq<char>|
                    #[trigger] m.dom().contains(f) && stands_in(inner, m[f]);
                devices_are_found_wherever_they_stand(inner, m[f], name_inside(outer, around));
                assert(m.dom().contains(f) && has_pair(
                    m[f],
                    name_inside(outer, around),
                    name_in(inner)->0,
                    key_in(inner)->0,
                ));
            },
            JsonView::Array(items) => {
                lemma_found_among(inner, items, around);
            },
            _ => {},
        }
    }
}

proof fn lemma_found_among(inner: JsonView, items: Seq<JsonView>, around: Option<Seq<char>>)
    requires
        inner is Object,
        stands_among(inner, items),
        name_in(inner) is Some,
        key_in(inner) is Some,
    ensures
        some_has_pair(items, around, name_in(inner)->0, key_in(inner)->0),
    decreases items,
{
    if stands_in(inner, items.last()) {
        devices_are_found_wherever_they_stand(inner, items.last(), around);
    } else {
        lemma_found_among(inner, items.drop_last(), around);
    }
}

/// No key is made up: each one that is found stands in an object of the value, and
/// its name is that of the object or of one around it.
pub proof fn keys_come_from_the_value(
    v: JsonView,
    around: Option<Seq<char>>,
    name: Seq<char>,
    key: Seq<char>,
) -> (inner: JsonView)
    requires
        has_pair(v, around, name, key),
    ensures
        inner is Object,
        stands_in(inner, v),
        key_in(inner) == Some(key),
        name_in(inner) matches Some(n) ==> name == n,
    decreases v,
{
    match v {
        JsonView::Object(m) => {
            if key_in(v) == Some(key) && name == text::or_else_text(
                name_inside(v, around),
                "未知设备"@,
            ) {
                v
            } else {
                let within = name_inside(v, around);
                let f = choose|f: Seq<char>|
                    #[trigger] m.dom().contains(f) && has_pair(m[f], within, name, key);
                let inner = keys_come_from_the_value(m[f], within, name, key);
                assert(m.dom().contains(f) && stands_in(inner, m[f]));
                inner
            }
        },
        JsonView::Array(items) => lemma_come_from_items(items, around, name, key),
        _ => v,
    }
}

proof fn lemma_come_from_items(
    items: Seq<JsonView>,
    around: Option<Seq<char>>,
    name: Seq<char>,
    key: Seq<char>,
) -> (inner: JsonView)
    requires
        some_has_pair(items, around, name, key),
    ensures
        inner is Object,
        stands_among(inner, items),
        key_in(inner) == Some(key),
        name_in(inner) matches Some(n) ==> name == n,
    decreases items,
{
    if has_pair(items.last(), around, name, key) {
        keys_come_from_the_value(items.last(), around, name, key)
    } else {
        lemma_come_from_items(items.drop_last(), around, name, key)
    }
}

/// A key without a name in its own object takes the name of the nearest object
/// around it, and is reported as unknown only where there is none.
pub proof fn names_are_taken_from_around(
    m: Map<Seq<char>, JsonView>,
    f: Seq<char>,
    around: Option<Seq<char>>,
)
    requires
        m.dom().contains(f),
        m[f] is Object,
        key_in(m[f]) is Some,
        name_in(m[f]) is None,
    ensures
        name_in(JsonView::Object(m)) matches Some(n) ==> has_pair(
            JsonView::Object(m),
            around,
            n,
            key_in(m[f])->0,
        ),
        name_in(JsonView::Object(m)) is None && around is Some ==> has_pair(
            JsonView::Object(m),
            around,
            around->0,
            key_in(m[f])->0,
        ),
        name_in(JsonView::Object(m)) is None && around is None ==> has_pair(
            JsonView::Object(m),
            around,
            "未知设备"@,
            key_in(m[f])->0,
        ),
{
    let v = JsonView::Object(m);
    let within = name_inside(v, around);
    let n = text::or_else_text(name_inside(m[f], within), "未知设备"@);
    assert(has_pair(m[f], within, n, key_in(m[f])->0));
    assert(m.dom().contains(f) && has_pair(m[f], within, n, key_in(m[f])->0));
}

/// A device is reported under its trimmed name, with its key in lower case.
pub proof fn found_devices_are_reported(v: JsonView, name: Seq<char>, key: Seq<char>)
    requires
        has_pair(v, None, name, key),
        is_key(key),
        text::trimmed(name).len() > 0,
        text::trimmed(name) != "$null"@,
    ensures
        device_in(v, text::trimmed(name), text::lowered(key)),
{
    let low = text::lowered(key);
    assert forall|i: int| 0 <= i < low.len() implies is_hex_char(#[trigger] low[i]) by {
        assert(is_hex_char(key[i]));
    }
    assert(pair_is(name, key, text::trimmed(name), low));
}

/// A key is thirty-two of the characters from zero to nine and from a to f, in
/// upper or in lower case; a name is anything but blank or the mark of an absent
/// one.
pub proof fn keys_and_names_are_told(s: Seq<char>)
    ensures
        is_key(s) <==> s.len() == 32 && forall|i: int|
            0 <= i < s.len() ==> {
                ||| '0' <= #[trigger] s[i] <= '9'
                ||| 'a' <= s[i] <= 'f'
                ||| 'A' <= s[i] <= 'F'
            },
        name_of(s) matches Some(n) ==> n == text::trimmed(s) && n.len() > 0,
        name_of(s) is None <==> text::trimmed(s).len() == 0 || text::trimmed(s) == "$null"@,
{
    if is_key(s) {
        assert forall|i: int| 0 <= i < s.len() implies {
            ||| '0' <= #[trigger] s[i] <= '9'
            ||| 'a' <= s[i] <= 'f'
            ||| 'A' <= s[i] <= 'F'
        } by {
            assert(is_hex_char(s[i]));
        }
    }
}

/// The key and the name of an object come from its fields: of several the first
/// one counts that holds something usable.
pub proof fn fields_count_in_order(v: JsonView)
    ensures
        key_at(v, "encryptKey"@) is Some ==> key_in(v) == v.str_at("encryptKey"@),
        key_at(v, "encryptKey"@) is None && key_at(v, "encrypt_key"@) is Some ==> key_in(v)
            == v.str_at("encrypt_key"@),
        key_in(v) matches Some(k) ==> is_key(k) && (v.str_at("encryptKey"@) == Some(k) || v.str_at(
            "encrypt_key"@,
        ) == Some(k) || v.str_at("encryptkey"@) == Some(k)),
        name_at(v, "name"@) is Some ==> name_in(v) == name_at(v, "name"@),
        name_at(v, "name"@) is None && name_at(v, "deviceName"@) is Some ==> name_in(v) == name_at(
            v,
            "deviceName"@,
        ),
        name_at(v, "name"@) is None && name_at(v, "deviceName"@) is None && name_at(
            v,
            "device_name"@,
        ) is None && name_at(v, "productName"@) is Some ==> name_in(v) == name_at(
            v,
            "productName"@,
        ),
        v.str_at("name"@) matches Some(n) ==> text::trimmed(n).len() > 0 && text::trimmed(n)
            != "$null"@ ==> name_in(v) == Some(text::trimmed(n)),
{
}

// ---------------------------------------------------------------- laws of logs

proof fn lemma_scan_shift(a: Seq<char>, b: Seq<char>, n: int)
    requires
        scanned(a, a.len() as int).depth == 0,
        !scanned(a, a.len() as int).quoted,
        !scanned(a, a.len() as int).escaped,
        0 <= n <= b.len(),
    ensures
        ({
            let s = scanned(a + b, a.len() + n);
            let t = scanned(b, n);
            &&& s.depth == t.depth
            &&& s.quoted == t.quoted
            &&& s.escaped == t.escaped
            &&& t.depth > 0 ==> s.start == t.start + a.len()
        }),
    decreases n,
{
    if n > 0 {
        lemma_scan_shift(a, b, n - 1);
        assert((a + b)[a.len() + n - 1] == b[n - 1]);
    } else {
        lemma_scan_prefix(a, b, a.len() as int);
    }
}

proof fn lemma_scan_prefix(a: Seq<char>, b: Seq<char>, n: int)
    requires
        0 <= n <= a.len(),
    ensures
        scanned(a + b, n) == scanned(a, n),
        objects(a + b, n) == objects(a, n),
    decreases n,
{
    if n > 0 {
        lemma_scan_prefix(a, b, n - 1);
        assert((a + b)[n - 1] == a[n - 1]);
        lemma_scan_start(a, n - 1);
        if closes(a, n - 1) {
            let start = scanned(a, n - 1).start;
            assert((a + b).subrange(start, n) =~= a.subrange(start, n));
        }
    }
}

proof fn lemma_objects_shift(a: Seq<char>, b: Seq<char>, n: int)
    requires
        scanned(a, a.len() as int).depth == 0,
        !scanned(a, a.len() as int).quoted,
        !scanned(a, a.len() as int).escaped,
        0 <= n <= b.len(),
    ensures
        objects(a + b, a.len() + n) == objects(a, a.len() as int) + objects(b, n),
    decreases n,
{
    if n == 0 {
        lemma_scan_prefix(a, b, a.len() as int);
        assert(objects(a, a.len() as int) + objects(b, 0) =~= objects(a, a.len() as int));
    } else {
        lemma_objects_shift(a, b, n - 1);
        lemma_scan_shift(a, b, n - 1);
        assert((a + b)[a.len() + n - 1] == b[n - 1]);
        let all = objects(a, a.len() as int);
        if closes(b, n - 1) {
            let start = scanned(b, n - 1).start;
            lemma_scan_start(b, n - 1);
            assert((a + b).subrange(start + a.len(), a.len() + n) =~= b.subrange(start, n));
            assert(all + objects(b, n - 1).push(b.subrange(start, n)) =~= (all + objects(
                b,
                n - 1,
            )).push(b.subrange(start, n)));
        }
    }
}

/// A log is read piece by piece: behind a piece in which every brace and every
/// quote is closed, the objects of what follows are found as if it stood alone.
pub proof fn logs_are_read_piece_by_piece(a: Seq<char>, b: Seq<char>)
    requires
        scanned(a, a.len() as int).depth == 0,
        !scanned(a, a.len() as int).quoted,
        !scanned(a, a.len() as int).escaped,
    ensures
        objects(a + b, (a + b).len() as int) == objects(a, a.len() as int) + objects(
            b,
            b.len() as int,
        ),
{
    lemma_objects_shift(a, b, b.len() as int);
}

/// Whether a text has no brace and no quote.
pub open spec fn plain(s: Seq<char>) -> bool {
    forall|i: int|
        0 <= i < s.len() ==> #[trigger] s[i] != '{' && s[i] != '}' && s[i] != '"'
}

proof fn lemma_plain_scan(s: Seq<char>, from: int, to: int)
    requires
        0 <= from <= to <= s.len(),
        forall|i: int| from <= i < to ==> #[trigger] s[i] != '{' && s[i] != '}' && s[i] != '"',
        !scanned(s, from).quoted,
    ensures
        scanned(s, to) == scanned(s, from),
        objects(s, to) == objects(s, from),
    decreases to - from,
{
    if from < to {
        lemma_plain_scan(s, from, to - 1);
        assert(s[to - 1] != '{' && s[to - 1] != '}' && s[to - 1] != '"');
    }
}

/// Text outside braces holds no object, and what stands between a pair of braces
/// is one, with its braces; a quoted text inside it may hold any brace.
pub proof fn braces_make_an_object(a: Seq<char>, quoted: Seq<char>, b: Seq<char>)
    requires
        plain(a),
        plain(b),
        forall|i: int| 0 <= i < quoted.len() ==> #[trigger] quoted[i] != '"' && quoted[i] != '\\',
    ensures
        ({
            let o = seq!['{'] + a + seq!['"'] + quoted + seq!['"'] + b + seq!['}'];
            &&& objects(o, o.len() as int) == seq![o]
            &&& scanned(o, o.len() as int).depth == 0
            &&& !scanned(o, o.len() as int).quoted
            &&& !scanned(o, o.len() as int).escaped
            &&& objects(a, a.len() as int).len() == 0
        }),
{
    let o = seq!['{'] + a + seq!['"'] + quoted + seq!['"'] + b + seq!['}'];
    assert(scanned(a, 0) == (Scan { depth: 0, start: 0, quoted: false, escaped: false }));
    lemma_plain_scan(a, 0, a.len() as int);
    let p = 1 + a.len() as int;
    let q = p + 1 + quoted.len() as int;
    let r = q + 1 + b.len() as int;
    assert(o.len() == r + 1);
    assert(o[0] == '{');
    assert(scanned(o, 0) == (Scan { depth: 0, start: 0, quoted: false, escaped: false }));
    assert(scanned(o, 1) == (Scan { depth: 1, start: 0, quoted: false, escaped: false }));
    assert(objects(o, 0) =~= Seq::empty());
    assert(objects(o, 1) =~= Seq::empty());
    assert forall|i: int| 1 <= i < p implies #[trigger] o[i] != '{' && o[i] != '}' && o[i] != '"' by {
        assert(o[i] == a[i - 1]);
    }
    lemma_plain_scan(o, 1, p);
    assert(o[p] == '"');
    assert(scanned(o, p + 1) == (Scan { depth: 1, start: 0, quoted: true, escaped: false }));
    assert(objects(o, p + 1) =~= Seq::empty());
    assert forall|i: int| p + 1 <= i < q implies #[trigger] o[i] != '"' && o[i] != '\\' by {
        assert(o[i] == quoted[i - p - 1]);
    }
    lemma_quoted_scan(o, p + 1, q);
    assert(o[q] == '"');
    assert(scanned(o, q + 1) == (Scan { depth: 1, start: 0, quoted: false, escaped: false }));
    assert(objects(o, q + 1) =~= Seq::empty());
    assert forall|i: int| q + 1 <= i < r implies #[trigger] o[i] != '{' && o[i] != '}' && o[i] != '"' by {
        assert(o[i] == b[i - q - 1]);
    }
    lemma_plain_scan(o, q + 1, r);
    assert(o[r] == '}');
    assert(closes(o, r));
    assert(o.subrange(0, r + 1) =~= o);
    assert(objects(o, r + 1) =~= seq![o]);
}

proof fn lemma_quoted_scan(s: Seq<char>, from: int, to: int)
    requires
        0 <= from <= to <= s.len(),
        forall|i: int| from <= i < to ==> #[trigger] s[i] != '"' && s[i] != '\\',
        scanned(s, from).quoted,
        !scanned(s, from).escaped,
    ensures
        scanned(s, to) == scanned(s, from),
        objects(s, to) == objects(s, from),
    decreases to - from,
{
    if from < to {
        lemma_quoted_scan(s, from, to - 1);
        assert(s[to - 1] != '"' && s[to - 1] != '\\');
    }
}

/// Objects are read in their order, and one that is no JSON costs no other one.
pub proof fn objects_are_parsed_one_by_one(a: Seq<Seq<char>>, b: Seq<Seq<char>>)
    ensures
        parsed_values(a + b) == parsed_values(a) + parsed_values(b),
    decreases b.len(),
{
    if b.len() == 0 {
        assert(a + b =~= a);
        assert(parsed_values(a) + parsed_values(b) =~= parsed_values(a));
    } else {
        objects_are_parsed_one_by_one(a, b.drop_last());
        assert((a + b).drop_last() =~= a + b.drop_last());
        assert((a + b).last() == b.last());
        assert(parsed_values(a + b) =~= parsed_values(a) + parsed_values(b));
    }
}

/// Each object in a log that is JSON is searched for devices.
pub proof fn every_object_is_searched(texts: Seq<Seq<char>>, i: int)
    requires
        0 <= i < texts.len(),
        json::json_parsed(texts[i]) is Ok,
    ensures
        stands_in(json::json_parsed(texts[i])->Ok_0, JsonView::Array(parsed_values(texts))),
{
    lemma_among_search(texts, i);
}

proof fn lemma_among_search(texts: Seq<Seq<char>>, i: int)
    requires
        0 <= i < texts.len(),
        json::json_parsed(texts[i]) is Ok,
    ensures
        stands_among(json::json_parsed(texts[i])->Ok_0, parsed_values(texts)),
    decreases texts.len(),
{
    let v = json::json_parsed(texts[i])->Ok_0;
    let found = parsed_values(texts);
    if i == texts.len() - 1 {
        assert(found.last() == v);
        assert(stands_in(v, found.last()));
    } else {
        let rest = texts.drop_last();
        assert(rest[i] == texts[i]);
        lemma_among_search(rest, i);
        if json::json_parsed(texts.last()) is Ok {
            assert(found.drop_last() =~= parsed_values(rest));
        }
    }
}

/// The device list of a database is in the first row that has its key and some
/// data, whatever rows stand before it.
pub proof fn first_device_list_counts(rows: Seq<Seq<CellView>>, i: int)
    requires
        0 <= i < rows.len(),
        rows[i].len() > 3,
        rows[i][0] == CellView::Text("registerList_cn"@),
        rows[i][3] is Blob,
        forall|j: int|
            0 <= j < i && (#[trigger] rows[j]).len() > 3 ==> rows[j][0] != CellView::Text(
                "registerList_cn"@,
            ) || !(rows[j][3] is Blob),
    ensures
        first_register_list(rows) == Some(rows[i][3]->Blob_0),
    decreases rows.len(),
{
    if i > 0 {
        assert(register_list_in(rows[0]) is None);
        let rest = rows.drop_first();
        assert forall|j: int| 0 <= j < i - 1 && (#[trigger] rest[j]).len() > 3 implies rest[j][0]
            != CellView::Text("registerList_cn"@) || !(rest[j][3] is Blob) by {
            assert(rest[j] == rows[j + 1]);
        }
        first_device_list_counts(rest, i - 1);
    }
}

/// The device list is looked for in the table of manifests, and only there.
pub proof fn device_list_is_in_the_manifest(f: SqliteFile, list: Seq<u8>)
    requires
        register_list(f) == Ok::<Seq<u8>, Seq<char>>(list),
    ensures
        ({
            let depth = f.page_count() as nat;
            let schema = f.table_rows(1, depth)->Ok_0;
            let root = sqlite::root_page_in(schema, "manifest"@)->0;
            let rows = f.table_rows(root, depth)->Ok_0;
            &&& f.table_rows(1, depth) is Ok
            &&& sqlite::root_page_in(schema, "manifest"@) is Some
            &&& f.table_rows(root, depth) is Ok
            &&& first_register_list(rows) == Some(list)
        }),
{
}

/// The devices of a log are reported with the path of the log, which is that of
/// the last file with its name.
pub proof fn logs_are_reported_with_their_path(
    files: Seq<UnpackedView>,
    dir: Seq<char>,
    r: Result<(Vec<DeviceInfo>, String), String>,
    i: int,
)
    requires
        log_outcome(files, dir, r),
        0 <= i < files.len(),
        files[i] is File,
        text::tail(files[i].place(), '/') == LOG_NAME@,
        forall|j: int|
            i < j < files.len() && (#[trigger] files[j]) is File ==> text::tail(
                files[j].place(),
                '/',
            ) != LOG_NAME@,
    ensures
        r matches Ok((devices, path)) ==> {
            &&& path@ == dir + "/"@ + files[i].place()
            &&& valid_utf8(files[i]->content)
            &&& devices_of_log(decode_utf8(files[i]->content), devices@)
            &&& devices@.len() > 0
        },
{
    package::files_are_found_by_name(files, LOG_NAME@);
    let k = package::last_named(files, LOG_NAME@);
    if k is None {
        assert(files[i] is File);
    } else if k->0 < i {
        assert(files[i] is File);
    } else if k->0 > i {
        assert(files[k->0] is File);
    }
}

// ---------------------------------------------------------------- laws of results

/// Devices are listed by name, and of one name by key, each of them once.
pub proof fn devices_are_listed_by_name(d: Seq<DeviceInfo>, platform: Platform, p: spec_fn(Seq<char>, Seq<char>) -> bool, i: int, j: int)
    requires
        devices_with(d, platform, p),
        0 <= i < j < d.len(),
    ensures
        text::text_lt(d[i].name@, d[j].name@) || (d[i].name@ == d[j].name@ && text::text_lt(
            d[i].encrypt_key@,
            d[j].encrypt_key@,
        )),
        d[i].name@ != d[j].name@ || d[i].encrypt_key@ != d[j].encrypt_key@,
        d[i].platform == platform && d[j].platform == platform,
        p(d[i].name@, d[i].encrypt_key@),
{
    assert(device_before(d[i], d[j]));
    text::text_lt_irreflexive(d[i].name@);
    text::text_lt_irreflexive(d[i].encrypt_key@);
    assert(device_at(d, i, d[i].name@, d[i].encrypt_key@));
    assert(has_device(d, d[i].name@, d[i].encrypt_key@));
}

proof fn lemma_reported(
    d: Seq<DeviceInfo>,
    platform: Platform,
    v: JsonView,
    inner: JsonView,
)
    requires
        devices_with(d, platform, |n: Seq<char>, k: Seq<char>| device_in(v, n, k)),
        inner is Object,
        stands_in(inner, v),
        name_in(inner) is Some,
        key_in(inner) is Some,
    ensures
        exists|i: int|
            0 <= i < d.len() && (#[trigger] d[i]).name@ == name_in(inner)->0 && d[i].encrypt_key@
                == text::lowered(key_in(inner)->0) && d[i].platform == platform,
{
    let n = name_in(inner)->0;
    let k = key_in(inner)->0;
    devices_are_found_wherever_they_stand(inner, v, None);
    lemma_names_are_normal(inner);
    text::trimming_is_idempotent(n);
    found_devices_are_reported(v, n, k);
    let q = |n: Seq<char>, k: Seq<char>| device_in(v, n, k);
    assert(q(n, text::lowered(k)));
    assert(has_device(d, n, text::lowered(k)));
    let i = choose|i: int| device_at(d, i, n, text::lowered(k));
    assert(d[i].name@ == n);
}

proof fn lemma_names_are_normal(v: JsonView)
    requires
        name_in(v) is Some,
    ensures
        ({
            let n = name_in(v)->0;
            n.len() > 0 && n != "$null"@ && text::trimmed(n) == n
        }),
        key_in(v) is Some ==> is_key(key_in(v)->0),
{
    assert(exists|f: Seq<char>| name_in(v) == #[trigger] name_at(v, f)) by {
        if name_at(v, "name"@) is Some {
            assert(name_in(v) == name_at(v, "name"@));
        } else if name_at(v, "deviceName"@) is Some {
            assert(name_in(v) == name_at(v, "deviceName"@));
        } else if name_at(v, "device_name"@) is Some {
            assert(name_in(v) == name_at(v, "device_name"@));
        } else if name_at(v, "productName"@) is Some {
            assert(name_in(v) == name_at(v, "productName"@));
        } else if name_at(v, "product_name"@) is Some {
            assert(name_in(v) == name_at(v, "product_name"@));
        } else {
            assert(name_in(v) == name_at(v, "bltNamePrefix"@));
        }
    }
    let f = choose|f: Seq<char>| name_in(v) == #[trigger] name_at(v, f);
    let raw = v.str_at(f)->0;
    text::trimming_is_idempotent(raw);
}

/// A device in a log is reported: every object with a name and a key of its own, in
/// whichever piece of the log that is JSON it stands.
pub proof fn logged_devices_are_reported(
    log: Seq<char>,
    d: Seq<DeviceInfo>,
    i: int,
    inner: JsonView,
)
    requires
        devices_of_log(log, d),
        0 <= i < objects(log, log.len() as int).len(),
        json::json_parsed(objects(log, log.len() as int)[i]) is Ok,
        stands_in(inner, json::json_parsed(objects(log, log.len() as int)[i])->Ok_0),
        inner is Object,
        name_in(inner) is Some,
        key_in(inner) is Some,
    ensures
        exists|j: int|
            0 <= j < d.len() && (#[trigger] d[j]).name@ == name_in(inner)->0 && d[j].encrypt_key@
                == text::lowered(key_in(inner)->0) && d[j].platform == Platform::Android,
{
    let texts = objects(log, log.len() as int);
    let v = json::json_parsed(texts[i])->Ok_0;
    let all = parsed_values(texts);
    lemma_among_search(texts, i);
    lemma_stands_deeper(inner, v, all);
    lemma_reported(d, Platform::Android, JsonView::Array(all), inner);
}

proof fn lemma_stands_deeper(inner: JsonView, v: JsonView, items: Seq<JsonView>)
    requires
        stands_in(inner, v),
        stands_among(v, items),
    ensures
        stands_among(inner, items),
    decreases items,
{
    if stands_in(v, items.last()) {
        lemma_stands_within(inner, v, items.last());
    } else {
        lemma_stands_deeper(inner, v, items.drop_last());
    }
}

proof fn lemma_stands_within(inner: JsonView, v: JsonView, outer: JsonView)
    requires
        stands_in(inner, v),
        stands_in(v, outer),
    ensures
        stands_in(inner, outer),
    decreases outer,
{
    if v != outer {
        match outer {
            JsonView::Object(m) => {
                let f = choose|f: Seq<char>| #[trigger] m.dom().contains(f) && stands_in(v, m[f]);
                lemma_stands_within(inner, v, m[f]);
                assert(m.dom().contains(f) && stands_in(inner, m[f]));
            },
            JsonView::Array(items) => {
                lemma_stands_deeper(inner, v, items);
            },
            _ => {},
        }
    }
}

/// A device in an archive that was decoded is reported, and an archive with one is
/// no failure.
pub proof fn archived_devices_are_reported(
    v: JsonView,
    r: Result<Vec<DeviceInfo>, String>,
    inner: JsonView,
)
    requires
        archive_outcome(Ok(v), r),
        stands_in(inner, v),
        inner is Object,
        name_in(inner) is Some,
        key_in(inner) is Some,
    ensures
        r is Ok,
        exists|j: int|
            0 <= j < r->Ok_0@.len() && (#[trigger] r->Ok_0@[j]).name@ == name_in(inner)->0
                && r->Ok_0@[j].encrypt_key@ == text::lowered(key_in(inner)->0)
                && r->Ok_0@[j].platform == Platform::Ios,
{
    if r is Err {
        devices_are_found_wherever_they_stand(inner, v, None);
        lemma_names_are_normal(inner);
        found_devices_are_reported(v, name_in(inner)->0, key_in(inner)->0);
        assert(device_in(v, name_in(inner)->0, text::lowered(key_in(inner)->0)));
    } else {
        lemma_reported(r->Ok_0@, Platform::Ios, v, inner);
    }
}

/// The devices of a database come from the archive in its table of manifests, and
/// from nothing else: a database in which no such archive is found gives none.
pub proof fn databases_are_read_by_their_manifest(bytes: Vec<u8>, r: Result<Vec<DeviceInfo>, String>)
    requires
        ios_outcome(bytes, r),
        r is Ok,
    ensures
        ({
            let (page, usable) = sqlite::file_sizes(bytes@)->Ok_0;
            let f = SqliteFile { bytes, page_size: page as usize, usable_size: usable as usize };
            &&& sqlite::file_sizes(bytes@) is Ok
            &&& register_list(f) is Ok
            &&& archive::archive_decoded(register_list(f)->Ok_0) matches Ok(v) && devices_with(
                r->Ok_0@,
                Platform::Ios,
                |n: Seq<char>, k: Seq<char>| device_in(v, n, k),
            )
            &&& r->Ok_0@.len() > 0
        }),
{
}

/// A database in which the manifests can be read and one of them is the device list
/// gives that list.
pub proof fn readable_lists_are_found(f: SqliteFile, root: u32, i: int)
    requires
        ({
            let depth = f.page_count() as nat;
            &&& f.table_rows(1, depth) is Ok
            &&& sqlite::root_page_in(f.table_rows(1, depth)->Ok_0, "manifest"@) == Some(root)
            &&& f.table_rows(root, depth) is Ok
            &&& 0 <= i < f.table_rows(root, depth)->Ok_0.len()
            &&& f.table_rows(root, depth)->Ok_0[i].len() > 3
            &&& f.table_rows(root, depth)->Ok_0[i][0] == CellView::Text("registerList_cn"@)
            &&& f.table_rows(root, depth)->Ok_0[i][3] is Blob
        }),
    ensures
        register_list(f) is Ok,
{
    let rows = f.table_rows(root, f.page_count() as nat)->Ok_0;
    lemma_list_is_found(rows, i);
}

proof fn lemma_list_is_found(rows: Seq<Seq<CellView>>, i: int)
    requires
        0 <= i < rows.len(),
        rows[i].len() > 3,
        rows[i][0] == CellView::Text("registerList_cn"@),
        rows[i][3] is Blob,
    ensures
        first_register_list(rows) is Some,
    decreases rows.len(),
{
    if i > 0 {
        assert(rows.drop_first()[i - 1] == rows[i]);
        lemma_list_is_found(rows.drop_first(), i - 1);
    }
}

/// Whether every brace and every quote of a text is closed in it, and no brace is
/// closed that was not opened.
pub open spec fn balanced(w: Seq<char>) -> bool {
    &&& scanned(w, w.len() as int).depth == 0
    &&& !scanned(w, w.len() as int).quoted
    &&& !scanned(w, w.len() as int).escaped
    &&& forall|i: int|
        #![trigger w[i]]
        0 <= i < w.len() && w[i] == '}' && !scanned(w, i).quoted ==> scanned(w, i).depth > 0
}

proof fn lemma_scan_inside(w: Seq<char>, n: int)
    requires
        balanced(w),
        0 <= n <= w.len(),
    ensures
        ({
            let o = seq!['{'] + w + seq!['}'];
            let s = scanned(o, n + 1);
            let t = scanned(w, n);
            &&& s.depth == t.depth + 1
            &&& s.start == 0
            &&& s.quoted == t.quoted
            &&& s.escaped == t.escaped
            &&& objects(o, n + 1).len() == 0
        }),
    decreases n,
{
    let o = seq!['{'] + w + seq!['}'];
    if n == 0 {
        assert(o[0] == '{');
        assert(scanned(o, 0) == (Scan { depth: 0, start: 0, quoted: false, escaped: false }));
        assert(objects(o, 0).len() == 0);
    } else {
        lemma_scan_inside(w, n - 1);
        assert(o[n] == w[n - 1]);
    }
}

/// A balanced text between braces is one object, whatever objects it holds itself.
pub proof fn nested_objects_belong_to_the_outer(w: Seq<char>)
    requires
        balanced(w),
    ensures
        ({
            let o = seq!['{'] + w + seq!['}'];
            &&& objects(o, o.len() as int) == seq![o]
            &&& balanced(o)
        }),
{
    let o = seq!['{'] + w + seq!['}'];
    let n = w.len() as int;
    lemma_scan_inside(w, n);
    assert(o[n + 1] == '}');
    assert(closes(o, n + 1));
    assert(o.subrange(0, n + 2) =~= o);
    assert(objects(o, n + 1) =~= Seq::empty());
    assert(objects(o, n + 2) =~= seq![o]);
    assert forall|i: int|
        #![trigger o[i]]
        0 <= i < o.len() && o[i] == '}' && !scanned(o, i).quoted implies scanned(o, i).depth > 0 by {
        if i > 0 {
            lemma_scan_inside(w, i - 1);
        } else {
            assert(o[0] == '{');
        }
    }
}

/// A quoted text ends with the quote that closes it: braces in it do not count, and
/// neither does a quote behind a backslash.
pub proof fn quoted_texts_hold_anything(p: Seq<char>, c: char, r: Seq<char>)
    requires
        forall|i: int| 0 <= i < p.len() ==> #[trigger] p[i] != '"' && p[i] != '\\',
        forall|i: int| 0 <= i < r.len() ==> #[trigger] r[i] != '"' && r[i] != '\\',
    ensures
        balanced(seq!['"'] + p + seq!['\\', c] + r + seq!['"']),
{
    let t = seq!['"'] + p + seq!['\\', c] + r + seq!['"'];
    let a = 1 + p.len() as int;
    let b = a + 2 + r.len() as int;
    assert(t[0] == '"');
    let open = Scan { depth: 0, start: 0, quoted: true, escaped: false };
    assert(scanned(t, 0) == (Scan { depth: 0, start: 0, quoted: false, escaped: false }));
    assert(scanned(t, 1) == open);
    assert forall|i: int| 1 <= i < a implies #[trigger] t[i] != '"' && t[i] != '\\' by {
        assert(t[i] == p[i - 1]);
    }
    lemma_quoted_scan(t, 1, a);
    assert(t[a] == '\\' && t[a + 1] == c);
    assert(scanned(t, a + 1) == (Scan { escaped: true, ..open }));
    assert(scanned(t, a + 2) == open);
    assert forall|i: int| a + 2 <= i < b implies #[trigger] t[i] != '"' && t[i] != '\\' by {
        assert(t[i] == r[i - a - 2]);
    }
    lemma_quoted_scan(t, a + 2, b);
    assert(t[b] == '"');
    assert(scanned(t, b + 1) == (Scan { quoted: false, ..open }));
    assert forall|i: int|
        #![trigger t[i]]
        0 <= i < t.len() && t[i] == '}' && !scanned(t, i).quoted implies scanned(t, i).depth > 0 by {
        if i > 0 && i <= a {
            lemma_quoted_scan(t, 1, i);
        } else if i == a + 1 {
            assert(scanned(t, a + 1).quoted);
        } else if i >= a + 2 {
            lemma_quoted_scan(t, a + 2, i);
        }
    }
}

/// Balanced texts behind one another are balanced, and hold the objects of each.
pub proof fn balanced_texts_can_be_joined(a: Seq<char>, b: Seq<char>)
    requires
        balanced(a),
        balanced(b),
    ensures
        balanced(a + b),
        objects(a + b, (a + b).len() as int) == objects(a, a.len() as int) + objects(
            b,
            b.len() as int,
        ),
{
    let all = a + b;
    let n = a.len() as int;
    logs_are_read_piece_by_piece(a, b);
    lemma_scan_shift(a, b, b.len() as int);
    assert forall|i: int|
        #![trigger all[i]]
        0 <= i < all.len() && all[i] == '}' && !scanned(all, i).quoted implies scanned(all, i).depth
        > 0 by {
        if i < n {
            lemma_scan_prefix(a, b, i);
            assert(a[i] == all[i]);
        } else {
            lemma_scan_shift(a, b, i - n);
            assert(b[i - n] == all[i]);
        }
    }
}

} // verus!
