//! JSON values as plain data, with the text form supplied by `serde_json`.
use vstd::prelude::*;
use vstd::string::*;

use crate::text::str_eq;

verus! {

/// A JSON value. Integers keep their exact value; any other number keeps its
/// text. In an object a later entry replaces an earlier one of the same key.
#[derive(Debug)]
pub enum Json {
    Null,
    Bool(bool),
    /// A non-negative integer.
    UInt(u64),
    /// A negative integer.
    NegInt(i64),
    /// A number that is no 64-bit integer, as written.
    Float(String),
    Str(String),
    Array(Vec<Json>),
    Object(JsonObject),
}

/// The entries of a JSON object.
#[derive(Debug)]
pub struct JsonObject {
    pub entries: Vec<(String, Json)>,
}

/// The mathematical value of a [`Json`].
pub enum JsonView {
    Null,
    Bool(bool),
    UInt(nat),
    NegInt(int),
    Float(Seq<char>),
    Str(Seq<char>),
    Array(Seq<JsonView>),
    Object(Map<Seq<char>, JsonView>),
}

/// The object that a list of entries stands for.
pub open spec fn entries_view(s: Seq<(String, Json)>) -> Map<Seq<char>, JsonView>
    decreases s,
{
    if s.len() == 0 {
        Map::empty()
    } else {
        entries_view(s.drop_last()).insert(s.last().0@, s.last().1.view())
    }
}

/// The views of a list of values.
pub open spec fn items_view(s: Seq<Json>) -> Seq<JsonView>
    decreases s,
{
    if s.len() == 0 {
        Seq::empty()
    } else {
        items_view(s.drop_last()).push(s.last().view())
    }
}

impl Json {
    pub open spec fn view(&self) -> JsonView
        decreases self,
    {
        match self {
            Json::Null => JsonView::Null,
            Json::Bool(b) => JsonView::Bool(*b),
            Json::UInt(n) => JsonView::UInt(*n as nat),
            Json::NegInt(n) => JsonView::NegInt(*n as int),
            Json::Float(s) => JsonView::Float(s@),
            Json::Str(s) => JsonView::Str(s@),
            Json::Array(v) => JsonView::Array(items_view(v@)),
            Json::Object(o) => JsonView::Object(entries_view(o.entries@)),
        }
    }
}

impl JsonObject {
    pub open spec fn view(&self) -> Map<Seq<char>, JsonView> {
        entries_view(self.entries@)
    }
}

impl JsonView {
    /// The value under `key`, where this is an object that has the key.
    pub open spec fn get(self, key: Seq<char>) -> Option<JsonView> {
        match self {
            JsonView::Object(m) => if m.dom().contains(key) {
                Some(m[key])
            } else {
                None
            },
            _ => None,
        }
    }

    pub open spec fn as_str(self) -> Option<Seq<char>> {
        match self {
            JsonView::Str(s) => Some(s),
            _ => None,
        }
    }

    pub open spec fn as_bool(self) -> Option<bool> {
        match self {
            JsonView::Bool(b) => Some(b),
            _ => None,
        }
    }

    pub open spec fn as_u64(self) -> Option<nat> {
        match self {
            JsonView::UInt(n) => Some(n),
            _ => None,
        }
    }

    /// The integer, where it fits in a signed 64-bit word.
    pub open spec fn as_i64(self) -> Option<int> {
        match self {
            JsonView::UInt(n) => if n <= i64::MAX {
                Some(n as int)
            } else {
                None
            },
            JsonView::NegInt(n) => Some(n),
            _ => None,
        }
    }

    /// The text under `key`, where it is a string.
    pub open spec fn str_at(self, key: Seq<char>) -> Option<Seq<char>> {
        match self.get(key) {
            Some(v) => v.as_str(),
            None => None,
        }
    }

    pub open spec fn u64_at(self, key: Seq<char>) -> Option<nat> {
        match self.get(key) {
            Some(v) => v.as_u64(),
            None => None,
        }
    }

    pub open spec fn i64_at(self, key: Seq<char>) -> Option<int> {
        match self.get(key) {
            Some(v) => v.as_i64(),
            None => None,
        }
    }

    pub open spec fn bool_at(self, key: Seq<char>) -> Option<bool> {
        match self.get(key) {
            Some(v) => v.as_bool(),
            None => None,
        }
    }
}

/// The value of an integer.
pub open spec fn int_view(n: int) -> JsonView {
    if n >= 0 {
        JsonView::UInt(n as nat)
    } else {
        JsonView::NegInt(n)
    }
}

/// The optional view of an optional string.
pub open spec fn opt_view(o: Option<&str>) -> Option<Seq<char>> {
    match o {
        Some(s) => Some(s@),
        None => None,
    }
}

pub proof fn lemma_items_view_index(s: Seq<Json>)
    ensures
        items_view(s).len() == s.len(),
        forall|i: int| 0 <= i < s.len() ==> items_view(s)[i] == #[trigger] s[i].view(),
    decreases s,
{
    if s.len() > 0 {
        lemma_items_view_index(s.drop_last());
        assert forall|i: int| 0 <= i < s.len() implies items_view(s)[i] == #[trigger] s[i].view() by {
            if i < s.len() - 1 {
                assert(s.drop_last()[i] == s[i]);
            }
        }
    }
}

proof fn lemma_entries_view_lookup(s: Seq<(String, Json)>, n: int, key: Seq<char>)
    requires
        0 <= n <= s.len(),
        forall|j: int| n <= j < s.len() ==> (#[trigger] s[j]).0@ != key,
    ensures
        entries_view(s).dom().contains(key) == entries_view(s.take(n)).dom().contains(key),
        entries_view(s).dom().contains(key) ==> entries_view(s)[key] == entries_view(s.take(n))[key],
    decreases s.len(),
{
    if n < s.len() {
        assert(s.last().0@ != key);
        lemma_entries_view_lookup(s.drop_last(), n, key);
        assert(s.drop_last().take(n) =~= s.take(n));
    } else {
        assert(s.take(n) =~= s);
    }
}

impl JsonObject {
    pub fn new() -> (r: JsonObject)
        ensures
            r@ == Map::<Seq<char>, JsonView>::empty(),
    {
        JsonObject { entries: Vec::new() }
    }

    /// Sets the value under `key`.
    pub fn put(&mut self, key: &str, value: Json)
        ensures
            final(self)@ == old(self)@.insert(key@, value@),
    {
        let ghost before = self.entries@;
        self.entries.push((key.to_owned(), value));
        proof {
            assert(self.entries@.drop_last() =~= before);
        }
    }

    /// The value under `key`.
    pub fn get(&self, key: &str) -> (r: Option<&Json>)
        ensures
            match r {
                Some(j) => self@.dom().contains(key@) && self@[key@] == j@,
                None => !self@.dom().contains(key@),
            },
    {
        let mut i: usize = self.entries.len();
        while i > 0
            invariant
                i <= self.entries@.len(),
                forall|j: int| i <= j < self.entries@.len() ==> (#[trigger] self.entries@[j]).0@
                    != key@,
            decreases i,
        {
            i = i - 1;
            if str_eq(self.entries[i].0.as_str(), key) {
                proof {
                    lemma_entries_view_lookup(self.entries@, i + 1, key@);
                    assert(self.entries@.take(i + 1).drop_last() =~= self.entries@.take(i as int));
                }
                return Some(&self.entries[i].1);
            }
        }
        proof {
            lemma_entries_view_lookup(self.entries@, 0, key@);
            assert(self.entries@.take(0) =~= Seq::empty());
        }
        None
    }
}

impl Json {
    /// The value under `key` of an object.
    pub fn get(&self, key: &str) -> (r: Option<&Json>)
        ensures
            match r {
                Some(j) => self@.get(key@) == Some(j@),
                None => self@.get(key@) is None,
            },
    {
        match self {
            Json::Object(o) => o.get(key),
            _ => None,
        }
    }

    pub fn as_str(&self) -> (r: Option<&str>)
        ensures
            opt_view(r) == self@.as_str(),
    {
        match self {
            Json::Str(s) => Some(s.as_str()),
            _ => None,
        }
    }

    pub fn as_bool(&self) -> (r: Option<bool>)
        ensures
            r == self@.as_bool(),
    {
        match self {
            Json::Bool(b) => Some(*b),
            _ => None,
        }
    }

    pub fn as_u64(&self) -> (r: Option<u64>)
        ensures
            match r {
                Some(n) => self@.as_u64() == Some(n as nat),
                None => self@.as_u64() is None,
            },
    {
        match self {
            Json::UInt(n) => Some(*n),
            _ => None,
        }
    }

    pub fn as_i64(&self) -> (r: Option<i64>)
        ensures
            match r {
                Some(n) => self@.as_i64() == Some(n as int),
                None => self@.as_i64() is None,
            },
    {
        match self {
            Json::UInt(n) => if *n <= i64::MAX as u64 {
                Some(*n as i64)
            } else {
                None
            },
            Json::NegInt(n) => Some(*n),
            _ => None,
        }
    }

    /// The text under `key`, where it is a string.
    pub fn str_at(&self, key: &str) -> (r: Option<&str>)
        ensures
            opt_view(r) == self@.str_at(key@),
    {
        match self.get(key) {
            Some(v) => v.as_str(),
            None => None,
        }
    }

    pub fn u64_at(&self, key: &str) -> (r: Option<u64>)
        ensures
            match r {
                Some(n) => self@.u64_at(key@) == Some(n as nat),
                None => self@.u64_at(key@) is None,
            },
    {
        match self.get(key) {
            Some(v) => v.as_u64(),
            None => None,
        }
    }

    pub fn i64_at(&self, key: &str) -> (r: Option<i64>)
        ensures
            match r {
                Some(n) => self@.i64_at(key@) == Some(n as int),
                None => self@.i64_at(key@) is None,
            },
    {
        match self.get(key) {
            Some(v) => v.as_i64(),
            None => None,
        }
    }

    pub fn bool_at(&self, key: &str) -> (r: Option<bool>)
        ensures
            r == self@.bool_at(key@),
    {
        match self.get(key) {
            Some(v) => v.as_bool(),
            None => None,
        }
    }

    /// An integer value.
    pub fn integer(n: i64) -> (r: Json)
        ensures
            r@ == int_view(n as int),
    {
        if n >= 0 {
            Json::UInt(n as u64)
        } else {
            Json::NegInt(n)
        }
    }

    /// The items of an array.
    pub fn as_array(&self) -> (r: Option<&Vec<Json>>)
        ensures
            match r {
                Some(v) => self@ == JsonView::Array(items_view(v@)),
                None => !(self@ is Array),
            },
    {
        match self {
            Json::Array(v) => Some(v),
            _ => None,
        }
    }

    /// A string value.
    pub fn string(s: &str) -> (r: Json)
        ensures
            r@ == JsonView::Str(s@),
    {
        Json::Str(s.to_owned())
    }

    /// The value that a text spells, or the reason why it spells none.
    pub fn parse(text: &str) -> (r: Result<Json, String>)
        ensures
            match r {
                Ok(j) => json_parsed(text@) == Ok::<JsonView, Seq<char>>(j@),
                Err(e) => json_parsed(text@) == Err::<JsonView, Seq<char>>(e@),
            },
    {
        parse_json(text)
    }

    /// The compact text of the value.
    pub fn to_text(&self) -> (r: String)
        ensures
            r@ == json_text(self@),
    {
        write_json(self)
    }

    /// A copy of the value.
    pub fn duplicate(&self) -> (r: Json)
        ensures
            r@ == self@,
        decreases self,
    {
        match self {
            Json::Null => Json::Null,
            Json::Bool(b) => Json::Bool(*b),
            Json::UInt(n) => Json::UInt(*n),
            Json::NegInt(n) => Json::NegInt(*n),
            Json::Float(s) => Json::Float(s.clone()),
            Json::Str(s) => Json::Str(s.clone()),
            Json::Array(v) => {
                let mut out: Vec<Json> = Vec::new();
                let mut i: usize = 0;
                while i < v.len()
                    invariant
                        i <= v@.len(),
                        *self == Json::Array(*v),
                        items_view(out@) == items_view(v@.take(i as int)),
                    decreases v.len() - i,
                {
                    proof {
                        assert(decreases_to!(v@ => v@[i as int]));
                        assert(decreases_to!(*v => v@));
                        assert(decreases_to!(*self => self->Array_0));
                    }
                    let item = v[i].duplicate();
                    let ghost before = out@;
                    out.push(item);
                    proof {
                        assert(out@.drop_last() =~= before);
                        assert(v@.take(i + 1).drop_last() =~= v@.take(i as int));
                    }
                    i = i + 1;
                }
                proof {
                    assert(v@.take(i as int) =~= v@);
                }
                Json::Array(out)
            },
            Json::Object(o) => Json::Object(o.duplicate()),
        }
    }
}

impl JsonObject {
    /// A copy of the object.
    pub fn duplicate(&self) -> (r: JsonObject)
        ensures
            r@ == self@,
        decreases self,
    {
        let mut out = JsonObject::new();
        let mut i: usize = 0;
        while i < self.entries.len()
            invariant
                i <= self.entries@.len(),
                out@ == entries_view(self.entries@.take(i as int)),
            decreases self.entries.len() - i,
        {
            proof {
                assert(decreases_to!(self.entries@[i as int] => self.entries@[i as int].1));
                assert(decreases_to!(self.entries@ => self.entries@[i as int]));
                assert(decreases_to!(self.entries => self.entries@));
                assert(decreases_to!(*self => self.entries));
            }
            let item = self.entries[i].1.duplicate();
            proof {
                assert(self.entries@.take(i + 1).drop_last() =~= self.entries@.take(i as int));
            }
            out.put(self.entries[i].0.as_str(), item);
            i = i + 1;
        }
        proof {
            assert(self.entries@.take(i as int) =~= self.entries@);
        }
        out
    }
}

#[verifier::external_type_specification]
#[verifier::external_body]
pub struct ExSerdeValue(serde_json::Value);

/// The text that `serde_json` writes for a value.
pub uninterp spec fn json_text(v: JsonView) -> Seq<char>;

/// What `serde_json` reads from a text: the value, or the message of its error.
pub uninterp spec fn json_parsed(text: Seq<char>) -> Result<JsonView, Seq<char>>;

/// Converts a `serde_json::Value`, variant by variant.
#[verifier::external_body]
fn from_serde(value: serde_json::Value) -> (r: Json)
{
    match value {
        serde_json::Value::Null => Json::Null,
        serde_json::Value::Bool(b) => Json::Bool(b),
        serde_json::Value::Number(n) => match (n.as_u64(), n.as_i64()) {
            (Some(u), _) => Json::UInt(u),
            (None, Some(i)) => Json::NegInt(i),
            _ => Json::Float(n.to_string()),
        },
        serde_json::Value::String(s) => Json::Str(s),
        serde_json::Value::Array(a) => Json::Array(a.into_iter().map(from_serde).collect()),
        serde_json::Value::Object(m) => Json::Object(JsonObject { entries: m.into_iter().map(|(k, v)| (k, from_serde(v))).collect() }),
    }
}

/// Converts to a `serde_json::Value`, variant by variant.
#[verifier::external_body]
fn to_serde(value: &Json) -> (r: serde_json::Value)
{
    match value {
        Json::Null => serde_json::Value::Null,
        Json::Bool(b) => serde_json::Value::Bool(*b),
        Json::UInt(n) => serde_json::Value::from(*n),
        Json::NegInt(n) => serde_json::Value::from(*n),
        Json::Float(s) => serde_json::from_str(s).unwrap_or(serde_json::Value::Null),
        Json::Str(s) => serde_json::Value::String(s.clone()),
        Json::Array(a) => serde_json::Value::Array(a.iter().map(to_serde).collect()),
        Json::Object(o) => serde_json::Value::Object(o.entries.iter().map(|(k, v)| (k.clone(), to_serde(v))).collect()),
    }
}

/// Wrapper of `serde_json::from_str`: the value that the text spells, or the
/// text of the error. The result depends on the text alone.
#[verifier::external_body]
pub(crate) fn parse_json(text: &str) -> (r: Result<Json, String>)
    ensures
        match r {
            Ok(j) => json_parsed(text@) == Ok::<JsonView, Seq<char>>(j@),
            Err(e) => json_parsed(text@) == Err::<JsonView, Seq<char>>(e@),
        },
{
    match serde_json::from_str::<serde_json::Value>(text) {
        Ok(value) => Ok(from_serde(value)),
        Err(error) => Err(error.to_string()),
    }
}

/// Wrapper of the compact text form of `serde_json::Value`. The result depends
/// on the value alone.
#[verifier::external_body]
pub(crate) fn write_json(value: &Json) -> (r: String)
    ensures
        r@ == json_text(value@),
{
    to_serde(value).to_string()
}

// ---------------------------------------------------------------- laws

/// In an object the last entry of a key counts, and a key without an entry has no
/// value.
pub proof fn last_entries_count(s: Seq<(String, Json)>, i: int, key: Seq<char>)
    requires
        0 <= i < s.len(),
        forall|j: int| i < j < s.len() ==> (#[trigger] s[j]).0@ != s[i].0@,
    ensures
        entries_view(s).dom().contains(s[i].0@),
        entries_view(s)[s[i].0@] == s[i].1.view(),
        (forall|j: int| 0 <= j < s.len() ==> (#[trigger] s[j]).0@ != key) ==> !entries_view(
            s,
        ).dom().contains(key),
    decreases s.len(),
{
    lemma_no_entry(s, key);
    if i < s.len() - 1 {
        let rest = s.drop_last();
        assert forall|j: int| i < j < rest.len() implies (#[trigger] rest[j]).0@ != rest[i].0@ by {
            assert(rest[j] == s[j]);
        }
        last_entries_count(rest, i, key);
        assert(s[s.len() - 1].0@ != s[i].0@);
        assert(rest[i] == s[i]);
    }
}

proof fn lemma_no_entry(s: Seq<(String, Json)>, key: Seq<char>)
    ensures
        (forall|j: int| 0 <= j < s.len() ==> (#[trigger] s[j]).0@ != key) ==> !entries_view(
            s,
        ).dom().contains(key),
    decreases s.len(),
{
    if s.len() > 0 && forall|j: int| 0 <= j < s.len() ==> (#[trigger] s[j]).0@ != key {
        let rest = s.drop_last();
        assert forall|j: int| 0 <= j < rest.len() implies (#[trigger] rest[j]).0@ != key by {
            assert(rest[j] == s[j]);
        }
        lemma_no_entry(rest, key);
        assert(s[s.len() - 1].0@ != key);
    }
}

/// A field is read as what it is: a text as a text, a number as a number, and
/// nothing as anything else.
pub proof fn fields_are_read_as_they_are(
    m: Map<Seq<char>, JsonView>,
    key: Seq<char>,
    t: Seq<char>,
    n: nat,
    b: bool,
)
    ensures
        ({
            let v = JsonView::Object(m.insert(key, JsonView::Str(t)));
            v.str_at(key) == Some(t) && v.u64_at(key) is None && v.bool_at(key) is None
        }),
        ({
            let v = JsonView::Object(m.insert(key, JsonView::UInt(n)));
            v.u64_at(key) == Some(n) && v.str_at(key) is None && (n <= i64::MAX ==> v.i64_at(key)
                == Some(n as int))
        }),
        ({
            let v = JsonView::Object(m.insert(key, JsonView::Bool(b)));
            v.bool_at(key) == Some(b) && v.str_at(key) is None
        }),
        ({
            let v = JsonView::Object(m.remove(key));
            v.get(key) is None && v.str_at(key) is None && v.u64_at(key) is None
        }),
        !(JsonView::Str(t) is Object) && JsonView::Str(t).get(key) is None,
{
}

/// An integer is read back as it was, whether it is negative or not.
pub proof fn integers_are_read_back(n: int)
    requires
        i64::MIN <= n <= i64::MAX,
    ensures
        int_view(n).as_i64() == Some(n),
        n >= 0 ==> int_view(n).as_u64() == Some(n as nat),
        n < 0 ==> int_view(n).as_u64() is None,
{
}

} // verus!
