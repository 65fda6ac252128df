//! Keyed archives: property lists whose objects refer to each other.
use vstd::prelude::*;
use vstd::string::*;

use crate::json::{self, Json, JsonObject, JsonView};
use crate::mifit::extractor;
use crate::text::str_eq;

verus! {

#[verifier::external_type_specification]
#[verifier::external_body]
pub struct ExPlistValue(nskeyedarchiver_converter::plist::Value);

/// Converts a property list. References become unsigned numbers, and integers
/// numbers by their text; dates, data and reals become null.
#[verifier::external_body]
fn from_plist(value: nskeyedarchiver_converter::plist::Value) -> (r: Json)
{
    match value {
        nskeyedarchiver_converter::plist::Value::Dictionary(d) => Json::Object(
            JsonObject { entries: d.into_iter().map(|(k, v)| (k, from_plist(v))).collect() },
        ),
        nskeyedarchiver_converter::plist::Value::Array(a) => Json::Array(
            a.into_iter().map(from_plist).collect(),
        ),
        nskeyedarchiver_converter::plist::Value::String(s) => Json::Str(s),
        nskeyedarchiver_converter::plist::Value::Boolean(b) => Json::Bool(b),
        nskeyedarchiver_converter::plist::Value::Uid(u) => Json::UInt(u.get()),
        nskeyedarchiver_converter::plist::Value::Integer(n) => Json::Float(n.to_string()),
        _ => Json::Null,
    }
}

/// The property list that some bytes hold, if they hold one.
pub uninterp spec fn plist_read(bytes: Seq<u8>) -> Option<JsonView>;

/// Wrapper of `plist::from_bytes`. The result depends on the bytes alone.
#[verifier::external_body]
fn read_plist(bytes: &[u8]) -> (r: Option<Json>)
    ensures
        match r {
            Some(v) => plist_read(bytes@) == Some(v@),
            None => plist_read(bytes@) is None,
        },
{
    match nskeyedarchiver_converter::plist::from_bytes::<nskeyedarchiver_converter::plist::Value>(bytes) {
        Ok(v) => Some(from_plist(v)),
        Err(_) => None,
    }
}

// ---------------------------------------------------------------- objects

/// The list under a key.
pub open spec fn list_at(v: JsonView, key: Seq<char>) -> Option<Seq<JsonView>> {
    match v.get(key) {
        Some(JsonView::Array(items)) => Some(items),
        _ => None,
    }
}

/// The place of the object that a number refers to.
pub open spec fn place_of(n: nat) -> int {
    ((n as u64) as usize) as int
}

/// Whether a list holds texts only.
pub open spec fn all_texts(items: Seq<JsonView>) -> bool {
    forall|i: int| 0 <= i < items.len() ==> (#[trigger] items[i]) is Str
}

/// The class of an object: the first of the names that the object its class refers
/// to lists.
pub open spec fn class_name(objects: Seq<JsonView>, d: JsonView) -> Option<Seq<char>> {
    match d.u64_at("$class"@) {
        Some(c) => if place_of(c) < objects.len() {
            match list_at(objects[place_of(c)], "$classes"@) {
                Some(names) => if names.len() > 0 && all_texts(names) {
                    names[0].as_str()
                } else {
                    None
                },
                None => None,
            }
        } else {
            None
        },
        None => None,
    }
}

pub open spec fn is_dictionary(name: Seq<char>) -> bool {
    name == "NSDictionary"@ || name == "NSMutableDictionary"@
}

pub open spec fn is_list(name: Seq<char>) -> bool {
    name == "NSArray"@ || name == "NSMutableArray"@
}

/// Whether a value refers to the object at a place. The number zero refers to none.
pub open spec fn refers(v: JsonView, place: int) -> bool {
    v matches JsonView::UInt(n) && n != 0 && place_of(n) == place
}

/// Whether one of some values refers to the object at a place.
pub open spec fn one_refers(items: Seq<JsonView>, place: int) -> bool {
    exists|i: int| 0 <= i < items.len() && refers(#[trigger] items[i], place)
}

/// Whether the list under a key refers to the object at a place.
pub open spec fn list_refers(v: JsonView, key: Seq<char>, place: int) -> bool {
    list_at(v, key) matches Some(items) && one_refers(items, place)
}

/// Whether a field refers to the object at a place: the value itself, or, if lists
/// count, one in it.
pub open spec fn value_refers(v: JsonView, lists: bool, place: int) -> bool {
    refers(v, place) || (v matches JsonView::Array(items) && lists && one_refers(items, place))
}

/// Whether one of the fields of an object refers to the object at a place.
pub open spec fn field_refers(v: JsonView, lists: bool, place: int) -> bool {
    v matches JsonView::Object(m) && exists|f: Seq<char>| #[trigger]
        m.dom().contains(f) && value_refers(m[f], lists, place)
}

/// Whether the decoder goes from an object to the one at a place: a dictionary leads
/// to its keys and values, a list to its items, and any other object to whatever its
/// fields refer to.
pub open spec fn leads_to(objects: Seq<JsonView>, d: JsonView, place: int) -> bool {
    match class_name(objects, d) {
        None => false,
        Some(name) => if is_dictionary(name) {
            list_refers(d, "NS.keys"@, place) || list_refers(d, "NS.objects"@, place)
        } else if is_list(name) {
            list_refers(d, "NS.objects"@, place)
        } else {
            field_refers(d, true, place)
        },
    }
}

/// Whether the decoder comes to the object at a place, from the top in no more than
/// so many steps.
pub open spec fn reached(objects: Seq<JsonView>, top: JsonView, place: int, steps: nat) -> bool
    decreases steps,
{
    &&& 0 <= place < objects.len()
    &&& if steps == 0 {
        field_refers(top, false, place)
    } else {
        reached(objects, top, place, (steps - 1) as nat) || exists|j: int|
            #![trigger objects[j]]
            reached(objects, top, j, (steps - 1) as nat) && leads_to(objects, objects[j], place)
    }
}

/// Whether the decoder comes to the object at a place.
pub open spec fn reachable(objects: Seq<JsonView>, top: JsonView, place: int) -> bool {
    exists|steps: nat| reached(objects, top, place, steps)
}

/// Whether an object is a dictionary with fewer values than keys.
pub open spec fn lacks_values(objects: Seq<JsonView>, d: JsonView) -> bool {
    match (class_name(objects, d), list_at(d, "NS.keys"@), list_at(d, "NS.objects"@)) {
        (Some(name), Some(keys), Some(values)) => is_dictionary(name) && values.len() < keys.len(),
        _ => false,
    }
}

/// Whether a property list has the header of a keyed archive.
pub open spec fn has_header(v: JsonView) -> bool {
    v.str_at("$archiver"@) == Some("NSKeyedArchiver"@) && v.get("$version"@) == Some(
        JsonView::Float("100000"@),
    )
}

/// Whether no dictionary that the decoder comes to lacks values. A fault that ends
/// the decoding before it comes to one is not taken into account: it depends on the
/// order in which the decoder walks the fields.
pub open spec fn paired(v: JsonView) -> bool {
    match (v.get("$top"@), list_at(v, "$objects"@)) {
        (Some(top), Some(objects)) => has_header(v) ==> all_paired(objects, top),
        _ => true,
    }
}

pub open spec fn all_paired(objects: Seq<JsonView>, top: JsonView) -> bool {
    forall|i: int|
        reachable(objects, top, i) ==> !lacks_values(objects, #[trigger] objects[i])
}

/// Whether the decoder of keyed archives can be given some bytes.
pub open spec fn decodable(bytes: Seq<u8>) -> bool {
    match plist_read(bytes) {
        Some(v) => paired(v),
        None => true,
    }
}

// ---------------------------------------------------------------- search

fn array_at<'a>(v: &'a Json, key: &str) -> (r: Option<&'a Vec<Json>>)
    ensures
        match r {
            Some(items) => list_at(v@, key@) == Some(json::items_view(items@)),
            None => list_at(v@, key@) is None,
        },
{
    match v.get(key) {
        Some(found) => found.as_array(),
        None => None,
    }
}

fn read_class_name<'a>(objects: &'a Vec<Json>, d: &Json) -> (r: Option<&'a str>)
    ensures
        json::opt_view(r) == class_name(json::items_view(objects@), d@),
{
    proof {
        json::lemma_items_view_index(objects@);
    }
    let class: u64 = match d.u64_at("$class") {
        Some(c) => c,
        None => return None,
    };
    let place: usize = class as usize;
    if place >= objects.len() {
        return None;
    }
    let names = match array_at(&objects[place], "$classes") {
        Some(names) => names,
        None => return None,
    };
    let ghost views = json::items_view(names@);
    proof {
        json::lemma_items_view_index(names@);
    }
    let total: usize = names.len();
    if total == 0 {
        return None;
    }
    let mut i: usize = 0;
    while i < total
        invariant
            i <= total,
            total == names@.len(),
            views.len() == names@.len(),
            forall|k: int| 0 <= k < names@.len() ==> views[k] == #[trigger] names@[k]@,
            forall|k: int| 0 <= k < i ==> (#[trigger] views[k]) is Str,
            place < objects@.len(),
            d@.u64_at("$class"@) == Some(class as nat),
            place == class as usize,
            json::items_view(objects@).len() == objects@.len(),
            list_at(json::items_view(objects@)[place as int], "$classes"@) == Some(views),
        decreases total - i,
    {
        assert(views[i as int] == names@[i as int]@);
        if names[i].as_str().is_none() {
            assert(!all_texts(views));
            return None;
        }
        i = i + 1;
    }
    assert(views[0] == names@[0]@);
    names[0].as_str()
}

/// Whether a place is among those found.
pub open spec fn holds(found: Seq<usize>, place: int) -> bool {
    exists|k: int| 0 <= k < found.len() && #[trigger] found[k] == place
}

/// The places that were found, in order, and for each place whether it was.
struct Search {
    found: Vec<usize>,
    seen: Vec<bool>,
}

impl Search {
    spec fn wf(self) -> bool {
        &&& self.found@.no_duplicates()
        &&& forall|k: int| 0 <= k < self.found@.len() ==> #[trigger] self.found@[k] < self.seen@.len()
        &&& forall|p: int|
            0 <= p < self.seen@.len() ==> #[trigger] self.seen@[p] == holds(self.found@, p)
    }

    /// Whether the search goes on where another stood.
    spec fn follows(self, before: Search) -> bool {
        &&& self.seen@.len() == before.seen@.len()
        &&& self.found@.len() >= before.found@.len()
        &&& forall|k: int|
            0 <= k < before.found@.len() ==> self.found@[k] == #[trigger] before.found@[k]
    }
}

proof fn lemma_no_more_than_places(s: Search)
    requires
        s.wf(),
    ensures
        s.found@.len() <= s.seen@.len(),
{
    let n = s.seen@.len() as int;
    let places = s.found@.map_values(|u: usize| u as int);
    assert(places.no_duplicates()) by {
        assert forall|i: int, j: int|
            0 <= i < places.len() && 0 <= j < places.len() && i != j implies places[i]
            != places[j] by {
            assert(s.found@[i] != s.found@[j]);
        }
    }
    places.unique_seq_to_set();
    vstd::set_lib::lemma_int_range(0, n);
    assert(places.to_set().subset_of(vstd::set_lib::set_int_range(0, n))) by {
        assert forall|p: int| places.to_set().contains(p) implies vstd::set_lib::set_int_range(
            0,
            n,
        ).contains(p) by {
            let k = choose|k: int| 0 <= k < places.len() && places[k] == p;
            assert(s.found@[k] < s.seen@.len());
        }
    }
    vstd::set_lib::lemma_len_subset(places.to_set(), vstd::set_lib::set_int_range(0, n));
}

impl Search {
    /// Adds the place that a value refers to.
    fn mark(&mut self, value: &Json)
        requires
            old(self).wf(),
        ensures
            final(self).wf(),
            final(self).follows(*old(self)),
            forall|p: int| #[trigger]
                holds(final(self).found@, p) <==> holds(old(self).found@, p) || (0 <= p < old(
                    self,
                ).seen@.len() && refers(value@, p)),
    {
        let n: u64 = match value.as_u64() {
            Some(n) => n,
            None => return,
        };
        let place: usize = n as usize;
        if n == 0 || place >= self.seen.len() || self.seen[place] {
            return;
        }
        let ghost before = *self;
        self.found.push(place);
        self.seen.set(place, true);
        proof {
            let after = self.found@;
            assert forall|p: int| #[trigger] holds(after, p) <==> holds(before.found@, p) || p
                == place by {
                if holds(before.found@, p) {
                    let k = choose|k: int|
                        0 <= k < before.found@.len() && #[trigger] before.found@[k] == p;
                    assert(after[k] == p);
                }
                if p == place {
                    assert(after[before.found@.len() as int] == p);
                }
                if holds(after, p) && p != place {
                    let k = choose|k: int| 0 <= k < after.len() && #[trigger] after[k] == p;
                    assert(before.found@[k] == p);
                }
            }
            assert(after.no_duplicates()) by {
                assert forall|i: int, j: int|
                    0 <= i < after.len() && 0 <= j < after.len() && i != j implies after[i]
                    != after[j] by {
                    assert(!before.seen@[place as int]);
                    assert(!holds(before.found@, place as int));
                    if i < before.found@.len() {
                        assert(before.found@[i] == after[i]);
                    }
                    if j < before.found@.len() {
                        assert(before.found@[j] == after[j]);
                    }
                }
            }
        }
    }

    /// Adds the places that the values of a list refer to.
    fn mark_list(&mut self, items: &Vec<Json>)
        requires
            old(self).wf(),
        ensures
            final(self).wf(),
            final(self).follows(*old(self)),
            forall|p: int| #[trigger]
                holds(final(self).found@, p) <==> holds(old(self).found@, p) || (0 <= p < old(
                    self,
                ).seen@.len() && one_refers(json::items_view(items@), p)),
    {
        let ghost first = *self;
        let ghost views = json::items_view(items@);
        proof {
            json::lemma_items_view_index(items@);
        }
        let total: usize = items.len();
        let mut i: usize = 0;
        while i < total
            invariant
                i <= total,
                total == items@.len(),
                views.len() == items@.len(),
                forall|k: int| 0 <= k < items@.len() ==> views[k] == #[trigger] items@[k]@,
                self.wf(),
                self.follows(first),
                forall|p: int| #[trigger]
                    holds(self.found@, p) <==> holds(first.found@, p) || (0 <= p
                        < first.seen@.len() && one_refers(views.take(i as int), p)),
            decreases total - i,
        {
            let ghost before = *self;
            self.mark(&items[i]);
            proof {
                let part = views.take(i as int);
                let more = views.take(i + 1);
                assert(views[i as int] == items@[i as int]@);
                assert forall|p: int| #[trigger] holds(self.found@, p) <==> holds(first.found@, p)
                    || (0 <= p < first.seen@.len() && one_refers(more, p)) by {
                    assert(holds(before.found@, p) <==> holds(first.found@, p) || (0 <= p
                        < first.seen@.len() && one_refers(part, p)));
                    if one_refers(part, p) {
                        let k = choose|k: int|
                            0 <= k < part.len() && refers(#[trigger] part[k], p);
                        assert(more[k] == part[k]);
                    }
                    if refers(views[i as int], p) {
                        assert(more[i as int] == views[i as int]);
                    }
                    if one_refers(more, p) && !refers(views[i as int], p) {
                        let k = choose|k: int|
                            0 <= k < more.len() && refers(#[trigger] more[k], p);
                        assert(part[k] == more[k]);
                    }
                }
            }
            i = i + 1;
        }
        assert(views.take(i as int) =~= views);
    }

    /// Adds the places that the list under a key refers to.
    fn mark_list_at(&mut self, v: &Json, key: &str)
        requires
            old(self).wf(),
        ensures
            final(self).wf(),
            final(self).follows(*old(self)),
            forall|p: int| #[trigger]
                holds(final(self).found@, p) <==> holds(old(self).found@, p) || (0 <= p < old(
                    self,
                ).seen@.len() && list_refers(v@, key@, p)),
    {
        match array_at(v, key) {
            Some(items) => self.mark_list(items),
            None => {},
        }
    }
}

/// Whether one of the first entries of an object refers to the object at a place.
spec fn entry_refers_at(entries: Seq<(String, Json)>, j: int, n: int, lists: bool, place: int) -> bool {
    0 <= j < n && j < entries.len() && !extractor::replaced(entries, j) && value_refers(
        entries[j].1@,
        lists,
        place,
    )
}

spec fn entry_refers(entries: Seq<(String, Json)>, n: int, lists: bool, place: int) -> bool {
    exists|j: int| entry_refers_at(entries, j, n, lists, place)
}

proof fn lemma_entry_refers(o: JsonObject, lists: bool, place: int)
    ensures
        entry_refers(o.entries@, o.entries@.len() as int, lists, place) <==> field_refers(
            JsonView::Object(o@),
            lists,
            place,
        ),
{
    let e = o.entries@;
    let n = e.len() as int;
    let m = json::entries_view(e);
    if entry_refers(e, n, lists, place) {
        let j = choose|j: int| entry_refers_at(e, j, n, lists, place);
        extractor::lemma_entry_kept(e, j);
        assert(m.dom().contains(e[j].0@));
    }
    if field_refers(JsonView::Object(m), lists, place) {
        let f = choose|f: Seq<char>| #[trigger]
            m.dom().contains(f) && value_refers(m[f], lists, place);
        let j = extractor::lemma_field_entry(e, f);
        assert(entry_refers_at(e, j, n, lists, place));
    }
}

impl Search {
    /// Adds the places that a field refers to.
    fn mark_value(&mut self, value: &Json, lists: bool)
        requires
            old(self).wf(),
        ensures
            final(self).wf(),
            final(self).follows(*old(self)),
            forall|p: int| #[trigger]
                holds(final(self).found@, p) <==> holds(old(self).found@, p) || (0 <= p < old(
                    self,
                ).seen@.len() && value_refers(value@, lists, p)),
    {
        match value.as_array() {
            Some(items) => if lists {
                self.mark_list(items);
            },
            None => self.mark(value),
        }
    }

    /// Adds the places that the fields of an object refer to.
    fn mark_fields(&mut self, v: &Json, lists: bool)
        requires
            old(self).wf(),
        ensures
            final(self).wf(),
            final(self).follows(*old(self)),
            forall|p: int| #[trigger]
                holds(final(self).found@, p) <==> holds(old(self).found@, p) || (0 <= p < old(
                    self,
                ).seen@.len() && field_refers(v@, lists, p)),
    {
        let o = match v {
            Json::Object(o) => o,
            _ => return,
        };
        let ghost first = *self;
        let total: usize = o.entries.len();
        let mut i: usize = 0;
        while i < total
            invariant
                i <= total,
                total == o.entries@.len(),
                self.wf(),
                self.follows(first),
                forall|p: int| #[trigger]
                    holds(self.found@, p) <==> holds(first.found@, p) || (0 <= p
                        < first.seen@.len() && entry_refers(o.entries@, i as int, lists, p)),
            decreases total - i,
        {
            let ghost before = *self;
            let skip = extractor::is_replaced(&o.entries, i);
            if !skip {
                self.mark_value(&o.entries[i].1, lists);
            }
            proof {
                let e = o.entries@;
                let next = i + 1;
                assert forall|p: int| #[trigger] holds(self.found@, p) <==> holds(first.found@, p)
                    || (0 <= p < first.seen@.len() && entry_refers(e, next, lists, p)) by {
                    assert(holds(before.found@, p) <==> holds(first.found@, p) || (0 <= p
                        < first.seen@.len() && entry_refers(e, i as int, lists, p)));
                    if entry_refers(e, next, lists, p) {
                        let j = choose|j: int| entry_refers_at(e, j, next, lists, p);
                        if j < i {
                            assert(entry_refers_at(e, j, i as int, lists, p));
                        }
                    }
                    if entry_refers(e, i as int, lists, p) {
                        let j = choose|j: int| entry_refers_at(e, j, i as int, lists, p);
                        assert(entry_refers_at(e, j, next, lists, p));
                    }
                    if !skip && value_refers(e[i as int].1@, lists, p) {
                        assert(entry_refers_at(e, i as int, next, lists, p));
                    }
                }
            }
            i = i + 1;
        }
        proof {
            assert forall|p: int| #[trigger] holds(self.found@, p) <==> holds(first.found@, p) || (0
                <= p < first.seen@.len() && field_refers(v@, lists, p)) by {
                lemma_entry_refers(*o, lists, p);
            }
        }
    }

    /// Adds the places that the decoder goes to from an object.
    fn mark_from(&mut self, objects: &Vec<Json>, d: &Json)
        requires
            old(self).wf(),
        ensures
            final(self).wf(),
            final(self).follows(*old(self)),
            forall|p: int| #[trigger]
                holds(final(self).found@, p) <==> holds(old(self).found@, p) || (0 <= p < old(
                    self,
                ).seen@.len() && leads_to(json::items_view(objects@), d@, p)),
    {
        match read_class_name(objects, d) {
            None => {},
            Some(name) => {
                if str_eq(name, "NSDictionary") || str_eq(name, "NSMutableDictionary") {
                    self.mark_list_at(d, "NS.keys");
                    self.mark_list_at(d, "NS.objects");
                } else if str_eq(name, "NSArray") || str_eq(name, "NSMutableArray") {
                    self.mark_list_at(d, "NS.objects");
                } else {
                    self.mark_fields(d, true);
                }
            },
        }
    }
}

proof fn lemma_reached_is_held(objects: Seq<JsonView>, top: JsonView, found: Seq<usize>, place: int, steps: nat)
    requires
        reached(objects, top, place, steps),
        forall|p: int|
            0 <= p < objects.len() && field_refers(top, false, p) ==> #[trigger] holds(found, p),
        forall|k: int, p: int|
            0 <= k < found.len() && 0 <= p < objects.len() && leads_to(
                objects,
                objects[#[trigger] found[k] as int],
                p,
            ) ==> #[trigger] holds(found, p),
    ensures
        holds(found, place),
    decreases steps,
{
    if steps > 0 {
        let fewer = (steps - 1) as nat;
        if reached(objects, top, place, fewer) {
            lemma_reached_is_held(objects, top, found, place, fewer);
        } else {
            let j = choose|j: int|
                #![trigger objects[j]]
                reached(objects, top, j, fewer) && leads_to(objects, objects[j], place);
            lemma_reached_is_held(objects, top, found, j, fewer);
            let k = choose|k: int| 0 <= k < found.len() && #[trigger] found[k] == j;
            assert(leads_to(objects, objects[found[k] as int], place));
            assert(holds(found, place));
        }
    } else {
        assert(holds(found, place));
    }
}

/// The places of the objects that the decoder comes to.
fn reachable_places(objects: &Vec<Json>, top: &Json) -> (found: Vec<usize>)
    ensures
        forall|p: int| #[trigger]
            holds(found@, p) <==> reachable(json::items_view(objects@), top@, p),
{
    let ghost views = json::items_view(objects@);
    proof {
        json::lemma_items_view_index(objects@);
    }
    let total: usize = objects.len();
    let mut seen: Vec<bool> = Vec::new();
    let mut i: usize = 0;
    while i < total
        invariant
            i <= total,
            seen@.len() == i,
            forall|k: int| 0 <= k < i ==> !#[trigger] seen@[k],
        decreases total - i,
    {
        seen.push(false);
        i = i + 1;
    }
    let mut search = Search { found: Vec::new(), seen };
    assert(search.wf());
    search.mark_fields(top, false);
    proof {
        assert forall|p: int| #[trigger] holds(search.found@, p) implies reachable(
            views,
            top@,
            p,
        ) by {
            assert(reached(views, top@, p, 0));
        }
    }
    let mut next: usize = 0;
    while next < search.found.len()
        invariant
            search.wf(),
            search.seen@.len() == total,
            total == objects@.len(),
            views == json::items_view(objects@),
            views.len() == objects@.len(),
            forall|k: int| 0 <= k < objects@.len() ==> views[k] == #[trigger] objects@[k]@,
            next <= search.found@.len(),
            forall|p: int| #[trigger] holds(search.found@, p) ==> reachable(views, top@, p),
            forall|p: int|
                0 <= p < views.len() && field_refers(top@, false, p) ==> #[trigger] holds(
                    search.found@,
                    p,
                ),
            forall|k: int, p: int|
                0 <= k < next && 0 <= p < views.len() && leads_to(
                    views,
                    views[#[trigger] search.found@[k] as int],
                    p,
                ) ==> #[trigger] holds(search.found@, p),
        decreases total - next,
    {
        proof {
            lemma_no_more_than_places(search);
        }
        let ghost before = search;
        let at: usize = search.found[next];
        search.mark_from(objects, &objects[at]);
        proof {
            assert(objects@[at as int]@ == views[at as int]);
            assert(holds(before.found@, at as int));
            let s = choose|s: nat| reached(views, top@, at as int, s);
            assert forall|p: int| #[trigger] holds(search.found@, p) implies reachable(
                views,
                top@,
                p,
            ) by {
                if !holds(before.found@, p) {
                    assert(leads_to(views, views[at as int], p));
                    assert(reached(views, top@, p, s + 1));
                }
            }
            assert forall|k: int, p: int|
                0 <= k < next + 1 && 0 <= p < views.len() && leads_to(
                    views,
                    views[#[trigger] search.found@[k] as int],
                    p,
                ) implies #[trigger] holds(search.found@, p) by {
                assert(search.found@[k] == before.found@[k]);
                if k < next {
                    assert(holds(before.found@, p));
                }
            }
        }
        next = next + 1;
    }
    proof {
        assert forall|p: int| #[trigger]
            holds(search.found@, p) <==> reachable(views, top@, p) by {
            if reachable(views, top@, p) {
                let s = choose|s: nat| reached(views, top@, p, s);
                lemma_reached_is_held(views, top@, search.found@, p, s);
            }
        }
    }
    search.found
}

// ---------------------------------------------------------------- decoding

fn value_is_lacking(objects: &Vec<Json>, d: &Json) -> (r: bool)
    ensures
        r == lacks_values(json::items_view(objects@), d@),
{
    let name = match read_class_name(objects, d) {
        Some(name) => name,
        None => return false,
    };
    if !str_eq(name, "NSDictionary") && !str_eq(name, "NSMutableDictionary") {
        return false;
    }
    match (array_at(d, "NS.keys"), array_at(d, "NS.objects")) {
        (Some(keys), Some(values)) => {
            proof {
                json::lemma_items_view_index(keys@);
                json::lemma_items_view_index(values@);
            }
            values.len() < keys.len()
        },
        _ => false,
    }
}

fn are_all_paired(objects: &Vec<Json>, top: &Json) -> (r: bool)
    ensures
        r == all_paired(json::items_view(objects@), top@),
{
    let ghost views = json::items_view(objects@);
    proof {
        json::lemma_items_view_index(objects@);
    }
    let found = reachable_places(objects, top);
    let total: usize = found.len();
    let mut i: usize = 0;
    while i < total
        invariant
            i <= total,
            total == found@.len(),
            views == json::items_view(objects@),
            views.len() == objects@.len(),
            forall|k: int| 0 <= k < objects@.len() ==> views[k] == #[trigger] objects@[k]@,
            forall|p: int| #[trigger] holds(found@, p) <==> reachable(views, top@, p),
            forall|k: int|
                0 <= k < i ==> !lacks_values(views, views[#[trigger] found@[k] as int]),
        decreases total - i,
    {
        let at: usize = found[i];
        assert(holds(found@, at as int));
        assert(reachable(views, top@, at as int));
        assert(at < views.len()) by {
            let s = choose|s: nat| reached(views, top@, at as int, s);
            assert(reached(views, top@, at as int, s));
        }
        assert(views[at as int] == objects@[at as int]@);
        if value_is_lacking(objects, &objects[at]) {
            assert(!all_paired(views, top@));
            return false;
        }
        i = i + 1;
    }
    proof {
        assert forall|p: int| reachable(views, top@, p) implies !lacks_values(
            views,
            #[trigger] views[p],
        ) by {
            assert(holds(found@, p));
            let k = choose|k: int| 0 <= k < found@.len() && #[trigger] found@[k] == p;
            assert(!lacks_values(views, views[found@[k] as int]));
        }
    }
    true
}

fn header_is_present(v: &Json) -> (r: bool)
    ensures
        r == has_header(v@),
{
    let archiver = match v.str_at("$archiver") {
        Some(a) => str_eq(a, "NSKeyedArchiver"),
        None => false,
    };
    let version = match v.get("$version") {
        Some(Json::Float(n)) => str_eq(n.as_str(), "100000"),
        _ => false,
    };
    archiver && version
}

fn is_paired(v: &Json) -> (r: bool)
    ensures
        r == paired(v@),
{
    match (v.get("$top"), array_at(v, "$objects")) {
        (Some(top), Some(objects)) => !header_is_present(v) || are_all_paired(objects, top),
        _ => true,
    }
}

/// Whether the decoder of keyed archives can be given some bytes: it fails hard on a
/// dictionary with fewer values than keys.
pub fn is_decodable(bytes: &[u8]) -> (r: bool)
    ensures
        r == decodable(bytes@),
{
    match read_plist(bytes) {
        Some(v) => is_paired(&v),
        None => true,
    }
}

/// What the decoder of keyed archives makes of some bytes: the value, or whether
/// it failed while reading the property list, and its message.
pub uninterp spec fn archive_decoded(bytes: Seq<u8>) -> Result<JsonView, (bool, Seq<char>)>;

/// Wrapper of `nskeyedarchiver_converter::Converter`: `from_bytes` and then
/// `decode`, which panics on a dictionary with fewer values than keys. The result
/// depends on the bytes alone.
#[verifier::external_body]
pub(crate) fn decode_archive(bytes: &[u8]) -> (r: Result<Json, (bool, String)>)
    requires
        decodable(bytes@),
    ensures
        match r {
            Ok(v) => archive_decoded(bytes@) == Ok::<JsonView, (bool, Seq<char>)>(v@),
            Err((reading, e)) => archive_decoded(bytes@) == Err::<JsonView, (bool, Seq<char>)>(
                (reading, e@),
            ),
        },
{
    match nskeyedarchiver_converter::Converter::from_bytes(bytes) {
        Err(e) => Err((true, e.to_string())),
        Ok(mut c) => match c.decode() {
            Err(e) => Err((false, e.to_string())),
            Ok(v) => Ok(from_plist(v)),
        },
    }
}

// ---------------------------------------------------------------- laws

/// What the top of an archive refers to is reached, and so is whatever an object
/// refers to that is reached itself.
pub proof fn references_are_followed(objects: Seq<JsonView>, top: JsonView, from: int, place: int)
    requires
        0 <= place < objects.len(),
    ensures
        field_refers(top, false, place) ==> reachable(objects, top, place),
        reachable(objects, top, from) && leads_to(objects, objects[from], place) ==> reachable(
            objects,
            top,
            place,
        ),
{
    if field_refers(top, false, place) {
        assert(reached(objects, top, place, 0));
    }
    if reachable(objects, top, from) && leads_to(objects, objects[from], place) {
        let steps = choose|steps: nat| reached(objects, top, from, steps);
        assert(reached(objects, top, from, steps) && leads_to(objects, objects[from], place));
        assert(reached(objects, top, place, steps + 1));
    }
}

/// An entry refers to an object by its place; zero refers to nothing.
pub proof fn places_are_referred_to_by_number(n: u64, m: Map<Seq<char>, JsonView>, f: Seq<char>)
    requires
        m.dom().contains(f),
        m[f] == JsonView::UInt(n as nat),
        n <= usize::MAX,
    ensures
        n > 0 ==> field_refers(JsonView::Object(m), false, n as int),
        refers(JsonView::UInt(n as nat), n as int) <==> n > 0,
        !refers(JsonView::UInt(0), 0),
        forall|place: int| refers(JsonView::UInt(n as nat), place) ==> place == n,
{
    if n > 0 {
        assert(m.dom().contains(f) && value_refers(m[f], false, n as int));
        let v = JsonView::Object(m);
        assert(v->Object_0.dom().contains(f) && value_refers(v->Object_0[f], false, n as int));
        assert(field_refers(v, false, n as int));
    }
}

/// The class of an object is the first name of the class that it refers to.
pub proof fn objects_name_their_class(objects: Seq<JsonView>, d: JsonView, c: u64, name: Seq<char>)
    requires
        d.u64_at("$class"@) == Some(c as nat),
        c < objects.len(),
        c <= usize::MAX,
        list_at(objects[c as int], "$classes"@) matches Some(names) && names.len() > 0 && all_texts(
            names,
        ) && names[0] == JsonView::Str(name),
    ensures
        class_name(objects, d) == Some(name),
{
}

/// A dictionary that is reached and has fewer values than keys cannot be decoded;
/// one that is not reached does not matter.
pub proof fn reached_dictionaries_are_paired(
    objects: Seq<JsonView>,
    top: JsonView,
    i: int,
)
    ensures
        reachable(objects, top, i) && lacks_values(objects, objects[i]) ==> !all_paired(objects, top),
        (forall|j: int|
            0 <= j < objects.len() ==> !lacks_values(objects, #[trigger] objects[j])) ==> all_paired(
            objects,
            top,
        ),
{
    if forall|j: int| 0 <= j < objects.len() ==> !lacks_values(objects, #[trigger] objects[j]) {
        assert forall|j: int| reachable(objects, top, j) implies !lacks_values(
            objects,
            #[trigger] objects[j],
        ) by {
            let steps = choose|steps: nat| reached(objects, top, j, steps);
            assert(reached(objects, top, j, steps));
        }
    }
}

/// An archive without its header, its top or its objects is left to the decoder,
/// which refuses it; any other one can be decoded exactly where each dictionary
/// that is reached has a value for each of its keys.
pub proof fn archives_are_checked_before_they_are_decoded(v: JsonView)
    ensures
        !has_header(v) ==> paired(v),
        v.get("$top"@) is None ==> paired(v),
        list_at(v, "$objects"@) is None ==> paired(v),
        has_header(v) && v.get("$top"@) is Some && list_at(v, "$objects"@) is Some ==> (paired(v)
            <==> all_paired(list_at(v, "$objects"@)->0, v.get("$top"@)->0)),
        is_dictionary("NSDictionary"@) && is_dictionary("NSMutableDictionary"@),
        is_list("NSArray"@) && is_list("NSMutableArray"@),
{
}

} // verus!
