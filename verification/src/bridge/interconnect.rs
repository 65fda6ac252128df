//! Messages between the host and the watch apps.
use vstd::prelude::*;
use vstd::string::*;

use crate::bridge::state::{self, InstalledApp, PluginState, HISTORICAL_PKG_NAME};
use crate::json::{self, Json, JsonObject, JsonView};
use crate::text::{self, str_eq, str_lt};

verus! {

/// Least time between two automatic refreshes, in milliseconds.
pub const AUTO_REFRESH_THROTTLE_MS: u128 = 1500;

/// A message with the device and the app it came from.
///
/// The host wraps each message in a JSON envelope
/// `{ "addr", "pkgName", "payloadHex", "payloadText" }`. Both origins are read
/// off the envelope, so that several apps can talk at the same time. Only where
/// an older host omits them is the origin guessed.
#[derive(Debug)]
pub struct ParsedMessage {
    pub addr: String,
    pub pkg_name: String,
    pub data: String,
}

/// The message text inside an envelope: `payloadText`, else a `payload` that is
/// a text, else the JSON of any other `payload`.
pub open spec fn envelope_text(v: JsonView) -> Option<Seq<char>> {
    match v.str_at("payloadText"@) {
        Some(t) => Some(t),
        None => match v.get("payload"@) {
            Some(p) => match p.as_str() {
                Some(t) => Some(t),
                None => Some(json::json_text(p)),
            },
            None => None,
        },
    }
}

fn payload_text_from_envelope(v: &Json) -> (r: Option<String>)
    ensures
        text::opt_text(r) == envelope_text(v@),
{
    if let Some(t) = v.str_at("payloadText") {
        return Some(t.to_owned());
    }
    match v.get("payload") {
        Some(p) => match p.as_str() {
            Some(t) => Some(t.to_owned()),
            None => Some(json::write_json(p)),
        },
        None => None,
    }
}

/// The text under a key, where it is there and not empty.
pub open spec fn nonempty_at(v: JsonView, key: Seq<char>) -> Option<Seq<char>> {
    match v.str_at(key) {
        Some(s) => if s.len() > 0 {
            Some(s)
        } else {
            None
        },
        None => None,
    }
}

fn nonempty(v: &Json, key: &str) -> (r: Option<String>)
    ensures
        text::opt_text(r) == nonempty_at(v@, key@),
{
    match v.str_at(key) {
        Some(s) => if s.is_empty() {
            None
        } else {
            Some(s.to_owned())
        },
        None => None,
    }
}

/// Whether one moment of activity is later than another; none at all is earliest.
pub open spec fn seen_later(a: Option<u128>, b: Option<u128>) -> bool {
    match (a, b) {
        (Some(x), Some(y)) => x > y,
        (Some(_), None) => true,
        _ => false,
    }
}

fn is_later(a: Option<u128>, b: Option<u128>) -> (r: bool)
    ensures
        r == seen_later(a, b),
{
    match (a, b) {
        (Some(x), Some(y)) => x > y,
        (Some(_), None) => true,
        _ => false,
    }
}

/// Whether `i` is the enabled app that was active last; among several, the first
/// by name.
pub open spec fn most_recent(s: PluginState, i: int) -> bool {
    &&& 0 <= i < s.apps@.len()
    &&& s.apps@[i].enabled
    &&& forall|j: int|
        0 <= j < s.apps@.len() && (#[trigger] s.apps@[j]).enabled ==> !seen_later(
            s.apps@[j].last_seen_unix_ms,
            s.apps@[i].last_seen_unix_ms,
        ) && (j < i ==> seen_later(
            s.apps@[i].last_seen_unix_ms,
            s.apps@[j].last_seen_unix_ms,
        ))
}

/// Whether a name is the one that a message without an origin is attributed to:
/// the most recently active enabled app, or the historical name.
pub open spec fn guessed_pkg(s: PluginState, name: Seq<char>) -> bool {
    if exists|j: int| 0 <= j < s.apps@.len() && (#[trigger] s.apps@[j]).enabled {
        exists|i: int| #[trigger] most_recent(s, i) && name == s.apps@[i].pkg_name@
    } else {
        name == HISTORICAL_PKG_NAME@
    }
}

/// Chooses the app that a message without an origin is attributed to.
pub fn guess_pkg_name(s: &PluginState) -> (r: String)
    ensures
        guessed_pkg(*s, r@),
{
    let mut best: Option<usize> = None;
    let mut i: usize = 0;
    while i < s.apps.len()
        invariant
            i <= s.apps@.len(),
            match best {
                Some(b) => {
                    &&& b < i
                    &&& s.apps@[b as int].enabled
                    &&& forall|j: int|
                        0 <= j < i && (#[trigger] s.apps@[j]).enabled ==> !seen_later(
                            s.apps@[j].last_seen_unix_ms,
                            s.apps@[b as int].last_seen_unix_ms,
                        ) && (j < b ==> seen_later(
                            s.apps@[b as int].last_seen_unix_ms,
                            s.apps@[j].last_seen_unix_ms,
                        ))
                },
                None => forall|j: int| 0 <= j < i ==> !(#[trigger] s.apps@[j]).enabled,
            },
        decreases s.apps.len() - i,
    {
        if s.apps[i].enabled {
            match best {
                Some(b) => {
                    if is_later(s.apps[i].last_seen_unix_ms, s.apps[b].last_seen_unix_ms) {
                        best = Some(i);
                    }
                },
                None => {
                    best = Some(i);
                },
            }
        }
        i = i + 1;
    }
    match best {
        Some(b) => {
            assert(most_recent(*s, b as int));
            s.apps[b].pkg_name.clone()
        },
        None => HISTORICAL_PKG_NAME.to_owned(),
    }
}

/// Whether a message is what the host's payload stands for. `envelope` is the
/// JSON of the payload, where it is JSON.
pub open spec fn message_of(
    s: PluginState,
    payload: Seq<char>,
    envelope: Option<JsonView>,
    m: ParsedMessage,
) -> bool {
    &&& m.data@ == match envelope {
        Some(v) => match envelope_text(v) {
            Some(t) => t,
            None => payload,
        },
        None => payload,
    }
    &&& match envelope {
        Some(v) => match nonempty_at(v, "pkgName"@) {
            Some(name) => m.pkg_name@ == name,
            None => guessed_pkg(s, m.pkg_name@),
        },
        None => guessed_pkg(s, m.pkg_name@),
    }
    &&& m.addr@ == match envelope {
        Some(v) => match nonempty_at(v, "addr"@) {
            Some(addr) => addr,
            None => addr_or_empty(s, m.pkg_name@),
        },
        None => addr_or_empty(s, m.pkg_name@),
    }
}

/// The address known for an app, or none.
pub open spec fn addr_or_empty(s: PluginState, pkg: Seq<char>) -> Seq<char> {
    match state::device_addr_for(s, pkg) {
        Some(addr) => addr,
        None => Seq::empty(),
    }
}

/// The JSON of a text, where it is JSON.
pub open spec fn parsed_envelope(payload: Seq<char>) -> Option<JsonView> {
    match json::json_parsed(payload) {
        Ok(v) => Some(v),
        Err(_) => None,
    }
}

/// Reads a message off the payload of a host event.
pub fn parse_message(s: &PluginState, payload: &str) -> (m: ParsedMessage)
    requires
        s.wf(),
    ensures
        message_of(*s, payload@, parsed_envelope(payload@), m),
{
    let envelope = match json::parse_json(payload) {
        Ok(v) => Some(v),
        Err(_) => None,
    };
    unwrap_envelope(s, payload, envelope)
}

/// Reads a message off a payload whose JSON, where it has one, is given.
pub fn unwrap_envelope(s: &PluginState, payload: &str, envelope: Option<Json>) -> (m: ParsedMessage)
    requires
        s.wf(),
    ensures
        message_of(
            *s,
            payload@,
            match envelope {
                Some(v) => Some(v@),
                None => None,
            },
            m,
        ),
{
    let (inner, named, from) = match &envelope {
        Some(v) => (payload_text_from_envelope(v), nonempty(v, "pkgName"), nonempty(v, "addr")),
        None => (None, None, None),
    };
    let data = match inner {
        Some(t) => t,
        None => payload.to_owned(),
    };
    let pkg_name = match named {
        Some(n) => n,
        None => guess_pkg_name(s),
    };
    let addr = match from {
        Some(a) => a,
        None => match state::first_device_addr_for(s, pkg_name.as_str()) {
            Some(a) => a,
            None => String::new(),
        },
    };
    ParsedMessage { addr, pkg_name, data }
}

/// Whether the throttled refresh that every rendering triggers is due now. Where
/// it is, the device list and the installed apps are read again and every
/// monitored app is registered on the devices.
pub fn auto_refresh(s: &mut PluginState, now_ms: u128) -> (due: bool)
    ensures
        ({
            let since = if now_ms >= old(s).last_auto_refresh_ms {
                now_ms - old(s).last_auto_refresh_ms
            } else {
                0
            };
            due == (since >= AUTO_REFRESH_THROTTLE_MS)
        }),
        *final(s) == (PluginState {
            last_auto_refresh_ms: if due {
                now_ms
            } else {
                old(s).last_auto_refresh_ms
            },
            ..*old(s)
        }),
        due == state::refresh_due(
            old(s).last_auto_refresh_ms,
            now_ms,
            AUTO_REFRESH_THROTTLE_MS,
        ),
{
    state::try_claim_auto_refresh(s, AUTO_REFRESH_THROTTLE_MS, now_ms)
}

/// The addresses on which an app is to be registered: every connected device, or
/// the empty address, which matches any, where there is none.
pub fn register_for_all_devices(s: &PluginState) -> (r: Vec<String>)
    ensures
        s.connected_devices@.len() == 0 ==> r@.len() == 1 && r@[0]@.len() == 0,
        s.connected_devices@.len() > 0 ==> r@.len() == s.connected_devices@.len() && forall|i: int|
            0 <= i < r@.len() ==> (#[trigger] r@[i])@ == s.connected_devices@[i].0@,
{
    let mut out: Vec<String> = Vec::new();
    if s.connected_devices.len() == 0 {
        out.push(String::new());
        return out;
    }
    let mut i: usize = 0;
    while i < s.connected_devices.len()
        invariant
            i <= s.connected_devices@.len(),
            out@.len() == i,
            forall|j: int| 0 <= j < i ==> (#[trigger] out@[j])@ == s.connected_devices@[j].0@,
        decreases s.connected_devices.len() - i,
    {
        out.push(s.connected_devices[i].0.clone());
        i = i + 1;
    }
    out
}

/// How many registrations succeeded.
pub fn registered_count(outcomes: &Vec<bool>) -> (r: usize)
    ensures
        r == outcomes@.filter(|ok: bool| ok).len(),
{
    let ghost kept = |ok: bool| ok;
    let mut n: usize = 0;
    let mut i: usize = 0;
    while i < outcomes.len()
        invariant
            i <= outcomes@.len(),
            n <= i,
            kept == (|ok: bool| ok),
            n == outcomes@.take(i as int).filter(kept).len(),
        decreases outcomes.len() - i,
    {
        proof {
            reveal(Seq::filter);
            assert(outcomes@.take(i + 1).drop_last() =~= outcomes@.take(i as int));
        }
        if outcomes[i] {
            n = n + 1;
        }
        i = i + 1;
    }
    assert(outcomes@.take(i as int) =~= outcomes@);
    n
}

// ---------------------------------------------------------------- installed apps

/// Whether one installed app is listed before another: by device, then by the
/// name of the app, then by its package.
pub open spec fn listed_before(a: InstalledApp, b: InstalledApp) -> bool {
    ||| text::text_lt(a.device_name@, b.device_name@)
    ||| a.device_name@ == b.device_name@ && text::text_lt(a.app_name@, b.app_name@)
    ||| a.device_name@ == b.device_name@ && a.app_name@ == b.app_name@ && text::text_lt(
        a.package_name@,
        b.package_name@,
    )
}

fn is_listed_before(a: &InstalledApp, b: &InstalledApp) -> (r: bool)
    ensures
        r == listed_before(*a, *b),
{
    proof {
        text::text_lt_irreflexive(a.device_name@);
        text::text_lt_irreflexive(a.app_name@);
    }
    if str_lt(a.device_name.as_str(), b.device_name.as_str()) {
        true
    } else if !str_eq(a.device_name.as_str(), b.device_name.as_str()) {
        false
    } else if str_lt(a.app_name.as_str(), b.app_name.as_str()) {
        true
    } else if !str_eq(a.app_name.as_str(), b.app_name.as_str()) {
        false
    } else {
        str_lt(a.package_name.as_str(), b.package_name.as_str())
    }
}

proof fn lemma_listed_transitive(a: InstalledApp, b: InstalledApp, c: InstalledApp)
    requires
        !listed_before(b, a),
        !listed_before(c, b),
    ensures
        !listed_before(c, a),
{
    text::text_lt_total(a.device_name@, b.device_name@);
    text::text_lt_total(b.device_name@, c.device_name@);
    text::text_lt_total(a.app_name@, b.app_name@);
    text::text_lt_total(b.app_name@, c.app_name@);
    text::text_lt_total(a.package_name@, b.package_name@);
    text::text_lt_total(b.package_name@, c.package_name@);
    if listed_before(c, a) {
        if text::text_lt(a.device_name@, b.device_name@) && text::text_lt(b.device_name@, c.device_name@) {
            text::text_lt_transitive(a.device_name@, b.device_name@, c.device_name@);
        }
        if text::text_lt(a.app_name@, b.app_name@) && text::text_lt(b.app_name@, c.app_name@) {
            text::text_lt_transitive(a.app_name@, b.app_name@, c.app_name@);
        }
        if text::text_lt(a.package_name@, b.package_name@) && text::text_lt(
            b.package_name@,
            c.package_name@,
        ) {
            text::text_lt_transitive(a.package_name@, b.package_name@, c.package_name@);
        }
        lemma_asymmetric(a.device_name@, c.device_name@);
        lemma_asymmetric(a.app_name@, c.app_name@);
        lemma_asymmetric(a.package_name@, c.package_name@);
        text::text_lt_irreflexive(a.device_name@);
        text::text_lt_irreflexive(a.app_name@);
        text::text_lt_irreflexive(a.package_name@);
    }
}

proof fn lemma_asymmetric(a: Seq<char>, b: Seq<char>)
    ensures
        !(text::text_lt(a, b) && text::text_lt(b, a)),
{
    if text::text_lt(a, b) && text::text_lt(b, a) {
        text::text_lt_transitive(a, b, a);
        text::text_lt_irreflexive(a);
    }
}

/// Nothing is listed after something that comes later.
pub open spec fn in_listed_order(apps: Seq<InstalledApp>) -> bool {
    forall|i: int, j: int|
        0 <= i < j < apps.len() ==> !listed_before(#[trigger] apps[j], #[trigger] apps[i])
}

/// The list with an app put behind everything that does not come after it.
pub open spec fn insert_listed(sorted: Seq<InstalledApp>, app: InstalledApp) -> Seq<InstalledApp>
    decreases sorted.len(),
{
    if sorted.len() == 0 || !listed_before(app, sorted.last()) {
        sorted.push(app)
    } else {
        insert_listed(sorted.drop_last(), app).push(sorted.last())
    }
}

/// The apps in their listed order; what is equal in it keeps its order.
pub open spec fn listed(apps: Seq<InstalledApp>) -> Seq<InstalledApp>
    decreases apps.len(),
{
    if apps.len() == 0 {
        Seq::empty()
    } else {
        insert_listed(listed(apps.drop_last()), apps.last())
    }
}

proof fn lemma_insert_listed(sorted: Seq<InstalledApp>, app: InstalledApp)
    requires
        in_listed_order(sorted),
    ensures
        in_listed_order(insert_listed(sorted, app)),
        insert_listed(sorted, app).to_multiset() == sorted.to_multiset().insert(app),
        insert_listed(sorted, app).len() == sorted.len() + 1,
        forall|x: InstalledApp| #[trigger]
            insert_listed(sorted, app).contains(x) ==> x == app || sorted.contains(x),
    decreases sorted.len(),
{
    broadcast use vstd::seq_lib::group_to_multiset_ensures;

    let out = insert_listed(sorted, app);
    if sorted.len() == 0 || !listed_before(app, sorted.last()) {
        assert forall|i: int, j: int| 0 <= i < j < out.len() implies !listed_before(
            #[trigger] out[j],
            #[trigger] out[i],
        ) by {
            if j == sorted.len() {
                if i < sorted.len() - 1 {
                    lemma_listed_transitive(sorted[i], sorted.last(), app);
                }
            }
        }
        assert forall|x: InstalledApp| #[trigger] out.contains(x) implies x == app
            || sorted.contains(x) by {
            let i = choose|i: int| 0 <= i < out.len() && out[i] == x;
            if i < sorted.len() {
                assert(sorted[i] == x);
            }
        }
    } else {
        let front = sorted.drop_last();
        let last = sorted.last();
        lemma_insert_listed(front, app);
        let inner = insert_listed(front, app);
        assert forall|i: int, j: int| 0 <= i < j < out.len() implies !listed_before(
            #[trigger] out[j],
            #[trigger] out[i],
        ) by {
            if j == inner.len() {
                assert(inner.contains(inner[i]));
                if inner[i] == app {
                    lemma_asymmetric(app.device_name@, last.device_name@);
                    lemma_asymmetric(app.app_name@, last.app_name@);
                    lemma_asymmetric(app.package_name@, last.package_name@);
                    text::text_lt_irreflexive(app.device_name@);
                    text::text_lt_irreflexive(app.app_name@);
                } else {
                    let k = choose|k: int| 0 <= k < front.len() && front[k] == inner[i];
                    assert(sorted[k] == inner[i]);
                    assert(sorted[sorted.len() - 1] == last);
                }
            }
        }
        assert forall|x: InstalledApp| #[trigger] out.contains(x) implies x == app
            || sorted.contains(x) by {
            let i = choose|i: int| 0 <= i < out.len() && out[i] == x;
            if i < inner.len() {
                assert(inner.contains(x));
                if x != app {
                    let k = choose|k: int| 0 <= k < front.len() && front[k] == x;
                    assert(sorted[k] == x);
                }
            } else {
                assert(sorted[sorted.len() - 1] == x);
            }
        }
        assert(sorted =~= front.push(last));
        assert(out.to_multiset() =~= sorted.to_multiset().insert(app));
    }
}

/// The listed order holds, and every app is listed as often as it was reported.
pub proof fn listing_sorts(apps: Seq<InstalledApp>)
    ensures
        in_listed_order(listed(apps)),
        listed(apps).to_multiset() == apps.to_multiset(),
        listed(apps).len() == apps.len(),
    decreases apps.len(),
{
    broadcast use vstd::seq_lib::group_to_multiset_ensures;

    if apps.len() > 0 {
        listing_sorts(apps.drop_last());
        lemma_insert_listed(listed(apps.drop_last()), apps.last());
        assert(apps =~= apps.drop_last().push(apps.last()));
    } else {
        assert(listed(apps) =~= apps);
    }
}

/// The apps in their listed order.
pub fn sort_installed(apps: Vec<InstalledApp>) -> (r: Vec<InstalledApp>)
    ensures
        r@ == listed(apps@),
{
    let mut out: Vec<InstalledApp> = Vec::new();
    let mut i: usize = 0;
    while i < apps.len()
        invariant
            i <= apps@.len(),
            out@ == listed(apps@.take(i as int)),
        decreases apps.len() - i,
    {
        let app = apps[i].duplicate();
        let ghost sorted = out@;
        let mut at: usize = out.len();
        assert(sorted.take(at as int) =~= sorted);
        assert(sorted.skip(at as int) =~= Seq::empty());
        assert(insert_listed(sorted, app) =~= insert_listed(sorted.take(at as int), app) + sorted.skip(
            at as int,
        ));
        while at > 0 && is_listed_before(&app, &out[at - 1])
            invariant
                at <= out@.len(),
                out@ == sorted,
                insert_listed(sorted, app) == insert_listed(sorted.take(at as int), app)
                    + sorted.skip(at as int),
            decreases at,
        {
            proof {
                assert(sorted.take(at as int).drop_last() =~= sorted.take(at - 1));
                assert(sorted.take(at as int).last() == sorted[at - 1]);
                assert(insert_listed(sorted.take(at - 1), app).push(sorted[at - 1]) + sorted.skip(
                    at as int,
                ) =~= insert_listed(sorted.take(at - 1), app) + sorted.skip(at - 1));
            }
            at = at - 1;
        }
        proof {
            if at > 0 {
                assert(sorted.take(at as int).last() == sorted[at - 1]);
            }
            assert(sorted.take(at as int).push(app) + sorted.skip(at as int) =~= sorted.insert(
                at as int,
                app,
            ));
            assert(apps@.take(i + 1).drop_last() =~= apps@.take(i as int));
        }
        out.insert(at, app);
        i = i + 1;
    }
    assert(apps@.take(i as int) =~= apps@);
    out
}

/// Whether an address is among those given.
pub open spec fn among(addrs: Seq<String>, addr: Seq<char>) -> bool {
    exists|i: int| 0 <= i < addrs.len() && (#[trigger] addrs[i])@ == addr
}

fn is_among(addrs: &Vec<String>, addr: &str) -> (r: bool)
    ensures
        r == among(addrs@, addr@),
{
    let mut i: usize = 0;
    while i < addrs.len()
        invariant
            i <= addrs@.len(),
            forall|j: int| 0 <= j < i ==> (#[trigger] addrs@[j])@ != addr@,
        decreases addrs.len() - i,
    {
        if str_eq(addrs[i].as_str(), addr) {
            assert(addrs@[i as int]@ == addr@);
            return true;
        }
        i = i + 1;
    }
    false
}

/// Whether a device reports an app.
pub open spec fn has_app(installed: Seq<InstalledApp>, addr: Seq<char>, pkg: Seq<char>) -> bool {
    exists|i: int|
        0 <= i < installed.len() && (#[trigger] installed[i]).addr@ == addr
            && installed[i].package_name@ == pkg
}

fn device_has(installed: &Vec<InstalledApp>, addr: &str, pkg: &str) -> (r: bool)
    ensures
        r == has_app(installed@, addr@, pkg@),
{
    let mut i: usize = 0;
    while i < installed.len()
        invariant
            i <= installed@.len(),
            forall|j: int|
                0 <= j < i ==> !((#[trigger] installed@[j]).addr@ == addr@
                    && installed@[j].package_name@ == pkg@),
        decreases installed.len() - i,
    {
        if str_eq(installed[i].addr.as_str(), addr) && str_eq(
            installed[i].package_name.as_str(),
            pkg,
        ) {
            assert(installed@[i as int].addr@ == addr@);
            return true;
        }
        i = i + 1;
    }
    false
}

/// Whether some device reports an app.
pub open spec fn some_has_app(installed: Seq<InstalledApp>, pkg: Seq<char>) -> bool {
    exists|i: int| 0 <= i < installed.len() && (#[trigger] installed[i]).package_name@ == pkg
}

fn any_device_has(installed: &Vec<InstalledApp>, pkg: &str) -> (r: bool)
    ensures
        r == some_has_app(installed@, pkg@),
{
    let mut i: usize = 0;
    while i < installed.len()
        invariant
            i <= installed@.len(),
            forall|j: int| 0 <= j < i ==> (#[trigger] installed@[j]).package_name@ != pkg@,
        decreases installed.len() - i,
    {
        if str_eq(installed[i].package_name.as_str(), pkg) {
            assert(installed@[i as int].package_name@ == pkg@);
            return true;
        }
        i = i + 1;
    }
    false
}

/// Whether every connected device answered, and there is one that did.
pub open spec fn all_answered(connected: Seq<(String, String)>, queried: Seq<String>) -> bool {
    queried.len() > 0 && forall|i: int|
        0 <= i < connected.len() ==> among(queried, (#[trigger] connected[i]).0@)
}

fn have_all_answered(connected: &Vec<(String, String)>, queried: &Vec<String>) -> (r: bool)
    ensures
        r == all_answered(connected@, queried@),
{
    if queried.len() == 0 {
        return false;
    }
    let mut i: usize = 0;
    while i < connected.len()
        invariant
            i <= connected@.len(),
            forall|j: int| 0 <= j < i ==> among(queried@, (#[trigger] connected@[j]).0@),
        decreases connected.len() - i,
    {
        if !is_among(queried, connected[i].0.as_str()) {
            assert(!among(queried@, connected@[i as int].0@));
            return false;
        }
        i = i + 1;
    }
    true
}

/// Whether an app is to be forgotten: the device it was last seen on answered and
/// no longer has it. An app whose device is off stays. An app that was never seen
/// stays until every connected device answered and none has it.
pub open spec fn uninstalled(
    e: state::AppView,
    installed: Seq<InstalledApp>,
    queried: Seq<String>,
    connected: Seq<(String, String)>,
) -> bool {
    match e.last_addr {
        Some(addr) => among(queried, addr) && !has_app(installed, addr, e.pkg_name),
        None => all_answered(connected, queried) && !some_has_app(installed, e.pkg_name),
    }
}

/// No app is forgotten because a device is off: one that was seen stays while its
/// device does not answer, and one that was never seen while any connected device
/// does not.
pub proof fn silence_forgets_nothing(
    e: state::AppView,
    installed: Seq<InstalledApp>,
    queried: Seq<String>,
    connected: Seq<(String, String)>,
    i: int,
)
    requires
        match e.last_addr {
            Some(addr) => !among(queried, addr),
            None => 0 <= i < connected.len() && !among(queried, connected[i].0@),
        },
    ensures
        !uninstalled(e, installed, queried, connected),
{
}

/// Takes over the apps that the devices reported, in their listed order, and
/// forgets the monitored apps that were uninstalled. `queried` are the addresses
/// of the devices that answered. Says whether the list of monitored apps changed.
pub fn refresh_installed_apps(s: &mut PluginState, reported: Vec<InstalledApp>, queried: &Vec<String>) -> (
changed: bool)
    requires
        old(s).wf(),
    ensures
        final(s).wf(),
        final(s).installed_apps@ == listed(reported@),
        forall|name: Seq<char>| #[trigger]
            final(s).monitored().dom().contains(name) <==> old(s).monitored().dom().contains(name)
                && !uninstalled(
                old(s).monitored()[name],
                reported@,
                queried@,
                old(s).connected_devices@,
            ),
        forall|name: Seq<char>| #[trigger]
            final(s).monitored().dom().contains(name) ==> final(s).monitored()[name] == old(
                s,
            ).monitored()[name],
        changed <==> exists|name: Seq<char>| #[trigger]
            old(s).monitored().dom().contains(name) && uninstalled(
                old(s).monitored()[name],
                reported@,
                queried@,
                old(s).connected_devices@,
            ),
        final(s).connected_devices == old(s).connected_devices,
        final(s).last_notice == old(s).last_notice,
        final(s).root_element_id == old(s).root_element_id,
        final(s).pending_add_pkg == old(s).pending_add_pkg,
        final(s).last_auto_refresh_ms == old(s).last_auto_refresh_ms,
        final(s).apps@.len() <= old(s).apps@.len(),
        final(s).render_tick == state::tick_after(
            old(s).render_tick,
            (old(s).apps@.len() - final(s).apps@.len()) as nat,
        ),
{
    let ghost first = *s;
    let ghost monitored = s.monitored();
    let names = state::pkg_names(s);
    let mut changed = false;
    let mut i: usize = 0;
    proof {
        assert forall|j: int| 0 <= j < names@.len() implies s.monitored().dom().contains(
            (#[trigger] names@[j])@,
        ) by {
            assert(state::named_at(first.apps@, names@[j]@, j));
        }
    }
    while i < names.len()
        invariant
            i <= names@.len(),
            s.wf(),
            first.wf(),
            monitored == first.monitored(),
            names@.len() == first.apps@.len(),
            forall|j: int|
                0 <= j < names@.len() ==> (#[trigger] names@[j])@ == first.apps@[j].pkg_name@,
            forall|a: int, b: int|
                0 <= a < b < names@.len() ==> text::text_lt(
                    (#[trigger] names@[a])@,
                    (#[trigger] names@[b])@,
                ),
            forall|name: Seq<char>| #[trigger]
                s.monitored().dom().contains(name) ==> monitored.dom().contains(name)
                    && s.monitored()[name] == monitored[name],
            forall|name: Seq<char>| #[trigger]
                monitored.dom().contains(name) && !s.monitored().dom().contains(name)
                    ==> uninstalled(monitored[name], reported@, queried@, first.connected_devices@),
            forall|j: int|
                0 <= j < i ==> (s.monitored().dom().contains((#[trigger] names@[j])@)
                    ==> !uninstalled(
                        monitored[names@[j]@],
                        reported@,
                        queried@,
                        first.connected_devices@,
                    )),
            forall|j: int|
                i <= j < names@.len() ==> s.monitored().dom().contains((#[trigger] names@[j])@),
            changed <==> exists|name: Seq<char>| #[trigger]
                monitored.dom().contains(name) && !s.monitored().dom().contains(name),
            s.same_but_apps(first),
            s.apps@.len() <= first.apps@.len(),
            s.render_tick == state::tick_after(
                first.render_tick,
                (first.apps@.len() - s.apps@.len()) as nat,
            ),
        decreases names.len() - i,
    {
        let ghost here = *s;
        let name = names[i].as_str();
        let gone = must_forget(s, name, &reported, queried);
        if gone {
            let _ = state::remove_app(s, name);
            changed = true;
            proof {
                assert(monitored.dom().contains(name@) && !s.monitored().dom().contains(name@));
                assert forall|j: int| i < j < names@.len() implies s.monitored().dom().contains(
                    (#[trigger] names@[j])@,
                ) by {
                    text::text_lt_irreflexive(name@);
                    assert(text::text_lt(names@[i as int]@, names@[j]@));
                    assert(here.monitored().dom().contains(names@[j]@));
                }
            }
        }
        i = i + 1;
    }
    proof {
        assert forall|name: Seq<char>| #[trigger]
            s.monitored().dom().contains(name) <==> monitored.dom().contains(name) && !uninstalled(
                monitored[name],
                reported@,
                queried@,
                first.connected_devices@,
            ) by {
            if monitored.dom().contains(name) {
                let j = choose|j: int| state::named_at(first.apps@, name, j);
                assert(state::named_at(first.apps@, name, j));
                assert(names@[j]@ == name);
            }
        }
    }
    let sorted = sort_installed(reported);
    state::set_installed_apps(s, sorted);
    changed
}

fn must_forget(s: &PluginState, name: &str, installed: &Vec<InstalledApp>, queried: &Vec<String>) -> (r:
    bool)
    requires
        s.wf(),
        s.monitored().dom().contains(name@),
    ensures
        r == uninstalled(
            s.monitored()[name@],
            installed@,
            queried@,
            s.connected_devices@,
        ),
{
    match s.last_addr_of(name) {
        Some(addr) => is_among(queried, addr.as_str()) && !device_has(
            installed,
            addr.as_str(),
            name,
        ),
        None => have_all_answered(&s.connected_devices, queried) && !any_device_has(
            installed,
            name,
        ),
    }
}

// ---------------------------------------------------------------- sending

/// What is sent for a tagged body: the fields of the body beside the tag, and a
/// body that is no object under `data`. A field of the body named `tag` replaces
/// the tag.
pub open spec fn tagged(tag: Seq<char>, body: JsonView) -> JsonView {
    let start = Map::<Seq<char>, JsonView>::empty().insert("tag"@, JsonView::Str(tag));
    JsonView::Object(
        match body {
            JsonView::Object(m) => start.union_prefer_right(m),
            other => start.insert("data"@, other),
        },
    )
}

fn with_tag(tag: &str, body: Json) -> (r: Json)
    ensures
        r@ == tagged(tag@, body@),
{
    let mut payload = JsonObject::new();
    payload.put("tag", Json::string(tag));
    let ghost start = payload@;
    match body {
        Json::Object(o) => {
            let mut i: usize = 0;
            assert(o.entries@.take(0) =~= Seq::empty());
            assert(start.union_prefer_right(Map::<Seq<char>, JsonView>::empty()) =~= start);
            while i < o.entries.len()
                invariant
                    i <= o.entries@.len(),
                    payload@ == start.union_prefer_right(
                        json::entries_view(o.entries@.take(i as int)),
                    ),
                decreases o.entries.len() - i,
            {
                let value = o.entries[i].1.duplicate();
                let ghost m = json::entries_view(o.entries@.take(i as int));
                payload.put(o.entries[i].0.as_str(), value);
                proof {
                    assert(o.entries@.take(i + 1).drop_last() =~= o.entries@.take(i as int));
                    let k = o.entries@[i as int].0@;
                    assert(start.union_prefer_right(m).insert(k, value@)
                        =~= start.union_prefer_right(m.insert(k, value@)));
                }
                i = i + 1;
            }
            assert(o.entries@.take(i as int) =~= o.entries@);
        },
        other => {
            payload.put("data", other);
        },
    }
    Json::Object(payload)
}

/// The text of a tagged message.
pub fn send_json(tag: &str, body: Json) -> (r: String)
    ensures
        r@ == json::json_text(tagged(tag@, body@)),
{
    let message = with_tag(tag, body);
    json::write_json(&message)
}

/// A message keeps its tag and every field of its body, unless the body has a
/// field named `tag`.
pub proof fn tagging_keeps_fields(tag: Seq<char>, body: Map<Seq<char>, JsonView>, key: Seq<char>)
    requires
        !body.dom().contains("tag"@),
    ensures
        tagged(tag, JsonView::Object(body)).get("tag"@) == Some(JsonView::Str(tag)),
        key != "tag"@ ==> tagged(tag, JsonView::Object(body)).get(key) == JsonView::Object(body).get(
            key,
        ),
{
}

/// An envelope is opened: its text is what the host put in, as a text before it is
/// taken as a value, and a package or a device that it names counts before any
/// guess.
pub proof fn envelopes_are_opened(s: PluginState, payload: Seq<char>, v: JsonView, m: ParsedMessage)
    requires
        message_of(s, payload, Some(v), m),
    ensures
        v.str_at("payloadText"@) matches Some(t) ==> m.data@ == t,
        v.str_at("payload"@) matches Some(t) ==> v.str_at("payloadText"@) is None ==> m.data@ == t,
        v.get("payloadText"@) is None && v.get("payload"@) is None ==> m.data@ == payload,
        v.str_at("pkgName"@) matches Some(p) ==> p.len() > 0 ==> m.pkg_name@ == p,
        v.str_at("addr"@) matches Some(a) ==> a.len() > 0 ==> m.addr@ == a,
{
}

/// A message that is no envelope is taken as it is.
pub proof fn bare_messages_are_kept(s: PluginState, payload: Seq<char>, m: ParsedMessage)
    requires
        message_of(s, payload, None, m),
    ensures
        m.data@ == payload,
        guessed_pkg(s, m.pkg_name@),
{
}

/// A guess falls on an app that may use the network and was seen no earlier than
/// any other such app; where there is none, on the historical name.
pub proof fn guesses_fall_on_the_most_recent(s: PluginState, name: Seq<char>)
    requires
        guessed_pkg(s, name),
    ensures
        name == HISTORICAL_PKG_NAME@ || exists|i: int|
            {
                &&& 0 <= i < s.apps@.len()
                &&& (#[trigger] s.apps@[i]).enabled
                &&& s.apps@[i].pkg_name@ == name
                &&& forall|j: int|
                    0 <= j < s.apps@.len() && (#[trigger] s.apps@[j]).enabled
                        && s.apps@[j].last_seen_unix_ms is Some ==> s.apps@[i].last_seen_unix_ms
                        is Some && s.apps@[j].last_seen_unix_ms->0
                        <= s.apps@[i].last_seen_unix_ms->0
            },
        (forall|j: int| 0 <= j < s.apps@.len() ==> !(#[trigger] s.apps@[j]).enabled) ==> name
            == HISTORICAL_PKG_NAME@,
{
    if exists|j: int| 0 <= j < s.apps@.len() && (#[trigger] s.apps@[j]).enabled {
        let i = choose|i: int| #[trigger] most_recent(s, i) && name == s.apps@[i].pkg_name@;
        assert(s.apps@[i].enabled);
        assert forall|j: int|
            0 <= j < s.apps@.len() && (#[trigger] s.apps@[j]).enabled
                && s.apps@[j].last_seen_unix_ms is Some implies s.apps@[i].last_seen_unix_ms is Some
            && s.apps@[j].last_seen_unix_ms->0 <= s.apps@[i].last_seen_unix_ms->0 by {
            assert(!seen_later(s.apps@[j].last_seen_unix_ms, s.apps@[i].last_seen_unix_ms));
        }
    }
}

/// Apps are listed by device, on a device by name, and of one name by package.
pub proof fn listing_goes_by_device_then_name(a: InstalledApp, b: InstalledApp)
    ensures
        text::text_lt(a.device_name@, b.device_name@) ==> listed_before(a, b) && !listed_before(
            b,
            a,
        ),
        a.device_name@ == b.device_name@ && text::text_lt(a.app_name@, b.app_name@)
            ==> listed_before(a, b) && !listed_before(b, a),
        a.device_name@ == b.device_name@ && a.app_name@ == b.app_name@ && text::text_lt(
            a.package_name@,
            b.package_name@,
        ) ==> listed_before(a, b) && !listed_before(b, a),
        a.device_name@ == b.device_name@ && a.app_name@ == b.app_name@ && a.package_name@
            == b.package_name@ ==> !listed_before(a, b),
{
    lemma_text_antisymmetric(a.device_name@, b.device_name@);
    lemma_text_antisymmetric(a.app_name@, b.app_name@);
    lemma_text_antisymmetric(a.package_name@, b.package_name@);
}

proof fn lemma_text_antisymmetric(a: Seq<char>, b: Seq<char>)
    ensures
        text::text_lt(a, b) ==> !text::text_lt(b, a) && a != b,
        !text::text_lt(a, a),
{
    text::text_lt_irreflexive(a);
    if text::text_lt(a, b) && text::text_lt(b, a) {
        text::text_lt_transitive(a, b, a);
    }
}

/// An app is forgotten once its own device answers and has it no more; one that was
/// never seen, once every connected device answers and none has it.
pub proof fn answers_settle_what_is_installed(
    e: state::AppView,
    installed: Seq<InstalledApp>,
    queried: Seq<String>,
    connected: Seq<(String, String)>,
)
    ensures
        e.last_addr matches Some(addr) ==> {
            &&& has_app(installed, addr, e.pkg_name) ==> !uninstalled(
                e,
                installed,
                queried,
                connected,
            )
            &&& among(queried, addr) && !has_app(installed, addr, e.pkg_name) ==> uninstalled(
                e,
                installed,
                queried,
                connected,
            )
        },
        e.last_addr is None && some_has_app(installed, e.pkg_name) ==> !uninstalled(
            e,
            installed,
            queried,
            connected,
        ),
        e.last_addr is None && queried.len() > 0 && !some_has_app(installed, e.pkg_name) && (forall|
            i: int,
        |
            0 <= i < connected.len() ==> among(queried, (#[trigger] connected[i]).0@)) ==> uninstalled(
            e,
            installed,
            queried,
            connected,
        ),
{
}

/// A body that is no object is sent under its own field.
pub proof fn values_are_sent_as_data(tag: Seq<char>, body: JsonView)
    requires
        !(body is Object),
    ensures
        tagged(tag, body).get("data"@) == Some(body),
        tagged(tag, body).str_at("tag"@) == Some(tag),
{
    reveal_strlit("tag");
    reveal_strlit("data");
    assert("tag"@.len() != "data"@.len());
}

/// A message without an address goes to where its app was last seen, else to the
/// first connected device.
pub proof fn apps_are_reached_where_they_were_seen(s: PluginState, pkg: Seq<char>)
    ensures
        s.monitored().dom().contains(pkg) && s.monitored()[pkg].last_addr is Some ==> addr_or_empty(
            s,
            pkg,
        ) == s.monitored()[pkg].last_addr->0,
        !s.monitored().dom().contains(pkg) && s.connected_devices@.len() > 0 ==> addr_or_empty(
            s,
            pkg,
        ) == s.connected_devices@[0].0@,
        !s.monitored().dom().contains(pkg) && s.connected_devices@.len() == 0 ==> addr_or_empty(
            s,
            pkg,
        ).len() == 0,
{
}

/// A payload that is no text is handed on in its text form.
pub proof fn values_are_handed_on_as_text(
    s: PluginState,
    payload: Seq<char>,
    v: JsonView,
    p: JsonView,
    m: ParsedMessage,
)
    requires
        message_of(s, payload, Some(v), m),
        v.str_at("payloadText"@) is None,
        v.get("payload"@) == Some(p),
        !(p is Str),
    ensures
        m.data@ == json::json_text(p),
{
}

/// An app counts as installed on the device that reports it, under its own package.
pub proof fn apps_are_installed_where_reported(
    installed: Seq<InstalledApp>,
    addr: Seq<char>,
    pkg: Seq<char>,
    i: int,
)
    ensures
        0 <= i < installed.len() && installed[i].addr@ == addr && installed[i].package_name@ == pkg
            ==> has_app(installed, addr, pkg) && some_has_app(installed, pkg),
        has_app(installed, addr, pkg) ==> exists|j: int|
            0 <= j < installed.len() && (#[trigger] installed[j]).addr@ == addr
                && installed[j].package_name@ == pkg,
        (forall|j: int|
            0 <= j < installed.len() ==> (#[trigger] installed[j]).package_name@ != pkg) ==> !some_has_app(
            installed,
            pkg,
        ) && !has_app(installed, addr, pkg),
{
}

/// The page refreshes itself no more than once in a second and a half.
pub proof fn refreshes_are_throttled(last: u128, now: u128)
    requires
        last <= now,
    ensures
        state::refresh_due(last, now, AUTO_REFRESH_THROTTLE_MS) <==> now - last >= 1500,
{
}

} // verus!
