//! What the bridge remembers: the monitored apps, the devices and the notices.
use vstd::prelude::*;
use vstd::string::*;

use crate::text::{self, opt_copy, str_eq, str_lt};

verus! {

/// The package name that messages fall back to when nothing else is known.
pub const HISTORICAL_PKG_NAME: &'static str = "com.fetch";

/// A monitored app.
#[derive(Debug)]
pub struct AppEntry {
    pub pkg_name: String,
    pub enabled: bool,
    pub request_count: u64,
    pub success_count: u64,
    pub error_count: u64,
    pub last_seen_unix_ms: Option<u128>,
    pub last_addr: Option<String>,
    pub last_status: Option<String>,
    pub last_url: Option<String>,
}

/// The mathematical value of an [`AppEntry`].
pub struct AppView {
    pub pkg_name: Seq<char>,
    pub enabled: bool,
    pub request_count: u64,
    pub success_count: u64,
    pub error_count: u64,
    pub last_seen_unix_ms: Option<u128>,
    pub last_addr: Option<Seq<char>>,
    pub last_status: Option<Seq<char>>,
    pub last_url: Option<Seq<char>>,
}

/// An app that saw nothing yet.
pub open spec fn new_app(pkg_name: Seq<char>) -> AppView {
    AppView {
        pkg_name,
        enabled: true,
        request_count: 0,
        success_count: 0,
        error_count: 0,
        last_seen_unix_ms: None,
        last_addr: None,
        last_status: None,
        last_url: None,
    }
}

/// A counter after one more event, held at its largest value.
pub open spec fn counted(n: u64) -> u64 {
    if n < u64::MAX {
        (n + 1) as u64
    } else {
        n
    }
}

impl AppEntry {
    pub open spec fn view(&self) -> AppView {
        AppView {
            pkg_name: self.pkg_name@,
            enabled: self.enabled,
            request_count: self.request_count,
            success_count: self.success_count,
            error_count: self.error_count,
            last_seen_unix_ms: self.last_seen_unix_ms,
            last_addr: text::opt_text(self.last_addr),
            last_status: text::opt_text(self.last_status),
            last_url: text::opt_text(self.last_url),
        }
    }

    pub fn new(pkg_name: &str) -> (r: Self)
        ensures
            r@ == new_app(pkg_name@),
    {
        AppEntry {
            pkg_name: pkg_name.to_owned(),
            enabled: true,
            request_count: 0,
            success_count: 0,
            error_count: 0,
            last_seen_unix_ms: None,
            last_addr: None,
            last_status: None,
            last_url: None,
        }
    }

    /// A copy of the entry.
    pub fn duplicate(&self) -> (r: AppEntry)
        ensures
            r == *self,
    {
        AppEntry {
            pkg_name: self.pkg_name.clone(),
            enabled: self.enabled,
            request_count: self.request_count,
            success_count: self.success_count,
            error_count: self.error_count,
            last_seen_unix_ms: self.last_seen_unix_ms,
            last_addr: opt_copy(&self.last_addr),
            last_status: opt_copy(&self.last_status),
            last_url: opt_copy(&self.last_url),
        }
    }
}

/// A third-party app that a device reports.
#[derive(Debug)]
pub struct InstalledApp {
    pub addr: String,
    pub device_name: String,
    pub package_name: String,
    pub app_name: String,
    pub version_code: u32,
}

impl InstalledApp {
    pub fn duplicate(&self) -> (r: InstalledApp)
        ensures
            r == *self,
    {
        InstalledApp {
            addr: self.addr.clone(),
            device_name: self.device_name.clone(),
            package_name: self.package_name.clone(),
            app_name: self.app_name.clone(),
            version_code: self.version_code,
        }
    }
}

pub struct PluginState {
    /// The monitored apps, in the order of their names, no name twice.
    pub apps: Vec<AppEntry>,
    pub root_element_id: Option<String>,
    pub last_notice: Option<String>,
    pub pending_add_pkg: String,
    /// Address and name of each connected device.
    pub connected_devices: Vec<(String, String)>,
    pub installed_apps: Vec<InstalledApp>,
    /// When the last automatic refresh ran, in milliseconds.
    pub last_auto_refresh_ms: u128,
    /// Counts the changes that a rendering must reflect.
    pub render_tick: u64,
}

/// Names in strictly ascending order.
pub open spec fn ascending(apps: Seq<AppEntry>) -> bool {
    forall|i: int, j: int|
        0 <= i < j < apps.len() ==> text::text_lt(
            (#[trigger] apps[i]).pkg_name@,
            (#[trigger] apps[j]).pkg_name@,
        )
}

pub open spec fn named_at(apps: Seq<AppEntry>, name: Seq<char>, i: int) -> bool {
    0 <= i < apps.len() && apps[i].pkg_name@ == name
}

/// The entries of a list under their names.
pub open spec fn by_name(apps: Seq<AppEntry>) -> Map<Seq<char>, AppView> {
    Map::new(
        |name: Seq<char>| exists|i: int| named_at(apps, name, i),
        |name: Seq<char>| apps[choose|i: int| named_at(apps, name, i)]@,
    )
}

impl PluginState {
    pub open spec fn wf(self) -> bool {
        ascending(self.apps@)
    }

    /// The monitored apps under their names.
    pub open spec fn monitored(self) -> Map<Seq<char>, AppView> {
        by_name(self.apps@)
    }

    /// Whether nothing but the monitored apps and the tick differs.
    pub open spec fn same_but_apps(self, other: PluginState) -> bool {
        &&& self.root_element_id == other.root_element_id
        &&& self.last_notice == other.last_notice
        &&& self.pending_add_pkg == other.pending_add_pkg
        &&& self.connected_devices == other.connected_devices
        &&& self.installed_apps == other.installed_apps
        &&& self.last_auto_refresh_ms == other.last_auto_refresh_ms
    }

    /// Whether nothing but the root element differs.
    pub open spec fn same_but_root(self, other: PluginState) -> bool {
        self == (PluginState { root_element_id: self.root_element_id, ..other })
    }

    /// The app of a name, or a new one.
    pub open spec fn app_or_new(self, name: Seq<char>) -> AppView {
        if self.monitored().dom().contains(name) {
            self.monitored()[name]
        } else {
            new_app(name)
        }
    }
}

impl Default for PluginState {
    fn default() -> (r: Self)
        ensures
            r.wf(),
            r.monitored() == Map::<Seq<char>, AppView>::empty(),
            r.root_element_id is None,
            r.last_notice is None,
            r.pending_add_pkg@.len() == 0,
            r.connected_devices@.len() == 0,
            r.installed_apps@.len() == 0,
            r.last_auto_refresh_ms == 0,
            r.render_tick == 0,
    {
        let r = PluginState {
            apps: Vec::new(),
            root_element_id: None,
            last_notice: None,
            pending_add_pkg: String::new(),
            connected_devices: Vec::new(),
            installed_apps: Vec::new(),
            last_auto_refresh_ms: 0,
            render_tick: 0,
        };
        assert(r.monitored() =~= Map::<Seq<char>, AppView>::empty());
        r
    }
}

proof fn lemma_named(apps: Seq<AppEntry>, i: int)
    requires
        ascending(apps),
        0 <= i < apps.len(),
    ensures
        by_name(apps).dom().contains(apps[i].pkg_name@),
        by_name(apps)[apps[i].pkg_name@] == apps[i]@,
        forall|j: int| #[trigger] named_at(apps, apps[i].pkg_name@, j) ==> j == i,
{
    let name = apps[i].pkg_name@;
    assert(named_at(apps, name, i));
    assert forall|j: int| #[trigger] named_at(apps, name, j) implies j == i by {
        text::text_lt_irreflexive(name);
        if i < j {
            assert(text::text_lt(apps[i].pkg_name@, apps[j].pkg_name@));
        } else if j < i {
            assert(text::text_lt(apps[j].pkg_name@, apps[i].pkg_name@));
        }
    }
}

/// Adding an entry at its place.
proof fn lemma_inserted(before: Seq<AppEntry>, i: int, e: AppEntry)
    requires
        ascending(before),
        0 <= i <= before.len(),
        forall|j: int| 0 <= j < i ==> text::text_lt((#[trigger] before[j]).pkg_name@, e.pkg_name@),
        forall|j: int|
            i <= j < before.len() ==> text::text_lt(e.pkg_name@, (#[trigger] before[j]).pkg_name@),
    ensures
        ascending(before.insert(i, e)),
        by_name(before.insert(i, e)) == by_name(before).insert(e.pkg_name@, e@),
{
    let after = before.insert(i, e);
    let name = e.pkg_name@;
    assert forall|a: int, b: int| 0 <= a < b < after.len() implies text::text_lt(
        (#[trigger] after[a]).pkg_name@,
        (#[trigger] after[b]).pkg_name@,
    ) by {
        let a0 = if a < i { a } else { a - 1 };
        let b0 = if b < i { b } else { b - 1 };
        if a != i && b != i {
            assert(text::text_lt(before[a0].pkg_name@, before[b0].pkg_name@));
        }
    }
    let want = by_name(before).insert(name, e@);
    assert forall|n: Seq<char>| by_name(after).dom().contains(n) == want.dom().contains(n) by {
        if by_name(after).dom().contains(n) {
            let j = choose|j: int| named_at(after, n, j);
            assert(named_at(after, n, j));
            if j != i {
                assert(named_at(before, n, if j < i { j } else { j - 1 }));
            }
        }
        if by_name(before).dom().contains(n) {
            let j = choose|j: int| named_at(before, n, j);
            assert(named_at(before, n, j));
            assert(named_at(after, n, if j < i { j } else { j + 1 }));
        }
        assert(named_at(after, name, i));
    }
    assert forall|n: Seq<char>| #[trigger] by_name(after).dom().contains(n) implies by_name(after)[n]
        == want[n] by {
        let j = choose|j: int| named_at(after, n, j);
        assert(named_at(after, n, j));
        lemma_named(after, j);
        lemma_named(after, i);
        if j != i {
            assert(n != name) by {
                assert(named_at(after, n, j));
            }
            lemma_named(before, if j < i { j } else { j - 1 });
        }
    }
    assert(by_name(after) =~= want);
}

/// Taking an entry out.
proof fn lemma_dropped(before: Seq<AppEntry>, i: int)
    requires
        ascending(before),
        0 <= i < before.len(),
    ensures
        ascending(before.remove(i)),
        by_name(before.remove(i)) == by_name(before).remove(before[i].pkg_name@),
{
    let after = before.remove(i);
    let name = before[i].pkg_name@;
    assert forall|a: int, b: int| 0 <= a < b < after.len() implies text::text_lt(
        (#[trigger] after[a]).pkg_name@,
        (#[trigger] after[b]).pkg_name@,
    ) by {
        let a0 = if a < i { a } else { a + 1 };
        let b0 = if b < i { b } else { b + 1 };
        assert(text::text_lt(before[a0].pkg_name@, before[b0].pkg_name@));
    }
    let want = by_name(before).remove(name);
    lemma_named(before, i);
    assert forall|n: Seq<char>| by_name(after).dom().contains(n) == want.dom().contains(n) by {
        if by_name(after).dom().contains(n) {
            let j = choose|j: int| named_at(after, n, j);
            assert(named_at(after, n, j));
            assert(named_at(before, n, if j < i { j } else { j + 1 }));
        }
        if want.dom().contains(n) {
            let j = choose|j: int| named_at(before, n, j);
            assert(named_at(before, n, j));
            assert(named_at(after, n, if j < i { j } else { j - 1 }));
        }
    }
    assert forall|n: Seq<char>| #[trigger] by_name(after).dom().contains(n) implies by_name(after)[n]
        == want[n] by {
        let j = choose|j: int| named_at(after, n, j);
        assert(named_at(after, n, j));
        lemma_named(after, j);
        lemma_named(before, if j < i { j } else { j + 1 });
    }
    assert(by_name(after) =~= want);
}

impl PluginState {
    /// The place of a name: where its entry stands, or where it would.
    fn place(&self, pkg_name: &str) -> (r: (bool, usize))
        requires
            self.wf(),
        ensures
            r.1 <= self.apps@.len(),
            r.0 == self.monitored().dom().contains(pkg_name@),
            r.0 ==> named_at(self.apps@, pkg_name@, r.1 as int) && self.monitored()[pkg_name@]
                == self.apps@[r.1 as int]@,
            forall|j: int|
                0 <= j < r.1 ==> text::text_lt((#[trigger] self.apps@[j]).pkg_name@, pkg_name@),
            !r.0 ==> forall|j: int|
                r.1 <= j < self.apps@.len() ==> text::text_lt(
                    pkg_name@,
                    (#[trigger] self.apps@[j]).pkg_name@,
                ),
    {
        let mut i: usize = 0;
        while i < self.apps.len() && str_lt(self.apps[i].pkg_name.as_str(), pkg_name)
            invariant
                self.wf(),
                i <= self.apps@.len(),
                forall|j: int|
                    0 <= j < i ==> text::text_lt((#[trigger] self.apps@[j]).pkg_name@, pkg_name@),
            decreases self.apps.len() - i,
        {
            i = i + 1;
        }
        proof {
            assert forall|j: int| 0 <= j < i implies !named_at(self.apps@, pkg_name@, j) by {
                text::text_lt_irreflexive(pkg_name@);
                assert(text::text_lt(self.apps@[j].pkg_name@, pkg_name@));
            }
        }
        if i < self.apps.len() && str_eq(self.apps[i].pkg_name.as_str(), pkg_name) {
            proof {
                lemma_named(self.apps@, i as int);
            }
            return (true, i);
        }
        proof {
            assert forall|j: int| i <= j < self.apps@.len() implies text::text_lt(
                pkg_name@,
                (#[trigger] self.apps@[j]).pkg_name@,
            ) by {
                text::text_lt_total(self.apps@[i as int].pkg_name@, pkg_name@);
                if j > i {
                    text::text_lt_transitive(
                        pkg_name@,
                        self.apps@[i as int].pkg_name@,
                        self.apps@[j].pkg_name@,
                    );
                }
            }
            text::text_lt_irreflexive(pkg_name@);
            assert forall|j: int| !named_at(self.apps@, pkg_name@, j) by {
                if i <= j < self.apps@.len() {
                    assert(text::text_lt(pkg_name@, self.apps@[j].pkg_name@));
                }
            }
        }
        (false, i)
    }

    /// Takes the entry of a name out, or makes a new one.
    fn take_or_new(&mut self, pkg_name: &str) -> (r: (usize, AppEntry))
        requires
            old(self).wf(),
        ensures
            final(self).wf(),
            final(self).same_but_apps(*old(self)),
            final(self).render_tick == old(self).render_tick,
            r.1@ == old(self).app_or_new(pkg_name@),
            r.1.pkg_name@ == pkg_name@,
            final(self).monitored() == old(self).monitored().remove(pkg_name@),
            r.0 <= final(self).apps@.len(),
            forall|j: int|
                0 <= j < r.0 ==> text::text_lt(
                    (#[trigger] final(self).apps@[j]).pkg_name@,
                    pkg_name@,
                ),
            forall|j: int|
                r.0 <= j < final(self).apps@.len() ==> text::text_lt(
                    pkg_name@,
                    (#[trigger] final(self).apps@[j]).pkg_name@,
                ),
    {
        let (found, i) = self.place(pkg_name);
        let ghost before = self.apps@;
        if found {
            proof {
                lemma_dropped(before, i as int);
            }
            let e = self.apps.remove(i);
            proof {
                assert forall|j: int| i <= j < self.apps@.len() implies text::text_lt(
                    pkg_name@,
                    (#[trigger] self.apps@[j]).pkg_name@,
                ) by {
                    assert(text::text_lt(before[i as int].pkg_name@, before[j + 1].pkg_name@));
                }
                assert forall|j: int| 0 <= j < i implies text::text_lt(
                    (#[trigger] self.apps@[j]).pkg_name@,
                    pkg_name@,
                ) by {
                    assert(self.apps@[j] == before[j]);
                }
            }
            (i, e)
        } else {
            assert(self.monitored() =~= self.monitored().remove(pkg_name@));
            (i, AppEntry::new(pkg_name))
        }
    }

    /// Puts an entry at its place.
    fn put_at(&mut self, i: usize, e: AppEntry)
        requires
            old(self).wf(),
            i <= old(self).apps@.len(),
            forall|j: int|
                0 <= j < i ==> text::text_lt(
                    (#[trigger] old(self).apps@[j]).pkg_name@,
                    e.pkg_name@,
                ),
            forall|j: int|
                i <= j < old(self).apps@.len() ==> text::text_lt(
                    e.pkg_name@,
                    (#[trigger] old(self).apps@[j]).pkg_name@,
                ),
        ensures
            final(self).wf(),
            final(self).same_but_apps(*old(self)),
            final(self).render_tick == old(self).render_tick,
            final(self).monitored() == old(self).monitored().insert(e.pkg_name@, e@),
    {
        proof {
            lemma_inserted(self.apps@, i as int, e);
        }
        self.apps.insert(i, e);
    }

    /// Where an app was last seen.
    pub fn last_addr_of(&self, pkg_name: &str) -> (r: Option<String>)
        requires
            self.wf(),
        ensures
            text::opt_text(r) == if self.monitored().dom().contains(pkg_name@) {
                self.monitored()[pkg_name@].last_addr
            } else {
                None
            },
    {
        let (found, i) = self.place(pkg_name);
        if found {
            opt_copy(&self.apps[i].last_addr)
        } else {
            None
        }
    }

    fn tick(&mut self)
        ensures
            final(self).apps == old(self).apps,
            final(self).same_but_apps(*old(self)),
            final(self).render_tick == next_tick(old(self).render_tick),
    {
        self.render_tick = self.render_tick.wrapping_add(1);
    }
}

/// The tick after a change; it starts over after the largest one.
pub open spec fn next_tick(tick: u64) -> u64 {
    if tick < u64::MAX {
        (tick + 1) as u64
    } else {
        0
    }
}

/// The tick after some changes.
pub open spec fn tick_after(tick: u64, changes: nat) -> u64
    decreases changes,
{
    if changes == 0 {
        tick
    } else {
        next_tick(tick_after(tick, (changes - 1) as nat))
    }
}

/// Starts monitoring an app that is not monitored yet. Says whether the list of
/// apps changed and must be saved.
pub fn ensure_app(state: &mut PluginState, pkg_name: &str) -> (inserted: bool)
    requires
        old(state).wf(),
    ensures
        final(state).wf(),
        final(state).same_but_apps(*old(state)),
        final(state).render_tick == old(state).render_tick,
        inserted == !old(state).monitored().dom().contains(pkg_name@),
        final(state).monitored() == old(state).monitored().insert(
            pkg_name@,
            old(state).app_or_new(pkg_name@),
        ),
{
    let (found, i) = state.place(pkg_name);
    if found {
        proof {
            assert(state.monitored() =~= state.monitored().insert(
                pkg_name@,
                state.app_or_new(pkg_name@),
            ));
        }
        return false;
    }
    let e = AppEntry::new(pkg_name);
    state.put_at(i, e);
    true
}

/// The apps after a list of loaded entries, a later one replacing an earlier one.
pub open spec fn loaded(apps: Map<Seq<char>, AppView>, entries: Seq<AppEntry>) -> Map<
    Seq<char>,
    AppView,
>
    decreases entries.len(),
{
    if entries.len() == 0 {
        apps
    } else {
        loaded(apps, entries.drop_last()).insert(entries.last().pkg_name@, entries.last()@)
    }
}

/// Takes over the entries that were saved.
pub fn install_loaded_apps(state: &mut PluginState, entries: Vec<AppEntry>)
    requires
        old(state).wf(),
    ensures
        final(state).wf(),
        final(state).same_but_apps(*old(state)),
        final(state).render_tick == next_tick(old(state).render_tick),
        final(state).monitored() == loaded(old(state).monitored(), entries@),
{
    let ghost first = *state;
    let mut i: usize = 0;
    while i < entries.len()
        invariant
            i <= entries@.len(),
            state.wf(),
            state.same_but_apps(first),
            state.render_tick == first.render_tick,
            state.monitored() == loaded(first.monitored(), entries@.take(i as int)),
        decreases entries.len() - i,
    {
        let e = entries[i].duplicate();
        let ghost here = state.monitored();
        let (at, _) = state.take_or_new(e.pkg_name.as_str());
        state.put_at(at, e);
        proof {
            assert(here.remove(e.pkg_name@).insert(e.pkg_name@, e@) =~= here.insert(
                e.pkg_name@,
                e@,
            ));
            assert(entries@.take(i + 1).drop_last() =~= entries@.take(i as int));
        }
        i = i + 1;
    }
    assert(entries@.take(i as int) =~= entries@);
    state.tick();
}

/// Whether an app may use the network; an app that is not monitored may.
pub fn is_enabled(state: &PluginState, pkg_name: &str) -> (r: bool)
    requires
        state.wf(),
    ensures
        r == (state.monitored().dom().contains(pkg_name@) ==> state.monitored()[pkg_name@].enabled),
        r == allowed(*state, pkg_name@),
{
    let (found, i) = state.place(pkg_name);
    if found {
        state.apps[i].enabled
    } else {
        true
    }
}

/// An app after a request.
pub open spec fn requested(e: AppView, addr: Seq<char>, url: Option<Seq<char>>, now: u128) -> AppView {
    AppView {
        request_count: counted(e.request_count),
        last_seen_unix_ms: Some(now),
        last_addr: Some(addr),
        last_url: if url is Some {
            url
        } else {
            e.last_url
        },
        ..e
    }
}

/// An app after a request was answered.
pub open spec fn answered(e: AppView, ok: bool, status: Option<Seq<char>>) -> AppView {
    let e = AppView {
        last_status: if status is Some {
            status
        } else {
            e.last_status
        },
        ..e
    };
    if ok {
        AppView { success_count: counted(e.success_count), ..e }
    } else {
        AppView { error_count: counted(e.error_count), ..e }
    }
}

/// Whether an app may use the network: one that is not known may.
pub open spec fn allowed(s: PluginState, name: Seq<char>) -> bool {
    s.app_or_new(name).enabled
}

/// Whether enough time passed since the last automatic refresh.
pub open spec fn refresh_due(last: u128, now: u128, interval: u128) -> bool {
    now >= last + interval || (interval == 0 && now < last)
}

/// Notes a request of an app, which is monitored from then on.
pub fn record_request(
    state: &mut PluginState,
    pkg_name: &str,
    addr: &str,
    url: Option<&str>,
    now_ms: u128,
)
    requires
        old(state).wf(),
    ensures
        final(state).wf(),
        final(state).same_but_apps(*old(state)),
        final(state).render_tick == next_tick(old(state).render_tick),
        ({
            let e = old(state).app_or_new(pkg_name@);
            final(state).monitored() == old(state).monitored().insert(
                pkg_name@,
                AppView {
                    request_count: counted(e.request_count),
                    last_seen_unix_ms: Some(now_ms),
                    last_addr: Some(addr@),
                    last_url: match url {
                        Some(u) => Some(u@),
                        None => e.last_url,
                    },
                    ..e
                },
            )
        }),
        final(state).monitored() == old(state).monitored().insert(
            pkg_name@,
            requested(
                old(state).app_or_new(pkg_name@),
                addr@,
                match url {
                    Some(u) => Some(u@),
                    None => None,
                },
                now_ms,
            ),
        ),
{
    let ghost before = state.monitored();
    let (at, mut e) = state.take_or_new(pkg_name);
    e.request_count = e.request_count.saturating_add(1);
    e.last_seen_unix_ms = Some(now_ms);
    e.last_addr = Some(addr.to_owned());
    if let Some(u) = url {
        e.last_url = Some(u.to_owned());
    }
    state.put_at(at, e);
    state.tick();
    assert(state.monitored() =~= before.insert(pkg_name@, e@));
}

/// Notes how a request of an app ended.
pub fn record_result(state: &mut PluginState, pkg_name: &str, ok: bool, status: Option<String>)
    requires
        old(state).wf(),
    ensures
        final(state).wf(),
        final(state).same_but_apps(*old(state)),
        final(state).render_tick == next_tick(old(state).render_tick),
        ({
            let e = old(state).app_or_new(pkg_name@);
            final(state).monitored() == old(state).monitored().insert(
                pkg_name@,
                AppView {
                    success_count: if ok {
                        counted(e.success_count)
                    } else {
                        e.success_count
                    },
                    error_count: if ok {
                        e.error_count
                    } else {
                        counted(e.error_count)
                    },
                    last_status: match status {
                        Some(s) => Some(s@),
                        None => e.last_status,
                    },
                    ..e
                },
            )
        }),
        final(state).monitored() == old(state).monitored().insert(
            pkg_name@,
            answered(old(state).app_or_new(pkg_name@), ok, text::opt_text(status)),
        ),
{
    let ghost before = state.monitored();
    let (at, mut e) = state.take_or_new(pkg_name);
    if ok {
        e.success_count = e.success_count.saturating_add(1);
    } else {
        e.error_count = e.error_count.saturating_add(1);
    }
    if let Some(s) = status {
        e.last_status = Some(s);
    }
    state.put_at(at, e);
    state.tick();
    assert(state.monitored() =~= before.insert(pkg_name@, e@));
}

/// Allows or forbids an app the network.
pub fn set_enabled(state: &mut PluginState, pkg_name: &str, enabled: bool)
    requires
        old(state).wf(),
    ensures
        final(state).wf(),
        final(state).same_but_apps(*old(state)),
        final(state).render_tick == next_tick(old(state).render_tick),
        final(state).monitored() == old(state).monitored().insert(
            pkg_name@,
            AppView { enabled, ..old(state).app_or_new(pkg_name@) },
        ),
{
    let ghost before = state.monitored();
    let (at, mut e) = state.take_or_new(pkg_name);
    e.enabled = enabled;
    state.put_at(at, e);
    state.tick();
    assert(state.monitored() =~= before.insert(pkg_name@, e@));
}

/// Stops monitoring an app. Says whether it was monitored.
pub fn remove_app(state: &mut PluginState, pkg_name: &str) -> (removed: bool)
    requires
        old(state).wf(),
    ensures
        final(state).wf(),
        final(state).same_but_apps(*old(state)),
        final(state).render_tick == next_tick(old(state).render_tick),
        removed == old(state).monitored().dom().contains(pkg_name@),
        final(state).monitored() == old(state).monitored().remove(pkg_name@),
        final(state).apps@.len() == old(state).apps@.len() - if removed {
            1int
        } else {
            0
        },
{
    let (found, i) = state.place(pkg_name);
    if found {
        proof {
            lemma_dropped(state.apps@, i as int);
        }
        let _ = state.apps.remove(i);
    } else {
        assert(state.monitored() =~= state.monitored().remove(pkg_name@));
    }
    state.tick();
    found
}

/// Copies of the monitored apps, in the order of their names.
pub fn snapshot_apps(state: &PluginState) -> (r: Vec<AppEntry>)
    requires
        state.wf(),
    ensures
        r@ == state.apps@,
        ascending(r@),
        by_name(r@) == state.monitored(),
{
    let mut out: Vec<AppEntry> = Vec::new();
    let mut i: usize = 0;
    while i < state.apps.len()
        invariant
            i <= state.apps@.len(),
            out@ == state.apps@.take(i as int),
        decreases state.apps.len() - i,
    {
        out.push(state.apps[i].duplicate());
        i = i + 1;
    }
    assert(state.apps@.take(i as int) =~= state.apps@);
    out
}

/// The entries to save.
pub fn persist_now(state: &PluginState) -> (r: Vec<AppEntry>)
    requires
        state.wf(),
    ensures
        r@ == state.apps@,
{
    snapshot_apps(state)
}

/// The names of the monitored apps, in order.
pub fn pkg_names(state: &PluginState) -> (r: Vec<String>)
    requires
        state.wf(),
    ensures
        r@.len() == state.apps@.len(),
        forall|i: int| 0 <= i < r@.len() ==> (#[trigger] r@[i])@ == state.apps@[i].pkg_name@,
        forall|i: int, j: int|
            0 <= i < j < r@.len() ==> text::text_lt((#[trigger] r@[i])@, (#[trigger] r@[j])@),
{
    let mut out: Vec<String> = Vec::new();
    let mut i: usize = 0;
    while i < state.apps.len()
        invariant
            i <= state.apps@.len(),
            out@.len() == i,
            forall|j: int| 0 <= j < i ==> (#[trigger] out@[j])@ == state.apps@[j].pkg_name@,
        decreases state.apps.len() - i,
    {
        out.push(state.apps[i].pkg_name.clone());
        i = i + 1;
    }
    proof {
        assert forall|a: int, b: int| 0 <= a < b < out@.len() implies text::text_lt(
            (#[trigger] out@[a])@,
            (#[trigger] out@[b])@,
        ) by {
            assert(text::text_lt(state.apps@[a].pkg_name@, state.apps@[b].pkg_name@));
        }
    }
    out
}

pub fn set_notice(state: &mut PluginState, msg: String)
    ensures
        *final(state) == (PluginState {
            last_notice: Some(msg),
            render_tick: next_tick(old(state).render_tick),
            ..*old(state)
        }),
{
    state.last_notice = Some(msg);
    state.render_tick = state.render_tick.wrapping_add(1);
}

pub fn clear_notice(state: &mut PluginState)
    ensures
        *final(state) == (PluginState { last_notice: None, ..*old(state) }),
{
    state.last_notice = None;
}

pub fn set_pending_add(state: &mut PluginState, value: String)
    ensures
        *final(state) == (PluginState { pending_add_pkg: value, ..*old(state) }),
{
    state.pending_add_pkg = value;
}

/// The package name typed so far, which is cleared.
pub fn take_pending_add(state: &mut PluginState) -> (r: String)
    ensures
        r@ == old(state).pending_add_pkg@,
        final(state).pending_add_pkg@.len() == 0,
        *final(state) == (PluginState {
            pending_add_pkg: final(state).pending_add_pkg,
            ..*old(state)
        }),
{
    let r = state.pending_add_pkg.clone();
    state.pending_add_pkg = String::new();
    r
}

pub fn set_root(state: &mut PluginState, element_id: &str)
    ensures
        text::opt_text(final(state).root_element_id) == Some(element_id@),
        *final(state) == (PluginState {
            root_element_id: final(state).root_element_id,
            ..*old(state)
        }),
{
    state.root_element_id = Some(element_id.to_owned());
}

pub fn root(state: &PluginState) -> (r: Option<String>)
    ensures
        r == state.root_element_id,
{
    opt_copy(&state.root_element_id)
}

pub fn set_connected_devices(state: &mut PluginState, devices: Vec<(String, String)>)
    ensures
        *final(state) == (PluginState { connected_devices: devices, ..*old(state) }),
{
    state.connected_devices = devices;
}

pub fn connected_devices(state: &PluginState) -> (r: Vec<(String, String)>)
    ensures
        r@ == state.connected_devices@,
{
    let mut out: Vec<(String, String)> = Vec::new();
    let mut i: usize = 0;
    while i < state.connected_devices.len()
        invariant
            i <= state.connected_devices@.len(),
            out@ == state.connected_devices@.take(i as int),
        decreases state.connected_devices.len() - i,
    {
        let d = &state.connected_devices[i];
        out.push((d.0.clone(), d.1.clone()));
        i = i + 1;
    }
    assert(state.connected_devices@.take(i as int) =~= state.connected_devices@);
    out
}

pub fn set_installed_apps(state: &mut PluginState, apps: Vec<InstalledApp>)
    ensures
        *final(state) == (PluginState { installed_apps: apps, ..*old(state) }),
{
    state.installed_apps = apps;
}

pub fn installed_apps(state: &PluginState) -> (r: Vec<InstalledApp>)
    ensures
        r@ == state.installed_apps@,
{
    let mut out: Vec<InstalledApp> = Vec::new();
    let mut i: usize = 0;
    while i < state.installed_apps.len()
        invariant
            i <= state.installed_apps@.len(),
            out@ == state.installed_apps@.take(i as int),
        decreases state.installed_apps.len() - i,
    {
        out.push(state.installed_apps[i].duplicate());
        i = i + 1;
    }
    assert(state.installed_apps@.take(i as int) =~= state.installed_apps@);
    out
}

pub fn is_monitored(state: &PluginState, pkg: &str) -> (r: bool)
    requires
        state.wf(),
    ensures
        r == state.monitored().dom().contains(pkg@),
{
    state.place(pkg).0
}

/// Claims an automatic refresh, which is granted once per interval.
pub fn try_claim_auto_refresh(state: &mut PluginState, min_interval_ms: u128, now: u128) -> (r: bool)
    ensures
        ({
            let since = if now >= old(state).last_auto_refresh_ms {
                now - old(state).last_auto_refresh_ms
            } else {
                0
            };
            if since < min_interval_ms {
                !r && *final(state) == *old(state)
            } else {
                r && *final(state) == (PluginState { last_auto_refresh_ms: now, ..*old(state) })
            }
        }),
        r == refresh_due(old(state).last_auto_refresh_ms, now, min_interval_ms),
{
    if now.saturating_sub(state.last_auto_refresh_ms) < min_interval_ms {
        return false;
    }
    state.last_auto_refresh_ms = now;
    true
}

/// The address that messages of an app go to: where it was last seen, else the
/// first connected device.
pub open spec fn device_addr_for(state: PluginState, pkg: Seq<char>) -> Option<Seq<char>> {
    let seen = if state.monitored().dom().contains(pkg) {
        state.monitored()[pkg].last_addr
    } else {
        None
    };
    match seen {
        Some(addr) => Some(addr),
        None => if state.connected_devices@.len() > 0 {
            Some(state.connected_devices@[0].0@)
        } else {
            None
        },
    }
}

pub fn first_device_addr_for(state: &PluginState, pkg_name: &str) -> (r: Option<String>)
    requires
        state.wf(),
    ensures
        text::opt_text(r) == device_addr_for(*state, pkg_name@),
{
    let (found, i) = state.place(pkg_name);
    if found {
        if let Some(addr) = &state.apps[i].last_addr {
            return Some(addr.clone());
        }
    }
    if state.connected_devices.len() > 0 {
        Some(state.connected_devices[0].0.clone())
    } else {
        None
    }
}

// ---------------------------------------------------------------- laws

/// What is loaded replaces what was known of the same packages, the last entry of
/// a name counting, and leaves the other packages alone.
pub proof fn loading_replaces_by_name(
    apps: Map<Seq<char>, AppView>,
    entries: Seq<AppEntry>,
    name: Seq<char>,
    i: int,
)
    requires
        forall|j: int|
            0 <= j < entries.len() && j > i ==> (#[trigger] entries[j]).pkg_name@ != name,
        -1 <= i < entries.len(),
        i >= 0 ==> entries[i].pkg_name@ == name,
    ensures
        i >= 0 ==> loaded(apps, entries).dom().contains(name) && loaded(apps, entries)[name]
            == entries[i]@,
        i < 0 ==> loaded(apps, entries).dom().contains(name) == apps.dom().contains(name),
        i < 0 && apps.dom().contains(name) ==> loaded(apps, entries)[name] == apps[name],
    decreases entries.len(),
{
    if entries.len() > 0 {
        let rest = entries.drop_last();
        if i < entries.len() - 1 {
            assert(entries[entries.len() - 1].pkg_name@ != name);
            assert forall|j: int| 0 <= j < rest.len() && j > i implies (#[trigger] rest[j]).pkg_name@
                != name by {
                assert(rest[j] == entries[j]);
            }
            loading_replaces_by_name(apps, rest, name, i);
        }
    }
}

/// A counter never goes down, and goes up by one until it is full.
pub proof fn counters_go_up(n: u64)
    ensures
        n <= counted(n) <= u64::MAX,
        n < u64::MAX ==> counted(n) == n + 1,
        counted(u64::MAX) == u64::MAX,
        next_tick(n) != n,
        n < u64::MAX ==> next_tick(n) == n + 1,
{
}

/// Changes are counted one by one: after fewer of them than the counter holds it
/// has gone up by their number.
pub proof fn ticks_count_changes(tick: u64, changes: nat)
    requires
        tick + changes <= u64::MAX,
    ensures
        tick_after(tick, changes) == tick + changes,
    decreases changes,
{
    if changes > 0 {
        ticks_count_changes(tick, (changes - 1) as nat);
    }
}

/// A package that is met for the first time may use the network and has no past;
/// one that is known keeps its own.
pub proof fn new_apps_may_use_the_network(s: PluginState, name: Seq<char>)
    ensures
        !s.monitored().dom().contains(name) ==> {
            let e = s.app_or_new(name);
            &&& e.pkg_name == name
            &&& e.enabled
            &&& e.request_count == 0 && e.success_count == 0 && e.error_count == 0
            &&& e.last_seen_unix_ms is None && e.last_addr is None && e.last_status is None
            &&& e.last_url is None
        },
        s.monitored().dom().contains(name) ==> s.app_or_new(name) == s.monitored()[name],
{
}

/// Every listed app is found under its name, and nothing else is.
pub proof fn apps_are_found_by_name(s: PluginState, i: int, name: Seq<char>)
    requires
        s.wf(),
        0 <= i < s.apps@.len(),
    ensures
        s.monitored().dom().contains(s.apps@[i].pkg_name@),
        s.monitored()[s.apps@[i].pkg_name@] == s.apps@[i]@,
        s.monitored().dom().contains(name) ==> exists|j: int|
            0 <= j < s.apps@.len() && (#[trigger] s.apps@[j]).pkg_name@ == name,
{
    let here = s.apps@[i].pkg_name@;
    assert(named_at(s.apps@, here, i));
    let k = choose|k: int| named_at(s.apps@, here, k);
    text::text_lt_irreflexive(here);
    if k < i {
        assert(text::text_lt(s.apps@[k].pkg_name@, s.apps@[i].pkg_name@));
    } else if i < k {
        assert(text::text_lt(s.apps@[i].pkg_name@, s.apps@[k].pkg_name@));
    }
    if s.monitored().dom().contains(name) {
        let j = choose|j: int| named_at(s.apps@, name, j);
        assert(s.apps@[j].pkg_name@ == name);
    }
}

/// A request is counted, and remembered with its time, its device and its address;
/// what is known of its answers stays.
pub proof fn requests_are_remembered(
    e: AppView,
    addr: Seq<char>,
    url: Seq<char>,
    now: u128,
)
    ensures
        ({
            let r = requested(e, addr, Some(url), now);
            &&& e.request_count < u64::MAX ==> r.request_count == e.request_count + 1
            &&& r.last_seen_unix_ms == Some(now)
            &&& r.last_addr == Some(addr)
            &&& r.last_url == Some(url)
            &&& r.success_count == e.success_count && r.error_count == e.error_count
            &&& r.last_status == e.last_status && r.enabled == e.enabled && r.pkg_name == e.pkg_name
            &&& requested(e, addr, None, now).last_url == e.last_url
        }),
{
}

/// An answer is counted as a success or as an error, never as both, and its status
/// is remembered.
pub proof fn answers_are_counted_once(e: AppView, ok: bool, status: Seq<char>)
    requires
        e.success_count < u64::MAX,
        e.error_count < u64::MAX,
    ensures
        ({
            let r = answered(e, ok, Some(status));
            &&& r.success_count + r.error_count == e.success_count + e.error_count + 1
            &&& ok <==> r.success_count == e.success_count + 1
            &&& r.last_status == Some(status)
            &&& r.request_count == e.request_count && r.last_url == e.last_url
            &&& r.last_addr == e.last_addr && r.enabled == e.enabled && r.pkg_name == e.pkg_name
            &&& answered(e, ok, None).last_status == e.last_status
        }),
{
}

/// An app that is not known may use the network, and one that is known may where it
/// is switched on.
pub proof fn unknown_apps_are_allowed(s: PluginState, name: Seq<char>)
    ensures
        !s.monitored().dom().contains(name) ==> allowed(s, name),
        s.monitored().dom().contains(name) ==> allowed(s, name) == s.monitored()[name].enabled,
{
}

/// After a refresh none is due until the interval is over.
pub proof fn refreshes_keep_their_distance(last: u128, now: u128, interval: u128)
    requires
        interval > 0,
    ensures
        refresh_due(last, now, interval) ==> now >= last + interval,
        last <= now < last + interval ==> !refresh_due(last, now, interval),
        last + interval <= now ==> refresh_due(last, now, interval),
        !refresh_due(last, last, interval),
{
}

} // verus!
