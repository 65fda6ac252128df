//! Handshake and capability negotiation with each peer.
use vstd::prelude::*;
use vstd::string::*;

use crate::bridge::codec::{self, BodyEncoding, Compression};
use crate::bridge::table::{self, PeerKey, PeerTable, Timed};
use crate::json::{self, Json, JsonObject, JsonView};

verus! {

/// Reserved tag of the handshake protocol.
pub const HS_TAG: &'static str = "__hs__";

/// How long, in nanoseconds, negotiated capabilities stay valid without any
/// protocol activity: ten minutes, much longer than one image transfer.
pub const SESSION_IDLE_TIMEOUT: u64 = 600_000_000_000;

/// Protocol version that is advertised: 1 is the single-message fetch, 2 adds
/// response chunking, 3 adds encodings, compressions and ACK-paced chunking, 4
/// adds open-ended response streams.
pub const LOCAL_PROTOCOL_VERSION: u32 = 4;

/// Chunk size for a peer that configures none.
pub const DEFAULT_CHUNK_SIZE: usize = 4096;

/// Largest chunk size that a peer can configure.
pub const MAX_CHUNK_SIZE: usize = 65536;

/// Smallest chunk size that is negotiated.
pub const MIN_CHUNK_SIZE: usize = 256;

/// Chunks kept in flight for a peer that asks for no window.
pub const DEFAULT_ACK_WINDOW: usize = 4;

pub const MIN_ACK_WINDOW: usize = 1;

pub const MAX_ACK_WINDOW: usize = 64;

/// What a peer says it supports.
#[derive(Debug)]
pub struct PeerCaps {
    pub protocol_version: u32,
    pub chunked: bool,
    /// Zero where the peer configures none.
    pub max_chunk_size: usize,
    /// Encodings the peer can decode, preferred first.
    pub encodings: Vec<BodyEncoding>,
    /// Compressions the peer can undo, preferred first.
    pub compressions: Vec<Compression>,
    pub stream: bool,
    /// Whether the peer acknowledges chunks.
    pub ack: bool,
    /// Zero where the peer asks for no particular window.
    pub ack_window: usize,
}

/// What both sides agreed on for a session.
#[derive(Debug)]
pub struct NegotiatedCaps {
    pub protocol_version: u32,
    pub chunked: bool,
    pub chunk_size: usize,
    /// Only with protocol 4, chunking and ACK flow control.
    pub stream: bool,
    /// Encodings the peer accepts, in its preference order.
    pub encodings: Vec<BodyEncoding>,
    pub compressions: Vec<Compression>,
    /// Most chunks in flight; zero where the peer cannot acknowledge.
    pub ack_window: usize,
}

/// The mathematical value of [`NegotiatedCaps`].
pub struct CapsView {
    pub protocol_version: nat,
    pub chunked: bool,
    pub chunk_size: nat,
    pub stream: bool,
    pub encodings: Seq<BodyEncoding>,
    pub compressions: Seq<Compression>,
    pub ack_window: nat,
}

impl NegotiatedCaps {
    pub open spec fn view(&self) -> CapsView {
        CapsView {
            protocol_version: self.protocol_version as nat,
            chunked: self.chunked,
            chunk_size: self.chunk_size as nat,
            stream: self.stream,
            encodings: self.encodings@,
            compressions: self.compressions@,
            ack_window: self.ack_window as nat,
        }
    }

    /// A copy of the capabilities.
    pub fn duplicate(&self) -> (r: NegotiatedCaps)
        ensures
            r@ == self@,
    {
        NegotiatedCaps {
            protocol_version: self.protocol_version,
            chunked: self.chunked,
            chunk_size: self.chunk_size,
            stream: self.stream,
            encodings: vstd::slice::slice_to_vec(self.encodings.as_slice()),
            compressions: vstd::slice::slice_to_vec(self.compressions.as_slice()),
            ack_window: self.ack_window,
        }
    }
}

pub open spec fn caps_view(c: Option<NegotiatedCaps>) -> Option<CapsView> {
    match c {
        Some(c) => Some(c@),
        None => None,
    }
}

/// What is known of one peer.
pub struct Session {
    /// Whether the peer may send work.
    pub open: bool,
    /// Last time the peer showed any protocol activity.
    pub last_seen: u64,
    /// Absent until the peer advertised its capabilities.
    pub caps: Option<NegotiatedCaps>,
}

impl Timed for Session {
    open spec fn active_at(&self) -> u64 {
        self.last_seen
    }

    fn last_active(&self) -> (r: u64) {
        self.last_seen
    }
}

/// The sessions of all peers.
pub struct HandshakeState {
    pub sessions: PeerTable<Session>,
}

pub open spec fn session_key(addr: &str, pkg: &str) -> PeerKey {
    PeerKey { addr: addr@, pkg: pkg@, id: Seq::empty() }
}

impl HandshakeState {
    pub open spec fn wf(self) -> bool {
        self.sessions.wf()
    }

    /// Whether a peer is open at a time: its session says so and is not idle.
    pub open spec fn open_at(self, k: PeerKey, now: u64) -> bool {
        &&& self.sessions@.dom().contains(k)
        &&& self.sessions@[k].open
        &&& table::elapsed(now, self.sessions@[k].last_seen) <= SESSION_IDLE_TIMEOUT
    }

    /// The capabilities that hold for a peer at a time.
    pub open spec fn caps_at(self, k: PeerKey, now: u64) -> Option<CapsView> {
        if self.open_at(k, now) {
            caps_view(self.sessions@[k].caps)
        } else {
            None
        }
    }

    pub fn new() -> (r: HandshakeState)
        ensures
            r.wf(),
            r.sessions@ == Map::<PeerKey, Session>::empty(),
    {
        HandshakeState { sessions: PeerTable::new() }
    }
}

fn empty_id() -> (r: String)
    ensures
        r@ == Seq::<char>::empty(),
{
    String::new()
}

/// The session of a peer after activity: the idle sessions are gone first, so a
/// peer that was silent too long starts anew.
pub open spec fn touched(
    sessions: Map<PeerKey, Session>,
    k: PeerKey,
    open: Option<bool>,
    caps: Option<NegotiatedCaps>,
    now: u64,
) -> Session {
    let alive = table::still_alive(sessions, now, SESSION_IDLE_TIMEOUT);
    let (was_open, old_caps) = if alive.dom().contains(k) {
        (alive[k].open, alive[k].caps)
    } else {
        (false, None)
    };
    Session {
        open: match open {
            Some(o) => o,
            None => was_open,
        },
        last_seen: now,
        caps: match caps {
            Some(c) => Some(c),
            None => old_caps,
        },
    }
}

/// Notes activity of a peer, making its session where there is none.
pub fn touch(
    state: &mut HandshakeState,
    addr: &str,
    pkg: &str,
    open: Option<bool>,
    caps: Option<NegotiatedCaps>,
    now: u64,
) -> (r: bool)
    requires
        old(state).wf(),
    ensures
        final(state).wf(),
        ({
            let k = session_key(addr, pkg);
            let s = touched(old(state).sessions@, k, open, caps, now);
            &&& r == s.open
            &&& final(state).sessions@ == table::still_alive(
                old(state).sessions@,
                now,
                SESSION_IDLE_TIMEOUT,
            ).insert(k, s)
        }),
{
    state.sessions.prune(now, SESSION_IDLE_TIMEOUT);
    let ghost alive = state.sessions@;
    let id = empty_id();
    let mut session = match state.sessions.take(addr, pkg, id.as_str()) {
        Some(s) => s,
        None => Session { open: false, last_seen: now, caps: None },
    };
    session.last_seen = now;
    if let Some(o) = open {
        session.open = o;
    }
    if let Some(c) = caps {
        session.caps = Some(c);
    }
    let r = session.open;
    state.sessions.insert(addr, pkg, id.as_str(), session);
    proof {
        assert(state.sessions@ =~= alive.insert(session_key(addr, pkg), session));
    }
    r
}

pub fn is_open(state: &HandshakeState, addr: &str, pkg: &str, now: u64) -> (r: bool)
    requires
        state.wf(),
    ensures
        r == state.open_at(session_key(addr, pkg), now),
{
    let id = empty_id();
    match state.sessions.find(addr, pkg, id.as_str()) {
        Some(i) => {
            let s = &state.sessions.entries[i].value;
            s.open && (now < s.last_seen || now - s.last_seen <= SESSION_IDLE_TIMEOUT)
        },
        None => false,
    }
}

/// Notes peer activity outside the handshake. A peer that is known stays alive
/// and open; an unknown one stays unknown.
pub fn record_activity(state: &mut HandshakeState, addr: &str, pkg: &str, now: u64)
    requires
        old(state).wf(),
    ensures
        final(state).wf(),
        ({
            let k = session_key(addr, pkg);
            let alive = table::still_alive(old(state).sessions@, now, SESSION_IDLE_TIMEOUT);
            final(state).sessions@ == if alive.dom().contains(k) {
                alive.insert(k, Session { open: true, last_seen: now, caps: alive[k].caps })
            } else {
                alive
            }
        }),
{
    state.sessions.prune(now, SESSION_IDLE_TIMEOUT);
    let ghost alive = state.sessions@;
    let id = empty_id();
    match state.sessions.take(addr, pkg, id.as_str()) {
        Some(s) => {
            let session = Session { open: true, last_seen: now, caps: s.caps };
            state.sessions.insert(addr, pkg, id.as_str(), session);
            proof {
                assert(state.sessions@ =~= alive.insert(session_key(addr, pkg), session));
            }
        },
        None => {
            assert(state.sessions@ =~= alive);
        },
    }
}

/// The negotiated capabilities of a peer: none where there is no session, it is
/// closed or idle, or the peer never advertised any.
pub fn negotiated_caps(state: &HandshakeState, addr: &str, pkg: &str, now: u64) -> (r: Option<
    NegotiatedCaps,
>)
    requires
        state.wf(),
    ensures
        caps_view(r) == state.caps_at(session_key(addr, pkg), now),
{
    if !is_open(state, addr, pkg, now) {
        return None;
    }
    let id = empty_id();
    match state.sessions.find(addr, pkg, id.as_str()) {
        Some(i) => match &state.sessions.entries[i].value.caps {
            Some(c) => Some(c.duplicate()),
            None => None,
        },
        None => None,
    }
}

/// The negotiated chunk size, where responses are chunked.
pub fn negotiated_chunk_size(state: &HandshakeState, addr: &str, pkg: &str, now: u64) -> (r: Option<
    usize,
>)
    requires
        state.wf(),
    ensures
        match state.caps_at(session_key(addr, pkg), now) {
            Some(c) => if c.chunked && c.chunk_size > 0 {
                r matches Some(n) && n == c.chunk_size
            } else {
                r is None
            },
            None => r is None,
        },
{
    match negotiated_caps(state, addr, pkg, now) {
        Some(caps) => if caps.chunked && caps.chunk_size > 0 {
            Some(caps.chunk_size)
        } else {
            None
        },
        None => None,
    }
}

// ---------------------------------------------------------------- parsing

/// The encodings that a list names, in order; what is no known name is skipped.
pub open spec fn named_encodings(items: Seq<JsonView>) -> Seq<BodyEncoding>
    decreases items.len(),
{
    if items.len() == 0 {
        Seq::empty()
    } else {
        let rest = named_encodings(items.drop_last());
        match items.last().as_str() {
            Some(s) => match BodyEncoding::parsed(s) {
                Some(e) => rest.push(e),
                None => rest,
            },
            None => rest,
        }
    }
}

/// The compressions that a list names, in order.
pub open spec fn named_compressions(items: Seq<JsonView>) -> Seq<Compression>
    decreases items.len(),
{
    if items.len() == 0 {
        Seq::empty()
    } else {
        let rest = named_compressions(items.drop_last());
        match items.last().as_str() {
            Some(s) => match Compression::parsed(s) {
                Some(c) => rest.push(c),
                None => rest,
            },
            None => rest,
        }
    }
}

/// The items of the array under a key, none where there is no array.
pub open spec fn list_at(v: JsonView, key: Seq<char>) -> Seq<JsonView> {
    match v.get(key) {
        Some(JsonView::Array(items)) => items,
        _ => Seq::empty(),
    }
}

fn parse_encodings(v: Option<&Json>) -> (r: Vec<BodyEncoding>)
    ensures
        r@ == named_encodings(
            match v {
                Some(j) => match j@ {
                    JsonView::Array(items) => items,
                    _ => Seq::empty(),
                },
                None => Seq::empty(),
            },
        ),
{
    let mut out: Vec<BodyEncoding> = Vec::new();
    let arr = match v {
        Some(j) => match j.as_array() {
            Some(a) => a,
            None => return out,
        },
        None => return out,
    };
    let ghost items = json::items_view(arr@);
    proof {
        json::lemma_items_view_index(arr@);
    }
    let mut i: usize = 0;
    while i < arr.len()
        invariant
            i <= arr@.len(),
            items.len() == arr@.len(),
            forall|j: int| 0 <= j < arr@.len() ==> items[j] == #[trigger] arr@[j].view(),
            out@ == named_encodings(items.take(i as int)),
        decreases arr.len() - i,
    {
        assert(items.take(i + 1).drop_last() =~= items.take(i as int));
        if let Some(s) = arr[i].as_str() {
            if let Some(e) = BodyEncoding::parse(s) {
                out.push(e);
            }
        }
        i = i + 1;
    }
    assert(items.take(i as int) =~= items);
    out
}

fn parse_compressions(v: Option<&Json>) -> (r: Vec<Compression>)
    ensures
        r@ == named_compressions(
            match v {
                Some(j) => match j@ {
                    JsonView::Array(items) => items,
                    _ => Seq::empty(),
                },
                None => Seq::empty(),
            },
        ),
{
    let mut out: Vec<Compression> = Vec::new();
    let arr = match v {
        Some(j) => match j.as_array() {
            Some(a) => a,
            None => return out,
        },
        None => return out,
    };
    let ghost items = json::items_view(arr@);
    proof {
        json::lemma_items_view_index(arr@);
    }
    let mut i: usize = 0;
    while i < arr.len()
        invariant
            i <= arr@.len(),
            items.len() == arr@.len(),
            forall|j: int| 0 <= j < arr@.len() ==> items[j] == #[trigger] arr@[j].view(),
            out@ == named_compressions(items.take(i as int)),
        decreases arr.len() - i,
    {
        assert(items.take(i + 1).drop_last() =~= items.take(i as int));
        if let Some(s) = arr[i].as_str() {
            if let Some(c) = Compression::parse(s) {
                out.push(c);
            }
        }
        i = i + 1;
    }
    assert(items.take(i as int) =~= items);
    out
}

/// Whether `caps` is what the `caps` object `v` advertises.
pub open spec fn advertises(v: JsonView, caps: PeerCaps) -> bool {
    &&& caps.protocol_version == match v.u64_at("version"@) {
        Some(n) => (n as u64) as u32,
        None => 1u32,
    }
    &&& caps.chunked == (v.bool_at("chunk"@) == Some(true))
    &&& caps.max_chunk_size == match v.u64_at("maxChunkSize"@) {
        Some(n) => if n <= usize::MAX {
            n as usize
        } else {
            usize::MAX
        },
        None => 0usize,
    }
    &&& caps.encodings@ == named_encodings(list_at(v, "encodings"@))
    &&& caps.compressions@ == named_compressions(list_at(v, "compressions"@))
    &&& caps.stream == (v.bool_at("stream"@) == Some(true))
    &&& caps.ack == (v.bool_at("ack"@) == Some(true))
    &&& caps.ack_window == match v.u64_at("ackWindow"@) {
        Some(n) => (n as u64) as usize,
        None => 0usize,
    }
}

/// Reads the `caps` of a handshake packet; anything but an object is no caps.
pub fn parse_caps(v: Option<&Json>) -> (r: Option<PeerCaps>)
    ensures
        match r {
            Some(caps) => v matches Some(j) && j@ is Object && advertises(j@, caps),
            None => v is None || !(v->0@ is Object),
        },
{
    let obj = match v {
        Some(j) => j,
        None => return None,
    };
    match obj {
        Json::Object(_) => {},
        _ => return None,
    }
    let protocol_version: u32 = match obj.u64_at("version") {
        Some(n) => n as u32,
        None => 1,
    };
    let chunked = match obj.bool_at("chunk") {
        Some(b) => b,
        None => false,
    };
    let max_chunk_size: usize = match obj.u64_at("maxChunkSize") {
        Some(n) => if n <= usize::MAX as u64 {
            n as usize
        } else {
            usize::MAX
        },
        None => 0,
    };
    let encodings = parse_encodings(obj.get("encodings"));
    let compressions = parse_compressions(obj.get("compressions"));
    let stream = match obj.bool_at("stream") {
        Some(b) => b,
        None => false,
    };
    let ack = match obj.bool_at("ack") {
        Some(b) => b,
        None => false,
    };
    let ack_window: usize = match obj.u64_at("ackWindow") {
        Some(n) => n as usize,
        None => 0,
    };
    Some(
        PeerCaps {
            protocol_version,
            chunked,
            max_chunk_size,
            encodings,
            compressions,
            stream,
            ack,
            ack_window,
        },
    )
}

// ---------------------------------------------------------------- negotiation

/// `n` brought between two bounds.
pub open spec fn clamped(n: int, low: int, high: int) -> int {
    if n < low {
        low
    } else if n > high {
        high
    } else {
        n
    }
}

/// What is agreed on with a peer of given capabilities.
pub open spec fn negotiated(peer: PeerCaps) -> CapsView {
    let version = if peer.protocol_version <= LOCAL_PROTOCOL_VERSION {
        peer.protocol_version
    } else {
        LOCAL_PROTOCOL_VERSION
    };
    let chunked = peer.chunked && version >= 2;
    let chunk_size = if !chunked {
        0
    } else if peer.max_chunk_size == 0 {
        DEFAULT_CHUNK_SIZE as int
    } else {
        clamped(peer.max_chunk_size as int, MIN_CHUNK_SIZE as int, MAX_CHUNK_SIZE as int)
    };
    let ack_window = if version < 3 || !chunked || !peer.ack {
        0
    } else if peer.ack_window == 0 {
        DEFAULT_ACK_WINDOW as int
    } else {
        clamped(peer.ack_window as int, MIN_ACK_WINDOW as int, MAX_ACK_WINDOW as int)
    };
    CapsView {
        protocol_version: version as nat,
        chunked,
        chunk_size: chunk_size as nat,
        stream: version >= 4 && peer.stream && chunked && ack_window > 0,
        encodings: peer.encodings@.filter(
            |e: BodyEncoding| codec::supported_encodings_spec().contains(e),
        ),
        compressions: peer.compressions@.filter(
            |c: Compression| codec::supported_compressions_spec().contains(c),
        ),
        ack_window: ack_window as nat,
    }
}

fn clamp(n: usize, low: usize, high: usize) -> (r: usize)
    requires
        low <= high,
    ensures
        r == clamped(n as int, low as int, high as int),
{
    if n < low {
        low
    } else if n > high {
        high
    } else {
        n
    }
}

fn keep_supported_encodings(v: Vec<BodyEncoding>) -> (r: Vec<BodyEncoding>)
    ensures
        r@ == v@.filter(|e: BodyEncoding| codec::supported_encodings_spec().contains(e)),
{
    let supported = codec::supported_encodings();
    let ghost keep = |e: BodyEncoding| codec::supported_encodings_spec().contains(e);
    let mut out: Vec<BodyEncoding> = Vec::new();
    let mut i: usize = 0;
    while i < v.len()
        invariant
            i <= v@.len(),
            supported@ == codec::supported_encodings_spec(),
            keep == (|e: BodyEncoding| codec::supported_encodings_spec().contains(e)),
            out@ == v@.take(i as int).filter(keep),
        decreases v.len() - i,
    {
        proof {
            reveal(Seq::filter);
            assert(v@.take(i + 1).drop_last() =~= v@.take(i as int));
        }
        let e = v[i];
        if e == supported[0] || e == supported[1] || e == supported[2] {
            assert(supported@.contains(e));
            out.push(e);
        } else {
            assert(!supported@.contains(e));
        }
        i = i + 1;
    }
    assert(v@.take(i as int) =~= v@);
    out
}

fn keep_supported_compressions(v: Vec<Compression>) -> (r: Vec<Compression>)
    ensures
        r@ == v@.filter(|c: Compression| codec::supported_compressions_spec().contains(c)),
{
    let supported = codec::supported_compressions();
    let ghost keep = |c: Compression| codec::supported_compressions_spec().contains(c);
    let mut out: Vec<Compression> = Vec::new();
    let mut i: usize = 0;
    while i < v.len()
        invariant
            i <= v@.len(),
            supported@ == codec::supported_compressions_spec(),
            keep == (|c: Compression| codec::supported_compressions_spec().contains(c)),
            out@ == v@.take(i as int).filter(keep),
        decreases v.len() - i,
    {
        proof {
            reveal(Seq::filter);
            assert(v@.take(i + 1).drop_last() =~= v@.take(i as int));
        }
        let c = v[i];
        if c == supported[0] || c == supported[1] || c == supported[2] {
            assert(supported@.contains(c));
            out.push(c);
        } else {
            assert(!supported@.contains(c));
        }
        i = i + 1;
    }
    assert(v@.take(i as int) =~= v@);
    out
}

/// Merges a peer's capabilities with the local ones. Every list keeps the peer's
/// preference order. ACK pacing needs chunking; streaming needs both.
pub fn negotiate(peer: PeerCaps) -> (r: NegotiatedCaps)
    ensures
        r@ == negotiated(peer),
{
    let version: u32 = if peer.protocol_version <= LOCAL_PROTOCOL_VERSION {
        peer.protocol_version
    } else {
        LOCAL_PROTOCOL_VERSION
    };
    let chunked = peer.chunked && version >= 2;
    let chunk_size: usize = if chunked {
        let requested: usize = if peer.max_chunk_size == 0 {
            DEFAULT_CHUNK_SIZE
        } else {
            peer.max_chunk_size
        };
        clamp(requested, MIN_CHUNK_SIZE, MAX_CHUNK_SIZE)
    } else {
        0
    };
    let ack_window: usize = if version >= 3 && chunked && peer.ack {
        let requested: usize = if peer.ack_window == 0 {
            DEFAULT_ACK_WINDOW
        } else {
            peer.ack_window
        };
        clamp(requested, MIN_ACK_WINDOW, MAX_ACK_WINDOW)
    } else {
        0
    };
    let stream = version >= 4 && peer.stream && chunked && ack_window > 0;
    let encodings = keep_supported_encodings(peer.encodings);
    let compressions = keep_supported_compressions(peer.compressions);
    NegotiatedCaps {
        protocol_version: version,
        chunked,
        chunk_size,
        stream,
        encodings,
        compressions,
        ack_window,
    }
}

/// The capabilities that this side advertises.
pub open spec fn local_caps() -> JsonView {
    JsonView::Object(
        Map::<Seq<char>, JsonView>::empty().insert(
            "version"@,
            JsonView::UInt(LOCAL_PROTOCOL_VERSION as nat),
        ).insert("chunk"@, JsonView::Bool(true)).insert(
            "maxChunkSize"@,
            JsonView::UInt(MAX_CHUNK_SIZE as nat),
        ).insert(
            "encodings"@,
            JsonView::Array(
                seq![
                    JsonView::Str("base64"@),
                    JsonView::Str("hex"@),
                    JsonView::Str("text"@),
                ],
            ),
        ).insert(
            "compressions"@,
            JsonView::Array(
                seq![
                    JsonView::Str("none"@),
                    JsonView::Str("deflate"@),
                    JsonView::Str("lz4"@),
                ],
            ),
        ).insert("stream"@, JsonView::Bool(true)).insert("ack"@, JsonView::Bool(true)).insert(
            "ackWindow"@,
            JsonView::UInt(DEFAULT_ACK_WINDOW as nat),
        ),
    )
}

fn three_strings(a: &str, b: &str, c: &str) -> (r: Json)
    ensures
        r@ == JsonView::Array(seq![JsonView::Str(a@), JsonView::Str(b@), JsonView::Str(c@)]),
{
    let v = vec![Json::string(a), Json::string(b), Json::string(c)];
    proof {
        json::lemma_items_view_index(v@);
        assert(json::items_view(v@) =~= seq![
            JsonView::Str(a@),
            JsonView::Str(b@),
            JsonView::Str(c@),
        ]);
    }
    Json::Array(v)
}

pub fn local_caps_value() -> (r: Json)
    ensures
        r@ == local_caps(),
{
    let mut obj = JsonObject::new();
    obj.put("version", Json::UInt(LOCAL_PROTOCOL_VERSION as u64));
    obj.put("chunk", Json::Bool(true));
    obj.put("maxChunkSize", Json::UInt(MAX_CHUNK_SIZE as u64));
    obj.put("encodings", three_strings("base64", "hex", "text"));
    obj.put("compressions", three_strings("none", "deflate", "lz4"));
    obj.put("stream", Json::Bool(true));
    obj.put("ack", Json::Bool(true));
    obj.put("ackWindow", Json::UInt(DEFAULT_ACK_WINDOW as u64));
    Json::Object(obj)
}

// ---------------------------------------------------------------- packets

/// A handshake message.
pub open spec fn handshake_message(count: int) -> JsonView {
    JsonView::Object(
        Map::<Seq<char>, JsonView>::empty().insert("count"@, json::int_view(count)).insert(
            "caps"@,
            local_caps(),
        ),
    )
}

fn handshake_frame(count: i64) -> (r: Json)
    ensures
        r@ == handshake_message(count as int),
{
    let mut obj = JsonObject::new();
    obj.put("count", Json::integer(count));
    obj.put("caps", local_caps_value());
    Json::Object(obj)
}

/// The counter of a handshake packet.
pub open spec fn packet_count(packet: JsonView) -> int {
    match packet.i64_at("count"@) {
        Some(n) => n,
        None => 0,
    }
}

/// The session after a packet, given what its `caps` were negotiated to.
pub open spec fn session_after_packet(
    sessions: Map<PeerKey, Session>,
    k: PeerKey,
    packet: JsonView,
    now: u64,
    s: Session,
) -> bool {
    let bare = touched(
        sessions,
        k,
        if packet_count(packet) > 0 {
            Some(true)
        } else {
            None
        },
        None,
        now,
    );
    &&& s.open == bare.open
    &&& s.last_seen == now
    &&& match packet.get("caps"@) {
        Some(v) => if v is Object {
            exists|peer: PeerCaps| #[trigger]
                advertises(v, peer) && caps_view(s.caps) == Some(negotiated(peer))
        } else {
            s.caps == bare.caps
        },
        None => s.caps == bare.caps,
    }
}

/// The counter with which a packet is answered, where it is.
pub open spec fn reply_to(count: int) -> Option<int> {
    if count < 2 {
        Some(count + 1)
    } else {
        None
    }
}

/// Handles a handshake packet. A counter above zero opens the session; a counter
/// below two is answered with the next one, so that both sides converge. A peer
/// that sends `caps` has them negotiated; one that omits them keeps what it had.
pub fn handle_packet(
    state: &mut HandshakeState,
    addr: &str,
    pkg: &str,
    packet: &Json,
    now: u64,
) -> (reply: Option<Json>)
    requires
        old(state).wf(),
    ensures
        final(state).wf(),
        ({
            let k = session_key(addr, pkg);
            &&& final(state).sessions@.dom().contains(k)
            &&& session_after_packet(
                old(state).sessions@,
                k,
                packet@,
                now,
                final(state).sessions@[k],
            )
            &&& final(state).sessions@ == table::still_alive(
                old(state).sessions@,
                now,
                SESSION_IDLE_TIMEOUT,
            ).insert(k, final(state).sessions@[k])
        }),
        match reply {
            Some(m) => packet_count(packet@) < 2 && m@ == handshake_message(
                packet_count(packet@) + 1,
            ),
            None => packet_count(packet@) >= 2,
        },
        match reply_to(packet_count(packet@)) {
            Some(n) => reply matches Some(m) && m@ == handshake_message(n),
            None => reply is None,
        },
{
    let count_in: i64 = match packet.i64_at("count") {
        Some(n) => n,
        None => 0,
    };
    let negotiated_now = match parse_caps(packet.get("caps")) {
        Some(peer) => {
            let n = negotiate(peer);
            assert(advertises(packet@.get("caps"@)->0, peer) && caps_view(Some(n)) == Some(
                negotiated(peer),
            ));
            Some(n)
        },
        None => None,
    };
    let opened = if count_in > 0 {
        Some(true)
    } else {
        None
    };
    let _ = touch(state, addr, pkg, opened, negotiated_now, now);
    if count_in < 2 {
        Some(handshake_frame(count_in + 1))
    } else {
        None
    }
}

/// Makes sure a session is open before a request flows. A peer that is not open
/// is sent the first handshake packet and taken for open, without capabilities
/// until it answers.
pub fn ensure_open(state: &mut HandshakeState, addr: &str, pkg: &str, now: u64) -> (hello: Option<Json>)
    requires
        old(state).wf(),
    ensures
        final(state).wf(),
        final(state).open_at(session_key(addr, pkg), now),
        match hello {
            Some(m) => !old(state).open_at(session_key(addr, pkg), now) && m@ == handshake_message(0)
                && final(state).sessions@ == table::still_alive(
                old(state).sessions@,
                now,
                SESSION_IDLE_TIMEOUT,
            ).insert(
                session_key(addr, pkg),
                touched(old(state).sessions@, session_key(addr, pkg), Some(true), None, now),
            ),
            None => old(state).open_at(session_key(addr, pkg), now) && final(state).sessions@
                == table::still_alive(old(state).sessions@, now, SESSION_IDLE_TIMEOUT).insert(
                session_key(addr, pkg),
                Session {
                    open: true,
                    last_seen: now,
                    caps: old(state).sessions@[session_key(addr, pkg)].caps,
                },
            ),
        },
{
    if is_open(state, addr, pkg, now) {
        record_activity(state, addr, pkg, now);
        return None;
    }
    let hello = handshake_frame(0);
    let _ = touch(state, addr, pkg, Some(true), None, now);
    Some(hello)
}

// ---------------------------------------------------------------- laws

/// Whatever a peer advertises, the agreed sizes stay within their bounds, and
/// each protocol feature needs the version that introduced it.
pub proof fn negotiation_is_bounded(peer: PeerCaps)
    ensures
        ({
            let c = negotiated(peer);
            &&& c.protocol_version <= LOCAL_PROTOCOL_VERSION
            &&& c.protocol_version <= peer.protocol_version
            &&& c.chunked ==> c.protocol_version >= 2 && MIN_CHUNK_SIZE <= c.chunk_size
                <= MAX_CHUNK_SIZE
            &&& !c.chunked ==> c.chunk_size == 0
            &&& c.ack_window > 0 ==> c.protocol_version >= 3 && c.chunked && c.ack_window
                <= MAX_ACK_WINDOW
            &&& c.stream ==> c.protocol_version >= 4 && c.chunked && c.ack_window > 0
        }),
{
}

/// Every encoding and compression is supported, so a peer's lists survive
/// negotiation as they are.
pub proof fn negotiation_keeps_preferences(peer: PeerCaps)
    ensures
        negotiated(peer).encodings == peer.encodings@,
        negotiated(peer).compressions == peer.compressions@,
{
    let p = |e: BodyEncoding| codec::supported_encodings_spec().contains(e);
    let q = |c: Compression| codec::supported_compressions_spec().contains(c);
    assert forall|e: BodyEncoding| #[trigger] p(e) by {
        let s = codec::supported_encodings_spec();
        assert(s[0] == BodyEncoding::Base64 && s[1] == BodyEncoding::Hex && s[2]
            == BodyEncoding::Text);
    }
    assert forall|c: Compression| #[trigger] q(c) by {
        let s = codec::supported_compressions_spec();
        assert(s[0] == Compression::Plain && s[1] == Compression::Deflate && s[2]
            == Compression::Lz4);
    }
    lemma_filter_all(peer.encodings@, p);
    lemma_filter_all(peer.compressions@, q);
}

proof fn lemma_filter_all<A>(s: Seq<A>, p: spec_fn(A) -> bool)
    requires
        forall|a: A| #[trigger] p(a),
    ensures
        s.filter(p) == s,
    decreases s.len(),
{
    reveal(Seq::filter);
    if s.len() > 0 {
        lemma_filter_all(s.drop_last(), p);
        assert(s.drop_last().push(s.last()) =~= s);
    }
}

/// A session that stays idle past the timeout gives no capabilities and counts
/// as closed.
pub proof fn idle_session_expires(state: HandshakeState, k: PeerKey, now: u64)
    requires
        state.sessions@.dom().contains(k),
        table::elapsed(now, state.sessions@[k].last_seen) > SESSION_IDLE_TIMEOUT,
    ensures
        !state.open_at(k, now),
        state.caps_at(k, now) is None,
{
}

/// Reading the counter of a handshake message gives the counter back, so that a
/// side which answers counts one up each time; the exchange that starts at zero
/// ends with the third message.
pub proof fn handshake_converges(count: int)
    requires
        i64::MIN <= count <= i64::MAX,
    ensures
        packet_count(handshake_message(count)) == count,
{
    reveal_strlit("count");
    reveal_strlit("caps");
    assert("count"@.len() == 5 && "caps"@.len() == 4);
}

proof fn lemma_caps_keys()
    ensures
        "version"@ != "chunk"@,
        "version"@ != "maxChunkSize"@,
        "version"@ != "encodings"@,
        "version"@ != "compressions"@,
        "version"@ != "stream"@,
        "version"@ != "ack"@,
        "version"@ != "ackWindow"@,
        "chunk"@ != "maxChunkSize"@,
        "chunk"@ != "encodings"@,
        "chunk"@ != "compressions"@,
        "chunk"@ != "stream"@,
        "chunk"@ != "ack"@,
        "chunk"@ != "ackWindow"@,
        "maxChunkSize"@ != "encodings"@,
        "maxChunkSize"@ != "compressions"@,
        "maxChunkSize"@ != "stream"@,
        "maxChunkSize"@ != "ack"@,
        "maxChunkSize"@ != "ackWindow"@,
        "encodings"@ != "compressions"@,
        "encodings"@ != "stream"@,
        "encodings"@ != "ack"@,
        "encodings"@ != "ackWindow"@,
        "compressions"@ != "stream"@,
        "compressions"@ != "ack"@,
        "compressions"@ != "ackWindow"@,
        "stream"@ != "ack"@,
        "stream"@ != "ackWindow"@,
        "ack"@ != "ackWindow"@,
{
    reveal_strlit("version");
    reveal_strlit("chunk");
    reveal_strlit("maxChunkSize");
    reveal_strlit("encodings");
    reveal_strlit("compressions");
    reveal_strlit("stream");
    reveal_strlit("ack");
    reveal_strlit("ackWindow");
    assert("version"@.len() != "chunk"@.len());
    assert("version"@.len() != "maxChunkSize"@.len());
    assert("version"@.len() != "encodings"@.len());
    assert("version"@.len() != "compressions"@.len());
    assert("version"@.len() != "stream"@.len());
    assert("version"@.len() != "ack"@.len());
    assert("version"@.len() != "ackWindow"@.len());
    assert("chunk"@.len() != "maxChunkSize"@.len());
    assert("chunk"@.len() != "encodings"@.len());
    assert("chunk"@.len() != "compressions"@.len());
    assert("chunk"@.len() != "stream"@.len());
    assert("chunk"@.len() != "ack"@.len());
    assert("chunk"@.len() != "ackWindow"@.len());
    assert("maxChunkSize"@.len() != "encodings"@.len());
    assert("maxChunkSize"@[0] != "compressions"@[0]);
    assert("maxChunkSize"@.len() != "stream"@.len());
    assert("maxChunkSize"@.len() != "ack"@.len());
    assert("maxChunkSize"@.len() != "ackWindow"@.len());
    assert("encodings"@.len() != "compressions"@.len());
    assert("encodings"@.len() != "stream"@.len());
    assert("encodings"@.len() != "ack"@.len());
    assert("encodings"@[0] != "ackWindow"@[0]);
    assert("compressions"@.len() != "stream"@.len());
    assert("compressions"@.len() != "ack"@.len());
    assert("compressions"@.len() != "ackWindow"@.len());
    assert("stream"@.len() != "ack"@.len());
    assert("stream"@.len() != "ackWindow"@.len());
    assert("ack"@.len() != "ackWindow"@.len());
}

/// What both sides can do is what is agreed on: chunks from the second version on
/// where the peer takes them, acknowledgements from the third on where it gives
/// them, streams from the fourth on where it takes all three.
pub proof fn common_features_are_agreed(peer: PeerCaps)
    ensures
        ({
            let c = negotiated(peer);
            &&& peer.protocol_version <= 4 ==> c.protocol_version == peer.protocol_version
            &&& peer.protocol_version > 4 ==> c.protocol_version == 4
            &&& c.chunked <==> peer.chunked && peer.protocol_version >= 2
            &&& c.ack_window > 0 <==> peer.chunked && peer.ack && peer.protocol_version >= 3
            &&& c.stream <==> peer.chunked && peer.ack && peer.stream && peer.protocol_version >= 4
            &&& c.chunked && 256 <= peer.max_chunk_size <= 65536 ==> c.chunk_size
                == peer.max_chunk_size
            &&& c.chunked && peer.max_chunk_size == 0 ==> c.chunk_size == 4096
            &&& c.chunked && 0 < peer.max_chunk_size < 256 ==> c.chunk_size == 256
            &&& c.chunked && peer.max_chunk_size > 65536 ==> c.chunk_size == 65536
            &&& c.ack_window > 0 && 1 <= peer.ack_window <= 64 ==> c.ack_window == peer.ack_window
            &&& c.ack_window > 0 && peer.ack_window == 0 ==> c.ack_window == 4
            &&& c.ack_window > 0 && peer.ack_window > 64 ==> c.ack_window == 64
        }),
{
}

/// A held number lies within its bounds, and no number within them is nearer to
/// what was asked for.
pub proof fn clamping_stays_near(n: int, low: int, high: int, m: int)
    requires
        low <= m <= high,
    ensures
        low <= clamped(n, low, high) <= high,
        n <= m ==> n <= clamped(n, low, high) <= m || clamped(n, low, high) == n,
        n >= m ==> m <= clamped(n, low, high) <= n || clamped(n, low, high) == n,
{
}

/// A peer's list is read in its order, name by name, with unknown names left out.
pub proof fn lists_are_read_in_order(items: Seq<JsonView>, more: Seq<JsonView>, name: Seq<char>)
    ensures
        named_encodings(items + more) == named_encodings(items) + named_encodings(more),
        named_compressions(items + more) == named_compressions(items) + named_compressions(more),
        named_encodings(seq![JsonView::Str(name)]) == match BodyEncoding::parsed(name) {
            Some(e) => seq![e],
            None => Seq::empty(),
        },
        named_compressions(seq![JsonView::Str(name)]) == match Compression::parsed(name) {
            Some(c) => seq![c],
            None => Seq::empty(),
        },
    decreases more.len(),
{
    let one = seq![JsonView::Str(name)];
    assert(one.drop_last() =~= Seq::empty());
    assert(one.last() == JsonView::Str(name));
    assert(named_encodings(Seq::<JsonView>::empty()) =~= Seq::empty());
    assert(named_compressions(Seq::<JsonView>::empty()) =~= Seq::empty());
    assert(named_encodings(one) =~= match BodyEncoding::parsed(name) {
        Some(e) => seq![e],
        None => Seq::empty(),
    });
    assert(named_compressions(one) =~= match Compression::parsed(name) {
        Some(c) => seq![c],
        None => Seq::empty(),
    });
    if more.len() == 0 {
        assert(items + more =~= items);
        assert(more =~= Seq::empty());
        assert(named_encodings(items) + Seq::<BodyEncoding>::empty() =~= named_encodings(items));
        assert(named_compressions(items) + Seq::<Compression>::empty() =~= named_compressions(
            items,
        ));
    } else {
        lists_are_read_in_order(items, more.drop_last(), name);
        assert((items + more).drop_last() =~= items + more.drop_last());
        assert((items + more).last() == more.last());
        assert(named_encodings(items + more) =~= named_encodings(items) + named_encodings(more));
        assert(named_compressions(items + more) =~= named_compressions(items) + named_compressions(
            more,
        ));
    }
}

/// A peer that reads what this side advertises gets as much as this side itself
/// would agree to: everything, in the newest version.
pub proof fn own_offer_is_full(caps: PeerCaps)
    requires
        advertises(local_caps(), caps),
    ensures
        caps.protocol_version == 4,
        caps.chunked && caps.ack && caps.stream,
        caps.encodings@ == seq![BodyEncoding::Base64, BodyEncoding::Hex, BodyEncoding::Text],
        caps.compressions@ == seq![Compression::Plain, Compression::Deflate, Compression::Lz4],
        negotiated(caps).stream,
        negotiated(caps).chunk_size == 65536,
        negotiated(caps).ack_window == 4,
{
    lemma_caps_keys();
    let names = seq![JsonView::Str("base64"@), JsonView::Str("hex"@), JsonView::Str("text"@)];
    let ways = seq![JsonView::Str("none"@), JsonView::Str("deflate"@), JsonView::Str("lz4"@)];
    codec::encoding_name_round_trip(BodyEncoding::Base64);
    codec::encoding_name_round_trip(BodyEncoding::Hex);
    codec::encoding_name_round_trip(BodyEncoding::Text);
    codec::compression_name_round_trip(Compression::Plain);
    codec::compression_name_round_trip(Compression::Deflate);
    codec::compression_name_round_trip(Compression::Lz4);
    let a = names.take(1);
    let b = names.take(2);
    lists_are_read_in_order(a, seq![names[1]], "hex"@);
    lists_are_read_in_order(b, seq![names[2]], "text"@);
    lists_are_read_in_order(a, b, "base64"@);
    assert(a =~= seq![JsonView::Str("base64"@)]);
    assert(a + seq![names[1]] =~= b);
    assert(b + seq![names[2]] =~= names);
    assert(named_encodings(names) =~= seq![
        BodyEncoding::Base64,
        BodyEncoding::Hex,
        BodyEncoding::Text,
    ]);
    let x = ways.take(1);
    let y = ways.take(2);
    lists_are_read_in_order(x, seq![ways[1]], "deflate"@);
    lists_are_read_in_order(y, seq![ways[2]], "lz4"@);
    lists_are_read_in_order(x, y, "none"@);
    assert(x =~= seq![JsonView::Str("none"@)]);
    assert(x + seq![ways[1]] =~= y);
    assert(y + seq![ways[2]] =~= ways);
    assert(named_compressions(ways) =~= seq![
        Compression::Plain,
        Compression::Deflate,
        Compression::Lz4,
    ]);
}

/// What an advertisement leaves out counts as absent: the first version, without
/// chunks, streams or acknowledgements.
pub proof fn silence_promises_nothing(v: JsonView, caps: PeerCaps)
    requires
        advertises(v, caps),
    ensures
        v.get("version"@) is None ==> caps.protocol_version == 1,
        v.u64_at("version"@) matches Some(n) ==> n <= u32::MAX ==> caps.protocol_version == n,
        caps.chunked <==> v.bool_at("chunk"@) == Some(true),
        caps.stream <==> v.bool_at("stream"@) == Some(true),
        caps.ack <==> v.bool_at("ack"@) == Some(true),
        v.get("maxChunkSize"@) is None ==> caps.max_chunk_size == 0,
        v.u64_at("maxChunkSize"@) matches Some(n) ==> n <= usize::MAX ==> caps.max_chunk_size == n,
        v.get("ackWindow"@) is None ==> caps.ack_window == 0,
        v.u64_at("ackWindow"@) matches Some(n) ==> n <= usize::MAX ==> caps.ack_window == n,
        v.get("encodings"@) is None ==> caps.encodings@.len() == 0,
        v.get("compressions"@) is None ==> caps.compressions@.len() == 0,
{
}

/// A session that is noted in time keeps what it had, unless it is told otherwise;
/// one that was idle too long begins anew, closed and without capabilities.
pub proof fn noted_sessions_keep_what_they_had(
    sessions: Map<PeerKey, Session>,
    k: PeerKey,
    open: Option<bool>,
    caps: Option<NegotiatedCaps>,
    now: u64,
)
    ensures
        ({
            let s = touched(sessions, k, open, caps, now);
            let fresh = sessions.dom().contains(k) && now <= sessions[k].last_seen + 600_000_000_000;
            &&& s.last_seen == now
            &&& open matches Some(o) ==> s.open == o
            &&& caps matches Some(c) ==> s.caps == Some(c)
            &&& open is None && fresh ==> s.open == sessions[k].open
            &&& open is None && !fresh ==> !s.open
            &&& caps is None && fresh ==> s.caps == sessions[k].caps
            &&& caps is None && !fresh ==> s.caps is None
        }),
{
}

/// A first packet opens nothing by itself, and any later one opens the session; a
/// packet without capabilities leaves those that were agreed on.
pub proof fn packets_open_sessions(
    sessions: Map<PeerKey, Session>,
    k: PeerKey,
    packet: JsonView,
    now: u64,
    s: Session,
)
    requires
        session_after_packet(sessions, k, packet, now, s),
    ensures
        packet_count(packet) > 0 ==> s.open,
        packet_count(packet) <= 0 && !sessions.dom().contains(k) ==> !s.open,
        packet_count(packet) <= 0 && sessions.dom().contains(k) && sessions[k].open && now
            <= sessions[k].last_seen + SESSION_IDLE_TIMEOUT ==> s.open,
        s.last_seen == now,
        packet.get("caps"@) is None && sessions.dom().contains(k) && now <= sessions[k].last_seen
            + SESSION_IDLE_TIMEOUT ==> s.caps == sessions[k].caps,
        packet.get("caps"@) is None && !sessions.dom().contains(k) ==> s.caps is None,
{
}

/// A handshake message carries what this side advertises.
pub proof fn handshakes_advertise(count: int)
    ensures
        handshake_message(count).get("caps"@) == Some(local_caps()),
{
    reveal_strlit("count");
    reveal_strlit("caps");
    assert("count"@.len() == 5 && "caps"@.len() == 4);
}

/// A session is open for as long as the peer was seen within the timeout, up to
/// and with its last moment.
pub proof fn sessions_stay_open_for_a_while(state: HandshakeState, k: PeerKey, now: u64)
    requires
        state.sessions@.dom().contains(k),
        state.sessions@[k].open,
    ensures
        state.open_at(k, now) <==> now <= state.sessions@[k].last_seen + 600_000_000_000,
        state.open_at(k, now) ==> state.caps_at(k, now) == caps_view(state.sessions@[k].caps),
{
}

/// Two sides that answer each other come to an end: an exchange that starts at zero
/// has three messages, and each of them counts one more than the one before.
pub proof fn exchanges_have_three_messages(count: int)
    ensures
        reply_to(0) == Some(1int),
        reply_to(1) == Some(2int),
        reply_to(2) is None,
        reply_to(count) matches Some(n) ==> n == count + 1 && n <= 2,
        count >= 2 ==> reply_to(count) is None,
{
}

} // verus!
