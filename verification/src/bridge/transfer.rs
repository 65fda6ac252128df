//! Windowed, ACK-paced delivery of chunked fetch responses.
//!
//! The sender keeps at most `window` chunks in flight and then hands control
//! back. The peer answers with the next contiguous chunk index it still needs;
//! each answer that advances the window lets the next batch out. A lost chunk is
//! recovered by replaying the window, at most once per stall point.
use vstd::prelude::*;
use vstd::string::*;

use crate::bridge::codec::{self, BodyEncoding};
use crate::bridge::table::{self, PeerKey, PeerTable, Timed};
use crate::json::{self, Json, JsonObject, JsonView};

verus! {

/// A transfer with no ACK activity for this long, in nanoseconds, is presumed
/// dead and dropped.
pub const TRANSFER_TIMEOUT: u64 = 30_000_000_000;

/// One in-flight chunked response.
pub struct PendingTransfer {
    /// Post-compression bytes, sliced into `chunk_size` pieces on demand.
    pub payload: Vec<u8>,
    pub chunk_size: usize,
    pub chunk_count: usize,
    /// Wire encoding of each chunk.
    pub encoding: BodyEncoding,
    /// Most chunks allowed in flight.
    pub window: usize,
    /// First chunk that is not acknowledged.
    pub base: usize,
    /// Next chunk to put on the wire.
    pub next: usize,
    /// Last time the peer acknowledged, or the start.
    pub last_activity: u64,
    /// The `base` for which the window was last replayed.
    pub retx_base: Option<usize>,
}

impl Timed for PendingTransfer {
    open spec fn active_at(&self) -> u64 {
        self.last_activity
    }

    fn last_active(&self) -> (r: u64) {
        self.last_activity
    }
}

/// How many pieces of at most `size` bytes `len` bytes make.
pub open spec fn chunk_count_of(len: nat, size: nat) -> nat {
    if len == 0 {
        0
    } else {
        (len - 1) as nat / size + 1
    }
}

/// The `k`-th piece of the payload.
pub open spec fn chunk(payload: Seq<u8>, size: nat, k: nat) -> Seq<u8> {
    payload.subrange(
        (k * size) as int,
        if (k + 1) * size <= payload.len() {
            ((k + 1) * size) as int
        } else {
            payload.len() as int
        },
    )
}

proof fn lemma_chunk_bounds(len: nat, size: nat, k: nat)
    requires
        size > 0,
        k < chunk_count_of(len, size),
    ensures
        k * size < len,
        k * size <= (k + 1) * size,
        k + 1 == chunk_count_of(len, size) ==> (k + 1) * size >= len,
        k + 1 < chunk_count_of(len, size) ==> (k + 1) * size < len,
{
    let q = (len - 1) as nat / size;
    assert(k * size <= q * size && q * size <= len - 1) by (nonlinear_arith)
        requires
            k <= q,
            q == (len - 1) as nat / size,
            size > 0,
            len > 0,
    ;
    assert((q + 1) * size > len - 1) by (nonlinear_arith)
        requires
            q == (len - 1) as nat / size,
            size > 0,
            len > 0,
    ;
    assert(k * size <= (k + 1) * size) by (nonlinear_arith);
    if k + 1 <= q {
        assert((k + 1) * size <= q * size) by (nonlinear_arith)
            requires
                k + 1 <= q,
        ;
    }
}

/// The pieces before the `n`-th, in order.
pub open spec fn chunks_up_to(payload: Seq<u8>, size: nat, n: nat) -> Seq<u8>
    decreases n,
{
    if n == 0 {
        Seq::empty()
    } else {
        chunks_up_to(payload, size, (n - 1) as nat) + chunk(payload, size, (n - 1) as nat)
    }
}

proof fn lemma_chunks_prefix(payload: Seq<u8>, size: nat, n: nat)
    requires
        size > 0,
        n <= chunk_count_of(payload.len(), size),
    ensures
        n < chunk_count_of(payload.len(), size) ==> chunks_up_to(payload, size, n)
            == payload.take((n * size) as int),
        n == chunk_count_of(payload.len(), size) ==> chunks_up_to(payload, size, n) == payload,
    decreases n,
{
    if n == 0 {
        assert(0 * size == 0) by (nonlinear_arith);
        assert(chunks_up_to(payload, size, n) =~= payload.take((0 * size) as int));
        if payload.len() == 0 {
            assert(chunks_up_to(payload, size, n) =~= payload);
        }
    } else {
        let k = (n - 1) as nat;
        lemma_chunks_prefix(payload, size, k);
        lemma_chunk_bounds(payload.len(), size, k);
        if n < chunk_count_of(payload.len(), size) {
            assert(chunks_up_to(payload, size, n) =~= payload.take((n * size) as int));
        } else {
            assert(chunks_up_to(payload, size, n) =~= payload);
        }
    }
}

/// The pieces of a payload, put together in order, are the payload.
pub proof fn chunks_restore_payload(payload: Seq<u8>, size: nat)
    requires
        size > 0,
    ensures
        chunks_up_to(payload, size, chunk_count_of(payload.len(), size)) == payload,
{
    lemma_chunks_prefix(payload, size, chunk_count_of(payload.len(), size));
}

/// Every piece but the last has exactly `size` bytes, and none is empty or
/// longer.
pub proof fn chunk_sizes(payload: Seq<u8>, size: nat, k: nat)
    requires
        size > 0,
        k < chunk_count_of(payload.len(), size),
    ensures
        1 <= chunk(payload, size, k).len() <= size,
        k + 1 < chunk_count_of(payload.len(), size) ==> chunk(payload, size, k).len() == size,
{
    lemma_chunk_bounds(payload.len(), size, k);
    assert((k + 1) * size == k * size + size) by (nonlinear_arith);
}

/// The end of what may be on the wire when everything before `base` is
/// acknowledged.
pub open spec fn window_end(base: int, window: int, count: int) -> int {
    if base + window <= count {
        base + window
    } else {
        count
    }
}

impl PendingTransfer {
    /// The window is always full: what is sent and not acknowledged reaches as
    /// far as the window and the payload allow.
    pub open spec fn wf(self) -> bool {
        &&& self.chunk_size > 0
        &&& self.window > 0
        &&& self.payload@.len() > 0
        &&& self.chunk_count == chunk_count_of(self.payload@.len(), self.chunk_size as nat)
        &&& self.base < self.chunk_count
        &&& self.next == window_end(self.base as int, self.window as int, self.chunk_count as int)
    }

    /// What an acknowledgement leads to: the transfer afterwards, and the chunks
    /// `from..to` that go out.
    pub open spec fn acked(self, ack: usize, now: u64) -> (PendingTransfer, int, int) {
        let ack = if ack <= self.chunk_count {
            ack
        } else {
            self.chunk_count
        };
        if ack > self.base {
            let to = window_end(ack as int, self.window as int, self.chunk_count as int);
            (
                PendingTransfer { base: ack, next: to as usize, last_activity: now, ..self },
                self.next as int,
                to,
            )
        } else if self.retx_base != Some(self.base) {
            (
                PendingTransfer { retx_base: Some(self.base), last_activity: now, ..self },
                self.base as int,
                self.next as int,
            )
        } else {
            (PendingTransfer { last_activity: now, ..self }, self.next as int, self.next as int)
        }
    }

    /// Whether every chunk is acknowledged.
    pub open spec fn delivered(self) -> bool {
        self.base >= self.chunk_count
    }
}

/// A `fetch-chunk` message.
pub open spec fn chunk_message(
    id: Option<Seq<char>>,
    seq: int,
    total: nat,
    data: Seq<char>,
) -> JsonView {
    let start = match id {
        Some(id) => Map::<Seq<char>, JsonView>::empty().insert("id"@, JsonView::Str(id)),
        None => Map::<Seq<char>, JsonView>::empty(),
    };
    JsonView::Object(
        start.insert("seq"@, JsonView::UInt(seq as nat)).insert("total"@, JsonView::UInt(total)).insert(
            "data"@,
            JsonView::Str(data),
        ),
    )
}

/// Whether `frames` are the messages for the chunks `from..to` of a transfer, in
/// order.
pub open spec fn are_chunk_messages(
    frames: Seq<Json>,
    t: PendingTransfer,
    id: Option<Seq<char>>,
    from: int,
    to: int,
) -> bool {
    &&& frames.len() == to - from
    &&& forall|i: int|
        0 <= i < frames.len() ==> (#[trigger] frames[i])@ == chunk_message(
            id,
            from + i,
            t.chunk_count as nat,
            codec::encoded_or_base64(
                chunk(t.payload@, t.chunk_size as nat, (from + i) as nat),
                t.encoding,
            ),
        )
}

/// The transfers in flight, keyed by `(addr, pkg, id)`.
pub struct Registry {
    pub transfers: PeerTable<PendingTransfer>,
}

impl Registry {
    pub open spec fn wf(self) -> bool {
        &&& self.transfers.wf()
        &&& forall|k: PeerKey| #[trigger]
            self.transfers@.dom().contains(k) ==> self.transfers@[k].wf()
    }

    pub fn new() -> (r: Registry)
        ensures
            r.wf(),
            r.transfers@ == Map::<PeerKey, PendingTransfer>::empty(),
    {
        Registry { transfers: PeerTable::new() }
    }
}

/// The id under which a transfer is kept.
pub open spec fn id_or_empty(id: Option<&str>) -> Seq<char> {
    match id {
        Some(s) => s@,
        None => Seq::empty(),
    }
}

pub open spec fn transfer_key(addr: &str, pkg: &str, id: Option<&str>) -> PeerKey {
    PeerKey { addr: addr@, pkg: pkg@, id: id_or_empty(id) }
}

fn id_text(id: Option<&str>) -> (r: String)
    ensures
        r@ == id_or_empty(id),
{
    match id {
        Some(s) => s.to_owned(),
        None => String::new(),
    }
}

/// Drops the transfers that saw no ACK within the timeout.
pub fn prune_idle(reg: &mut Registry, now: u64)
    requires
        old(reg).wf(),
    ensures
        final(reg).wf(),
        final(reg).transfers@ == table::still_alive(old(reg).transfers@, now, TRANSFER_TIMEOUT),
{
    reg.transfers.prune(now, TRANSFER_TIMEOUT);
}

/// The bytes of the chunks `from..to`, each with its index.
fn pump(t: &PendingTransfer, from: usize, to: usize) -> (out: Vec<(usize, Vec<u8>)>)
    requires
        t.chunk_size > 0,
        t.chunk_count == chunk_count_of(t.payload@.len(), t.chunk_size as nat),
        from <= to <= t.chunk_count,
    ensures
        out@.len() == to - from,
        forall|i: int|
            0 <= i < out@.len() ==> (#[trigger] out@[i]).0 == from + i && out@[i].1@ == chunk(
                t.payload@,
                t.chunk_size as nat,
                (from + i) as nat,
            ),
{
    let mut out: Vec<(usize, Vec<u8>)> = Vec::new();
    let mut k: usize = from;
    while k < to
        invariant
            t.chunk_size > 0,
            t.chunk_count == chunk_count_of(t.payload@.len(), t.chunk_size as nat),
            from <= k <= to <= t.chunk_count,
            out@.len() == k - from,
            forall|i: int|
                0 <= i < out@.len() ==> (#[trigger] out@[i]).0 == from + i && out@[i].1@ == chunk(
                    t.payload@,
                    t.chunk_size as nat,
                    (from + i) as nat,
                ),
        decreases to - k,
    {
        proof {
            lemma_chunk_bounds(t.payload@.len(), t.chunk_size as nat, k as nat);
            assert((k + 1) * t.chunk_size == k * t.chunk_size + t.chunk_size) by (nonlinear_arith);
        }
        let len: usize = t.payload.len();
        assert(k * t.chunk_size < len);
        let start: usize = k * t.chunk_size;
        let left: usize = len - start;
        let end: usize = if left <= t.chunk_size {
            len
        } else {
            start + t.chunk_size
        };
        let piece = vstd::slice::slice_to_vec(
            vstd::slice::slice_subrange(t.payload.as_slice(), start, end),
        );
        out.push((k, piece));
        k = k + 1;
    }
    out
}

/// The messages for the collected chunks.
fn flush(
    id: Option<&str>,
    encoding: BodyEncoding,
    chunk_count: usize,
    sends: Vec<(usize, Vec<u8>)>,
) -> (frames: Vec<Json>)
    ensures
        frames@.len() == sends@.len(),
        forall|i: int|
            0 <= i < frames@.len() ==> (#[trigger] frames@[i])@ == chunk_message(
                json::opt_view(id),
                sends@[i].0 as int,
                chunk_count as nat,
                codec::encoded_or_base64(sends@[i].1@, encoding),
            ),
{
    let mut frames: Vec<Json> = Vec::new();
    let mut i: usize = 0;
    while i < sends.len()
        invariant
            i <= sends@.len(),
            frames@.len() == i,
            forall|j: int|
                0 <= j < frames@.len() ==> (#[trigger] frames@[j])@ == chunk_message(
                    json::opt_view(id),
                    sends@[j].0 as int,
                    chunk_count as nat,
                    codec::encoded_or_base64(sends@[j].1@, encoding),
                ),
        decreases sends.len() - i,
    {
        let data = codec::encode_or_base64(sends[i].1.as_slice(), encoding);
        frames.push(chunk_frame(id, sends[i].0, chunk_count, data));
        i = i + 1;
    }
    frames
}

/// Builds one `fetch-chunk` message.
pub fn chunk_frame(id: Option<&str>, seq: usize, total: usize, data: String) -> (r: Json)
    ensures
        r@ == chunk_message(json::opt_view(id), seq as int, total as nat, data@),
{
    let mut msg = JsonObject::new();
    if let Some(id) = id {
        msg.put("id", Json::string(id));
    }
    msg.put("seq", Json::UInt(seq as u64));
    msg.put("total", Json::UInt(total as u64));
    msg.put("data", Json::Str(data));
    Json::Object(msg)
}

/// Registers a new chunked transfer, replacing one that used the same id, and
/// gives the messages of the first window. An empty payload is no transfer.
pub fn begin(
    reg: &mut Registry,
    addr: &str,
    pkg: &str,
    id: Option<&str>,
    payload: Vec<u8>,
    chunk_size: usize,
    encoding: BodyEncoding,
    window: usize,
    now: u64,
) -> (frames: Vec<Json>)
    requires
        old(reg).wf(),
    ensures
        final(reg).wf(),
        payload@.len() == 0 ==> frames@.len() == 0 && *final(reg) == *old(reg),
        payload@.len() > 0 ==> {
            let t = started(payload, chunk_size, encoding, window, now);
            &&& t.wf()
            &&& final(reg).transfers@ == table::still_alive(
                old(reg).transfers@,
                now,
                TRANSFER_TIMEOUT,
            ).insert(transfer_key(addr, pkg, id), t)
            &&& are_chunk_messages(frames@, t, json::opt_view(id), 0, t.next as int)
        },
{
    let chunk_size: usize = if chunk_size == 0 {
        1
    } else {
        chunk_size
    };
    let window: usize = if window == 0 {
        1
    } else {
        window
    };
    if payload.len() == 0 {
        return Vec::new();
    }
    let chunk_count: usize = count_chunks(payload.len(), chunk_size);
    reg.transfers.prune(now, TRANSFER_TIMEOUT);
    let next: usize = if window <= chunk_count {
        window
    } else {
        chunk_count
    };
    let transfer = PendingTransfer {
        payload,
        chunk_size,
        chunk_count,
        encoding,
        window,
        base: 0,
        next,
        last_activity: now,
        retx_base: None,
    };
    let sends = pump(&transfer, 0, next);
    let frames = flush(id, encoding, chunk_count, sends);
    let key_id = id_text(id);
    reg.transfers.insert(addr, pkg, key_id.as_str(), transfer);
    frames
}

/// How many chunks `len` bytes make.
pub fn count_chunks(len: usize, size: usize) -> (r: usize)
    requires
        size > 0,
    ensures
        r == chunk_count_of(len as nat, size as nat),
{
    if len == 0 {
        0
    } else {
        proof {
            lemma_count_fits(len as nat, size as nat);
        }
        (len - 1) / size + 1
    }
}

/// The messages of every chunk of a payload, for a peer that does not
/// acknowledge.
pub fn all_chunks(
    id: Option<&str>,
    payload: Vec<u8>,
    chunk_size: usize,
    encoding: BodyEncoding,
    now: u64,
) -> (frames: Vec<Json>)
    requires
        chunk_size > 0,
    ensures
        ({
            let t = started(payload, chunk_size, encoding, 0, now);
            are_chunk_messages(frames@, t, json::opt_view(id), 0, t.chunk_count as int)
        }),
{
    let chunk_count: usize = count_chunks(payload.len(), chunk_size);
    let transfer = PendingTransfer {
        payload,
        chunk_size,
        chunk_count,
        encoding,
        window: 1,
        base: 0,
        next: 0,
        last_activity: now,
        retx_base: None,
    };
    let sends = pump(&transfer, 0, chunk_count);
    flush(id, encoding, chunk_count, sends)
}

proof fn lemma_count_fits(len: nat, size: nat)
    requires
        len > 0,
        size > 0,
    ensures
        (len - 1) as nat / size + 1 <= len,
{
    assert((len - 1) as nat / size <= len - 1) by (nonlinear_arith)
        requires
            len > 0,
            size > 0,
    ;
}

/// The transfer that `begin` registers for a payload.
pub open spec fn started(
    payload: Vec<u8>,
    chunk_size: usize,
    encoding: BodyEncoding,
    window: usize,
    now: u64,
) -> PendingTransfer {
    let size: usize = if chunk_size == 0 {
        1
    } else {
        chunk_size
    };
    let window: usize = if window == 0 {
        1
    } else {
        window
    };
    let count = chunk_count_of(payload@.len(), size as nat);
    PendingTransfer {
        payload,
        chunk_size: size,
        chunk_count: count as usize,
        encoding,
        window,
        base: 0,
        next: window_end(0, window as int, count as int) as usize,
        last_activity: now,
        retx_base: None,
    }
}

/// Handles a peer `fetch-ack`: `ack` is the next contiguous chunk that the peer
/// still needs.
///
/// An ACK past `base` slides the window and lets the next batch out. One without
/// progress replays the window, once per stall point. A transfer that is
/// acknowledged to its end is dropped. An ACK for no known transfer is ignored.
pub fn on_ack(
    reg: &mut Registry,
    addr: &str,
    pkg: &str,
    id: Option<&str>,
    ack: usize,
    now: u64,
) -> (frames: Vec<Json>)
    requires
        old(reg).wf(),
    ensures
        final(reg).wf(),
        ({
            let k = transfer_key(addr, pkg, id);
            let alive = table::still_alive(old(reg).transfers@, now, TRANSFER_TIMEOUT);
            if alive.dom().contains(k) {
                let (t, from, to) = alive[k].acked(ack, now);
                &&& are_chunk_messages(frames@, t, json::opt_view(id), from, to)
                &&& final(reg).transfers@ == if t.delivered() {
                    alive.remove(k)
                } else {
                    alive.insert(k, t)
                }
            } else {
                frames@.len() == 0 && final(reg).transfers@ == alive
            }
        }),
{
    reg.transfers.prune(now, TRANSFER_TIMEOUT);
    let key_id = id_text(id);
    let ghost alive = reg.transfers@;
    let ghost k = transfer_key(addr, pkg, id);
    let mut t = match reg.transfers.take(addr, pkg, key_id.as_str()) {
        Some(t) => t,
        None => {
            assert(reg.transfers@ =~= alive);
            return Vec::new();
        },
    };
    let ghost before = t;
    t.last_activity = now;
    let ack: usize = if ack <= t.chunk_count {
        ack
    } else {
        t.chunk_count
    };
    let from: usize;
    if ack > t.base {
        from = t.next;
        t.base = ack;
        t.next = if t.window <= t.chunk_count - ack {
            ack + t.window
        } else {
            t.chunk_count
        };
    } else {
        let replayed = match t.retx_base {
            Some(b) => b == t.base,
            None => false,
        };
        if replayed {
            from = t.next;
        } else {
            t.retx_base = Some(t.base);
            from = t.base;
        }
    }
    assert(t == before.acked(ack, now).0);
    let sends = pump(&t, from, t.next);
    let frames = flush(id, t.encoding, t.chunk_count, sends);
    let done = t.base >= t.chunk_count;
    if !done {
        reg.transfers.insert(addr, pkg, key_id.as_str(), t);
        proof {
            assert(reg.transfers@ =~= alive.insert(k, t));
        }
    }
    frames
}

// ---------------------------------------------------------------- laws

/// After any acknowledgement at most `window` chunks are in flight, nothing
/// acknowledged is taken back, and the chunks that go out are chunks of the
/// payload.
pub proof fn in_flight_is_bounded(t: PendingTransfer, ack: usize, now: u64)
    requires
        t.wf(),
    ensures
        ({
            let (u, from, to) = t.acked(ack, now);
            &&& t.base <= u.base <= u.next <= u.chunk_count
            &&& u.next - u.base <= u.window
            &&& 0 <= from <= to == u.next
            &&& u.payload == t.payload
            &&& !u.delivered() ==> u.wf()
        }),
{
}

/// A repeated acknowledgement that makes no progress is answered at most once.
pub proof fn stall_is_replayed_once(t: PendingTransfer, ack: usize, again: usize, now: u64, later: u64)
    requires
        t.wf(),
        ack <= t.base,
        again <= t.base,
    ensures
        ({
            let (u, _, _) = t.acked(ack, now);
            let (v, from, to) = u.acked(again, later);
            from == to && v.base == t.base && v.next == t.next
        }),
{
}

/// A stalled window is replayed from the chunk that the peer waits for.
pub proof fn first_stall_replays_window(t: PendingTransfer, ack: usize, now: u64)
    requires
        t.wf(),
        ack <= t.base,
        t.retx_base != Some(t.base),
    ensures
        t.acked(ack, now).1 == t.base,
        t.acked(ack, now).2 == t.next,
        t.base < t.next,
{
}

/// Acknowledging everything in flight either finishes the transfer or puts the
/// chunks that follow on the wire, with no gap.
pub proof fn full_ack_makes_progress(t: PendingTransfer, now: u64)
    requires
        t.wf(),
    ensures
        ({
            let (u, from, to) = t.acked(t.next, now);
            &&& u.base > t.base
            &&& from == t.next
            &&& u.delivered() || from < to
        }),
{
}

/// The state of a transfer after its peer acknowledged everything in flight, `n`
/// times over.
pub open spec fn after_full_acks(t: PendingTransfer, n: nat, now: u64) -> PendingTransfer
    decreases n,
{
    if n == 0 || t.delivered() {
        t
    } else {
        after_full_acks(t.acked(t.next, now).0, (n - 1) as nat, now)
    }
}

/// A peer that keeps acknowledging what it was sent receives every chunk.
pub proof fn transfer_completes(t: PendingTransfer, n: nat, now: u64)
    requires
        t.wf() || t.delivered(),
        n >= t.chunk_count - t.base,
    ensures
        after_full_acks(t, n, now).delivered(),
    decreases n,
{
    if n > 0 && !t.delivered() {
        full_ack_makes_progress(t, now);
        in_flight_is_bounded(t, t.next, now);
        transfer_completes(t.acked(t.next, now).0, (n - 1) as nat, now);
    }
}

proof fn lemma_chunk_keys()
    ensures
        "id"@ != "seq"@,
        "id"@ != "total"@,
        "id"@ != "data"@,
        "seq"@ != "total"@,
        "seq"@ != "data"@,
        "total"@ != "data"@,
{
    reveal_strlit("id");
    reveal_strlit("seq");
    reveal_strlit("total");
    reveal_strlit("data");
    assert("id"@.len() != "seq"@.len());
    assert("id"@.len() != "total"@.len());
    assert("id"@.len() != "data"@.len());
    assert("seq"@.len() != "total"@.len());
    assert("seq"@.len() != "data"@.len());
    assert("total"@.len() != "data"@.len());
}

/// A chunk message names its transfer, its number and how many chunks there are,
/// and carries the text of the chunk.
pub proof fn chunk_messages_tell_their_place(
    id: Option<Seq<char>>,
    seq: int,
    total: nat,
    data: Seq<char>,
)
    requires
        0 <= seq,
    ensures
        chunk_message(id, seq, total, data).str_at("id"@) == id,
        chunk_message(id, seq, total, data).u64_at("seq"@) == Some(seq as nat),
        chunk_message(id, seq, total, data).u64_at("total"@) == Some(total),
        chunk_message(id, seq, total, data).str_at("data"@) == Some(data),
{
    lemma_chunk_keys();
}

/// The bytes that some chunk messages carry, put together.
pub open spec fn carried(frames: Seq<Json>, enc: BodyEncoding) -> Seq<u8>
    decreases frames.len(),
{
    if frames.len() == 0 {
        Seq::empty()
    } else {
        carried(frames.drop_last(), enc) + codec::decoded(frames.last()@.str_at("data"@)->0, enc)
    }
}

proof fn lemma_carried(
    frames: Seq<Json>,
    t: PendingTransfer,
    id: Option<Seq<char>>,
    to: int,
)
    requires
        t.encoding != BodyEncoding::Text,
        are_chunk_messages(frames, t, id, 0, to),
    ensures
        carried(frames, t.encoding) == chunks_up_to(t.payload@, t.chunk_size as nat, to as nat),
    decreases to,
{
    if frames.len() > 0 {
        let rest = frames.drop_last();
        assert(are_chunk_messages(rest, t, id, 0, to - 1)) by {
            assert forall|i: int| 0 <= i < rest.len() implies (#[trigger] rest[i])@
                == chunk_message(
                id,
                0 + i,
                t.chunk_count as nat,
                codec::encoded_or_base64(
                    chunk(t.payload@, t.chunk_size as nat, (0 + i) as nat),
                    t.encoding,
                ),
            ) by {
                assert(rest[i] == frames[i]);
            }
        }
        lemma_carried(rest, t, id, to - 1);
        let piece = chunk(t.payload@, t.chunk_size as nat, (to - 1) as nat);
        codec::encoded_bodies_are_read_back(piece, t.encoding);
        let last = frames[to - 1];
        chunk_messages_tell_their_place(
            id,
            to - 1,
            t.chunk_count as nat,
            codec::encoded_or_base64(piece, t.encoding),
        );
        assert(frames.last() == last);
    }
}

/// A peer that puts the bytes of all chunk messages together has the payload.
pub proof fn messages_restore_payload(frames: Seq<Json>, t: PendingTransfer, id: Option<Seq<char>>)
    requires
        t.wf(),
        t.encoding != BodyEncoding::Text,
        are_chunk_messages(frames, t, id, 0, t.chunk_count as int),
    ensures
        carried(frames, t.encoding) == t.payload@,
{
    lemma_carried(frames, t, id, t.chunk_count as int);
    chunks_restore_payload(t.payload@, t.chunk_size as nat);
}

/// The count of chunks is the least number of pieces that holds all bytes.
pub proof fn chunk_counts_are_least(len: nat, size: nat)
    requires
        size > 0,
    ensures
        chunk_count_of(len, size) * size >= len,
        len > 0 ==> (chunk_count_of(len, size) - 1) * size < len,
        len == 0 ==> chunk_count_of(len, size) == 0,
{
    if len > 0 {
        lemma_chunk_bounds(len, size, (chunk_count_of(len, size) - 1) as nat);
    }
}

/// An acknowledgement of more chunks than before lets as many more out as the
/// window then has room for, right behind those that were sent.
pub proof fn progress_moves_the_window(t: PendingTransfer, ack: usize, now: u64)
    requires
        t.wf(),
        t.base < ack <= t.chunk_count,
    ensures
        ({
            let (u, from, to) = t.acked(ack, now);
            &&& u.base == ack
            &&& from == t.next
            &&& to == t.chunk_count || to - ack == t.window
            &&& to <= t.chunk_count
            &&& u.last_activity == now
            &&& u.delivered() <==> ack == t.chunk_count
        }),
{
}

/// A new transfer has its first window on the wire and nothing acknowledged.
pub proof fn transfers_start_with_a_window(
    payload: Vec<u8>,
    size: usize,
    encoding: BodyEncoding,
    window: usize,
    now: u64,
)
    requires
        payload@.len() > 0,
        size > 0,
        window > 0,
    ensures
        ({
            let t = started(payload, size, encoding, window, now);
            &&& t.payload == payload
            &&& t.chunk_size == size && t.encoding == encoding && t.window == window
            &&& t.base == 0
            &&& t.next == window || (t.next == t.chunk_count && t.chunk_count <= window)
            &&& t.retx_base is None
            &&& t.last_activity == now
            &&& (t.chunk_count - 1) * size < payload@.len() <= t.chunk_count * size
        }),
{
    let len = payload@.len();
    assert(len == payload.len());
    chunk_counts_are_least(len, size as nat);
    let count = chunk_count_of(len, size as nat);
    assert(count <= len) by (nonlinear_arith)
        requires
            len > 0,
            size > 0,
            (count - 1) * (size as int) < len,
    ;
}

/// A new transfer of some bytes is in order, whatever window is asked for.
pub proof fn new_transfers_are_in_order(
    payload: Vec<u8>,
    size: usize,
    encoding: BodyEncoding,
    window: usize,
    now: u64,
)
    requires
        payload@.len() > 0,
        size > 0,
    ensures
        started(payload, size, encoding, window, now).wf(),
        started(payload, size, encoding, window, now).payload == payload,
        started(payload, size, encoding, window, now).encoding == encoding,
{
    let w: usize = if window == 0 {
        1
    } else {
        window
    };
    transfers_start_with_a_window(payload, size, encoding, w, now);
    let len = payload@.len();
    chunk_counts_are_least(len, size as nat);
    assert(len == payload.len());
    let count = chunk_count_of(len, size as nat);
    assert(count <= len) by (nonlinear_arith)
        requires
            len > 0,
            size > 0,
            (count - 1) * (size as int) < len,
    ;
    assert(started(payload, size, encoding, window, now) == started(payload, size, encoding, w, now));
}

/// Every acknowledgement is a sign of life, and none changes what is sent.
pub proof fn acknowledgements_keep_a_transfer_alive(t: PendingTransfer, ack: usize, now: u64)
    ensures
        t.acked(ack, now).0.last_activity == now,
        t.acked(ack, now).0.payload == t.payload,
        t.acked(ack, now).0.chunk_size == t.chunk_size,
        t.acked(ack, now).0.encoding == t.encoding,
        t.acked(ack, now).0.chunk_count == t.chunk_count,
{
}

/// Transfers are kept apart by peer, package and request; a request without an id
/// counts as one with an empty id.
pub proof fn transfers_are_kept_apart(a: &str, b: &str, c: Option<&str>, x: &str, y: &str, z: Option<&str>)
    ensures
        transfer_key(a, b, c) == transfer_key(x, y, z) ==> a@ == x@ && b@ == y@,
        c is Some && z is Some && transfer_key(a, b, c) == transfer_key(x, y, z) ==> c->0@ == z->0@,
        transfer_key(a, b, None).id.len() == 0,
{
}

/// A transfer that was silent for more than half a minute is given up, and no other
/// one is.
pub proof fn silent_transfers_are_given_up(m: Map<PeerKey, PendingTransfer>, k: PeerKey, now: u64)
    requires
        m.dom().contains(k),
    ensures
        table::still_alive(m, now, TRANSFER_TIMEOUT).dom().contains(k) <==> now
            <= m[k].last_activity + 30_000_000_000,
{
    table::pruning_takes_the_idle(m, now, TRANSFER_TIMEOUT, k);
}

} // verus!
