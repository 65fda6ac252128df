//! Open-ended response streaming (protocol 4).
//!
//! The complete response body is never held. At most one ACK window is buffered,
//! so live media and arbitrarily large files use bounded memory. Every data
//! frame, the final marker among them, takes part in the cumulative ACK sequence
//! and can be sent again.
//!
//! The HTTP body is read outside: [`fill`] says how many bytes it wants next, and
//! [`feed`] takes what the read gave.
use std::collections::VecDeque;

use vstd::prelude::*;
use vstd::string::*;

use crate::bridge::codec::{self, BodyEncoding};
use crate::bridge::table::{self, PeerKey, PeerTable, Timed};
use crate::json::{Json, JsonObject, JsonView};

verus! {

pub const FETCH_STREAM_TAG: &'static str = "fetch-stream";

pub const FETCH_STREAM_ACK_TAG: &'static str = "fetch-stream-ack";

pub const FETCH_STREAM_CANCEL_TAG: &'static str = "fetch-stream-cancel";

pub const FETCH_STREAM_ERROR_TAG: &'static str = "fetch-stream-error";

/// A stream without activity for this long, in nanoseconds, is dropped.
pub const STREAM_TIMEOUT: u64 = 30_000_000_000;

/// Bounds the memory of all streams together.
pub const MAX_CONCURRENT_STREAMS: usize = 8;

pub struct StreamConfig {
    pub chunk_size: usize,
    pub encoding: BodyEncoding,
    pub window: usize,
    pub fixed_chunks: bool,
}

pub struct StreamFrame {
    pub seq: usize,
    /// Absolute byte offset in the decoded response body.
    pub offset: usize,
    pub bytes: Vec<u8>,
    pub final_frame: bool,
    pub total_bytes: usize,
}

/// The mathematical value of a [`StreamFrame`].
pub struct FrameView {
    pub seq: nat,
    pub offset: nat,
    pub bytes: Seq<u8>,
    pub final_frame: bool,
    pub total_bytes: nat,
}

impl StreamFrame {
    pub open spec fn view(&self) -> FrameView {
        FrameView {
            seq: self.seq as nat,
            offset: self.offset as nat,
            bytes: self.bytes@,
            final_frame: self.final_frame,
            total_bytes: self.total_bytes as nat,
        }
    }

    pub fn duplicate(&self) -> (r: StreamFrame)
        ensures
            r@ == self@,
    {
        StreamFrame {
            seq: self.seq,
            offset: self.offset,
            bytes: vstd::slice::slice_to_vec(self.bytes.as_slice()),
            final_frame: self.final_frame,
            total_bytes: self.total_bytes,
        }
    }
}

/// A stream whose response body is still being read or acknowledged.
pub struct PendingStream {
    pub chunk_size: usize,
    pub encoding: BodyEncoding,
    pub window: usize,
    /// Whether short reads are put together so that every data frame but the
    /// last has exactly `chunk_size` bytes.
    pub fixed_chunks: bool,
    pub read_buffer: Vec<u8>,
    pub source_eof: bool,
    pub next: usize,
    pub base: usize,
    pub total_bytes: usize,
    pub final_queued: bool,
    pub unacked: VecDeque<StreamFrame>,
    pub last_activity: u64,
    pub retx_base: Option<usize>,
}

/// The mathematical value of a [`PendingStream`].
pub struct StreamView {
    pub chunk_size: nat,
    pub encoding: BodyEncoding,
    pub window: nat,
    pub fixed_chunks: bool,
    pub read_buffer: Seq<u8>,
    pub source_eof: bool,
    pub next: nat,
    pub base: nat,
    pub total_bytes: nat,
    pub final_queued: bool,
    pub unacked: Seq<FrameView>,
    pub last_activity: u64,
    pub retx_base: Option<usize>,
}

pub open spec fn frames_view(s: Seq<StreamFrame>) -> Seq<FrameView> {
    s.map_values(|f: StreamFrame| f@)
}

impl PendingStream {
    pub open spec fn view(&self) -> StreamView {
        StreamView {
            chunk_size: self.chunk_size as nat,
            encoding: self.encoding,
            window: self.window as nat,
            fixed_chunks: self.fixed_chunks,
            read_buffer: self.read_buffer@,
            source_eof: self.source_eof,
            next: self.next as nat,
            base: self.base as nat,
            total_bytes: self.total_bytes as nat,
            final_queued: self.final_queued,
            unacked: frames_view(self.unacked@),
            last_activity: self.last_activity,
            retx_base: self.retx_base,
        }
    }
}

impl Timed for PendingStream {
    open spec fn active_at(&self) -> u64 {
        self.last_activity
    }

    fn last_active(&self) -> (r: u64) {
        self.last_activity
    }
}

impl StreamView {
    /// The frames that are not acknowledged are numbered without a gap from
    /// `base` to `next`, fit in the window, and only the last can be the final
    /// one, which is there exactly where the end was reached and not
    /// acknowledged.
    pub open spec fn wf(self) -> bool {
        &&& self.chunk_size > 0
        &&& self.window > 0
        &&& self.unacked.len() <= self.window
        &&& self.base + self.unacked.len() == self.next
        &&& forall|i: int|
            0 <= i < self.unacked.len() ==> (#[trigger] self.unacked[i]).seq == self.base + i
        &&& forall|i: int|
            0 <= i < self.unacked.len() ==> ((#[trigger] self.unacked[i]).final_frame
                <==> self.unacked[i].bytes.len() == 0)
        &&& forall|i: int|
            0 <= i < self.unacked.len() && (#[trigger] self.unacked[i]).final_frame
                ==> self.final_queued && i == self.unacked.len() - 1
    }

    /// Whether another frame may be queued.
    pub open spec fn has_room(self) -> bool {
        self.unacked.len() < self.window && !self.final_queued
    }

    /// How many bytes of the body are wanted before the next frame can be made:
    /// none where what was read suffices.
    pub open spec fn wanted(self) -> Option<nat> {
        if !self.fixed_chunks {
            Some(self.chunk_size)
        } else if self.read_buffer.len() < self.chunk_size && !self.source_eof {
            Some((self.chunk_size - self.read_buffer.len()) as nat)
        } else {
            None
        }
    }

    /// The stream after a data frame was queued.
    pub open spec fn queued(self, bytes: Seq<u8>) -> StreamView {
        let total = added(self.total_bytes, bytes.len());
        StreamView {
            next: self.next + 1,
            total_bytes: total,
            unacked: self.unacked.push(self.data_frame(bytes)),
            ..self
        }
    }

    pub open spec fn data_frame(self, bytes: Seq<u8>) -> FrameView {
        FrameView {
            seq: self.next,
            offset: self.total_bytes,
            bytes,
            final_frame: false,
            total_bytes: added(self.total_bytes, bytes.len()),
        }
    }

    pub open spec fn final_frame(self) -> FrameView {
        FrameView {
            seq: self.next,
            offset: self.total_bytes,
            bytes: Seq::empty(),
            final_frame: true,
            total_bytes: self.total_bytes,
        }
    }

    /// The stream after the final marker was queued.
    pub open spec fn ended(self) -> StreamView {
        StreamView {
            next: self.next + 1,
            final_queued: true,
            unacked: self.unacked.push(self.final_frame()),
            ..self
        }
    }

    /// The stream with the first frame of its buffer queued.
    pub open spec fn framed(self) -> StreamView {
        let n = fixed_len(self.read_buffer.len(), self.chunk_size);
        StreamView { read_buffer: self.read_buffer.skip(n as int), ..self }.queued(
            self.read_buffer.take(n as int),
        )
    }

    /// The stream after everything was queued that needs no further read.
    pub open spec fn filled(self) -> StreamView
        decreases self.window - self.unacked.len(),
    {
        if !self.has_room() || self.wanted() is Some {
            self
        } else if self.read_buffer.len() == 0 {
            self.ended()
        } else {
            self.framed().filled()
        }
    }

    /// The stream after a read. Without fixed frames each read that gave bytes is
    /// a frame of its own.
    pub open spec fn fed(self, read: ReadOutcome) -> StreamView {
        match read {
            ReadOutcome::Data(bytes) => if self.fixed_chunks {
                StreamView { read_buffer: self.read_buffer + bytes@, ..self }
            } else if bytes@.len() == 0 {
                self
            } else {
                self.queued(bytes@)
            },
            ReadOutcome::End => if self.fixed_chunks {
                StreamView { source_eof: true, ..self }
            } else {
                self.ended()
            },
        }
    }

    /// Whether the whole body was acknowledged, the final marker included.
    pub open spec fn done(self) -> bool {
        self.final_queued && self.unacked.len() == 0
    }

    /// The cumulative ACK that counts: nothing beyond what was sent.
    pub open spec fn ack_limit(self, ack: usize) -> nat {
        if ack <= self.next {
            ack as nat
        } else {
            self.next
        }
    }

    /// The stream after an ACK, before it is filled again.
    pub open spec fn acked(self, ack: usize, now: u64) -> StreamView {
        let a = self.ack_limit(ack);
        if a > self.base {
            StreamView {
                base: a,
                unacked: self.unacked.skip(a - self.base),
                retx_base: None,
                last_activity: now,
                ..self
            }
        } else if self.unacked.len() > 0 && self.retx_base != Some(self.base as usize) {
            StreamView { retx_base: Some(self.base as usize), last_activity: now, ..self }
        } else {
            StreamView { last_activity: now, ..self }
        }
    }

    /// Whether an ACK without progress has the window sent again.
    pub open spec fn replays(self, ack: usize) -> bool {
        &&& self.ack_limit(ack) <= self.base
        &&& self.unacked.len() > 0
        &&& self.retx_base != Some(self.base as usize)
    }
}

/// A byte count after more bytes, held at the largest word.
pub open spec fn added(total: nat, n: nat) -> nat {
    if total + n <= usize::MAX {
        total + n
    } else {
        usize::MAX as nat
    }
}

/// The length of the next fixed frame.
pub open spec fn fixed_len(have: nat, chunk_size: nat) -> nat {
    if have <= chunk_size {
        have
    } else {
        chunk_size
    }
}

/// What reading the response body gave.
pub enum ReadOutcome {
    Data(Vec<u8>),
    End,
}

/// Takes the next frame of exactly `chunk_size` bytes off the buffer; at the end
/// of the body also a shorter one.
pub fn take_fixed_frame(buffer: &mut Vec<u8>, chunk_size: usize, eof: bool) -> (r: Option<Vec<u8>>)
    ensures
        ({
            let have = old(buffer)@.len();
            let n = fixed_len(have, chunk_size as nat);
            if (have < chunk_size && !eof) || have == 0 {
                r is None && final(buffer)@ == old(buffer)@
            } else {
                &&& r matches Some(frame)
                &&& frame@ == old(buffer)@.take(n as int)
                &&& final(buffer)@ == old(buffer)@.skip(n as int)
            }
        }),
{
    if buffer.len() < chunk_size && !eof {
        return None;
    }
    if buffer.len() == 0 {
        return None;
    }
    let frame_len: usize = if chunk_size <= buffer.len() {
        chunk_size
    } else {
        buffer.len()
    };
    let ghost before = buffer@;
    let mut remainder = buffer.split_off(frame_len);
    std::mem::swap(buffer, &mut remainder);
    proof {
        assert(remainder@ =~= before.take(frame_len as int));
        assert(buffer@ =~= before.skip(frame_len as int));
    }
    Some(remainder)
}

fn push_data(stream: &mut PendingStream, sends: &mut Vec<StreamFrame>, bytes: Vec<u8>)
    requires
        old(stream).next < usize::MAX,
    ensures
        final(stream)@ == old(stream)@.queued(bytes@),
        frames_view(final(sends)@) == frames_view(old(sends)@).push(
            old(stream)@.data_frame(bytes@),
        ),
{
    let ghost before = *stream;
    let ghost sent = sends@;
    let offset: usize = stream.total_bytes;
    let total: usize = offset.saturating_add(bytes.len());
    let frame = StreamFrame {
        seq: stream.next,
        offset,
        bytes,
        final_frame: false,
        total_bytes: total,
    };
    let copy = frame.duplicate();
    stream.total_bytes = total;
    stream.next = stream.next + 1;
    stream.unacked.push_back(frame);
    sends.push(copy);
    proof {
        assert(frames_view(stream.unacked@) =~= frames_view(before.unacked@).push(frame@));
        assert(frames_view(sends@) =~= frames_view(sent).push(copy@));
    }
}

fn push_final(stream: &mut PendingStream, sends: &mut Vec<StreamFrame>)
    requires
        old(stream).next < usize::MAX,
    ensures
        final(stream)@ == old(stream)@.ended(),
        frames_view(final(sends)@) == frames_view(old(sends)@).push(old(stream)@.final_frame()),
{
    let ghost before = *stream;
    let ghost sent = sends@;
    let frame = StreamFrame {
        seq: stream.next,
        offset: stream.total_bytes,
        bytes: Vec::new(),
        final_frame: true,
        total_bytes: stream.total_bytes,
    };
    let copy = frame.duplicate();
    stream.final_queued = true;
    stream.next = stream.next + 1;
    stream.unacked.push_back(frame);
    sends.push(copy);
    proof {
        assert(frame@.bytes =~= Seq::empty());
        assert(frames_view(stream.unacked@) =~= frames_view(before.unacked@).push(frame@));
        assert(frames_view(sends@) =~= frames_view(sent).push(copy@));
    }
}

/// Whether the frames in `after` are those in `before` and then the frames that
/// were queued on the way from one stream state to the other.
pub open spec fn sent_between(
    before: Seq<StreamFrame>,
    after: Seq<StreamFrame>,
    from: StreamView,
    to: StreamView,
) -> bool {
    frames_view(after) == frames_view(before) + to.unacked.skip(from.unacked.len() as int)
}

/// Queues every frame that the window has room for and that needs no further
/// read, and says how many bytes to read next. Nothing is wanted where the window
/// is full or the end is queued: the next read is driven by a later ACK.
pub fn fill(stream: &mut PendingStream, sends: &mut Vec<StreamFrame>) -> (want: Option<usize>)
    requires
        old(stream)@.wf(),
        old(stream).next + old(stream).window <= usize::MAX,
    ensures
        final(stream)@ == old(stream)@.filled(),
        final(stream)@.wf(),
        old(stream).next <= final(stream).next,
        final(stream).next - old(stream).next == final(stream)@.unacked.len() - old(
            stream,
        )@.unacked.len(),
        sent_between(old(sends)@, final(sends)@, old(stream)@, final(stream)@),
        match want {
            Some(n) => final(stream)@.has_room() && final(stream)@.wanted() == Some(n as nat),
            None => !final(stream)@.has_room(),
        },
{
    let ghost first = stream@;
    let ghost sent = sends@;
    assert(first.unacked.skip(first.unacked.len() as int) =~= Seq::empty());
    assert(frames_view(sent) + Seq::<FrameView>::empty() =~= frames_view(sent));
    loop
        invariant
            first == old(stream)@,
            sent == old(sends)@,
            first.wf(),
            stream@.wf(),
            stream@.filled() == first.filled(),
            stream@.window == first.window,
            first.next + first.window <= usize::MAX,
            first.unacked.len() <= stream@.unacked.len(),
            stream@.next - first.next == stream@.unacked.len() - first.unacked.len(),
            stream@.unacked.take(first.unacked.len() as int) == first.unacked,
            sent_between(sent, sends@, first, stream@),
        decreases stream@.window - stream@.unacked.len(),
    {
        assert(stream@.unacked.len() == stream.unacked@.len());
        if stream.unacked.len() >= stream.window || stream.final_queued {
            return None;
        }
        if !stream.fixed_chunks {
            return Some(stream.chunk_size);
        }
        if stream.read_buffer.len() < stream.chunk_size && !stream.source_eof {
            return Some(stream.chunk_size - stream.read_buffer.len());
        }
        let ghost here = stream@;
        let ghost sends_here = sends@;
        let n = stream.read_buffer.len();
        match take_fixed_frame(&mut stream.read_buffer, stream.chunk_size, stream.source_eof) {
            Some(bytes) => {
                let ghost taken = stream@;
                push_data(stream, sends, bytes);
                proof {
                    assert(taken.unacked =~= here.unacked);
                    assert(stream@ == here.framed());
                    lemma_queued_wf(taken, bytes@);
                }
            },
            None => {
                assert(stream.read_buffer@ =~= here.read_buffer);
                assert(stream@ == here);
                push_final(stream, sends);
                proof {
                    lemma_ended_wf(here);
                }
            },
        }
        proof {
            let k = first.unacked.len() as int;
            assert(stream@.unacked.take(k) =~= here.unacked.take(k));
            assert(stream@.unacked.skip(k) =~= here.unacked.skip(k).push(stream@.unacked.last()));
            assert(frames_view(sends@) =~= frames_view(sent) + stream@.unacked.skip(k));
        }
    }
}

proof fn lemma_queued_wf(s: StreamView, bytes: Seq<u8>)
    requires
        s.wf(),
        s.has_room(),
        bytes.len() > 0,
    ensures
        s.queued(bytes).wf(),
{
}

proof fn lemma_ended_wf(s: StreamView)
    requires
        s.wf(),
        s.has_room(),
    ensures
        s.ended().wf(),
{
}

/// Takes what a read of the response body gave, when [`fill`] wanted one.
pub fn feed(stream: &mut PendingStream, sends: &mut Vec<StreamFrame>, read: ReadOutcome)
    requires
        old(stream)@.wf(),
        old(stream)@.has_room(),
        old(stream)@.wanted() is Some,
        old(stream).next < usize::MAX,
    ensures
        final(stream)@ == old(stream)@.fed(read),
        final(stream)@.wf(),
        sent_between(old(sends)@, final(sends)@, old(stream)@, final(stream)@),
{
    let ghost first = stream@;
    let ghost sent = sends@;
    match read {
        ReadOutcome::Data(bytes) => {
            if stream.fixed_chunks {
                let mut more = bytes;
                stream.read_buffer.append(&mut more);
            } else if bytes.len() > 0 {
                proof {
                    lemma_queued_wf(first, bytes@);
                }
                push_data(stream, sends, bytes);
            }
        },
        ReadOutcome::End => {
            if stream.fixed_chunks {
                stream.source_eof = true;
            } else {
                proof {
                    lemma_ended_wf(first);
                }
                push_final(stream, sends);
            }
        },
    }
    proof {
        let k = first.unacked.len() as int;
        if stream@.unacked.len() > k {
            assert(stream@.unacked.skip(k) =~= seq![stream@.unacked[k]]);
        } else {
            assert(stream@.unacked.skip(k) =~= Seq::empty());
        }
        assert(frames_view(sends@) =~= frames_view(sent) + stream@.unacked.skip(k));
    }
}

// ---------------------------------------------------------------- messages

/// The four bytes of a word, the highest first.
pub open spec fn be_bytes(n: u32) -> Seq<u8> {
    seq![
        (n / 16777216) as u8,
        (n / 65536 % 256) as u8,
        (n / 256 % 256) as u8,
        (n % 256) as u8,
    ]
}

/// Eight lowercase hexadecimal digits.
pub fn hex8(n: u32) -> (r: String)
    ensures
        r@ == codec::hex_text(be_bytes(n)),
{
    let bytes: [u8; 4] = [
        (n / 16777216) as u8,
        (n / 65536 % 256) as u8,
        (n / 256 % 256) as u8,
        (n % 256) as u8,
    ];
    assert(bytes@ =~= be_bytes(n));
    codec::hex_encode(&bytes)
}

/// A `fetch-stream` message.
pub open spec fn stream_message(id: Seq<char>, f: FrameView, encoding: BodyEncoding) -> JsonView {
    let m = Map::<Seq<char>, JsonView>::empty().insert("id"@, JsonView::Str(id)).insert(
        "seq"@,
        JsonView::UInt(f.seq),
    ).insert("offset"@, JsonView::UInt(f.offset)).insert(
        "data"@,
        JsonView::Str(codec::encoded_or_base64(f.bytes, encoding)),
    ).insert("crc32"@, JsonView::Str(codec::hex_text(be_bytes(codec::crc32_spec(f.bytes)))));
    JsonView::Object(
        if f.final_frame {
            m.insert("final"@, JsonView::Bool(true)).insert(
                "totalBytes"@,
                JsonView::UInt(f.total_bytes),
            )
        } else {
            m
        },
    )
}

/// The message that carries a frame.
pub fn stream_frame_message(id: &str, frame: &StreamFrame, encoding: BodyEncoding) -> (r: Json)
    ensures
        r@ == stream_message(id@, frame@, encoding),
{
    let data = codec::encode_or_base64(frame.bytes.as_slice(), encoding);
    let sum = codec::crc32(frame.bytes.as_slice());
    let mut msg = JsonObject::new();
    msg.put("id", Json::string(id));
    msg.put("seq", Json::UInt(frame.seq as u64));
    msg.put("offset", Json::UInt(frame.offset as u64));
    msg.put("data", Json::Str(data));
    msg.put("crc32", Json::Str(hex8(sum)));
    if frame.final_frame {
        msg.put("final", Json::Bool(true));
        msg.put("totalBytes", Json::UInt(frame.total_bytes as u64));
    }
    Json::Object(msg)
}

/// The messages for queued frames, in order.
pub fn flush(id: &str, encoding: BodyEncoding, frames: &Vec<StreamFrame>) -> (out: Vec<Json>)
    ensures
        out@.len() == frames@.len(),
        forall|i: int|
            0 <= i < out@.len() ==> (#[trigger] out@[i])@ == stream_message(
                id@,
                frames@[i]@,
                encoding,
            ),
{
    let mut out: Vec<Json> = Vec::new();
    let mut i: usize = 0;
    while i < frames.len()
        invariant
            i <= frames@.len(),
            out@.len() == i,
            forall|j: int|
                0 <= j < out@.len() ==> (#[trigger] out@[j])@ == stream_message(
                    id@,
                    frames@[j]@,
                    encoding,
                ),
        decreases frames.len() - i,
    {
        out.push(stream_frame_message(id, &frames[i], encoding));
        i = i + 1;
    }
    out
}

/// A `fetch-stream-error` message.
pub fn stream_error_message(id: &str, message: &str) -> (r: Json)
    ensures
        r@ == JsonView::Object(
            Map::<Seq<char>, JsonView>::empty().insert("id"@, JsonView::Str(id@)).insert(
                "message"@,
                JsonView::Str(message@),
            ),
        ),
        r@.str_at("id"@) == Some(id@),
        r@.str_at("message"@) == Some(message@),
{
    let mut msg = JsonObject::new();
    msg.put("id", Json::string(id));
    msg.put("message", Json::string(message));
    proof {
        reveal_strlit("id");
        reveal_strlit("message");
        assert("id"@.len() != "message"@.len());
    }
    Json::Object(msg)
}

// ---------------------------------------------------------------- registry

/// The streams in flight.
pub struct Registry {
    pub streams: PeerTable<PendingStream>,
}

impl Registry {
    /// No more than the allowed number of streams, each in order.
    pub open spec fn wf(self) -> bool {
        &&& self.streams.wf()
        &&& self.streams@.dom().finite()
        &&& self.streams@.dom().len() <= MAX_CONCURRENT_STREAMS
        &&& forall|k: PeerKey| #[trigger]
            self.streams@.dom().contains(k) ==> self.streams@[k]@.wf()
    }

    pub fn new() -> (r: Registry)
        ensures
            r.wf(),
            r.streams@ == Map::<PeerKey, PendingStream>::empty(),
    {
        let r = Registry { streams: PeerTable::new() };
        proof {
            r.streams.lemma_len();
            assert(r.streams@.dom() =~= Set::empty());
        }
        r
    }
}

proof fn lemma_alive_bounded(m: Map<PeerKey, PendingStream>, now: u64, timeout: u64)
    requires
        m.dom().finite(),
    ensures
        table::still_alive(m, now, timeout).dom().finite(),
        table::still_alive(m, now, timeout).dom().len() <= m.dom().len(),
{
    let alive = table::still_alive(m, now, timeout);
    assert(alive.dom().subset_of(m.dom()));
    vstd::set_lib::lemma_len_subset(alive.dom(), m.dom());
}

/// Drops the streams that saw no activity within the timeout.
pub fn prune_idle(reg: &mut Registry, now: u64)
    requires
        old(reg).wf(),
    ensures
        final(reg).wf(),
        final(reg).streams@ == table::still_alive(old(reg).streams@, now, STREAM_TIMEOUT),
{
    proof {
        lemma_alive_bounded(reg.streams@, now, STREAM_TIMEOUT);
    }
    reg.streams.prune(now, STREAM_TIMEOUT);
}

/// A stream from which nothing was read yet.
pub open spec fn fresh_stream(config: StreamConfig, now: u64) -> StreamView {
    StreamView {
        chunk_size: if config.chunk_size == 0 {
            1
        } else {
            config.chunk_size as nat
        },
        encoding: config.encoding,
        window: if config.window == 0 {
            1
        } else {
            config.window as nat
        },
        fixed_chunks: config.fixed_chunks,
        read_buffer: Seq::empty(),
        source_eof: false,
        next: 0,
        base: 0,
        total_bytes: 0,
        final_queued: false,
        unacked: Seq::empty(),
        last_activity: now,
        retx_base: None,
    }
}

/// Whether a stream may be kept under a key.
pub open spec fn may_keep(m: Map<PeerKey, PendingStream>, k: PeerKey) -> bool {
    m.dom().contains(k) || m.dom().len() < MAX_CONCURRENT_STREAMS
}

/// Makes the stream of a response, unless too many are open. It is kept only by
/// [`keep`], once its first window was read.
pub fn begin(
    reg: &mut Registry,
    addr: &str,
    pkg: &str,
    id: &str,
    config: StreamConfig,
    now: u64,
) -> (r: Result<PendingStream, String>)
    requires
        old(reg).wf(),
    ensures
        final(reg).wf(),
        final(reg).streams@ == table::still_alive(old(reg).streams@, now, STREAM_TIMEOUT),
        match r {
            Ok(s) => may_keep(final(reg).streams@, table::peer_key(addr, pkg, id)) && s@
                == fresh_stream(config, now) && s@.wf(),
            Err(e) => !may_keep(final(reg).streams@, table::peer_key(addr, pkg, id)) && e@
                == "too many concurrent v4 streams (limit 8)"@,
        },
{
    prune_idle(reg, now);
    let known = reg.streams.find(addr, pkg, id).is_some();
    if !known && reg.streams.len() >= MAX_CONCURRENT_STREAMS {
        return Err("too many concurrent v4 streams (limit 8)".to_owned());
    }
    let s = PendingStream {
        chunk_size: if config.chunk_size == 0 {
            1
        } else {
            config.chunk_size
        },
        encoding: config.encoding,
        window: if config.window == 0 {
            1
        } else {
            config.window
        },
        fixed_chunks: config.fixed_chunks,
        read_buffer: Vec::new(),
        source_eof: false,
        next: 0,
        base: 0,
        total_bytes: 0,
        final_queued: false,
        unacked: VecDeque::new(),
        last_activity: now,
        retx_base: None,
    };
    proof {
        assert(s@.unacked =~= Seq::empty());
        assert(s@.read_buffer =~= Seq::empty());
        assert(s@ == fresh_stream(config, now));
    }
    Ok(s)
}

/// Keeps a stream for later ACKs, in the place of one with the same id, and drops
/// one that is done. Says whether it was done.
pub fn keep(reg: &mut Registry, addr: &str, pkg: &str, id: &str, stream: PendingStream) -> (done: bool)
    requires
        old(reg).wf(),
        stream@.wf(),
        may_keep(old(reg).streams@, table::peer_key(addr, pkg, id)),
    ensures
        final(reg).wf(),
        done == stream@.done(),
        final(reg).streams@ == if done {
            old(reg).streams@.remove(table::peer_key(addr, pkg, id))
        } else {
            old(reg).streams@.insert(table::peer_key(addr, pkg, id), stream)
        },
{
    let ghost k = table::peer_key(addr, pkg, id);
    let ghost m = reg.streams@;
    assert(stream@.unacked.len() == stream.unacked@.len());
    let done = stream.final_queued && stream.unacked.len() == 0;
    if done {
        let _ = reg.streams.take(addr, pkg, id);
        proof {
            assert(m.remove(k).dom() =~= m.dom().remove(k));
        }
    } else {
        reg.streams.insert(addr, pkg, id, stream);
        proof {
            assert(m.insert(k, stream).dom() =~= m.dom().insert(k));
        }
    }
    done
}

/// Handles a cumulative stream ACK: takes the stream out with what the ACK
/// changed, and the frames to send again where it made no progress. What the
/// window has room for is then for [`fill`], and [`keep`] puts the stream back.
/// An ACK for no known stream is ignored.
pub fn on_ack(
    reg: &mut Registry,
    addr: &str,
    pkg: &str,
    id: &str,
    ack: usize,
    now: u64,
) -> (r: Option<(PendingStream, Vec<StreamFrame>)>)
    requires
        old(reg).wf(),
    ensures
        final(reg).wf(),
        ({
            let k = table::peer_key(addr, pkg, id);
            let alive = table::still_alive(old(reg).streams@, now, STREAM_TIMEOUT);
            match r {
                Some((s, sends)) => {
                    &&& alive.dom().contains(k)
                    &&& final(reg).streams@ == alive.remove(k)
                    &&& may_keep(final(reg).streams@, k)
                    &&& s@ == alive[k]@.acked(ack, now)
                    &&& s@.wf()
                    &&& frames_view(sends@) == if alive[k]@.replays(ack) {
                        alive[k]@.unacked
                    } else {
                        Seq::empty()
                    }
                },
                None => !alive.dom().contains(k) && final(reg).streams@ == alive,
            }
        }),
{
    prune_idle(reg, now);
    let ghost k = table::peer_key(addr, pkg, id);
    let ghost alive = reg.streams@;
    let mut stream = match reg.streams.take(addr, pkg, id) {
        Some(s) => s,
        None => {
            assert(reg.streams@ =~= alive);
            return None;
        },
    };
    proof {
        assert(alive.remove(k).dom() =~= alive.dom().remove(k));
    }
    let ghost before = stream@;
    assert(before.unacked.len() == stream.unacked@.len());
    stream.last_activity = now;
    let ack: usize = if ack <= stream.next {
        ack
    } else {
        stream.next
    };
    let mut sends: Vec<StreamFrame> = Vec::new();
    if ack > stream.base {
        let n: usize = ack - stream.base;
        stream.base = ack;
        stream.retx_base = None;
        let ghost frames = stream.unacked@;
        let mut i: usize = 0;
        assert(frames.skip(0) =~= frames);
        while i < n
            invariant
                i <= n <= frames.len(),
                stream.unacked@ == frames.skip(i as int),
                stream.base == ack,
                stream@ == (StreamView {
                    unacked: frames_view(frames.skip(i as int)),
                    base: ack as nat,
                    retx_base: None,
                    last_activity: now,
                    ..before
                }),
            decreases n - i,
        {
            let _ = stream.unacked.pop_front();
            proof {
                assert(stream.unacked@ =~= frames.skip(i + 1));
            }
            i = i + 1;
        }
        proof {
            assert(frames_view(frames.skip(n as int)) =~= before.unacked.skip(n as int));
            assert(stream@ == before.acked(ack, now));
        }
    } else {
        let replayed = match stream.retx_base {
            Some(b) => b == stream.base,
            None => false,
        };
        if stream.unacked.len() > 0 && !replayed {
            stream.retx_base = Some(stream.base);
            let mut i: usize = 0;
            while i < stream.unacked.len()
                invariant
                    i <= stream.unacked@.len(),
                    sends@.len() == i,
                    forall|j: int| 0 <= j < i ==> (#[trigger] sends@[j])@ == stream.unacked@[j]@,
                decreases stream.unacked.len() - i,
            {
                let copy = stream.unacked[i].duplicate();
                sends.push(copy);
                i = i + 1;
            }
            assert(frames_view(sends@) =~= before.unacked);
        }
    }
    assert(frames_view(sends@) =~= if before.replays(ack) {
        before.unacked
    } else {
        Seq::empty()
    });
    Some((stream, sends))
}

/// Forgets a stream. Says whether it was there.
pub fn cancel(reg: &mut Registry, addr: &str, pkg: &str, id: &str) -> (r: bool)
    requires
        old(reg).wf(),
    ensures
        final(reg).wf(),
        r == old(reg).streams@.dom().contains(table::peer_key(addr, pkg, id)),
        final(reg).streams@ == old(reg).streams@.remove(table::peer_key(addr, pkg, id)),
{
    let ghost m = reg.streams@;
    let ghost k = table::peer_key(addr, pkg, id);
    let r = reg.streams.take(addr, pkg, id).is_some();
    proof {
        assert(m.remove(k).dom() =~= m.dom().remove(k));
    }
    r
}

// ---------------------------------------------------------------- laws

/// The bytes of some frames, put together.
pub open spec fn joined(frames: Seq<FrameView>) -> Seq<u8>
    decreases frames.len(),
{
    if frames.len() == 0 {
        Seq::empty()
    } else {
        joined(frames.drop_last()) + frames.last().bytes
    }
}

/// Filling the window keeps the stream in order, queues what was buffered from
/// the front without losing or repeating a byte, and leaves no room unused
/// unless more must be read.
pub proof fn filling_conserves_bytes(s: StreamView)
    requires
        s.wf(),
    ensures
        s.filled().wf(),
        s.unacked.len() <= s.filled().unacked.len(),
        s.filled().unacked.take(s.unacked.len() as int) == s.unacked,
        joined(s.filled().unacked.skip(s.unacked.len() as int)) + s.filled().read_buffer
            == s.read_buffer,
        !s.filled().has_room() || s.filled().wanted() is Some,
    decreases s.window - s.unacked.len(),
{
    let k = s.unacked.len() as int;
    if !s.has_room() || s.wanted() is Some {
        assert(s.unacked.take(k) =~= s.unacked);
        assert(s.unacked.skip(k) =~= Seq::empty());
        assert(joined(Seq::<FrameView>::empty()) + s.read_buffer =~= s.read_buffer);
    } else if s.read_buffer.len() == 0 {
        let e = s.ended();
        lemma_ended_wf(s);
        assert(e.unacked.take(k) =~= s.unacked);
        assert(e.unacked.skip(k) =~= seq![s.final_frame()]);
        assert(seq![s.final_frame()].drop_last() =~= Seq::empty());
        assert(joined(Seq::<FrameView>::empty()) =~= Seq::empty());
        assert(seq![s.final_frame()].last() == s.final_frame());
        assert(joined(seq![s.final_frame()]) =~= Seq::empty());
        assert(joined(e.unacked.skip(k)) + e.read_buffer =~= s.read_buffer);
    } else {
        let t = s.framed();
        let n = fixed_len(s.read_buffer.len(), s.chunk_size) as int;
        let head = s.read_buffer.take(n);
        let cut = StreamView { read_buffer: s.read_buffer.skip(n), ..s };
        lemma_queued_wf(cut, head);
        filling_conserves_bytes(t);
        let f = t.filled();
        assert(f.unacked.take(k) =~= f.unacked.take(k + 1).take(k));
        assert(t.unacked.take(k) =~= s.unacked);
        let tail = f.unacked.skip(k + 1);
        assert(f.unacked.skip(k) =~= seq![t.unacked[k]] + tail) by {
            assert(f.unacked[k] == f.unacked.take(k + 1)[k]);
        }
        lemma_joined_front(t.unacked[k], tail);
        assert(joined(f.unacked.skip(k)) + f.read_buffer =~= head + (joined(tail) + f.read_buffer));
        assert(head + s.read_buffer.skip(n) =~= s.read_buffer);
    }
}

proof fn lemma_joined_front(f: FrameView, tail: Seq<FrameView>)
    ensures
        joined(seq![f] + tail) == f.bytes + joined(tail),
    decreases tail.len(),
{
    let all = seq![f] + tail;
    if tail.len() == 0 {
        assert(all.drop_last() =~= Seq::empty());
        assert(all.last() == f);
        assert(joined(Seq::<FrameView>::empty()) =~= Seq::empty());
        assert(tail =~= Seq::empty());
        assert(joined(all) =~= f.bytes + joined(tail));
    } else {
        lemma_joined_front(f, tail.drop_last());
        assert(all.drop_last() =~= seq![f] + tail.drop_last());
        assert(joined(all) =~= f.bytes + joined(tail));
    }
}

/// With fixed frames, every frame that filling queues has exactly `chunk_size`
/// bytes, unless the body is at its end.
pub proof fn fixed_frames_are_full(s: StreamView, i: int)
    requires
        s.wf(),
        s.fixed_chunks,
        !s.source_eof,
        s.unacked.len() <= i < s.filled().unacked.len(),
    ensures
        s.filled().unacked[i].bytes.len() == s.chunk_size,
    decreases s.window - s.unacked.len(),
{
    if s.has_room() && s.wanted() is None {
        let n = fixed_len(s.read_buffer.len(), s.chunk_size) as int;
        lemma_queued_wf(
            StreamView { read_buffer: s.read_buffer.skip(n), ..s },
            s.read_buffer.take(n),
        );
        let t = s.framed();
        filling_conserves_bytes(t);
        if i == s.unacked.len() {
            assert(t.filled().unacked[i] == t.filled().unacked.take(t.unacked.len() as int)[i]);
        } else {
            fixed_frames_are_full(t, i);
        }
    }
}

/// At most `window` frames are ever held, whatever the peer acknowledges.
pub proof fn acking_keeps_order(s: StreamView, ack: usize, now: u64)
    requires
        s.wf(),
        s.next <= usize::MAX,
    ensures
        s.acked(ack, now).wf(),
        s.base <= s.acked(ack, now).base <= s.next,
        s.acked(ack, now).next == s.next,
{
}

/// An ACK without progress that is repeated is answered at most once.
pub proof fn stream_stall_is_replayed_once(s: StreamView, ack: usize, again: usize, now: u64)
    requires
        s.wf(),
        s.next <= usize::MAX,
        ack <= s.base,
        again <= s.base,
    ensures
        !s.acked(ack, now).replays(again),
{
}

/// A stream whose final marker is acknowledged is done.
pub proof fn final_ack_completes(s: StreamView, now: u64)
    requires
        s.wf(),
        s.next <= usize::MAX,
        s.final_queued,
        s.unacked.len() > 0,
    ensures
        s.acked(s.next as usize, now).done(),
{
}

proof fn lemma_frame_keys()
    ensures
        "id"@ != "seq"@,
        "id"@ != "offset"@,
        "id"@ != "data"@,
        "id"@ != "crc32"@,
        "id"@ != "final"@,
        "id"@ != "totalBytes"@,
        "seq"@ != "offset"@,
        "seq"@ != "data"@,
        "seq"@ != "crc32"@,
        "seq"@ != "final"@,
        "seq"@ != "totalBytes"@,
        "offset"@ != "data"@,
        "offset"@ != "crc32"@,
        "offset"@ != "final"@,
        "offset"@ != "totalBytes"@,
        "data"@ != "crc32"@,
        "data"@ != "final"@,
        "data"@ != "totalBytes"@,
        "crc32"@ != "final"@,
        "crc32"@ != "totalBytes"@,
        "final"@ != "totalBytes"@,
{
    reveal_strlit("id");
    reveal_strlit("seq");
    reveal_strlit("offset");
    reveal_strlit("data");
    reveal_strlit("crc32");
    reveal_strlit("final");
    reveal_strlit("totalBytes");
    assert("id"@.len() != "seq"@.len());
    assert("id"@.len() != "offset"@.len());
    assert("id"@.len() != "data"@.len());
    assert("id"@.len() != "crc32"@.len());
    assert("id"@.len() != "final"@.len());
    assert("id"@.len() != "totalBytes"@.len());
    assert("seq"@.len() != "offset"@.len());
    assert("seq"@.len() != "data"@.len());
    assert("seq"@.len() != "crc32"@.len());
    assert("seq"@.len() != "final"@.len());
    assert("seq"@.len() != "totalBytes"@.len());
    assert("offset"@.len() != "data"@.len());
    assert("offset"@.len() != "crc32"@.len());
    assert("offset"@.len() != "final"@.len());
    assert("offset"@.len() != "totalBytes"@.len());
    assert("data"@.len() != "crc32"@.len());
    assert("data"@.len() != "final"@.len());
    assert("data"@.len() != "totalBytes"@.len());
    assert("crc32"@[0] != "final"@[0]);
    assert("crc32"@.len() != "totalBytes"@.len());
    assert("final"@.len() != "totalBytes"@.len());
}

/// The bytes of a word are its digits to the base 256, the highest first.
pub proof fn word_bytes_spell_the_word(n: u32)
    ensures
        be_bytes(n).len() == 4,
        be_bytes(n)[0] * 16777216 + be_bytes(n)[1] * 65536 + be_bytes(n)[2] * 256 + be_bytes(n)[3]
            == n,
{
}

/// A frame message names its stream, its number and the place of its bytes in the
/// body, and carries the bytes with their checksum; the last one, and only that,
/// says how many bytes there were in all.
pub proof fn frame_messages_tell_their_place(id: Seq<char>, f: FrameView, enc: BodyEncoding)
    ensures
        ({
            let m = stream_message(id, f, enc);
            let sum = codec::hex_bytes(m.str_at("crc32"@)->0);
            &&& m.str_at("id"@) == Some(id)
            &&& m.u64_at("seq"@) == Some(f.seq)
            &&& m.u64_at("offset"@) == Some(f.offset)
            &&& m.str_at("data"@) is Some
            &&& codec::encoded(f.bytes, enc) is Some ==> codec::decoded(m.str_at("data"@)->0, enc)
                == f.bytes
            &&& m.str_at("crc32"@) is Some
            &&& sum.len() == 4
            &&& sum[0] * 16777216 + sum[1] * 65536 + sum[2] * 256 + sum[3] == codec::crc32_spec(
                f.bytes,
            )
            &&& m.bool_at("final"@) == if f.final_frame {
                Some(true)
            } else {
                None
            }
            &&& m.u64_at("totalBytes"@) == if f.final_frame {
                Some(f.total_bytes)
            } else {
                None
            }
        }),
{
    lemma_frame_keys();
    if codec::encoded(f.bytes, enc) is Some {
        codec::encoded_bodies_are_read_back(f.bytes, enc);
    }
    let n = codec::crc32_spec(f.bytes);
    codec::hex_round_trip(be_bytes(n));
    word_bytes_spell_the_word(n);
}

/// Frames are numbered one after the other, and each begins where the one before
/// it ends; the last one counts all of them.
pub proof fn frames_follow_one_another(s: StreamView, a: Seq<u8>, b: Seq<u8>)
    requires
        s.total_bytes + a.len() + b.len() <= usize::MAX,
    ensures
        ({
            let t = s.queued(a).queued(b).ended();
            let n = s.unacked.len() as int;
            &&& t.unacked.len() == n + 3
            &&& t.unacked.take(n) == s.unacked
            &&& t.unacked[n].seq == s.next
            &&& t.unacked[n].offset == s.total_bytes
            &&& t.unacked[n].bytes == a
            &&& t.unacked[n + 1].seq == s.next + 1
            &&& t.unacked[n + 1].offset == s.total_bytes + a.len()
            &&& t.unacked[n + 1].bytes == b
            &&& t.unacked[n + 2].seq == s.next + 2
            &&& t.unacked[n + 2].offset == s.total_bytes + a.len() + b.len()
            &&& t.unacked[n + 2].total_bytes == s.total_bytes + a.len() + b.len()
            &&& t.unacked[n + 2].bytes.len() == 0
            &&& !t.unacked[n].final_frame && !t.unacked[n + 1].final_frame && t.unacked[n
                + 2].final_frame
            &&& t.next == s.next + 3
            &&& t.final_queued
        }),
{
    let t = s.queued(a).queued(b).ended();
    assert(t.unacked.take(s.unacked.len() as int) =~= s.unacked);
}

/// Whatever is read goes into the body behind what was read before: into the
/// buffer, or into a frame of its own.
pub proof fn reads_are_kept_in_order(s: StreamView, bytes: Vec<u8>)
    ensures
        ({
            let t = s.fed(ReadOutcome::Data(bytes));
            let n = s.unacked.len() as int;
            &&& s.fixed_chunks ==> t.read_buffer == s.read_buffer + bytes@ && t.unacked == s.unacked
            &&& !s.fixed_chunks && bytes@.len() > 0 ==> t.unacked.len() == n + 1 && t.unacked[n].bytes
                == bytes@ && t.read_buffer == s.read_buffer
            &&& bytes@.len() == 0 ==> t.unacked == s.unacked && t.read_buffer == s.read_buffer
            &&& t.base == s.base && t.final_queued == s.final_queued
            &&& s.fed(ReadOutcome::End).source_eof || s.fed(ReadOutcome::End).final_queued
        }),
{
    assert(s.read_buffer + bytes@ =~= s.read_buffer || bytes@.len() > 0);
}

/// With fixed frames no more is read than the next frame still needs.
pub proof fn reads_fill_one_frame(s: StreamView)
    ensures
        s.wanted() matches Some(n) ==> {
            &&& s.fixed_chunks ==> s.read_buffer.len() + n == s.chunk_size
            &&& !s.fixed_chunks ==> n == s.chunk_size
        },
        s.wanted() is None ==> s.source_eof || s.read_buffer.len() >= s.chunk_size,
{
}

/// An acknowledgement releases the frames below its number and keeps the others,
/// unchanged and in their order.
pub proof fn acknowledged_frames_are_released(s: StreamView, ack: usize, now: u64, f: FrameView)
    requires
        s.wf(),
        s.next <= usize::MAX,
    ensures
        s.acked(ack, now).unacked.contains(f) <==> s.unacked.contains(f) && f.seq >= ack,
        s.acked(ack, now).last_activity == now,
        s.acked(ack, now).read_buffer == s.read_buffer,
        s.acked(ack, now).total_bytes == s.total_bytes,
{
    let t = s.acked(ack, now);
    let d = t.base - s.base;
    if s.ack_limit(ack) <= s.base {
        assert(t.unacked == s.unacked);
        if s.unacked.contains(f) {
            let i = choose|i: int| 0 <= i < s.unacked.len() && s.unacked[i] == f;
            assert(s.unacked[i].seq == s.base + i);
        }
    } else {
        if t.unacked.contains(f) {
            let i = choose|i: int| 0 <= i < t.unacked.len() && t.unacked[i] == f;
            assert(s.unacked[i + d] == f);
            assert(s.unacked[i + d].seq == s.base + i + d);
        }
        if s.unacked.contains(f) && f.seq >= ack {
            let i = choose|i: int| 0 <= i < s.unacked.len() && s.unacked[i] == f;
            assert(s.unacked[i].seq == s.base + i);
            assert(t.unacked[i - d] == f);
        }
    }
}

/// A stream is done only when its end was sent and nothing waits to be
/// acknowledged; until then, frames are sent again where the peer asks twice for
/// the first one that it lacks.
pub proof fn streams_end_when_all_is_acknowledged(s: StreamView, ack: usize)
    ensures
        s.done() ==> s.final_queued && s.unacked =~= Seq::empty(),
        s.final_queued && s.unacked.len() == 0 ==> s.done(),
        s.replays(ack) ==> s.unacked.len() > 0 && (ack <= s.base || s.next <= s.base),
        ack > s.base && s.next > s.base ==> !s.replays(ack),
        s.unacked.len() > 0 && s.retx_base is None && ack <= s.base ==> s.replays(ack),
{
}

/// A new stream has sent nothing and works with what was agreed on: frames and
/// windows of at least one.
pub proof fn streams_start_from_nothing(config: StreamConfig, now: u64)
    ensures
        ({
            let s = fresh_stream(config, now);
            &&& s.wf()
            &&& s.next == 0 && s.base == 0 && s.total_bytes == 0
            &&& s.unacked.len() == 0 && s.read_buffer.len() == 0
            &&& !s.final_queued && !s.source_eof && !s.done()
            &&& config.chunk_size > 0 ==> s.chunk_size == config.chunk_size
            &&& config.window > 0 ==> s.window == config.window
            &&& s.encoding == config.encoding && s.fixed_chunks == config.fixed_chunks
            &&& s.last_activity == now
        }),
{
}

/// Another stream is opened only while fewer than the limit are; one that is open
/// already may always go on.
pub proof fn streams_are_limited(m: Map<PeerKey, PendingStream>, k: PeerKey)
    ensures
        m.dom().contains(k) ==> may_keep(m, k),
        !m.dom().contains(k) ==> (may_keep(m, k) <==> m.dom().len() < 8),
{
}

/// The frames that filling queues lie behind one another in the body: the first one
/// where the bytes that were framed before end, and each later one where the one
/// before it ends; the count of framed bytes goes along.
pub proof fn queued_frames_are_placed(s: StreamView, i: int)
    requires
        s.wf(),
        s.total_bytes + s.read_buffer.len() <= usize::MAX,
        s.unacked.len() <= i < s.filled().unacked.len(),
    ensures
        ({
            let f = s.filled().unacked;
            &&& i == s.unacked.len() ==> f[i].offset == s.total_bytes
            &&& i > s.unacked.len() ==> f[i].offset == f[i - 1].offset + f[i - 1].bytes.len()
            &&& f[i].seq == s.next + i - s.unacked.len()
            &&& f[i].final_frame ==> f[i].total_bytes == f[i].offset && s.filled().total_bytes
                == f[i].offset
        }),
        s.filled().total_bytes + s.filled().read_buffer.len() == s.total_bytes + s.read_buffer.len(),
    decreases s.window - s.unacked.len(),
{
    let k = s.unacked.len() as int;
    filling_conserves_bytes(s);
    lemma_filled_total(s);
    if s.has_room() && s.wanted() is None {
        if s.read_buffer.len() == 0 {
            assert(s.filled() == s.ended());
        } else {
            let n = fixed_len(s.read_buffer.len(), s.chunk_size) as int;
            let cut = StreamView { read_buffer: s.read_buffer.skip(n), ..s };
            lemma_queued_wf(cut, s.read_buffer.take(n));
            let t = s.framed();
            filling_conserves_bytes(t);
            let f = t.filled().unacked;
            assert(f[k] == f.take(k + 1)[k]);
            assert(f[k] == t.unacked[k]);
            if i > k {
                queued_frames_are_placed(t, i);
            }
        }
    }
}

proof fn lemma_filled_total(s: StreamView)
    requires
        s.wf(),
        s.total_bytes + s.read_buffer.len() <= usize::MAX,
    ensures
        s.filled().total_bytes + s.filled().read_buffer.len() == s.total_bytes + s.read_buffer.len(),
    decreases s.window - s.unacked.len(),
{
    if s.has_room() && s.wanted() is None && s.read_buffer.len() > 0 {
        let n = fixed_len(s.read_buffer.len(), s.chunk_size) as int;
        let cut = StreamView { read_buffer: s.read_buffer.skip(n), ..s };
        lemma_queued_wf(cut, s.read_buffer.take(n));
        lemma_filled_total(s.framed());
    }
}

/// A stream that was silent for more than half a minute is given up, and no other one
/// is.
pub proof fn silent_streams_are_given_up(m: Map<PeerKey, PendingStream>, k: PeerKey, now: u64)
    requires
        m.dom().contains(k),
    ensures
        table::still_alive(m, now, STREAM_TIMEOUT).dom().contains(k) <==> now
            <= m[k].last_activity + 30_000_000_000,
{
    table::pruning_takes_the_idle(m, now, STREAM_TIMEOUT, k);
}

} // verus!
