//! The audio device of the watch: frames of MP3 streams, seeking in them, the
//! answers of the device, and the position in a song.
use vstd::prelude::*;

verus! {

pub const EAGAIN: i32 = -11;

pub const EPIPE: i32 = -32;

pub const EINVAL: i32 = -22;

pub const EIO: i32 = -5;

pub const AUDIO_STATE_CONFIGURED: u32 = 2;

pub const AUDIO_STATE_BUFFERING: u32 = 3;

pub const AUDIO_STATE_PLAYING: u32 = 4;

pub const AUDIO_STATE_PAUSED: u32 = 5;

pub const AUDIO_STATE_ERROR: u32 = 8;

/// The bytes of one gesture of a headset.
pub const CONTROL_EVENT_BYTES: i32 = 16;

// ---------------------------------------------------------------- frames

/// A frame of an MP3 stream.
#[derive(Clone, Copy, Debug, PartialEq, Eq, Structural)]
pub struct Mp3Frame {
    pub bytes: u32,
    pub samples: u32,
    pub sample_rate: u32,
}

/// The bit rate of a frame in kilobits, by its version and its index.
pub open spec fn kilobits(version: int, index: int) -> int {
    if version == 3 {
        seq![0int, 32, 40, 48, 56, 64, 80, 96, 112, 128, 160, 192, 224, 256, 320, 0][index]
    } else {
        seq![0int, 8, 16, 24, 32, 40, 48, 56, 64, 80, 96, 112, 128, 144, 160, 0][index]
    }
}

/// The samples per second of a frame, by its version and its index.
pub open spec fn rate(version: int, index: int) -> int {
    let full: int = if index == 0 {
        44100
    } else if index == 1 {
        48000
    } else {
        32000
    };
    if version == 3 {
        full
    } else if version == 2 {
        full / 2
    } else {
        full / 4
    }
}

/// Whether four bytes begin a frame of the third layer: they hold the sync word, a
/// version, a bit rate and a sample rate that exist.
pub open spec fn begins_frame(h: Seq<u8>) -> bool {
    &&& h[0] == 0xff
    &&& h[1] >= 0xe0
    &&& h[1] as int / 8 % 4 != 1
    &&& h[1] as int / 2 % 4 == 1
    &&& 0 < h[2] as int / 16 < 15
    &&& h[2] as int / 4 % 4 != 3
}

/// The frame that four bytes begin.
pub open spec fn frame_of(h: Seq<u8>) -> Option<Mp3Frame> {
    if begins_frame(h) {
        let version = h[1] as int / 8 % 4;
        let sample_rate = rate(version, h[2] as int / 4 % 4);
        let samples: int = if version == 3 {
            1152
        } else {
            576
        };
        let bitrate = kilobits(version, h[2] as int / 16) * 1000;
        let padding = h[2] as int / 2 % 2;
        Some(
            Mp3Frame {
                bytes: (samples / 8 * bitrate / sample_rate + padding) as u32,
                samples: samples as u32,
                sample_rate: sample_rate as u32,
            },
        )
    } else {
        None
    }
}

fn kilobits_of(version: u8, index: u8) -> (r: u32)
    requires
        0 < index < 15,
    ensures
        r == kilobits(version as int, index as int),
        8 <= r <= 320,
{
    if version == 3 {
        match index {
            1 => 32,
            2 => 40,
            3 => 48,
            4 => 56,
            5 => 64,
            6 => 80,
            7 => 96,
            8 => 112,
            9 => 128,
            10 => 160,
            11 => 192,
            12 => 224,
            13 => 256,
            _ => 320,
        }
    } else {
        match index {
            1 => 8,
            2 => 16,
            3 => 24,
            4 => 32,
            5 => 40,
            6 => 48,
            7 => 56,
            8 => 64,
            9 => 80,
            10 => 96,
            11 => 112,
            12 => 128,
            13 => 144,
            _ => 160,
        }
    }
}

proof fn lemma_frame_size(coefficient: int, bitrate: int, sample_rate: int)
    requires
        72 <= coefficient <= 144,
        8000 <= bitrate <= 320000,
        8000 <= sample_rate <= 48000,
    ensures
        12 <= coefficient * bitrate / sample_rate <= 5760,
        0 <= coefficient * bitrate <= 46080000,
{
    assert(72 * 8000 <= coefficient * bitrate <= 144 * 320000) by (nonlinear_arith)
        requires
            72 <= coefficient <= 144,
            8000 <= bitrate <= 320000,
    ;
    let n = coefficient * bitrate;
    assert(12 <= n / sample_rate <= 5760) by (nonlinear_arith)
        requires
            576000 <= n <= 46080000,
            8000 <= sample_rate <= 48000,
    ;
}

/// Reads the header of a frame.
pub fn parse_mp3_frame(header: [u8; 4]) -> (r: Option<Mp3Frame>)
    ensures
        r == frame_of(header@),
        r matches Some(f) ==> f.bytes >= 4 && f.samples <= 1152 && f.sample_rate >= 8000,
{
    let first: u8 = header[0];
    let second: u8 = header[1];
    let third: u8 = header[2];
    let version: u8 = second / 8 % 4;
    let layer: u8 = second / 2 % 4;
    let bitrate_index: u8 = third / 16;
    let rate_index: u8 = third / 4 % 4;
    if first != 0xff || second < 0xe0 || version == 1 || layer != 1 || bitrate_index == 0
        || bitrate_index == 15 || rate_index == 3 {
        return None;
    }
    let full: u32 = match rate_index {
        0 => 44100,
        1 => 48000,
        _ => 32000,
    };
    let sample_rate: u32 = match version {
        3 => full,
        2 => full / 2,
        _ => full / 4,
    };
    let bitrate: u32 = kilobits_of(version, bitrate_index) * 1000;
    let padding: u32 = (third / 2 % 2) as u32;
    let (coefficient, samples): (u32, u32) = if version == 3 {
        (144, 1152)
    } else {
        (72, 576)
    };
    proof {
        lemma_frame_size(coefficient as int, bitrate as int, sample_rate as int);
    }
    let bytes: u32 = coefficient * bitrate / sample_rate + padding;
    Some(Mp3Frame { bytes, samples, sample_rate })
}

// ---------------------------------------------------------------- seeking

/// A search for the frame that stands at a position of a song.
#[derive(Clone, Copy, Debug)]
pub struct SeekScan {
    pub target_us: u64,
    /// Where the frame that is looked at begins.
    pub offset: u64,
    /// How long the frames before it play.
    pub elapsed_us: u64,
    /// Whether the frame before it ended here.
    pub locked: bool,
    /// The last frame that was passed, and when it plays.
    pub last: Option<(u64, u32)>,
    /// A frame that another one has to follow before it is believed.
    pub candidate: Option<Mp3Frame>,
}

/// What a search does next.
#[derive(Clone, Copy, Debug)]
pub enum SeekStep {
    /// Goes on with the header at another place.
    Next(SeekScan),
    /// Ends at a frame and the time at which it plays.
    Found(u64, u32),
    /// Ends with an error.
    Failed(i32),
}

pub open spec fn moved(at: u64, by: int) -> u64 {
    if at + by > u64::MAX {
        u64::MAX
    } else {
        (at + by) as u64
    }
}

/// A time in microseconds as one in milliseconds.
pub open spec fn as_ms(us: u64) -> u32 {
    if us / 1000 > u32::MAX {
        u32::MAX
    } else {
        (us / 1000) as u32
    }
}

/// How long a frame plays.
pub open spec fn frame_us(f: Mp3Frame) -> int {
    f.samples as int * 1000000 / f.sample_rate as int
}

impl SeekScan {
    /// Nothing that was passed plays behind the target.
    pub open spec fn wf(self) -> bool {
        &&& self.elapsed_us <= self.target_us
        &&& self.last matches Some(l) ==> l.1 * 1000 <= self.target_us
        &&& self.candidate matches Some(f) ==> f.bytes >= 4 && f.samples <= 1152 && f.sample_rate
            >= 8000
    }

    /// Where the header stands that the search reads next.
    pub open spec fn place(self) -> u64 {
        match self.candidate {
            Some(f) => moved(self.offset, f.bytes as int),
            None => self.offset,
        }
    }

    /// The search one byte further on.
    pub open spec fn skipping(self) -> SeekScan {
        SeekScan { offset: moved(self.offset, 1), locked: false, candidate: None, ..self }
    }

    /// The search at a frame that is believed: it ends where the frame plays on
    /// beyond the target.
    pub open spec fn passing(self, f: Mp3Frame) -> SeekStep {
        let at = as_ms(self.elapsed_us);
        if self.elapsed_us + frame_us(f) > self.target_us {
            SeekStep::Found(self.offset, at)
        } else {
            SeekStep::Next(
                SeekScan {
                    offset: moved(self.offset, f.bytes as int),
                    elapsed_us: (self.elapsed_us + frame_us(f)) as u64,
                    locked: true,
                    last: Some((self.offset, at)),
                    candidate: None,
                    ..self
                },
            )
        }
    }

    /// The search after it has read a header, or has found the end of the file.
    pub open spec fn scanned(self, header: Option<Seq<u8>>) -> SeekStep {
        match (self.candidate, header) {
            (None, None) => match self.last {
                Some(l) => SeekStep::Found(l.0, l.1),
                None => SeekStep::Failed(EINVAL),
            },
            (None, Some(h)) => match frame_of(h) {
                None => SeekStep::Next(self.skipping()),
                Some(f) => if self.locked {
                    self.passing(f)
                } else {
                    SeekStep::Next(SeekScan { candidate: Some(f), ..self })
                },
            },
            (Some(f), None) => SeekStep::Found(self.offset, as_ms(self.elapsed_us)),
            (Some(f), Some(h)) => if frame_of(h) is None {
                SeekStep::Next(self.skipping())
            } else {
                self.passing(f)
            },
        }
    }
}

fn to_ms(us: u64) -> (r: u32)
    ensures
        r == as_ms(us),
{
    let ms: u64 = us / 1000;
    if ms > u32::MAX as u64 {
        u32::MAX
    } else {
        ms as u32
    }
}

fn move_by(at: u64, by: u32) -> (r: u64)
    ensures
        r == moved(at, by as int),
{
    match at.checked_add(by as u64) {
        Some(n) => n,
        None => u64::MAX,
    }
}

/// Begins the search for a position at the start of a file.
pub fn find_mp3_seek_point(target_ms: u32) -> (r: SeekScan)
    ensures
        r == (SeekScan {
            target_us: (target_ms as int * 1000) as u64,
            offset: 0,
            elapsed_us: 0,
            locked: false,
            last: None,
            candidate: None,
        }),
        r.wf(),
{
    SeekScan {
        target_us: target_ms as u64 * 1000,
        offset: 0,
        elapsed_us: 0,
        locked: false,
        last: None,
        candidate: None,
    }
}

impl SeekScan {
    /// Where the header stands that the search reads next.
    pub fn wanted(&self) -> (r: u64)
        ensures
            r == self.place(),
    {
        match self.candidate {
            Some(f) => move_by(self.offset, f.bytes),
            None => self.offset,
        }
    }

    fn skip(self) -> (r: SeekStep)
        ensures
            r == SeekStep::Next(self.skipping()),
    {
        SeekStep::Next(
            SeekScan {
                target_us: self.target_us,
                offset: move_by(self.offset, 1),
                elapsed_us: self.elapsed_us,
                locked: false,
                last: self.last,
                candidate: None,
            },
        )
    }

    fn pass(self, f: Mp3Frame) -> (r: SeekStep)
        requires
            self.wf(),
            f.samples <= 1152,
            f.sample_rate >= 8000,
        ensures
            r == self.passing(f),
    {
        let at: u32 = to_ms(self.elapsed_us);
        let length: u64 = f.samples as u64 * 1000000 / f.sample_rate as u64;
        if self.target_us - self.elapsed_us < length {
            SeekStep::Found(self.offset, at)
        } else {
            SeekStep::Next(
                SeekScan {
                    target_us: self.target_us,
                    offset: move_by(self.offset, f.bytes),
                    elapsed_us: self.elapsed_us + length,
                    locked: true,
                    last: Some((self.offset, at)),
                    candidate: None,
                },
            )
        }
    }

    /// Goes on with the header that was read, or with the end of the file.
    pub fn step(self, header: Option<[u8; 4]>) -> (r: SeekStep)
        requires
            self.wf(),
        ensures
            r == self.scanned(
                match header {
                    Some(h) => Some(h@),
                    None => None,
                },
            ),
            r matches SeekStep::Next(s) ==> s.wf(),
    {
        proof {
            seek_never_overshoots(
                self,
                match header {
                    Some(h) => Some(h@),
                    None => None,
                },
            );
        }
        match self.candidate {
            None => match header {
                None => match self.last {
                    Some(l) => SeekStep::Found(l.0, l.1),
                    None => SeekStep::Failed(EINVAL),
                },
                Some(h) => match parse_mp3_frame(h) {
                    None => self.skip(),
                    Some(f) => if self.locked {
                        self.pass(f)
                    } else {
                        SeekStep::Next(
                            SeekScan {
                                target_us: self.target_us,
                                offset: self.offset,
                                elapsed_us: self.elapsed_us,
                                locked: self.locked,
                                last: self.last,
                                candidate: Some(f),
                            },
                        )
                    },
                },
            },
            Some(f) => match header {
                None => SeekStep::Found(self.offset, to_ms(self.elapsed_us)),
                Some(h) => match parse_mp3_frame(h) {
                    None => self.skip(),
                    Some(_) => self.pass(f),
                },
            },
        }
    }
}

/// The frame that a search ends at begins to play no later than the target.
pub proof fn seek_never_overshoots(s: SeekScan, header: Option<Seq<u8>>)
    requires
        s.wf(),
    ensures
        s.scanned(header) matches SeekStep::Next(t) ==> t.wf() && t.target_us == s.target_us,
        s.scanned(header) matches SeekStep::Found(at, ms) ==> ms * 1000 <= s.target_us,
{
    assert(as_ms(s.elapsed_us) * 1000 <= s.elapsed_us);
    if let Some(h) = header {
        lemma_frame_bounds(h);
    }
}

/// A search never goes back, and rests at a place only to look at what follows it.
pub proof fn seek_moves_on(s: SeekScan, header: Option<Seq<u8>>)
    requires
        s.wf(),
        s.offset < u64::MAX,
    ensures
        s.scanned(header) matches SeekStep::Next(t) ==> s.offset < t.offset || (s.offset == t.offset
            && s.candidate is None && t.candidate is Some),
{
    if let Some(h) = header {
        lemma_frame_bounds(h);
    }
}

proof fn lemma_frame_bounds(h: Seq<u8>)
    ensures
        frame_of(h) matches Some(f) ==> f.bytes >= 4 && f.samples <= 1152 && f.sample_rate >= 8000,
{
    if begins_frame(h) {
        let version = h[1] as int / 8 % 4;
        let index = h[2] as int / 16;
        let sample_rate = rate(version, h[2] as int / 4 % 4);
        let coefficient: int = if version == 3 {
            144
        } else {
            72
        };
        assert(8 <= kilobits(version, index) <= 320);
        lemma_frame_size(coefficient, kilobits(version, index) * 1000, sample_rate);
    }
}

// ---------------------------------------------------------------- the device

/// What the device says of itself.
#[derive(Clone, Copy, Debug)]
pub struct AudioStatus {
    pub state: u32,
    pub last_error: i32,
}

/// Whether the device takes bytes in a state.
pub open spec fn takes_input(state: u32) -> bool {
    state == AUDIO_STATE_CONFIGURED || state == AUDIO_STATE_BUFFERING || state
        == AUDIO_STATE_PLAYING || state == AUDIO_STATE_PAUSED
}

/// Tells a full device, which takes no byte now, from one that failed, by its state.
pub fn classify_generic_write_failure(status: Option<AudioStatus>) -> (r: Result<usize, i32>)
    ensures
        r == match status {
            None => Err(-1i32),
            Some(s) => if takes_input(s.state) {
                Ok(0usize)
            } else if s.last_error < 0 {
                Err(s.last_error)
            } else if s.state == AUDIO_STATE_ERROR {
                Err(EIO)
            } else {
                Err(EPIPE)
            },
        },
        r is Ok <==> status is Some && takes_input(status->0.state),
        r matches Err(e) ==> status matches Some(s) ==> s.last_error < 0 ==> e == s.last_error,
        r matches Err(e) ==> e < 0,
{
    match status {
        None => Err(-1),
        Some(s) => {
            if s.state == AUDIO_STATE_ERROR {
                return Err(
                    if s.last_error < 0 {
                        s.last_error
                    } else {
                        EIO
                    },
                );
            }
            if s.state == AUDIO_STATE_CONFIGURED || s.state == AUDIO_STATE_BUFFERING || s.state
                == AUDIO_STATE_PLAYING || s.state == AUDIO_STATE_PAUSED {
                return Ok(0);
            }
            Err(
                if s.last_error < 0 {
                    s.last_error
                } else {
                    EPIPE
                },
            )
        },
    }
}

/// The error behind the answer of a system call: an answer of -1 hides it, and the
/// error number of the task tells it.
pub open spec fn told_error(raw: i32, errno: i32) -> int {
    if raw == -1 && errno > 0 {
        -errno
    } else {
        raw as int
    }
}

pub fn neg_errno(raw: i32, errno: i32) -> (r: i32)
    ensures
        r == told_error(raw, errno),
{
    if raw == -1 && errno > 0 {
        -errno
    } else {
        raw
    }
}

/// What the answer to a write means.
#[derive(Clone, Copy, Debug, PartialEq, Eq, Structural)]
pub enum WriteOutcome {
    /// So many bytes were taken.
    Taken(usize),
    Failed(i32),
    /// The answer does not say: the state of the device has to be asked.
    Unclear,
}

/// Reads the answer to a write and the error number that it left.
pub fn write_outcome(result: i32, errno: i32) -> (r: WriteOutcome)
    ensures
        r == if result >= 0 {
            WriteOutcome::Taken(result as usize)
        } else if told_error(result, errno) == EAGAIN {
            WriteOutcome::Taken(0)
        } else if result == -1 && errno <= 0 {
            WriteOutcome::Unclear
        } else {
            WriteOutcome::Failed(told_error(result, errno) as i32)
        },
        r matches WriteOutcome::Taken(n) ==> n == result || n == 0,
        result >= 0 ==> r is Taken,
        r matches WriteOutcome::Failed(e) ==> e < 0 && e != EAGAIN,
{
    if result == EAGAIN {
        WriteOutcome::Taken(0)
    } else if result == -1 {
        if errno == 11 {
            WriteOutcome::Taken(0)
        } else if errno > 0 {
            WriteOutcome::Failed(-errno)
        } else {
            WriteOutcome::Unclear
        }
    } else if result < 0 {
        WriteOutcome::Failed(result)
    } else {
        WriteOutcome::Taken(result as usize)
    }
}

/// A gesture of a headset.
#[derive(Clone, Copy, Debug, PartialEq, Eq, Structural)]
pub enum MediaControl {
    Play,
    Pause,
    Next,
    Previous,
}

/// The gesture of a kind. A kind that is not known is none.
pub open spec fn gesture(kind: u32) -> Option<MediaControl> {
    if kind == 1 {
        Some(MediaControl::Play)
    } else if kind == 2 {
        Some(MediaControl::Pause)
    } else if kind == 3 {
        Some(MediaControl::Next)
    } else if kind == 4 {
        Some(MediaControl::Previous)
    } else {
        None
    }
}

/// Reads the answer to a read of the queue of gestures: an empty queue is no error.
pub fn headset_control(count: i32, errno: i32, kind: u32) -> (r: Result<Option<MediaControl>, i32>)
    ensures
        r == if count < 0 {
            if told_error(count, errno) == EAGAIN {
                Ok(None)
            } else {
                Err(told_error(count, errno) as i32)
            }
        } else if count != CONTROL_EVENT_BYTES {
            Err(EIO)
        } else {
            Ok(gesture(kind))
        },
        r matches Ok(Some(_)) ==> count == CONTROL_EVENT_BYTES && 1 <= kind <= 4,
        r matches Err(e) ==> e < 0 && e != EAGAIN,
{
    if count < 0 {
        let error: i32 = neg_errno(count, errno);
        if error == EAGAIN {
            return Ok(None);
        }
        return Err(error);
    }
    if count != CONTROL_EVENT_BYTES {
        return Err(EIO);
    }
    Ok(
        match kind {
            1 => Some(MediaControl::Play),
            2 => Some(MediaControl::Pause),
            3 => Some(MediaControl::Next),
            4 => Some(MediaControl::Previous),
            _ => None,
        },
    )
}

// ---------------------------------------------------------------- position

/// Reads the answer of the monotonic clock as milliseconds.
pub fn monotonic_ms(result: i32, seconds: i64, nanoseconds: i64) -> (r: Option<u64>)
    ensures
        r == if result == 0 && seconds >= 0 && 0 <= nanoseconds < 1000000000 {
            Some(
                if seconds * 1000 + nanoseconds / 1000000 > u64::MAX {
                    u64::MAX
                } else {
                    (seconds * 1000 + nanoseconds / 1000000) as u64
                },
            )
        } else {
            None
        },
        r matches Some(ms) ==> seconds < 18446744073709551 ==> ms * 1000000 <= seconds * 1000000000
            + nanoseconds < (ms + 1) * 1000000,
{
    if result != 0 || seconds < 0 || nanoseconds < 0 || nanoseconds >= 1000000000 {
        return None;
    }
    let part: u64 = nanoseconds as u64 / 1000000;
    match (seconds as u64).checked_mul(1000) {
        Some(n) => match n.checked_add(part) {
            Some(sum) => Some(sum),
            None => Some(u64::MAX),
        },
        None => Some(u64::MAX),
    }
}

/// Counts the position in a song.
#[derive(Clone, Copy, Debug)]
pub struct PositionClock {
    /// What was played before the clock ran.
    pub base_ms: u32,
    /// When the clock began to run.
    pub started_at_ms: Option<u64>,
}

/// The position after a time has passed.
pub open spec fn advanced(base: u32, started: u64, now: u64) -> u32 {
    let passed = if now <= started {
        0
    } else {
        now - started
    };
    if base + passed > u32::MAX {
        u32::MAX
    } else {
        (base + passed) as u32
    }
}

fn advance(base: u32, started: u64, now: u64) -> (r: u32)
    ensures
        r == advanced(base, started, now),
{
    let passed: u64 = if now <= started {
        0
    } else {
        now - started
    };
    if passed > (u32::MAX - base) as u64 {
        u32::MAX
    } else {
        base + passed as u32
    }
}

impl PositionClock {
    /// The position while the clock runs.
    pub open spec fn at(self, now: u64) -> Option<u32> {
        match self.started_at_ms {
            Some(started) => Some(advanced(self.base_ms, started, now)),
            None => None,
        }
    }

    /// The clock at rest.
    pub open spec fn frozen(self, now: Option<u64>) -> PositionClock {
        PositionClock {
            base_ms: match (self.started_at_ms, now) {
                (Some(started), Some(n)) => advanced(self.base_ms, started, n),
                _ => self.base_ms,
            },
            started_at_ms: None,
        }
    }

    pub fn new() -> (r: PositionClock)
        ensures
            r == (PositionClock { base_ms: 0, started_at_ms: None }),
    {
        PositionClock { base_ms: 0, started_at_ms: None }
    }

    /// Lets the clock run on.
    pub fn run(self, now: Option<u64>) -> (r: PositionClock)
        ensures
            r == (PositionClock { started_at_ms: now, ..self }),
    {
        PositionClock { base_ms: self.base_ms, started_at_ms: now }
    }

    /// Puts the clock to rest and keeps the position.
    pub fn freeze_position_clock(self, now: Option<u64>) -> (r: PositionClock)
        ensures
            r == self.frozen(now),
    {
        let base: u32 = match (self.started_at_ms, now) {
            (Some(started), Some(n)) => advance(self.base_ms, started, n),
            _ => self.base_ms,
        };
        PositionClock { base_ms: base, started_at_ms: None }
    }

    /// The position in the song that is open. A clock at rest tells none.
    pub fn playback_position_ms(&self, open: bool, now: Option<u64>) -> (r: Option<u32>)
        ensures
            r == match now {
                Some(n) if open => self.at(n),
                _ => None,
            },
    {
        if !open {
            return None;
        }
        match (self.started_at_ms, now) {
            (Some(started), Some(n)) => Some(advance(self.base_ms, started, n)),
            _ => None,
        }
    }
}

/// A pause of any length leaves the position where it was.
pub proof fn pausing_keeps_the_position(clock: PositionClock, paused: u64, resumed: u64)
    requires
        clock.started_at_ms is Some,
    ensures
        (PositionClock {
            started_at_ms: Some(resumed),
            ..clock.frozen(Some(paused))
        }).at(resumed) == clock.at(paused),
{
}

// ---------------------------------------------------------------- laws

/// The player takes for a frame what an import takes for one, and of the same
/// length.
pub proof fn players_and_imports_agree_on_frames(h: Seq<u8>)
    requires
        h.len() == 4,
    ensures
        frame_of(h) is Some <==> crate::lyra_import::sniff::frame_len(h) is Some,
        frame_of(h) matches Some(f) ==> crate::lyra_import::sniff::frame_len(h) == Some(f.bytes as int),
{
    lemma_frame_bounds(h);
    if begins_frame(h) {
        let version = h[1] as int / 8 % 4;
        let i = h[2] as int / 16;
        let r = h[2] as int / 4 % 4;
        assert(kilobits(version, i) == if version == 3 {
            crate::lyra_import::sniff::mpeg1_kbps()[i] as int
        } else {
            crate::lyra_import::sniff::mpeg2_kbps()[i] as int
        });
        assert(rate(3, r) == crate::lyra_import::sniff::sample_rates()[r]);
        let k = kilobits(version, i);
        assert(1152int / 8 * (k * 1000) == 144 * k * 1000);
        assert(576int / 8 * (k * 1000) == 72 * k * 1000);
        assert(8 <= k <= 320);
        assert(8000 <= rate(version, r) <= 48000);
        lemma_frame_fits(144 * k * 1000, rate(version, r));
        lemma_frame_fits(72 * k * 1000, rate(version, r));
    }
}

proof fn lemma_frame_fits(n: int, r: int)
    by (nonlinear_arith)
    requires
        0 <= n <= 144 * 320 * 1000,
        8000 <= r,
    ensures
        0 <= n / r <= 5760,
{
}

/// A frame plays as long as its samples take at its rate: twenty-six milliseconds
/// and a bit for 1152 samples at 44100 in a second.
pub proof fn frames_play_their_samples(f: Mp3Frame)
    requires
        f.sample_rate > 0,
    ensures
        frame_us(f) * f.sample_rate <= f.samples * 1000000 < (frame_us(f) + 1) * f.sample_rate,
        frame_us(f) >= 0,
{
    let n = f.samples as int * 1000000;
    let r = f.sample_rate as int;
    assert((n / r) * r <= n < (n / r + 1) * r && n / r >= 0) by (nonlinear_arith)
        requires
            r > 0,
            n >= 0,
    ;
}

/// The bytes of some frames, and how long they play.
pub open spec fn bytes_of(frames: Seq<Mp3Frame>) -> int
    decreases frames.len(),
{
    if frames.len() == 0 {
        0
    } else {
        frames[0].bytes + bytes_of(frames.skip(1))
    }
}

pub open spec fn time_of(frames: Seq<Mp3Frame>) -> int
    decreases frames.len(),
{
    if frames.len() == 0 {
        0
    } else {
        frame_us(frames[0]) + time_of(frames.skip(1))
    }
}

/// What a search makes of frames that follow one another.
pub open spec fn passed(s: SeekScan, frames: Seq<Mp3Frame>) -> SeekStep
    decreases frames.len(),
{
    if frames.len() == 0 {
        SeekStep::Next(s)
    } else {
        match s.passing(frames[0]) {
            SeekStep::Next(t) => passed(t, frames.skip(1)),
            other => other,
        }
    }
}

/// A search passes the frames that are over before the target, counting their bytes
/// and their time, and ends at the first frame that plays at the target.
pub proof fn searches_count_bytes_and_time(s: SeekScan, frames: Seq<Mp3Frame>, f: Mp3Frame)
    requires
        forall|i: int| 0 <= i < frames.len() ==> (#[trigger] frames[i]).sample_rate > 0,
        f.sample_rate > 0,
        s.elapsed_us + time_of(frames) <= s.target_us,
        s.elapsed_us + time_of(frames) + frame_us(f) > s.target_us,
        s.offset + bytes_of(frames) <= u64::MAX,
    ensures
        passed(s, frames) matches SeekStep::Next(t) && t.offset == s.offset + bytes_of(frames)
            && t.elapsed_us == s.elapsed_us + time_of(frames) && t.target_us == s.target_us,
        passed(s, frames + seq![f]) == SeekStep::Found(
            (s.offset + bytes_of(frames)) as u64,
            as_ms((s.elapsed_us + time_of(frames)) as u64),
        ),
    decreases frames.len(),
{
    let all = frames + seq![f];
    if frames.len() == 0 {
        assert(all[0] == f);
    } else {
        let first = frames[0];
        let rest = frames.skip(1);
        frames_play_their_samples(first);
        assert forall|i: int| 0 <= i < rest.len() implies (#[trigger] rest[i]).sample_rate > 0 by {
            assert(rest[i] == frames[i + 1]);
        }
        lemma_sums_positive(rest);
        assert(s.passing(first) is Next);
        let t = s.passing(first)->Next_0;
        searches_count_bytes_and_time(t, rest, f);
        assert(all.skip(1) =~= rest + seq![f]);
        assert(all[0] == first);
    }
}

proof fn lemma_sums_positive(frames: Seq<Mp3Frame>)
    requires
        forall|i: int| 0 <= i < frames.len() ==> (#[trigger] frames[i]).sample_rate > 0,
    ensures
        bytes_of(frames) >= 0,
        time_of(frames) >= 0,
    decreases frames.len(),
{
    if frames.len() > 0 {
        frames_play_their_samples(frames[0]);
        let rest = frames.skip(1);
        assert forall|i: int| 0 <= i < rest.len() implies (#[trigger] rest[i]).sample_rate > 0 by {
            assert(rest[i] == frames[i + 1]);
        }
        lemma_sums_positive(rest);
    }
}

/// Bytes that begin no frame are passed one by one and take no time, and a first
/// frame is believed only where another one follows it.
pub proof fn noise_takes_no_time(s: SeekScan, h: Seq<u8>)
    requires
        s.candidate is None,
        s.offset < u64::MAX,
    ensures
        frame_of(h) is None ==> (s.scanned(Some(h)) matches SeekStep::Next(t) && t.offset == s.offset
            + 1 && t.elapsed_us == s.elapsed_us && !t.locked && t.last == s.last),
        frame_of(h) is Some && !s.locked ==> (s.scanned(Some(h)) matches SeekStep::Next(t)
            && t.candidate == frame_of(h) && t.offset == s.offset && t.elapsed_us == s.elapsed_us),
{
}

/// The position runs with the clock: as much later as time passed, from where it
/// was when it began to run.
pub proof fn positions_run_with_time(base: u32, started: u64, passed: u64, more: u64)
    requires
        started + passed + more <= u64::MAX,
    ensures
        advanced(base, started, started) == base,
        base + passed <= u32::MAX ==> advanced(base, started, (started + passed) as u64) == base
            + passed,
        advanced(base, started, (started + passed) as u64) <= advanced(
            base,
            started,
            (started + passed + more) as u64,
        ),
        base <= advanced(base, started, more),
{
}

/// A clock that stands has no running position, and stopping it keeps what was
/// played.
pub proof fn stopped_clocks_keep_their_base(clock: PositionClock, now: u64)
    ensures
        clock.frozen(Some(now)).started_at_ms is None,
        clock.at(now) matches Some(p) ==> clock.frozen(Some(now)).base_ms == p,
        clock.started_at_ms is None ==> clock.at(now) is None && clock.frozen(Some(now)).base_ms
            == clock.base_ms,
{
}

/// Times are told in whole milliseconds, rounded down.
pub proof fn times_are_rounded_down(us: u64)
    ensures
        as_ms(us) < u32::MAX ==> as_ms(us) * 1000 <= us < (as_ms(us) + 1) * 1000,
        as_ms(us) * 1000 <= us,
{
}

/// The four gestures of a headset are told apart, and nothing else is one.
pub proof fn gestures_are_told_apart(a: u32, b: u32)
    ensures
        gesture(a) is Some <==> 1 <= a <= 4,
        gesture(a) is Some && gesture(a) == gesture(b) ==> a == b,
        gesture(1) == Some(MediaControl::Play),
        gesture(2) == Some(MediaControl::Pause),
        gesture(3) == Some(MediaControl::Next),
        gesture(4) == Some(MediaControl::Previous),
{
}

/// An error is told by its number: the one that the call gave, or, where that says
/// nothing, the one behind it.
pub proof fn errors_are_told_by_number(raw: i32, errno: i32)
    ensures
        raw != -1 ==> told_error(raw, errno) == raw,
        raw == -1 && errno > 0 ==> told_error(raw, errno) == -errno,
        raw == -1 && errno <= 0 ==> told_error(raw, errno) == -1,
        raw < 0 ==> told_error(raw, errno) < 0,
{
}

/// A device takes sound from the moment it is set up until it stops.
pub proof fn running_devices_take_input(state: u32)
    ensures
        takes_input(state) <==> 2 <= state <= 5,
        !takes_input(AUDIO_STATE_ERROR),
{
}

/// At the end of a file a search rests at the last frame that it passed, or at the
/// one that it was about to believe; a file without frames is an error.
pub proof fn searches_rest_at_the_last_frame(s: SeekScan, h: Seq<u8>)
    ensures
        s.candidate is None && s.last is Some ==> s.scanned(None) == SeekStep::Found(
            s.last->Some_0.0,
            s.last->Some_0.1,
        ),
        s.candidate is None && s.last is None ==> s.scanned(None) is Failed,
        s.candidate is Some ==> s.scanned(None) == SeekStep::Found(s.offset, as_ms(s.elapsed_us)),
        s.candidate matches Some(f) ==> frame_of(h) is Some ==> s.scanned(Some(h)) == s.passing(f),
        s.candidate is Some && frame_of(h) is None && s.offset < u64::MAX ==> (
        s.scanned(Some(h)) matches SeekStep::Next(t) && t.offset == s.offset + 1 && t.candidate
            is None),
        s.candidate is None && s.locked && frame_of(h) is Some ==> s.scanned(Some(h)) == s.passing(
            frame_of(h)->0,
        ),
{
}

} // verus!
