//! Timed lyrics.
use vstd::prelude::*;
use vstd::slice::*;
use vstd::string::*;

use crate::text;

verus! {

#[derive(Clone, Debug, PartialEq, Eq)]
pub struct LyricLine {
    pub at_ms: u32,
    pub text: String,
    pub translation: Option<String>,
}

/// Lines in the order of their times.
#[derive(Clone, Debug, PartialEq, Eq)]
pub struct Lyrics {
    pub lines: Vec<LyricLine>,
}

#[derive(Clone, Copy, Debug, PartialEq, Eq, Structural)]
pub enum LyricError {
    Json,
    Server(i32),
}

/// The mathematical value of a [`LyricLine`].
pub struct LineView {
    pub at_ms: u32,
    pub text: Seq<char>,
    pub translation: Option<Seq<char>>,
}

impl LyricLine {
    pub open spec fn view(&self) -> LineView {
        LineView {
            at_ms: self.at_ms,
            text: self.text@,
            translation: text::opt_text(self.translation),
        }
    }
}

pub open spec fn lines_view(lines: Seq<LyricLine>) -> Seq<LineView> {
    lines.map_values(|l: LyricLine| l@)
}

/// Whether no line comes before one that stands in front of it.
pub open spec fn ordered(lines: Seq<LyricLine>) -> bool {
    forall|i: int, j: int|
        0 <= i < j < lines.len() ==> (#[trigger] lines[i]).at_ms <= (#[trigger] lines[j]).at_ms
}

/// Whether lines have rising times.
pub open spec fn rising(lines: Seq<LineView>) -> bool {
    forall|i: int, j: int|
        0 <= i < j < lines.len() ==> (#[trigger] lines[i]).at_ms < (#[trigger] lines[j]).at_ms
}

impl Default for LyricLine {
    fn default() -> (r: Self)
        ensures
            r.at_ms == 0,
            r.text@.len() == 0,
            r.translation is None,
    {
        LyricLine { at_ms: 0, text: String::new(), translation: None }
    }
}

impl Default for Lyrics {
    fn default() -> (r: Self)
        ensures
            r.lines@.len() == 0,
    {
        Lyrics { lines: Vec::new() }
    }
}

impl Lyrics {
    pub open spec fn view(&self) -> Seq<LineView> {
        lines_view(self.lines@)
    }

    /// How many lines have begun at a position.
    pub open spec fn begun(self, position_ms: u32, n: int) -> bool {
        &&& 0 <= n <= self.lines@.len()
        &&& forall|i: int| 0 <= i < n ==> (#[trigger] self.lines@[i]).at_ms <= position_ms
        &&& forall|i: int|
            n <= i < self.lines@.len() ==> (#[trigger] self.lines@[i]).at_ms > position_ms
    }

    /// The line that is sung at a position: the last one that has begun.
    pub fn active_index(&self, position_ms: u32) -> (r: Option<usize>)
        requires
            ordered(self.lines@),
        ensures
            match r {
                Some(i) => self.begun(position_ms, i + 1),
                None => self.begun(position_ms, 0),
            },
    {
        let mut low: usize = 0;
        let mut high: usize = self.lines.len();
        while low < high
            invariant
                low <= high <= self.lines@.len(),
                ordered(self.lines@),
                forall|i: int| 0 <= i < low ==> (#[trigger] self.lines@[i]).at_ms <= position_ms,
                forall|i: int|
                    high <= i < self.lines@.len() ==> (#[trigger] self.lines@[i]).at_ms
                        > position_ms,
            decreases high - low,
        {
            let middle: usize = low + (high - low) / 2;
            if self.lines[middle].at_ms <= position_ms {
                low = middle + 1;
            } else {
                high = middle;
            }
        }
        if low > 0 {
            Some(low - 1)
        } else {
            None
        }
    }

    /// The lines around the one that is sung at a position.
    pub fn active_window(&self, position_ms: u32, radius: usize) -> (r: &[LyricLine])
        requires
            ordered(self.lines@),
        ensures
            self.begun(position_ms, 0) ==> r@.len() == 0,
            forall|n: int| #[trigger]
                self.begun(position_ms, n) && n > 0 ==> r@ == self.lines@.subrange(
                    if n - 1 < radius {
                        0
                    } else {
                        n - 1 - radius
                    },
                    if n + radius > self.lines@.len() {
                        self.lines@.len() as int
                    } else {
                        n + radius
                    },
                ),
            r@.len() <= 2 * radius + 1,
            forall|n: int| #[trigger]
                self.begun(position_ms, n) && n > 0 ==> r@.contains(self.lines@[n - 1]),
    {
        let total: usize = self.lines.len();
        match self.active_index(position_ms) {
            None => {
                proof {
                    assert forall|n: int| #[trigger] self.begun(position_ms, n) implies n == 0 by {
                        if n > 0 {
                            assert(self.lines@[0].at_ms <= position_ms);
                            assert(self.lines@[0].at_ms > position_ms);
                        }
                    }
                }
                slice_subrange(self.lines.as_slice(), 0, 0)
            },
            Some(i) => {
                let start: usize = if i < radius {
                    0
                } else {
                    i - radius
                };
                let end: usize = if radius > total - (i + 1) {
                    total
                } else {
                    i + 1 + radius
                };
                proof {
                    assert(self.begun(position_ms, i + 1));
                    assert(self.lines@[i as int].at_ms <= position_ms);
                    assert forall|n: int| #[trigger] self.begun(position_ms, n) implies n == i + 1 by {
                        if n < i + 1 {
                            assert(self.lines@[n].at_ms > position_ms);
                            assert(self.lines@[n].at_ms <= position_ms);
                        } else if n > i + 1 {
                            assert(self.lines@[i + 1].at_ms <= position_ms);
                            assert(self.lines@[i + 1].at_ms > position_ms);
                        }
                    }
                }
                let window = slice_subrange(self.lines.as_slice(), start, end);
                assert(window@[i - start] == self.lines@[i as int]);
                window
            },
        }
    }
}

// ---------------------------------------------------------------- stamps

/// The thousandths of a second that digits behind the point stand for; digits
/// past the third are ignored.
pub open spec fn fraction_ms(f: Seq<char>) -> Option<nat> {
    if f.len() == 0 {
        Some(0)
    } else if f.len() == 1 {
        match text::parsed_uint(f, u32::MAX as nat) {
            Some(n) => Some(n * 100),
            None => None,
        }
    } else if f.len() == 2 {
        match text::parsed_uint(f, u32::MAX as nat) {
            Some(n) => Some(n * 10),
            None => None,
        }
    } else {
        text::parsed_uint(f.take(3), u32::MAX as nat)
    }
}

/// The time in thousandths of a second that minutes, seconds and a fraction
/// spell.
pub open spec fn stamp(value: Seq<char>) -> Option<nat> {
    if !value.contains(':') {
        None
    } else {
        let m = text::head(value, ':');
        let rest = value.skip(m.len() as int + 1);
        let s = text::head(rest, '.');
        let f = if rest.contains('.') {
            rest.skip(s.len() as int + 1)
        } else {
            "0"@
        };
        match (
            text::parsed_uint(m, u32::MAX as nat),
            text::parsed_uint(
                if rest.contains('.') {
                    s
                } else {
                    rest
                },
                u32::MAX as nat,
            ),
            fraction_ms(f),
        ) {
            (Some(m), Some(s), Some(f)) => if m * 60000 + s * 1000 + f <= u32::MAX {
                Some(m * 60000 + s * 1000 + f)
            } else {
                None
            },
            _ => None,
        }
    }
}

fn number(s: &str) -> (r: Option<u64>)
    ensures
        match r {
            Some(n) => text::parsed_uint(s@, u32::MAX as nat) == Some(n as nat) && n <= u32::MAX,
            None => text::parsed_uint(s@, u32::MAX as nat) is None,
        },
{
    text::parse_uint(s, u32::MAX as u64)
}

fn fraction_of(f: &str) -> (r: Option<u64>)
    ensures
        match r {
            Some(n) => fraction_ms(f@) == Some(n as nat) && n <= 100 * u32::MAX,
            None => fraction_ms(f@) is None,
        },
{
    let chars = text::chars_of(f);
    if chars.len() == 0 {
        Some(0)
    } else if chars.len() == 1 {
        match number(f) {
            Some(n) => Some(n * 100),
            None => None,
        }
    } else if chars.len() == 2 {
        match number(f) {
            Some(n) => Some(n * 10),
            None => None,
        }
    } else {
        let first = slice_subrange(chars.as_slice(), 0, 3);
        assert(first@ =~= f@.take(3));
        let kept = text::string_of(first);
        number(kept.as_str())
    }
}

/// Reads the time between the brackets of a line.
pub fn parse_timestamp(value: &str) -> (r: Option<u32>)
    ensures
        match r {
            Some(n) => stamp(value@) == Some(n as nat),
            None => stamp(value@) is None,
        },
{
    let (minutes, rest) = match text::split_once(value, ':') {
        Some((a, b)) => (a, b),
        None => {
            return None;
        },
    };
    let m = number(minutes.as_str());
    let (s, f) = match text::split_once(rest.as_str(), '.') {
        Some((a, b)) => (number(a.as_str()), fraction_of(b.as_str())),
        None => (number(rest.as_str()), fraction_of("0")),
    };
    match (m, s, f) {
        (Some(m), Some(s), Some(f)) => {
            let ms: u64 = m * 60000 + s * 1000 + f;
            if ms <= u32::MAX as u64 {
                Some(ms as u32)
            } else {
                None
            }
        },
        _ => None,
    }
}

/// The times in front of a line, in their order; what is no time is passed over.
pub open spec fn stamps(s: Seq<char>) -> Seq<nat>
    decreases s.len(),
{
    if s.len() == 0 || s[0] != '[' || !s.skip(1).contains(']') {
        Seq::empty()
    } else {
        let inside = text::head(s.skip(1), ']');
        let rest = s.skip(inside.len() as int + 2);
        proof {
            text::head_is_shorter(s.skip(1), ']');
        }
        match stamp(inside) {
            Some(n) => seq![n] + stamps(rest),
            None => stamps(rest),
        }
    }
}

/// What stands behind the brackets of a line.
pub open spec fn words(s: Seq<char>) -> Seq<char>
    decreases s.len(),
{
    if s.len() == 0 || s[0] != '[' || !s.skip(1).contains(']') {
        text::trimmed(s)
    } else {
        proof {
            text::head_is_shorter(s.skip(1), ']');
        }
        words(s.skip(text::head(s.skip(1), ']').len() as int + 2))
    }
}

pub open spec fn times_view(t: Seq<u32>) -> Seq<nat> {
    t.map_values(|n: u32| n as nat)
}

fn read_line(line: &str) -> (r: (Vec<u32>, String))
    ensures
        times_view(r.0@) == stamps(line@),
        r.1@ == words(line@),
{
    let mut times: Vec<u32> = Vec::new();
    let mut rest = line.to_owned();
    let mut open = true;
    assert(times_view(times@) + stamps(line@) =~= stamps(line@));
    while open
        invariant
            times_view(times@) + stamps(rest@) == stamps(line@),
            words(rest@) == words(line@),
            !open ==> stamps(rest@).len() == 0 && words(rest@) == text::trimmed(rest@),
        decreases rest@.len() + (if open {
            1nat
        } else {
            0nat
        }),
    {
        let ghost here = rest@;
        let chars = text::chars_of(rest.as_str());
        if chars.len() == 0 || chars[0] != '[' {
            open = false;
        } else {
            let behind = text::string_of(slice_subrange(chars.as_slice(), 1, chars.len()));
            assert(behind@ =~= here.skip(1));
            match text::split_once(behind.as_str(), ']') {
                None => {
                    open = false;
                },
                Some((inside, next)) => {
                    proof {
                        text::head_is_shorter(here.skip(1), ']');
                    }
                    assert(next@ =~= here.skip(inside@.len() as int + 2));
                    let ghost before = times@;
                    match parse_timestamp(inside.as_str()) {
                        Some(n) => {
                            times.push(n);
                            proof {
                                assert(times_view(times@) =~= times_view(before).push(n as nat));
                                assert(times_view(before) + (seq![n as nat] + stamps(next@))
                                    =~= times_view(times@) + stamps(next@));
                            }
                        },
                        None => {},
                    }
                    rest = next;
                },
            }
        }
    }
    assert(times_view(times@) + stamps(rest@) =~= times_view(times@));
    let text = text::trim(rest.as_str());
    (times, text)
}

// ---------------------------------------------------------------- lines

/// Lines with one more, in its place. Of several at one time the first one that
/// has words counts.
pub open spec fn with_line(lines: Seq<LineView>, at: u32, words: Seq<char>) -> Seq<LineView>
    decreases lines.len(),
{
    if lines.len() == 0 || lines.last().at_ms < at {
        lines.push(LineView { at_ms: at, text: words, translation: None })
    } else if lines.last().at_ms == at {
        if lines.last().text.len() == 0 {
            lines.drop_last().push(LineView { text: words, ..lines.last() })
        } else {
            lines
        }
    } else {
        with_line(lines.drop_last(), at, words).push(lines.last())
    }
}

/// Lines with one more for each of some times.
pub open spec fn with_times(lines: Seq<LineView>, times: Seq<nat>, words: Seq<char>) -> Seq<LineView>
    decreases times.len(),
{
    if times.len() == 0 {
        lines
    } else {
        with_line(with_times(lines, times.drop_last(), words), times.last() as u32, words)
    }
}

/// The lines of a text.
pub open spec fn lines_of(rows: Seq<Seq<char>>) -> Seq<LineView>
    decreases rows.len(),
{
    if rows.len() == 0 {
        Seq::empty()
    } else {
        with_times(lines_of(rows.drop_last()), stamps(rows.last()), words(rows.last()))
    }
}

proof fn lemma_with_line(lines: Seq<LineView>, at: u32, words: Seq<char>, i: int)
    requires
        rising(lines),
        0 <= i <= lines.len(),
        forall|j: int| 0 <= j < i ==> (#[trigger] lines[j]).at_ms < at,
        forall|j: int| i < j < lines.len() ==> (#[trigger] lines[j]).at_ms > at,
        i < lines.len() ==> lines[i].at_ms >= at,
    ensures
        with_line(lines, at, words) == if i < lines.len() && lines[i].at_ms == at {
            if lines[i].text.len() == 0 {
                lines.update(i, LineView { text: words, ..lines[i] })
            } else {
                lines
            }
        } else {
            lines.insert(i, LineView { at_ms: at, text: words, translation: None })
        },
    decreases lines.len(),
{
    let new = LineView { at_ms: at, text: words, translation: None };
    if i == lines.len() {
        if lines.len() > 0 {
            assert(lines[lines.len() - 1].at_ms < at);
        }
        assert(lines.insert(i, new) =~= lines.push(new));
    } else if i == lines.len() - 1 && lines[i].at_ms == at {
        assert(lines.drop_last().push(LineView { text: words, ..lines.last() }) =~= lines.update(
            i,
            LineView { text: words, ..lines[i] },
        ));
    } else {
        assert(lines.last() == lines[lines.len() - 1]);
        assert(lines.last().at_ms > at);
        let rest = lines.drop_last();
        assert forall|a: int, b: int| 0 <= a < b < rest.len() implies (#[trigger] rest[a]).at_ms < (
        #[trigger] rest[b]).at_ms by {
            assert(lines[a].at_ms < lines[b].at_ms);
        }
        assert forall|j: int| 0 <= j < i implies (#[trigger] rest[j]).at_ms < at by {
            assert(lines[j].at_ms < at);
        }
        assert forall|j: int| i < j < rest.len() implies (#[trigger] rest[j]).at_ms > at by {
            assert(lines[j].at_ms > at);
        }
        lemma_with_line(rest, at, words, i);
        if i < rest.len() && rest[i].at_ms == at {
            if rest[i].text.len() == 0 {
                assert(rest.update(i, LineView { text: words, ..rest[i] }).push(lines.last())
                    =~= lines.update(i, LineView { text: words, ..lines[i] }));
            } else {
                assert(rest.push(lines.last()) =~= lines);
            }
        } else {
            assert(rest.insert(i, new).push(lines.last()) =~= lines.insert(i, new));
        }
    }
}

proof fn lemma_rising(lines: Seq<LineView>, at: u32, words: Seq<char>)
    requires
        rising(lines),
    ensures
        rising(with_line(lines, at, words)),
        with_line(lines, at, words).len() > 0,
        lines.len() > 0 && lines.last().at_ms >= at ==> with_line(lines, at, words).last().at_ms
            == lines.last().at_ms,
        !(lines.len() > 0 && lines.last().at_ms >= at) ==> with_line(lines, at, words).last().at_ms
            == at,
    decreases lines.len(),
{
    let now = with_line(lines, at, words);
    if lines.len() == 0 || lines.last().at_ms < at {
        assert forall|i: int, j: int| 0 <= i < j < now.len() implies (#[trigger] now[i]).at_ms < (
        #[trigger] now[j]).at_ms by {
            if j == lines.len() {
                if i < lines.len() - 1 {
                    assert(lines[i].at_ms < lines[lines.len() - 1].at_ms);
                }
            } else {
                assert(lines[i].at_ms < lines[j].at_ms);
            }
        }
    } else if lines.last().at_ms == at {
        assert forall|i: int, j: int| 0 <= i < j < now.len() implies (#[trigger] now[i]).at_ms < (
        #[trigger] now[j]).at_ms by {
            assert(lines[i].at_ms < lines[j].at_ms);
        }
    } else {
        let rest = lines.drop_last();
        assert forall|i: int, j: int| 0 <= i < j < rest.len() implies (#[trigger] rest[i]).at_ms < (
        #[trigger] rest[j]).at_ms by {
            assert(lines[i].at_ms < lines[j].at_ms);
        }
        lemma_rising(rest, at, words);
        let inner = with_line(rest, at, words);
        assert(inner.last().at_ms < lines.last().at_ms) by {
            if rest.len() > 0 {
                assert(lines[rest.len() - 1].at_ms < lines[lines.len() - 1].at_ms);
            }
        }
        assert forall|i: int, j: int| 0 <= i < j < now.len() implies (#[trigger] now[i]).at_ms < (
        #[trigger] now[j]).at_ms by {
            if j == inner.len() {
                assert(now[i] == inner[i]);
                if i < inner.len() - 1 {
                    assert(inner[i].at_ms < inner[inner.len() - 1].at_ms);
                }
            } else {
                assert(now[i] == inner[i]);
                assert(now[j] == inner[j]);
            }
        }
    }
}

fn add_line(lines: &mut Vec<LyricLine>, at: u32, words: &str)
    requires
        rising(lines_view(old(lines)@)),
    ensures
        lines_view(final(lines)@) == with_line(lines_view(old(lines)@), at, words@),
        rising(lines_view(final(lines)@)),
{
    let ghost before = lines_view(lines@);
    let mut i: usize = lines.len();
    while i > 0 && lines[i - 1].at_ms >= at
        invariant
            i <= lines@.len(),
            before == lines_view(lines@),
            forall|j: int| i <= j < lines@.len() ==> (#[trigger] lines@[j]).at_ms >= at,
        decreases i,
    {
        i = i - 1;
    }
    proof {
        assert forall|j: int| 0 <= j < i implies (#[trigger] before[j]).at_ms < at by {
            if j < i - 1 {
                assert(before[j].at_ms < before[i - 1].at_ms);
            }
            assert(before[i - 1].at_ms == lines@[i - 1].at_ms);
        }
        assert forall|j: int| i < j < before.len() implies (#[trigger] before[j]).at_ms > at by {
            assert(before[i as int].at_ms < before[j].at_ms);
            assert(before[i as int].at_ms == lines@[i as int].at_ms);
        }
        if i < before.len() {
            assert(before[i as int].at_ms == lines@[i as int].at_ms);
        }
        lemma_with_line(before, at, words@, i as int);
        lemma_rising(before, at, words@);
    }
    if i < lines.len() && lines[i].at_ms == at {
        if lines[i].text.as_str().is_empty() {
            let ghost old_line = lines@[i as int];
            let line = LyricLine {
                at_ms: at,
                text: words.to_owned(),
                translation: text::opt_copy(&lines[i].translation),
            };
            lines.set(i, line);
            assert(lines_view(lines@) =~= before.update(
                i as int,
                LineView { text: words@, ..before[i as int] },
            ));
        }
    } else {
        let line = LyricLine { at_ms: at, text: words.to_owned(), translation: None };
        lines.insert(i, line);
        assert(lines_view(lines@) =~= before.insert(
            i as int,
            LineView { at_ms: at, text: words@, translation: None },
        ));
    }
}

/// Reads timed lyrics: rows with one or more times in brackets before their
/// words.
pub fn parse_lrc(input: &str) -> (r: Lyrics)
    ensures
        r@ == lines_of(text::parts(input@, '\n')),
        rising(r@),
        ordered(r.lines@),
{
    let rows = text::split(input, '\n');
    let ghost all = text::texts(rows@);
    let mut lines: Vec<LyricLine> = Vec::new();
    let mut i: usize = 0;
    proof {
        assert(all.take(0) =~= Seq::empty());
        assert(lines_view(lines@) =~= Seq::empty());
    }
    while i < rows.len()
        invariant
            i <= rows@.len(),
            all == text::texts(rows@),
            rising(lines_view(lines@)),
            lines_view(lines@) == lines_of(all.take(i as int)),
        decreases rows.len() - i,
    {
        let (times, words) = read_line(rows[i].as_str());
        let ghost before = lines_view(lines@);
        let ghost row = rows@[i as int]@;
        let ghost stamped = stamps(row);
        proof {
            assert(all.take(i + 1).drop_last() =~= all.take(i as int));
            assert(all.take(i + 1).last() == row);
            assert(stamped.take(0) =~= Seq::empty());
        }
        let mut k: usize = 0;
        while k < times.len()
            invariant
                k <= times@.len(),
                times_view(times@) == stamped,
                rising(lines_view(lines@)),
                lines_view(lines@) == with_times(before, stamped.take(k as int), words@),
            decreases times.len() - k,
        {
            proof {
                assert(stamped.take(k + 1).drop_last() =~= stamped.take(k as int));
                assert(stamped.take(k + 1).last() == stamped[k as int]);
                assert(stamped[k as int] == times@[k as int] as nat);
            }
            add_line(&mut lines, times[k], words.as_str());
            k = k + 1;
        }
        assert(stamped.take(k as int) =~= stamped);
        i = i + 1;
    }
    proof {
        assert(all.take(i as int) =~= all);
        assert forall|a: int, b: int| 0 <= a < b < lines@.len() implies (#[trigger] lines@[a]).at_ms
            <= (#[trigger] lines@[b]).at_ms by {
            assert(lines_view(lines@)[a].at_ms < lines_view(lines@)[b].at_ms);
        }
    }
    Lyrics { lines }
}

/// Whether a line begins at a time.
pub open spec fn begins_at(lines: Seq<LineView>, at: nat) -> bool {
    exists|i: int| 0 <= i < lines.len() && (#[trigger] lines[i]).at_ms == at
}

proof fn lemma_time_kept(lines: Seq<LineView>, at: u32, words: Seq<char>, other: nat)
    requires
        begins_at(lines, other) || other == at,
    ensures
        begins_at(with_line(lines, at, words), other),
    decreases lines.len(),
{
    let now = with_line(lines, at, words);
    if lines.len() == 0 || lines.last().at_ms < at {
        if other == at {
            assert(now[lines.len() as int].at_ms == at);
        } else {
            let i = choose|i: int| 0 <= i < lines.len() && (#[trigger] lines[i]).at_ms == other;
            assert(now[i].at_ms == other);
        }
    } else if lines.last().at_ms == at {
        if other == at {
            assert(now[lines.len() - 1].at_ms == at);
        } else {
            let i = choose|i: int| 0 <= i < lines.len() && (#[trigger] lines[i]).at_ms == other;
            assert(now[i].at_ms == other);
        }
    } else {
        let rest = lines.drop_last();
        let inner = with_line(rest, at, words);
        if other != at && other == lines.last().at_ms {
            assert(now[inner.len() as int].at_ms == other);
        } else {
            if other != at {
                let i = choose|i: int| 0 <= i < lines.len() && (#[trigger] lines[i]).at_ms == other;
                assert(rest[i].at_ms == other);
            }
            lemma_time_kept(rest, at, words, other);
            let i = choose|i: int| 0 <= i < inner.len() && (#[trigger] inner[i]).at_ms == other;
            assert(now[i].at_ms == other);
        }
    }
}

proof fn lemma_times_kept(lines: Seq<LineView>, times: Seq<nat>, words: Seq<char>, other: nat)
    requires
        begins_at(lines, other) || (times.contains(other) && other <= u32::MAX),
    ensures
        begins_at(with_times(lines, times, words), other),
    decreases times.len(),
{
    if times.len() > 0 {
        let rest = times.drop_last();
        let before = with_times(lines, rest, words);
        if !begins_at(lines, other) && other != times.last() {
            let i = choose|i: int| 0 <= i < times.len() && times[i] == other;
            assert(rest[i] == other);
        }
        if other != times.last() || begins_at(lines, other) {
            lemma_times_kept(lines, rest, words, other);
        }
        lemma_time_kept(before, times.last() as u32, words, other);
    }
}

/// Every time that stands before a row has a line.
pub proof fn no_time_is_lost(rows: Seq<Seq<char>>, row: int, at: nat)
    requires
        0 <= row < rows.len(),
        stamps(rows[row]).contains(at),
        at <= u32::MAX,
    ensures
        begins_at(lines_of(rows), at),
    decreases rows.len(),
{
    let rest = rows.drop_last();
    if row < rows.len() - 1 {
        assert(rest[row] == rows[row]);
        no_time_is_lost(rest, row, at);
    }
    lemma_times_kept(lines_of(rest), stamps(rows.last()), words(rows.last()), at);
}

// ---------------------------------------------------------------- service

/// Lyrics and their translation, as the service sends them.
pub struct LyricEnvelope {
    pub code: i32,
    pub lrc: String,
    pub tlyric: String,
}

/// Lines with a translation at its time, where a line stands there.
pub open spec fn with_translation(lines: Seq<LineView>, t: LineView) -> Seq<LineView> {
    Seq::new(
        lines.len(),
        |i: int|
            if lines[i].at_ms == t.at_ms && t.text.len() > 0 {
                LineView { translation: Some(t.text), ..lines[i] }
            } else {
                lines[i]
            },
    )
}

pub open spec fn with_translations(lines: Seq<LineView>, translated: Seq<LineView>) -> Seq<LineView>
    decreases translated.len(),
{
    if translated.len() == 0 {
        lines
    } else {
        with_translation(with_translations(lines, translated.drop_last()), translated.last())
    }
}

fn find_time(lines: &Vec<LyricLine>, at: u32) -> (r: Option<usize>)
    requires
        rising(lines_view(lines@)),
    ensures
        match r {
            Some(i) => i < lines@.len() && lines@[i as int].at_ms == at,
            None => forall|i: int| 0 <= i < lines@.len() ==> (#[trigger] lines@[i]).at_ms != at,
        },
{
    let mut low: usize = 0;
    let mut high: usize = lines.len();
    while low < high
        invariant
            low <= high <= lines@.len(),
            rising(lines_view(lines@)),
            forall|i: int| 0 <= i < low ==> (#[trigger] lines@[i]).at_ms < at,
            forall|i: int| high <= i < lines@.len() ==> (#[trigger] lines@[i]).at_ms > at,
        decreases high - low,
    {
        let middle: usize = low + (high - low) / 2;
        let here: u32 = lines[middle].at_ms;
        if here == at {
            return Some(middle);
        }
        proof {
            let v = lines_view(lines@);
            assert(v[middle as int].at_ms == here);
            assert forall|i: int| 0 <= i < lines@.len() implies v[i].at_ms == (#[trigger] lines@[i]).at_ms by {}
            assert forall|i: int| 0 <= i < middle implies (#[trigger] lines@[i]).at_ms < here by {
                assert(v[i].at_ms < v[middle as int].at_ms);
            }
            assert forall|i: int| middle < i < lines@.len() implies (#[trigger] lines@[i]).at_ms
                > here by {
                assert(v[middle as int].at_ms < v[i].at_ms);
            }
        }
        if here < at {
            low = middle + 1;
        } else {
            high = middle;
        }
    }
    None
}

fn add_translation(lines: &mut Vec<LyricLine>, t: &LyricLine)
    requires
        rising(lines_view(old(lines)@)),
    ensures
        lines_view(final(lines)@) == with_translation(lines_view(old(lines)@), t@),
        rising(lines_view(final(lines)@)),
{
    let ghost before = lines_view(lines@);
    let found = find_time(lines, t.at_ms);
    if let Some(i) = found {
        if !t.text.as_str().is_empty() {
            let line = LyricLine {
                at_ms: t.at_ms,
                text: lines[i].text.clone(),
                translation: Some(t.text.clone()),
            };
            proof {
                assert forall|j: int| 0 <= j < before.len() && j != i implies (#[trigger] before[j]).at_ms
                    != t.at_ms by {
                    if j < i {
                        assert(before[j].at_ms < before[i as int].at_ms);
                    } else {
                        assert(before[i as int].at_ms < before[j].at_ms);
                    }
                    assert(before[i as int].at_ms == lines@[i as int].at_ms);
                }
                assert(before[i as int] == lines@[i as int]@);
            }
            lines.set(i, line);
        }
    }
    proof {
        let now = lines_view(lines@);
        assert forall|j: int| 0 <= j < before.len() implies now[j] == with_translation(
            before,
            t@,
        )[j] by {
            if found is None {
                assert(before[j].at_ms == lines@[j].at_ms);
            }
        }
        assert(now =~= with_translation(before, t@));
        assert forall|a: int, b: int| 0 <= a < b < now.len() implies (#[trigger] now[a]).at_ms < (
        #[trigger] now[b]).at_ms by {
            assert(before[a].at_ms < before[b].at_ms);
        }
    }
}

/// Reads the lyrics that the service sends; nothing stands for a message that is
/// none.
pub fn parse_api_lyrics(envelope: Option<LyricEnvelope>) -> (r: Result<Lyrics, LyricError>)
    ensures
        match envelope {
            None => r == Err::<Lyrics, LyricError>(LyricError::Json),
            Some(e) => if e.code != 200 {
                r == Err::<Lyrics, LyricError>(LyricError::Server(e.code))
            } else {
                r matches Ok(l) && l@ == with_translations(
                    lines_of(text::parts(e.lrc@, '\n')),
                    lines_of(text::parts(e.tlyric@, '\n')),
                ) && rising(l@)
            },
        },
{
    let e = match envelope {
        Some(e) => e,
        None => {
            return Err(LyricError::Json);
        },
    };
    if e.code != 200 {
        return Err(LyricError::Server(e.code));
    }
    let mut lyrics = parse_lrc(e.lrc.as_str());
    let translated = parse_lrc(e.tlyric.as_str());
    let ghost all = translated@;
    let ghost base = lyrics@;
    let mut lines = lyrics.lines;
    let mut i: usize = 0;
    assert(all.take(0) =~= Seq::empty());
    while i < translated.lines.len()
        invariant
            i <= translated.lines@.len(),
            all == lines_view(translated.lines@),
            rising(lines_view(lines@)),
            lines_view(lines@) == with_translations(base, all.take(i as int)),
        decreases translated.lines.len() - i,
    {
        proof {
            assert(all.take(i + 1).drop_last() =~= all.take(i as int));
            assert(all.take(i + 1).last() == translated.lines@[i as int]@);
        }
        add_translation(&mut lines, &translated.lines[i]);
        i = i + 1;
    }
    assert(all.take(i as int) =~= all);
    Ok(Lyrics { lines })
}

// ---------------------------------------------------------------- laws

/// A row with some brackets in front of a text.
pub open spec fn bracketed(inside: Seq<Seq<char>>, behind: Seq<char>) -> Seq<char>
    decreases inside.len(),
{
    if inside.len() == 0 {
        behind
    } else {
        bracketed(
            inside.drop_last(),
            seq!['['] + inside.last() + seq![']'] + behind,
        )
    }
}

proof fn lemma_bracketed_first(inside: Seq<Seq<char>>, behind: Seq<char>)
    requires
        inside.len() > 0,
    ensures
        bracketed(inside, behind) == seq!['['] + inside[0] + seq![']'] + bracketed(
            inside.drop_first(),
            behind,
        ),
    decreases inside.len(),
{
    let nearer = seq!['['] + inside.last() + seq![']'] + behind;
    if inside.len() > 1 {
        lemma_bracketed_first(inside.drop_last(), nearer);
        assert(inside.drop_last().drop_first() =~= inside.drop_first().drop_last());
        assert(inside.drop_last()[0] == inside[0]);
        assert(inside.drop_first().last() == inside.last());
    } else {
        assert(inside.drop_last().len() == 0);
        assert(inside.drop_first().len() == 0);
        assert(bracketed(inside.drop_last(), nearer) == nearer);
        assert(bracketed(inside.drop_first(), behind) == behind);
        assert(inside.last() == inside[0]);
    }
}

proof fn lemma_first_bracket(inside: Seq<char>, rest: Seq<char>)
    requires
        !inside.contains(']'),
    ensures
        ({
            let s = seq!['['] + inside + seq![']'] + rest;
            &&& words(s) == words(rest)
            &&& stamps(s) == match stamp(inside) {
                Some(n) => seq![n] + stamps(rest),
                None => stamps(rest),
            }
        }),
{
    let s = seq!['['] + inside + seq![']'] + rest;
    let t = inside + seq![']'] + rest;
    assert(s.skip(1) =~= t);
    assert(t[inside.len() as int] == ']');
    text::cutting_finds_the_first(inside, ']', rest);
    assert(s.skip(inside.len() as int + 2) =~= rest);
}

/// The words of a row are all that stands behind its last leading bracket, but for
/// the white space around it: white space between words is kept.
pub proof fn words_are_kept_whole(
    inside: Seq<Seq<char>>,
    before: Seq<char>,
    sung: Seq<char>,
    behind: Seq<char>,
)
    requires
        forall|i: int| 0 <= i < inside.len() ==> !(#[trigger] inside[i]).contains(']'),
        text::blank(before),
        text::blank(behind),
        sung.len() > 0 ==> !text::is_white(sung[0]) && !text::is_white(sung.last()),
        sung.len() > 0 && sung[0] == '[' ==> before.len() > 0,
    ensures
        words(bracketed(inside, before + sung + behind)) == sung,
    decreases inside.len(),
{
    let text = before + sung + behind;
    if inside.len() == 0 {
        if before.len() > 0 {
            assert(text[0] == before[0]);
            assert(text::is_white(before[0]));
        } else if sung.len() > 0 {
            assert(text[0] == sung[0]);
        } else if behind.len() > 0 {
            assert(text[0] == behind[0]);
            assert(text::is_white(behind[0]));
        }
        text::trimming_takes_only_the_ends(before, sung, behind);
    } else {
        let rest = inside.drop_first();
        assert forall|i: int| 0 <= i < rest.len() implies !(#[trigger] rest[i]).contains(']') by {
            assert(rest[i] == inside[i + 1]);
        }
        words_are_kept_whole(rest, before, sung, behind);
        lemma_bracketed_first(inside, text);
        lemma_first_bracket(inside[0], bracketed(rest, text));
    }
}

/// A row is sung at the time of each of its brackets, in their order; a bracket
/// that is no time, such as a title, is passed over.
pub proof fn each_bracket_is_a_time(inside: Seq<Seq<char>>, behind: Seq<char>)
    requires
        forall|i: int| 0 <= i < inside.len() ==> !(#[trigger] inside[i]).contains(']'),
        behind.len() > 0 ==> behind[0] != '[',
    ensures
        stamps(bracketed(inside, behind)) == inside.map_values(|b: Seq<char>| stamp(b)).filter(
            |t: Option<nat>| t is Some,
        ).map_values(|t: Option<nat>| t->Some_0),
    decreases inside.len(),
{
    let timed = |t: Option<nat>| t is Some;
    let times = inside.map_values(|b: Seq<char>| stamp(b));
    if inside.len() == 0 {
        reveal(Seq::filter);
        assert(times.filter(timed).map_values(|t: Option<nat>| t->Some_0) =~= Seq::<nat>::empty());
    } else {
        let rest = inside.drop_first();
        assert forall|i: int| 0 <= i < rest.len() implies !(#[trigger] rest[i]).contains(']') by {
            assert(rest[i] == inside[i + 1]);
        }
        each_bracket_is_a_time(rest, behind);
        lemma_bracketed_first(inside, behind);
        lemma_first_bracket(inside[0], bracketed(rest, behind));
        let later = rest.map_values(|b: Seq<char>| stamp(b));
        let first = stamp(inside[0]);
        assert(times =~= seq![first] + later);
        Seq::filter_distributes_over_add(seq![first], later, timed);
        assert(seq![first].filter(timed) =~= if first is Some {
            seq![first]
        } else {
            Seq::empty()
        }) by {
            reveal(Seq::filter);
            assert(seq![first].drop_last() =~= Seq::empty());
            assert(seq![first].drop_last().filter(timed) =~= Seq::empty());
            assert(seq![first].last() == first);
            assert(Seq::<Option<nat>>::empty().push(first) =~= seq![first]);
        }
        let kept = times.filter(timed).map_values(|t: Option<nat>| t->Some_0);
        let kept_later = later.filter(timed).map_values(|t: Option<nat>| t->Some_0);
        match first {
            Some(n) => {
                assert(kept =~= seq![n] + kept_later);
            },
            None => {
                assert(kept =~= kept_later);
            },
        }
    }
}

proof fn lemma_digits_hold_no(d: Seq<char>, c: char)
    requires
        text::all_digits(d),
        !text::is_digit(c),
    ensures
        !d.contains(c),
{
    if d.contains(c) {
        let i = choose|i: int| 0 <= i < d.len() && d[i] == c;
        assert(text::is_digit(d[i]));
    }
}

/// Minutes and seconds are read as a clock shows them: sixty thousand thousandths
/// to a minute and a thousand to a second.
pub proof fn clock_times_are_read(m: Seq<char>, s: Seq<char>)
    requires
        m.len() > 0,
        s.len() > 0,
        text::all_digits(m),
        text::all_digits(s),
    ensures
        ({
            let at = text::digits_value(m) * 60_000 + text::digits_value(s) * 1_000;
            &&& at <= u32::MAX ==> stamp(m + seq![':'] + s) == Some(at)
            &&& at > u32::MAX ==> stamp(m + seq![':'] + s) is None
            &&& stamp(m + seq![':'] + s + seq!['.']) == stamp(m + seq![':'] + s)
        }),
{
    let value = m + seq![':'] + s;
    lemma_digits_hold_no(m, ':');
    lemma_digits_hold_no(s, '.');
    text::cutting_finds_the_first(m, ':', s);
    assert(value[m.len() as int] == ':');
    text::cutting_finds_the_first(s, '.', Seq::empty());
    assert(text::is_digit(m[0]));
    assert(text::is_digit(s[0]));
    reveal_strlit("0");
    assert("0"@ =~= seq!['0']);
    assert("0"@.drop_last() =~= Seq::empty());
    assert(text::digits_value(Seq::<char>::empty()) == 0);
    assert("0"@.last() == '0');
    assert(text::digits_value("0"@) == 0);
    text::numbers_are_read_by_value(m, u32::MAX as nat);
    text::numbers_are_read_by_value(s, u32::MAX as nat);
    assert(fraction_ms("0"@) == Some(0nat)) by {
        assert(text::all_digits("0"@));
        text::numbers_are_read_by_value("0"@, u32::MAX as nat);
    }
    let pointed = value + seq!['.'];
    let rest = s + seq!['.'];
    assert(pointed =~= m + seq![':'] + rest);
    text::cutting_finds_the_first(m, ':', rest);
    assert(pointed[m.len() as int] == ':');
    assert(rest =~= s + seq!['.'] + Seq::empty());
    assert(rest[s.len() as int] == '.');
    assert(rest.skip(s.len() as int + 1) =~= Seq::empty());
}

/// What stands behind the point is read as a decimal fraction of a second: one
/// digit counts tenths, two count hundredths and three thousandths.
pub proof fn fractions_are_decimal(m: Seq<char>, s: Seq<char>, f: Seq<char>)
    requires
        m.len() > 0,
        s.len() > 0,
        0 < f.len() <= 3,
        text::all_digits(m),
        text::all_digits(s),
        text::all_digits(f),
    ensures
        ({
            let whole = text::digits_value(m) * 60_000 + text::digits_value(s) * 1_000;
            let unit = text::pow10((3 - f.len()) as nat);
            let at = whole + text::digits_value(f) * unit;
            let row = m + seq![':'] + s + seq!['.'] + f;
            &&& at <= u32::MAX ==> stamp(row) == Some(at)
            &&& at > u32::MAX ==> stamp(row) is None
        }),
{
    let row = m + seq![':'] + s + seq!['.'] + f;
    lemma_digits_hold_no(m, ':');
    lemma_digits_hold_no(s, '.');
    assert(text::is_digit(m[0]));
    assert(text::is_digit(s[0]));
    assert(text::is_digit(f[0]));
    text::numbers_are_read_by_value(m, u32::MAX as nat);
    text::numbers_are_read_by_value(s, u32::MAX as nat);
    text::numbers_are_read_by_value(f, u32::MAX as nat);
    lemma_few_digits(f);
    assert(text::pow10(0) == 1);
    assert(text::pow10(1) == 10) by {
        reveal_with_fuel(text::pow10, 3);
    }
    assert(text::pow10(2) == 100) by {
        reveal_with_fuel(text::pow10, 3);
    }
    lemma_fraction_row(m, s, f);
    let v = text::digits_value(f);
    let unit = text::pow10((3 - f.len()) as nat);
    assert(text::parsed_uint(f, u32::MAX as nat) == Some(v));
    if f.len() == 3 {
        assert(f.take(3) =~= f);
        assert(v * unit == v) by (nonlinear_arith)
            requires
                unit == 1,
        ;
    } else if f.len() == 2 {
        assert(v * unit == v * 10) by (nonlinear_arith)
            requires
                unit == 10,
        ;
    } else {
        assert(v * unit == v * 100) by (nonlinear_arith)
            requires
                unit == 100,
        ;
    }
    assert(fraction_ms(f) == Some(v * unit));
}

/// What stands behind the third digit of a fraction is ignored.
pub proof fn long_fractions_are_cut(m: Seq<char>, s: Seq<char>, f: Seq<char>, more: Seq<char>)
    requires
        f.len() == 3,
        text::all_digits(m),
        text::all_digits(s),
    ensures
        stamp(m + seq![':'] + s + seq!['.'] + f + more) == stamp(m + seq![':'] + s + seq!['.'] + f),
{
    lemma_digits_hold_no(m, ':');
    lemma_digits_hold_no(s, '.');
    assert(m + seq![':'] + s + seq!['.'] + f + more =~= m + seq![':'] + s + seq!['.'] + (f + more));
    lemma_fraction_row(m, s, f);
    lemma_fraction_row(m, s, f + more);
    assert((f + more).take(3) =~= f);
    assert(f.take(3) =~= f);
}

proof fn lemma_few_digits(f: Seq<char>)
    requires
        text::all_digits(f),
        f.len() <= 3,
    ensures
        text::digits_value(f) < 1000,
{
    reveal_with_fuel(text::digits_value, 5);
    if f.len() > 0 {
        assert(text::is_digit(f[f.len() - 1]));
        if f.len() > 1 {
            assert(text::is_digit(f[f.len() - 2]));
            assert(f.drop_last().last() == f[f.len() - 2]);
            if f.len() > 2 {
                assert(text::is_digit(f[f.len() - 3]));
                assert(f.drop_last().drop_last().last() == f[f.len() - 3]);
            }
        }
    }
}

proof fn lemma_fraction_row(m: Seq<char>, s: Seq<char>, f: Seq<char>)
    requires
        !m.contains(':'),
        !s.contains('.'),
    ensures
        stamp(m + seq![':'] + s + seq!['.'] + f) == match (
            text::parsed_uint(m, u32::MAX as nat),
            text::parsed_uint(s, u32::MAX as nat),
            fraction_ms(f),
        ) {
            (Some(a), Some(b), Some(c)) => if a * 60000 + b * 1000 + c <= u32::MAX {
                Some(a * 60000 + b * 1000 + c)
            } else {
                None
            },
            _ => None,
        },
{
    let row = m + seq![':'] + s + seq!['.'] + f;
    let rest = s + seq!['.'] + f;
    assert(row =~= m + seq![':'] + rest);
    text::cutting_finds_the_first(m, ':', rest);
    assert(row[m.len() as int] == ':');
    text::cutting_finds_the_first(s, '.', f);
    assert(rest[s.len() as int] == '.');
}

/// Whether a row is sung at a time.
pub open spec fn sung_at(row: Seq<char>, at: nat) -> bool {
    stamps(row).contains(at)
}

/// Whether a line at a time has what the rows say: the words of the first row
/// with words that is sung then, and none where no such row has any.
pub open spec fn told_by(line: LineView, rows: Seq<Seq<char>>) -> bool {
    &&& line.translation is None
    &&& exists|k: int| 0 <= k < rows.len() && #[trigger] sung_at(rows[k], line.at_ms as nat)
    &&& if line.text.len() == 0 {
        forall|k: int|
            0 <= k < rows.len() && #[trigger] sung_at(rows[k], line.at_ms as nat) ==> words(
                rows[k],
            ).len() == 0
    } else {
        exists|k: int|
            {
                &&& 0 <= k < rows.len()
                &&& #[trigger] sung_at(rows[k], line.at_ms as nat)
                &&& line.text == words(rows[k])
                &&& forall|j: int|
                    0 <= j < k && #[trigger] sung_at(rows[j], line.at_ms as nat) ==> words(
                        rows[j],
                    ).len() == 0
            }
    }
}

proof fn lemma_line_added(lines: Seq<LineView>, at: u32, words: Seq<char>, i: int)
    requires
        rising(lines),
        0 <= i < with_line(lines, at, words).len(),
    ensures
        ({
            let line = with_line(lines, at, words)[i];
            if line.at_ms != at {
                exists|k: int| 0 <= k < lines.len() && #[trigger] lines[k] == line
            } else {
                ||| line == (LineView { at_ms: at, text: words, translation: None }) && forall|k: int|
                    0 <= k < lines.len() ==> (#[trigger] lines[k]).at_ms != at
                ||| exists|k: int|
                    0 <= k < lines.len() && (#[trigger] lines[k]).at_ms == at && line == if lines[k].text.len()
                        == 0 {
                        LineView { text: words, ..lines[k] }
                    } else {
                        lines[k]
                    }
            }
        }),
    decreases lines.len(),
{
    let now = with_line(lines, at, words);
    if lines.len() == 0 || lines.last().at_ms < at {
        if i < lines.len() {
            assert(lines[i] == now[i]);
            if i < lines.len() - 1 {
                assert(lines[i].at_ms < lines[lines.len() - 1].at_ms);
            }
        } else {
            assert forall|k: int| 0 <= k < lines.len() implies (#[trigger] lines[k]).at_ms != at by {
                if k < lines.len() - 1 {
                    assert(lines[k].at_ms < lines[lines.len() - 1].at_ms);
                }
            }
        }
    } else if lines.last().at_ms == at {
        if i < lines.len() - 1 {
            assert(lines[i] == now[i]);
            assert(lines[i].at_ms < lines[lines.len() - 1].at_ms);
        } else {
            assert(lines[lines.len() - 1].at_ms == at);
        }
    } else {
        let rest = lines.drop_last();
        let inner = with_line(rest, at, words);
        if i == inner.len() {
            assert(lines[lines.len() - 1] == now[i]);
        } else {
            assert forall|a: int, b: int| 0 <= a < b < rest.len() implies (#[trigger] rest[a]).at_ms < (
            #[trigger] rest[b]).at_ms by {
                assert(lines[a].at_ms < lines[b].at_ms);
            }
            lemma_line_added(rest, at, words, i);
            let line = inner[i];
            assert(now[i] == line);
            if line.at_ms != at {
                let k = choose|k: int| 0 <= k < rest.len() && #[trigger] rest[k] == line;
                assert(lines[k] == line);
            } else if exists|k: int| 0 <= k < rest.len() && (#[trigger] rest[k]).at_ms == at {
                let k = choose|k: int|
                    0 <= k < rest.len() && (#[trigger] rest[k]).at_ms == at && line == if rest[k].text.len()
                        == 0 {
                        LineView { text: words, ..rest[k] }
                    } else {
                        rest[k]
                    };
                assert(lines[k].at_ms == at);
                assert(lines[k] == rest[k]);
            } else {
                assert forall|k: int| 0 <= k < lines.len() implies (#[trigger] lines[k]).at_ms != at by {
                    if k < rest.len() {
                        assert(rest[k].at_ms != at);
                    }
                }
            }
        }
    }
}

proof fn lemma_times_rise(lines: Seq<LineView>, times: Seq<nat>, words: Seq<char>)
    requires
        rising(lines),
    ensures
        rising(with_times(lines, times, words)),
    decreases times.len(),
{
    if times.len() > 0 {
        lemma_times_rise(lines, times.drop_last(), words);
        lemma_rising(with_times(lines, times.drop_last(), words), times.last() as u32, words);
    }
}

proof fn lemma_times_added(lines: Seq<LineView>, times: Seq<nat>, words: Seq<char>, i: int)
    requires
        rising(lines),
        0 <= i < with_times(lines, times, words).len(),
        forall|k: int| 0 <= k < times.len() ==> #[trigger] times[k] <= u32::MAX,
    ensures
        ({
            let line = with_times(lines, times, words)[i];
            let at = line.at_ms;
            if !times.contains(at as nat) {
                exists|k: int| 0 <= k < lines.len() && #[trigger] lines[k] == line
            } else {
                ||| line == (LineView { at_ms: at, text: words, translation: None }) && forall|k: int|
                    0 <= k < lines.len() ==> (#[trigger] lines[k]).at_ms != at
                ||| exists|k: int|
                    0 <= k < lines.len() && (#[trigger] lines[k]).at_ms == at && line == if lines[k].text.len()
                        == 0 {
                        LineView { text: words, ..lines[k] }
                    } else {
                        lines[k]
                    }
            }
        }),
    decreases times.len(),
{
    if times.len() > 0 {
        let rest = times.drop_last();
        assert forall|k: int| 0 <= k < rest.len() implies #[trigger] rest[k] <= u32::MAX by {
            assert(times[k] <= u32::MAX);
        }
        let before = with_times(lines, rest, words);
        let last = times.last() as u32;
        assert(times[times.len() - 1] <= u32::MAX);
        lemma_times_rise(lines, rest, words);
        lemma_line_added(before, last, words, i);
        let line = with_times(lines, times, words)[i];
        let at = line.at_ms;
        if at != last {
            let k = choose|k: int| 0 <= k < before.len() && #[trigger] before[k] == line;
            lemma_times_added(lines, rest, words, k);
            if times.contains(at as nat) {
                let j = choose|j: int| 0 <= j < times.len() && times[j] == at as nat;
                assert(rest[j] == at as nat);
            } else if rest.contains(at as nat) {
                let j = choose|j: int| 0 <= j < rest.len() && rest[j] == at as nat;
                assert(times[j] == at as nat);
            }
        } else {
            assert(times[times.len() - 1] == at as nat);
            if exists|k: int| 0 <= k < before.len() && (#[trigger] before[k]).at_ms == at {
                let k = choose|k: int|
                    0 <= k < before.len() && (#[trigger] before[k]).at_ms == at && line == if before[k].text.len()
                        == 0 {
                        LineView { text: words, ..before[k] }
                    } else {
                        before[k]
                    };
                lemma_times_added(lines, rest, words, k);
            } else {
                assert forall|k: int| 0 <= k < lines.len() implies (#[trigger] lines[k]).at_ms != at by {
                    if lines[k].at_ms == at {
                        assert(begins_at(lines, at as nat));
                        lemma_times_kept(lines, rest, words, at as nat);
                    }
                }
            }
        }
    }
}

proof fn lemma_stamps_bounded(s: Seq<char>)
    ensures
        forall|k: int| 0 <= k < stamps(s).len() ==> #[trigger] stamps(s)[k] <= u32::MAX,
    decreases s.len(),
{
    if !(s.len() == 0 || s[0] != '[' || !s.skip(1).contains(']')) {
        text::head_is_shorter(s.skip(1), ']');
        let rest = s.skip(text::head(s.skip(1), ']').len() as int + 2);
        lemma_stamps_bounded(rest);
        match stamp(text::head(s.skip(1), ']')) {
            Some(n) => {
                assert(stamps(s) == seq![n] + stamps(rest));
                assert forall|k: int| 0 <= k < stamps(s).len() implies #[trigger] stamps(s)[k]
                    <= u32::MAX by {
                    if k > 0 {
                        assert(stamps(s)[k] == stamps(rest)[k - 1]);
                    }
                }
            },
            None => {},
        }
    }
}

/// Lyrics hold the lines that the rows tell and no others, in the order of their
/// times: each line has the words of the first row with words at its time.
pub proof fn lines_tell_the_rows(rows: Seq<Seq<char>>)
    ensures
        rising(lines_of(rows)),
        forall|i: int|
            0 <= i < lines_of(rows).len() ==> told_by(#[trigger] lines_of(rows)[i], rows),
        forall|k: int, at: nat|
            0 <= k < rows.len() && #[trigger] sung_at(rows[k], at) ==> begins_at(lines_of(rows), at),
    decreases rows.len(),
{
    if rows.len() > 0 {
        let rest = rows.drop_last();
        let row = rows.last();
        let before = lines_of(rest);
        let now = lines_of(rows);
        lines_tell_the_rows(rest);
        lemma_stamps_bounded(row);
        lemma_times_rise(before, stamps(row), words(row));
        assert forall|i: int| 0 <= i < now.len() implies told_by(#[trigger] now[i], rows) by {
            lemma_times_added(before, stamps(row), words(row), i);
            lemma_told_by_one_more(rows, now[i]);
        }
    }
    assert forall|k: int, at: nat|
        0 <= k < rows.len() && #[trigger] sung_at(rows[k], at) implies begins_at(
        lines_of(rows),
        at,
    ) by {
        lemma_stamps_bounded(rows[k]);
        no_time_is_lost(rows, k, at);
    }
}

proof fn lemma_told_by_one_more(rows: Seq<Seq<char>>, line: LineView)
    requires
        rows.len() > 0,
        forall|i: int|
            0 <= i < lines_of(rows.drop_last()).len() ==> told_by(
                #[trigger] lines_of(rows.drop_last())[i],
                rows.drop_last(),
            ),
        forall|k: int, at: nat|
            0 <= k < rows.len() - 1 && #[trigger] sung_at(rows.drop_last()[k], at) ==> begins_at(
                lines_of(rows.drop_last()),
                at,
            ),
        ({
            let lines = lines_of(rows.drop_last());
            let at = line.at_ms;
            if !stamps(rows.last()).contains(at as nat) {
                exists|k: int| 0 <= k < lines.len() && #[trigger] lines[k] == line
            } else {
                ||| line == (LineView { at_ms: at, text: words(rows.last()), translation: None })
                    && forall|k: int| 0 <= k < lines.len() ==> (#[trigger] lines[k]).at_ms != at
                ||| exists|k: int|
                    0 <= k < lines.len() && (#[trigger] lines[k]).at_ms == at && line == if lines[k].text.len()
                        == 0 {
                        LineView { text: words(rows.last()), ..lines[k] }
                    } else {
                        lines[k]
                    }
            }
        }),
    ensures
        told_by(line, rows),
{
    let rest = rows.drop_last();
    let lines = lines_of(rest);
    let at = line.at_ms as nat;
    let end = rows.len() - 1;
    assert forall|k: int| 0 <= k < rest.len() implies rest[k] == #[trigger] rows[k] by {}
    if !sung_at(rows.last(), at) || exists|k: int|
        0 <= k < lines.len() && (#[trigger] lines[k]).at_ms == at {
        let k = if !sung_at(rows.last(), at) {
            choose|k: int| 0 <= k < lines.len() && #[trigger] lines[k] == line
        } else {
            choose|k: int|
                0 <= k < lines.len() && (#[trigger] lines[k]).at_ms == at && line == if lines[k].text.len()
                    == 0 {
                    LineView { text: words(rows.last()), ..lines[k] }
                } else {
                    lines[k]
                }
        };
        let former = lines[k];
        assert(told_by(former, rest));
        let j = choose|j: int| 0 <= j < rest.len() && #[trigger] sung_at(rest[j], at);
        assert(sung_at(rows[j], at));
        if former.text.len() > 0 {
            let f = choose|f: int|
                {
                    &&& 0 <= f < rest.len()
                    &&& #[trigger] sung_at(rest[f], at)
                    &&& former.text == words(rest[f])
                    &&& forall|j: int|
                        0 <= j < f && #[trigger] sung_at(rest[j], at) ==> words(rest[j]).len() == 0
                };
            assert(sung_at(rows[f], at));
            assert forall|j: int| 0 <= j < f && #[trigger] sung_at(rows[j], at) implies words(
                rows[j],
            ).len() == 0 by {
                assert(sung_at(rest[j], at));
            }
        } else {
            assert forall|j: int| 0 <= j < rest.len() && #[trigger] sung_at(rows[j], at) implies words(
                rows[j],
            ).len() == 0 by {
                assert(sung_at(rest[j], at));
            }
            if sung_at(rows.last(), at) {
                assert(sung_at(rows[end], at));
            }
        }
    } else {
        assert(sung_at(rows[end], at));
        assert forall|j: int| 0 <= j < end implies !#[trigger] sung_at(rows[j], at) by {
            if sung_at(rows[j], at) {
                assert(sung_at(rest[j], at));
                assert(begins_at(lines, at));
            }
        }
    }
}

/// A translation stands with the line that is sung at its time; lines without
/// one, their words and their times stay as they are.
pub proof fn translations_go_by_time(lines: Seq<LineView>, translated: Seq<LineView>, i: int)
    requires
        rising(translated),
        0 <= i < lines.len(),
    ensures
        ({
            let now = with_translations(lines, translated);
            &&& now.len() == lines.len()
            &&& now[i].at_ms == lines[i].at_ms
            &&& now[i].text == lines[i].text
            &&& forall|k: int|
                0 <= k < translated.len() && (#[trigger] translated[k]).at_ms == lines[i].at_ms
                    && translated[k].text.len() > 0 ==> now[i].translation == Some(
                    translated[k].text,
                )
            &&& (forall|k: int|
                0 <= k < translated.len() && (#[trigger] translated[k]).at_ms == lines[i].at_ms
                    ==> translated[k].text.len() == 0) ==> now[i] == lines[i]
        }),
    decreases translated.len(),
{
    if translated.len() > 0 {
        let rest = translated.drop_last();
        assert forall|a: int, b: int| 0 <= a < b < rest.len() implies (#[trigger] rest[a]).at_ms < (
        #[trigger] rest[b]).at_ms by {
            assert(translated[a].at_ms < translated[b].at_ms);
        }
        translations_go_by_time(lines, rest, i);
        let now = with_translations(lines, translated);
        let end = translated.len() - 1;
        assert forall|k: int|
            0 <= k < translated.len() && (#[trigger] translated[k]).at_ms == lines[i].at_ms
                && translated[k].text.len() > 0 implies now[i].translation == Some(
            translated[k].text,
        ) by {
            if k < end {
                assert(rest[k] == translated[k]);
                assert(translated[k].at_ms < translated[end].at_ms);
            }
        }
        if forall|k: int|
            0 <= k < translated.len() && (#[trigger] translated[k]).at_ms == lines[i].at_ms
                ==> translated[k].text.len() == 0 {
            assert forall|k: int|
                0 <= k < rest.len() && (#[trigger] rest[k]).at_ms == lines[i].at_ms implies rest[k].text.len()
                == 0 by {
                assert(translated[k] == rest[k]);
            }
            assert(translated[end] == translated.last());
        }
    }
}

/// A line is sung from its own time on, until the next one begins.
pub proof fn lines_are_sung_in_their_time(lyrics: Lyrics, i: int, position_ms: u32, n: int)
    requires
        rising(lyrics@),
        0 <= i < lyrics.lines@.len(),
        lyrics.lines@[i].at_ms <= position_ms,
        i + 1 < lyrics.lines@.len() ==> position_ms < lyrics.lines@[i + 1].at_ms,
        lyrics.begun(position_ms, n),
    ensures
        n == i + 1,
{
    if n <= i {
        assert(lyrics.lines@[i].at_ms > position_ms);
    } else if n > i + 1 {
        assert(lyrics.lines@[i + 1].at_ms <= position_ms);
    }
}

/// What is no time is none: a bracket without a colon, or one whose minutes or
/// seconds are no number, such as the title of a song.
pub proof fn titles_are_no_times(m: Seq<char>, rest: Seq<char>)
    requires
        !m.contains(':'),
    ensures
        stamp(m) is None,
        text::parsed_uint(m, u32::MAX as nat) is None ==> stamp(m + seq![':'] + rest) is None,
        !rest.contains('.') && text::parsed_uint(rest, u32::MAX as nat) is None ==> stamp(
            m + seq![':'] + rest,
        ) is None,
{
    text::cutting_finds_the_first(m, ':', rest);
    assert((m + seq![':'] + rest)[m.len() as int] == ':');
}

/// A row without a bracket in front is sung at no time.
pub proof fn rows_without_times_are_not_sung(row: Seq<char>, at: nat)
    requires
        row.len() == 0 || row[0] != '[',
    ensures
        !sung_at(row, at),
        words(row) == text::trimmed(row),
{
}

} // verus!
