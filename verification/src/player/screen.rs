//! How the pages of the player meet the screen of the watch: which rows are used
//! again, what has to be drawn anew, how controls move, and what a touch means.
use vstd::prelude::*;
use vstd::string::*;
use vstd::utf8::*;

use crate::player::ui::{
    self, Node, NodeView, Route, EVENT_LOCAL_SONG_BASE, EVENT_VOLUME_DOWN, EVENT_VOLUME_UP,
    PLAYER_BACKGROUND_KEY,
};

verus! {

/// Where a hash begins.
pub const HASH_SEED: u32 = 0x811C_9DC5;

/// The scale of a control at rest.
pub const PLAYER_CONTROL_SIZE: i32 = 192;

/// The scale of a control that is touched.
pub const PLAYER_CONTROL_PRESSED_SIZE: i32 = 100;

pub const CONTROL_ANIMATION_STEPS: u32 = 8;

// ---------------------------------------------------------------- labels

/// The height of one line of a label.
pub const LINE_HEIGHT: i32 = 44;

/// How many narrow characters stand on a line.
pub const UNITS_PER_LINE: u32 = 20;

/// The lines that a text was broken into, and what stands on the last one. A line
/// ends at a line break, or before a character that does not fit; a character that is
/// not ASCII is wide.
pub open spec fn laid_out(s: Seq<char>) -> (int, int)
    decreases s.len(),
{
    if s.len() == 0 {
        (1, 0)
    } else {
        let (lines, units) = laid_out(s.drop_last());
        let width: int = if (s.last() as u32) < 128 {
            1
        } else {
            2
        };
        if s.last() == '\n' {
            (lines + 1, 0)
        } else if units != 0 && units + width > UNITS_PER_LINE {
            (lines + 1, width)
        } else {
            (lines, units + width)
        }
    }
}

/// The height of a label: that of its lines, but of no more than six.
pub open spec fn label_height(s: Seq<char>) -> int {
    let lines = laid_out(s).0;
    if lines > 6 {
        6 * LINE_HEIGHT
    } else {
        lines * LINE_HEIGHT
    }
}

proof fn lemma_lines_grow(s: Seq<char>, n: int)
    requires
        0 <= n <= s.len(),
    ensures
        laid_out(s.take(n)).0 <= laid_out(s).0,
        laid_out(s).0 >= 1,
        0 <= laid_out(s).1 <= UNITS_PER_LINE,
    decreases s.len(),
{
    if s.len() > 0 {
        if n == s.len() {
            assert(s.take(n) =~= s);
            lemma_lines_grow(s.drop_last(), 0);
        } else {
            lemma_lines_grow(s.drop_last(), n);
            assert(s.drop_last().take(n) =~= s.take(n));
        }
    } else {
        assert(s.take(n) =~= s);
    }
}

/// The height that a label takes.
pub fn wrapped_label_height(text: &str) -> (r: i32)
    ensures
        r == label_height(text@),
{
    let total: usize = text.unicode_len();
    let mut lines: i32 = 1;
    let mut units: u32 = 0;
    let mut i: usize = 0;
    assert(text@.take(0) =~= Seq::empty());
    while i < total
        invariant
            i <= total,
            total == text@.len(),
            1 <= lines <= 6,
            (lines as int, units as int) == laid_out(text@.take(i as int)),
            0 <= units <= UNITS_PER_LINE,
        decreases total - i,
    {
        let c = text.get_char(i);
        let ghost part = text@.take(i + 1);
        proof {
            assert(part.drop_last() =~= text@.take(i as int));
            assert(part.last() == c);
            lemma_lines_grow(text@, i + 1);
        }
        let width: u32 = if (c as u32) < 128 {
            1
        } else {
            2
        };
        if c == '\n' {
            lines = lines + 1;
            units = 0;
        } else if units != 0 && units + width > UNITS_PER_LINE {
            lines = lines + 1;
            units = width;
        } else {
            units = units + width;
        }
        if lines > 6 {
            return 6 * LINE_HEIGHT;
        }
        i += 1;
    }
    assert(text@.take(i as int) =~= text@);
    lines * LINE_HEIGHT
}

// ---------------------------------------------------------------- hashes

pub open spec fn word_bytes(w: u32) -> Seq<u8> {
    seq![(w % 256) as u8, (w / 256 % 256) as u8, (w / 65536 % 256) as u8, (w / 16777216) as u8]
}

pub open spec fn word_hash(hash: u32, w: u32) -> u32 {
    ui::path_hash(word_bytes(w), hash)
}

/// The hash of a text goes over its bytes and their number.
pub open spec fn text_hash(hash: u32, s: Seq<char>) -> u32 {
    let bytes = encode_utf8(s);
    word_hash(ui::path_hash(bytes, hash), bytes.len() as u32)
}

fn hash_byte(hash: u32, byte: u8) -> (r: u32)
    ensures
        r == (hash ^ byte as u32).wrapping_mul(0x0100_0193),
{
    (hash ^ byte as u32).wrapping_mul(0x0100_0193)
}

pub fn hash_word(hash: u32, value: u32) -> (r: u32)
    ensures
        r == word_hash(hash, value),
{
    let a: u32 = hash_byte(hash, (value % 256) as u8);
    let b: u32 = hash_byte(a, (value / 256 % 256) as u8);
    let c: u32 = hash_byte(b, (value / 65536 % 256) as u8);
    let d: u32 = hash_byte(c, (value / 16777216) as u8);
    proof {
        let w = word_bytes(value);
        reveal_with_fuel(ui::path_hash, 5);
        assert(w.drop_last() =~= seq![w[0], w[1], w[2]]);
        assert(w.drop_last().drop_last() =~= seq![w[0], w[1]]);
        assert(w.drop_last().drop_last().drop_last() =~= seq![w[0]]);
        assert(w.drop_last().drop_last().drop_last().drop_last() =~= Seq::empty());
    }
    d
}

pub fn hash_text(hash: u32, text: &str) -> (r: u32)
    ensures
        r == text_hash(hash, text@),
{
    let bytes = text.as_bytes();
    let total: usize = bytes.len();
    let mut h: u32 = hash;
    let mut i: usize = 0;
    assert(bytes@.take(0) =~= Seq::empty());
    while i < total
        invariant
            i <= total,
            total == bytes@.len(),
            h == ui::path_hash(bytes@.take(i as int), hash),
        decreases total - i,
    {
        assert(bytes@.take(i + 1).drop_last() =~= bytes@.take(i as int));
        h = hash_byte(h, bytes[i]);
        i += 1;
    }
    assert(bytes@.take(i as int) =~= bytes@);
    #[verifier::truncate]
    let length: u32 = total as u32;
    hash_word(h, length)
}

/// The hash of what a row shows.
pub fn row_content_hash(primary: &str, secondary: &str, selected: u32) -> (r: u32)
    ensures
        r == word_hash(text_hash(text_hash(HASH_SEED, primary@), secondary@), selected),
{
    let first: u32 = hash_text(HASH_SEED, primary);
    let second: u32 = hash_text(first, secondary);
    hash_word(second, selected)
}

/// What a node adds to the fingerprint of a layout. The page and the background add
/// nothing: neither moves another node.
pub open spec fn printed(hash: u32, count: int, node: NodeView) -> (u32, int) {
    match node {
        NodeView::NavigationPage { .. } => (hash, count),
        NodeView::Text { key, text, .. } => (
            text_hash(word_hash(word_hash(hash, 1), key), text),
            count + 1,
        ),
        NodeView::StatusRow { key, .. } => (word_hash(word_hash(hash, 2), key), count + 1),
        NodeView::ActionRow { key, .. } => (word_hash(word_hash(hash, 4), key), count + 1),
        NodeView::Image { key, width, height, .. } => if key == PLAYER_BACKGROUND_KEY {
            (hash, count)
        } else {
            (
                word_hash(
                    word_hash(word_hash(word_hash(hash, 6), key), width % 65536),
                    height % 65536,
                ),
                count + 1,
            )
        },
    }
}

/// The fingerprint of a layout: a hash of what places its nodes, and their number.
pub open spec fn fingerprint(nodes: Seq<NodeView>) -> (u32, int)
    decreases nodes.len(),
{
    if nodes.len() == 0 {
        (HASH_SEED, 0)
    } else {
        let (hash, count) = fingerprint(nodes.drop_last());
        printed(hash, count, nodes.last())
    }
}

fn print_node(hash: u32, count: usize, node: &Node) -> (r: (u32, usize))
    requires
        count < usize::MAX,
    ensures
        (r.0, r.1 as int) == printed(hash, count as int, node@),
{
    match node {
        Node::NavigationPage { key: _, title: _ } => (hash, count),
        Node::Text { key, text, style: _ } => {
            let h: u32 = hash_word(hash_word(hash, 1), *key);
            (hash_text(h, text.as_str()), count + 1)
        },
        Node::StatusRow { key, label: _, value: _ } => {
            let h: u32 = hash_word(hash_word(hash, 2), *key);
            (h, count + 1)
        },
        Node::ActionRow { key, label: _, detail: _, event: _, enabled: _ } => {
            let h: u32 = hash_word(hash_word(hash, 4), *key);
            (h, count + 1)
        },
        Node::Image { key, resource: _, path: _, width, height, corner_radius: _ } => {
            if *key == PLAYER_BACKGROUND_KEY {
                (hash, count)
            } else {
                let h: u32 = hash_word(hash_word(hash, 6), *key);
                let w: u32 = hash_word(h, *width % 65536);
                (hash_word(w, *height % 65536), count + 1)
            }
        },
    }
}

/// Takes the fingerprint of a layout.
pub fn layout_fingerprint(nodes: &Vec<Node>) -> (r: (u32, usize))
    ensures
        (r.0, r.1 as int) == fingerprint(ui::nodes_view(nodes@)),
        r.1 <= nodes@.len(),
{
    let total: usize = nodes.len();
    let mut hash: u32 = HASH_SEED;
    let mut count: usize = 0;
    let mut i: usize = 0;
    let ghost views = ui::nodes_view(nodes@);
    assert(views.take(0) =~= Seq::empty());
    while i < total
        invariant
            i <= total,
            total == nodes@.len(),
            views == ui::nodes_view(nodes@),
            count <= i,
            (hash, count as int) == fingerprint(views.take(i as int)),
        decreases total - i,
    {
        assert(views.take(i + 1).drop_last() =~= views.take(i as int));
        assert(views.take(i + 1).last() == nodes@[i as int]@);
        let (h, n) = print_node(hash, count, &nodes[i]);
        hash = h;
        count = n;
        i += 1;
    }
    assert(views.take(i as int) =~= views);
    (hash, count)
}

// ---------------------------------------------------------------- rows

/// The kinds of rows of the screen.
#[derive(Clone, Copy, Debug, PartialEq, Eq, Structural)]
pub enum RowKind {
    Status,
    Action,
    ImageButton,
}

/// A row that stands on the screen.
#[derive(Clone, Copy, Debug)]
pub struct RowSlot {
    pub kind: RowKind,
    pub key: u32,
    /// Whether the page that is drawn has taken it.
    pub used: bool,
}

/// Whether a node is a row of a kind with a key.
pub open spec fn is_row(node: NodeView, kind: RowKind, key: u32) -> bool {
    match node {
        NodeView::StatusRow { key: k, .. } => kind == RowKind::Status && k == key,
        NodeView::ActionRow { key: k, .. } => kind == RowKind::Action && k == key,
        _ => false,
    }
}

/// Whether a page has a row of a kind with a key.
pub open spec fn has_row(nodes: Seq<NodeView>, kind: RowKind, key: u32) -> bool {
    exists|i: int| 0 <= i < nodes.len() && is_row(#[trigger] nodes[i], kind, key)
}

/// Whether a page has a row of a kind with a key.
pub fn snapshot_uses_row(nodes: &Vec<Node>, kind: RowKind, key: u32) -> (r: bool)
    ensures
        r == has_row(ui::nodes_view(nodes@), kind, key),
{
    let total: usize = nodes.len();
    let ghost views = ui::nodes_view(nodes@);
    let mut i: usize = 0;
    while i < total
        invariant
            i <= total,
            total == nodes@.len(),
            views == ui::nodes_view(nodes@),
            forall|k: int| 0 <= k < i ==> !is_row(#[trigger] views[k], kind, key),
        decreases total - i,
    {
        let found = match &nodes[i] {
            Node::StatusRow { key: k, label: _, value: _ } => kind == RowKind::Status && *k == key,
            Node::ActionRow { key: k, label: _, detail: _, event: _, enabled: _ } => kind
                == RowKind::Action && *k == key,
            _ => false,
        };
        assert(found == is_row(views[i as int], kind, key));
        if found {
            return true;
        }
        i += 1;
    }
    false
}

/// A row that shows the same thing already.
pub open spec fn same_row(slots: Seq<Option<RowSlot>>, kind: RowKind, key: u32, i: int) -> bool {
    slots[i] matches Some(s) && s.kind == kind && !s.used && s.key == key
}

/// A row that the page does not need for anything else.
pub open spec fn spare_row(
    slots: Seq<Option<RowSlot>>,
    nodes: Seq<NodeView>,
    kind: RowKind,
    i: int,
) -> bool {
    slots[i] matches Some(s) && s.kind == kind && !s.used && !has_row(nodes, kind, s.key)
}

pub open spec fn empty_row(slots: Seq<Option<RowSlot>>, i: int) -> bool {
    slots[i] is None
}

/// Finds a place for a row: the row that shows it already, or else the first spare
/// one, or else the first empty place.
pub fn find_row(slots: &Vec<Option<RowSlot>>, nodes: &Vec<Node>, kind: RowKind, key: u32) -> (r:
    Option<usize>)
    ensures
        ({
            let s = slots@;
            let views = ui::nodes_view(nodes@);
            let same = |i: int| same_row(s, kind, key, i);
            let spare = |i: int| spare_row(s, views, kind, i);
            let empty = |i: int| empty_row(s, i);
            match r {
                Some(i) => i < s.len() && if first_of(s.len() as int, same) is Some {
                    first_of(s.len() as int, same) == Some(i as int)
                } else if first_of(s.len() as int, spare) is Some {
                    first_of(s.len() as int, spare) == Some(i as int)
                } else {
                    first_of(s.len() as int, empty) == Some(i as int)
                },
                None => first_of(s.len() as int, same) is None && first_of(
                    s.len() as int,
                    spare,
                ) is None && first_of(s.len() as int, empty) is None,
            }
        }),
{
    let total: usize = slots.len();
    let ghost views = ui::nodes_view(nodes@);
    let ghost same = |i: int| same_row(slots@, kind, key, i);
    let ghost spare = |i: int| spare_row(slots@, views, kind, i);
    let ghost empty = |i: int| empty_row(slots@, i);
    let mut reusable: Option<usize> = None;
    let mut free: Option<usize> = None;
    let mut i: usize = 0;
    while i < total
        invariant
            i <= total,
            total == slots@.len(),
            views == ui::nodes_view(nodes@),
            same == (|i: int| same_row(slots@, kind, key, i)),
            spare == (|i: int| spare_row(slots@, views, kind, i)),
            empty == (|i: int| empty_row(slots@, i)),
            first_of(i as int, same) is None,
            first_of(i as int, spare) == place(reusable),
            first_of(i as int, empty) == place(free),
            reusable matches Some(k) ==> k < i,
            free matches Some(k) ==> k < i,
        decreases total - i,
    {
        match slots[i] {
            None => {
                if free.is_none() {
                    free = Some(i);
                }
            },
            Some(s) => {
                if s.kind == kind && !s.used {
                    if s.key == key {
                        proof {
                            lemma_first_stays(i + 1, total as int, same);
                        }
                        return Some(i);
                    }
                    if reusable.is_none() && !snapshot_uses_row(nodes, kind, s.key) {
                        reusable = Some(i);
                    }
                }
            },
        }
        i += 1;
    }
    match reusable {
        Some(k) => Some(k),
        None => free,
    }
}

pub open spec fn place(i: Option<usize>) -> Option<int> {
    match i {
        Some(k) => Some(k as int),
        None => None,
    }
}

/// The first place below a bound with a property.
pub open spec fn first_of(bound: int, p: spec_fn(int) -> bool) -> Option<int>
    decreases bound,
{
    if bound <= 0 {
        None
    } else {
        match first_of(bound - 1, p) {
            Some(i) => Some(i),
            None => if p(bound - 1) {
                Some(bound - 1)
            } else {
                None
            },
        }
    }
}

proof fn lemma_first_stays(bound: int, more: int, p: spec_fn(int) -> bool)
    requires
        0 <= bound <= more,
        first_of(bound, p) is Some,
    ensures
        first_of(more, p) == first_of(bound, p),
    decreases more - bound,
{
    if bound < more {
        lemma_first_stays(bound, more - 1, p);
    }
}

// ---------------------------------------------------------------- controls

/// How far a control has moved after some steps, out of 512: slowly at first and at
/// the end.
pub open spec fn eased(progress: int) -> int {
    let p = if progress > 8 {
        8
    } else {
        progress
    };
    3 * (p * p) * 8 - 2 * (p * p) * p
}

/// The scale of a control that is on its way.
pub open spec fn scale_between(from: int, to: int, progress: int) -> int {
    if from <= to {
        from + (to - from) * eased(progress) / 512
    } else {
        from - (from - to) * eased(progress) / 512
    }
}

/// The movement of a control.
#[derive(Clone, Copy, Debug, PartialEq, Eq, Structural)]
pub struct ControlAnimation {
    pub size: i32,
    pub from: i32,
    pub to: i32,
    pub progress: u32,
    pub animating: bool,
}

pub open spec fn in_scale(n: i32) -> bool {
    PLAYER_CONTROL_PRESSED_SIZE <= n <= PLAYER_CONTROL_SIZE
}

proof fn lemma_eased(progress: int)
    requires
        0 <= progress,
    ensures
        0 <= eased(progress) <= 512,
        progress >= 8 ==> eased(progress) == 512,
{
    assert(eased(0) == 0 && eased(1) == 22 && eased(2) == 80 && eased(3) == 162 && eased(4) == 256
        && eased(5) == 350 && eased(6) == 432 && eased(7) == 490 && eased(8) == 512);
    if progress >= 8 {
        assert(eased(progress) == eased(8));
    }
}

proof fn lemma_scale(from: int, to: int, progress: int)
    requires
        100 <= from <= 192,
        100 <= to <= 192,
        0 <= progress,
    ensures
        from <= to ==> from <= scale_between(from, to, progress) <= to,
        to <= from ==> to <= scale_between(from, to, progress) <= from,
        progress >= 8 ==> scale_between(from, to, progress) == to,
{
    lemma_eased(progress);
    let e = eased(progress);
    let d = if from <= to {
        to - from
    } else {
        from - to
    };
    assert(0 <= d * e <= d * 512) by (nonlinear_arith)
        requires
            0 <= d,
            0 <= e <= 512,
    ;
    if e == 512 {
        assert(d * e == d * 512);
    }
}

impl ControlAnimation {
    /// Every scale lies between that of a touch and that at rest, and a movement has
    /// steps left.
    pub open spec fn wf(self) -> bool {
        in_scale(self.size) && in_scale(self.from) && in_scale(self.to) && self.progress
            < CONTROL_ANIMATION_STEPS
    }

    /// The control after one more step.
    pub open spec fn stepped(self) -> ControlAnimation {
        if !self.animating {
            self
        } else if self.progress + 1 >= CONTROL_ANIMATION_STEPS {
            ControlAnimation { size: self.to, progress: 0, animating: false, ..self }
        } else {
            ControlAnimation {
                size: scale_between(
                    self.from as int,
                    self.to as int,
                    self.progress + 1,
                ) as i32,
                progress: (self.progress + 1) as u32,
                ..self
            }
        }
    }

    /// The control after some steps.
    pub open spec fn after(self, steps: nat) -> ControlAnimation
        decreases steps,
    {
        if steps == 0 {
            self
        } else {
            self.after((steps - 1) as nat).stepped()
        }
    }

    /// The control that begins to move to the scale of a touch, or back.
    pub open spec fn sent(self, pressed: bool) -> ControlAnimation {
        let target = if pressed {
            PLAYER_CONTROL_PRESSED_SIZE
        } else {
            PLAYER_CONTROL_SIZE
        };
        if self.size == target && !self.animating {
            self
        } else {
            ControlAnimation {
                from: self.size,
                to: target,
                progress: 0,
                animating: true,
                ..self
            }
        }
    }

    pub fn new() -> (r: ControlAnimation)
        ensures
            r == (ControlAnimation {
                size: PLAYER_CONTROL_SIZE,
                from: PLAYER_CONTROL_SIZE,
                to: PLAYER_CONTROL_SIZE,
                progress: 0,
                animating: false,
            }),
            r.wf(),
    {
        ControlAnimation {
            size: PLAYER_CONTROL_SIZE,
            from: PLAYER_CONTROL_SIZE,
            to: PLAYER_CONTROL_SIZE,
            progress: 0,
            animating: false,
        }
    }

    /// Sends the control to the scale of a touch, or back.
    pub fn start_control_animation(self, pressed: bool) -> (r: ControlAnimation)
        requires
            self.wf(),
        ensures
            r == self.sent(pressed),
            r.wf(),
    {
        let target: i32 = if pressed {
            PLAYER_CONTROL_PRESSED_SIZE
        } else {
            PLAYER_CONTROL_SIZE
        };
        if self.size == target && !self.animating {
            return self;
        }
        ControlAnimation {
            size: self.size,
            from: self.size,
            to: target,
            progress: 0,
            animating: true,
        }
    }

    /// Moves the control by one step.
    pub fn advance_control_animation(self) -> (r: ControlAnimation)
        requires
            self.wf(),
        ensures
            r == self.stepped(),
            r.wf(),
    {
        if !self.animating {
            return self;
        }
        let progress: u32 = self.progress + 1;
        proof {
            lemma_scale(self.from as int, self.to as int, progress as int);
            lemma_eased(progress as int);
        }
        if progress >= CONTROL_ANIMATION_STEPS {
            return ControlAnimation {
                size: self.to,
                from: self.from,
                to: self.to,
                progress: 0,
                animating: false,
            };
        }
        let share: u32 = smoothstep(progress);
        let size: i32 = if self.from <= self.to {
            let d: u32 = (self.to - self.from) as u32;
            assert(d * share <= 92 * 512) by (nonlinear_arith)
                requires
                    d <= 92,
                    share <= 512,
            ;
            self.from + (d * share / 512) as i32
        } else {
            let d: u32 = (self.from - self.to) as u32;
            assert(d * share <= 92 * 512) by (nonlinear_arith)
                requires
                    d <= 92,
                    share <= 512,
            ;
            self.from - (d * share / 512) as i32
        };
        ControlAnimation { size, from: self.from, to: self.to, progress, animating: true }
    }
}

/// How far a control has moved after some steps, out of 512.
pub fn smoothstep(progress: u32) -> (r: u32)
    ensures
        r == eased(progress as int),
        r <= 512,
{
    proof {
        lemma_eased(progress as int);
    }
    let p: u32 = if progress > CONTROL_ANIMATION_STEPS {
        CONTROL_ANIMATION_STEPS
    } else {
        progress
    };
    assert(p * p <= 64 && p * p * p <= 512) by (nonlinear_arith)
        requires
            p <= 8,
    ;
    let squared: u32 = p * p;
    assert(2 * (p * p) * p == 2 * (p * p * p)) by (nonlinear_arith);
    3 * squared * CONTROL_ANIMATION_STEPS - 2 * squared * p
}

/// A control that was sent somewhere rests there after all the steps of a movement.
pub proof fn movements_end(control: ControlAnimation, pressed: bool)
    requires
        control.wf(),
    ensures
        ({
            let done = control.sent(pressed).after(CONTROL_ANIMATION_STEPS as nat);
            &&& !done.animating
            &&& done.size == if pressed {
                PLAYER_CONTROL_PRESSED_SIZE
            } else {
                PLAYER_CONTROL_SIZE
            }
        }),
{
    let c = control.sent(pressed);
    assert(c.after(0) == c);
    assert(c.after(1) == c.after(0).stepped());
    assert(c.after(2) == c.after(1).stepped());
    assert(c.after(3) == c.after(2).stepped());
    assert(c.after(4) == c.after(3).stepped());
    assert(c.after(5) == c.after(4).stepped());
    assert(c.after(6) == c.after(5).stepped());
    assert(c.after(7) == c.after(6).stepped());
    assert(c.after(8) == c.after(7).stepped());
}

// ---------------------------------------------------------------- touches

/// Whether an event means the same after the page was drawn anew: all do but those
/// of song rows, which depend on what the page lists.
pub fn event_survives_restale(event: u32) -> (r: bool)
    ensures
        r == (event < EVENT_LOCAL_SONG_BASE),
{
    event < EVENT_LOCAL_SONG_BASE
}

/// The volume after an event, where that is one of the volume.
pub open spec fn volume_changed(current: u8, event: u32) -> Option<u8> {
    if event == EVENT_VOLUME_DOWN {
        Some(
            if current >= 10 {
                (current - 10) as u8
            } else {
                0
            },
        )
    } else if event == EVENT_VOLUME_UP {
        Some(
            if current <= 90 {
                (current + 10) as u8
            } else {
                100
            },
        )
    } else {
        None
    }
}

/// The volume that an event asks for.
pub fn volume_after(current: u8, event: u32) -> (r: Option<u8>)
    ensures
        r == if event == EVENT_VOLUME_DOWN {
            Some(
                if current < 10 {
                    0u8
                } else {
                    (current - 10) as u8
                },
            )
        } else if event == EVENT_VOLUME_UP {
            Some(
                if current > 90 {
                    100u8
                } else {
                    (current + 10) as u8
                },
            )
        } else {
            None
        },
        r == volume_changed(current, event),
{
    if event == EVENT_VOLUME_DOWN {
        Some(
            if current < 10 {
                0
            } else {
                current - 10
            },
        )
    } else if event == EVENT_VOLUME_UP {
        Some(
            if current > 90 {
                100
            } else {
                current + 10
            },
        )
    } else {
        None
    }
}

/// Where the player is, and the pages that lead back from there.
pub struct Navigation {
    pub route: Route,
    pub history: Vec<Route>,
    pub generation: u32,
}

/// The pages before the last visit of a page.
pub open spec fn before_last(history: Seq<Route>, route: Route) -> Seq<Route>
    decreases history.len(),
{
    if history.len() == 0 {
        history
    } else if history.last() == route {
        history.drop_last()
    } else {
        before_last(history.drop_last(), route)
    }
}

/// The number after another one; never zero.
pub open spec fn next_generation(generation: u32) -> u32 {
    if generation == u32::MAX {
        1
    } else {
        (generation + 1) as u32
    }
}

/// Follows the system to a page that it showed again: what was visited after it is
/// forgotten.
pub fn sync_resumed_page(nav: &mut Navigation, route: Route)
    ensures
        final(nav).route == route,
        old(nav).route == route ==> *final(nav) == *old(nav),
        old(nav).route != route ==> final(nav).history@ == before_last(old(nav).history@, route)
            && final(nav).generation == next_generation(old(nav).generation),
{
    if nav.route == route {
        return;
    }
    let ghost whole = nav.history@;
    let mut found = false;
    while nav.history.len() > 0 && !found
        invariant
            found ==> nav.history@ == before_last(whole, route),
            !found ==> before_last(nav.history@, route) == before_last(whole, route),
            nav.generation == old(nav).generation,
            nav.route == old(nav).route,
        decreases nav.history@.len(),
    {
        let ghost before = nav.history@;
        let last = nav.history.pop();
        assert(nav.history@ =~= before.drop_last());
        found = last == Some(route);
    }
    nav.route = route;
    nav.generation = if nav.generation == u32::MAX {
        1
    } else {
        nav.generation + 1
    };
}

// ---------------------------------------------------------------- laws

/// How much room some characters take: one unit each, or two beyond ASCII.
pub open spec fn room(s: Seq<char>) -> int
    decreases s.len(),
{
    if s.len() == 0 {
        0
    } else {
        room(s.drop_last()) + if s.last() == '\n' {
            0int
        } else if (s.last() as u32) < 128 {
            1
        } else {
            2
        }
    }
}

/// A line holds no more than twenty units, and a text has as many lines as its
/// characters need: what fits one line stays on it.
pub proof fn lines_hold_their_room(s: Seq<char>)
    ensures
        laid_out(s).0 >= 1,
        0 <= laid_out(s).1 <= 20,
        room(s) <= (laid_out(s).0 - 1) * 20 + laid_out(s).1,
        !s.contains('\n') && room(s) <= 20 ==> laid_out(s) == (1int, room(s)),
        room(s) >= 0,
    decreases s.len(),
{
    if s.len() > 0 {
        let rest = s.drop_last();
        lines_hold_their_room(rest);
        if !s.contains('\n') {
            assert(!rest.contains('\n')) by {
                if rest.contains('\n') {
                    let i = choose|i: int| 0 <= i < rest.len() && rest[i] == '\n';
                    assert(s[i] == '\n');
                }
            }
            assert(s[s.len() - 1] != '\n') by {
                assert(s.contains(s[s.len() - 1]));
            }
        }
    }
}

/// A line break begins a line, and any other character begins one only where it
/// does not fit any more.
pub proof fn lines_break_when_full(s: Seq<char>, c: char)
    ensures
        laid_out(s.push('\n')) == (laid_out(s).0 + 1, 0int),
        laid_out(s).0 <= laid_out(s.push(c)).0 <= laid_out(s).0 + 1,
        c != '\n' && laid_out(s.push(c)).0 > laid_out(s).0 ==> laid_out(s).1 + 2 > 20,
        c != '\n' && laid_out(s).1 + 2 <= 20 ==> laid_out(s.push(c)).0 == laid_out(s).0,
        label_height(s) <= label_height(s.push(c)),
        44 <= label_height(s) <= 264,
        laid_out(s).0 <= 6 ==> label_height(s) == 44 * laid_out(s).0,
{
    assert(s.push(c).drop_last() =~= s);
    assert(s.push('\n').drop_last() =~= s);
    lines_hold_their_room(s);
}

/// The bytes of a word are its digits to the base 256, the lowest first.
pub proof fn words_are_taken_low_byte_first(w: u32)
    ensures
        word_bytes(w).len() == 4,
        word_bytes(w)[0] + word_bytes(w)[1] * 256 + word_bytes(w)[2] * 65536 + word_bytes(w)[3]
            * 16777216 == w,
{
}

/// What a page is told by does not depend on its title, nor on the picture behind
/// it, and every other node counts once.
pub proof fn pages_are_told_by_their_rows(nodes: Seq<NodeView>, node: NodeView)
    ensures
        ({
            let (hash, count) = fingerprint(nodes);
            let (hash2, count2) = fingerprint(nodes.push(node));
            let unseen = node is NavigationPage || (node matches NodeView::Image { key, .. } && key
                == PLAYER_BACKGROUND_KEY);
            &&& unseen ==> hash2 == hash && count2 == count
            &&& !unseen ==> count2 == count + 1
        }),
        fingerprint(Seq::empty()).1 == 0,
{
    assert(nodes.push(node).drop_last() =~= nodes);
}

/// A row is recognised by its kind and its key, and is not told by what it says.
pub proof fn rows_are_told_by_kind_and_key(
    nodes: Seq<NodeView>,
    a: NodeView,
    b: NodeView,
    kind: RowKind,
    key: u32,
)
    requires
        match (a, b) {
            (NodeView::ActionRow { key: x, .. }, NodeView::ActionRow { key: y, .. }) => x == y,
            (NodeView::StatusRow { key: x, .. }, NodeView::StatusRow { key: y, .. }) => x == y,
            _ => false,
        },
    ensures
        fingerprint(nodes.push(a)) == fingerprint(nodes.push(b)),
        is_row(a, kind, key) == is_row(b, kind, key),
        is_row(a, kind, key) ==> (kind == RowKind::Action) == (a is ActionRow),
{
    assert(nodes.push(a).drop_last() =~= nodes);
    assert(nodes.push(b).drop_last() =~= nodes);
}

/// The first place is one at which the condition holds, and at none before it.
pub proof fn first_places_are_first(bound: int, p: spec_fn(int) -> bool)
    ensures
        match first_of(bound, p) {
            Some(i) => 0 <= i < bound && p(i) && forall|j: int| 0 <= j < i ==> !#[trigger] p(j),
            None => forall|j: int| 0 <= j < bound ==> !#[trigger] p(j),
        },
    decreases bound,
{
    if bound > 0 {
        first_places_are_first(bound - 1, p);
    }
}

/// A movement begins and ends gently: it starts at nothing, ends complete, never
/// goes back, and its second half mirrors the first.
pub proof fn movements_are_smooth(p: int, q: int)
    requires
        0 <= p <= q <= 8,
    ensures
        eased(0) == 0,
        eased(8) == 512,
        eased(4) == 256,
        0 <= eased(p) <= eased(q) <= 512,
        eased(8 - p) == 512 - eased(p),
        eased(1) < eased(4) - eased(3),
{
    assert(eased(0) == 0 && eased(1) == 22 && eased(2) == 80);
    assert(eased(3) == 162 && eased(4) == 256 && eased(5) == 350);
    assert(eased(6) == 432 && eased(7) == 490 && eased(8) == 512);
    assert(p == 0 || p == 1 || p == 2 || p == 3 || p == 4 || p == 5 || p == 6 || p == 7 || p == 8);
    assert(q == 0 || q == 1 || q == 2 || q == 3 || q == 4 || q == 5 || q == 6 || q == 7 || q == 8);
}

/// A control that moves has a size between where it came from and where it goes,
/// and is there at the end.
pub proof fn sizes_stay_between(from: int, to: int, p: int)
    requires
        0 <= p <= 8,
    ensures
        scale_between(from, to, 0) == from,
        scale_between(from, to, 8) == to,
        from <= to ==> from <= scale_between(from, to, p) <= to,
        from >= to ==> from >= scale_between(from, to, p) >= to,
{
    movements_are_smooth(p, p);
    let e = eased(p);
    let d = if from <= to {
        to - from
    } else {
        from - to
    };
    assert(0 <= d * e / 512 <= d) by (nonlinear_arith)
        requires
            0 <= d,
            0 <= e <= 512,
    ;
    assert(d * 0 / 512 == 0);
    assert(d * 512 / 512 == d);
}

/// A pressed control shrinks and a released one grows back, from the size that it
/// has; one that rests where it is sent stays at rest.
pub proof fn controls_are_sent_from_where_they_are(c: ControlAnimation, pressed: bool)
    requires
        c.wf(),
    ensures
        ({
            let s = c.sent(pressed);
            let goal = if pressed {
                100i32
            } else {
                192i32
            };
            &&& s.size == c.size
            &&& c.size != goal ==> s.animating && s.from == c.size && s.to == goal && s.progress
                == 0
            &&& c.size == goal && !c.animating ==> s == c
            &&& !c.animating ==> c.stepped() == c
        }),
{
}

/// A page that is resumed is left for the pages that came before it the last time
/// it was shown; a page that was not shown leaves none.
pub proof fn resuming_goes_back(history: Seq<Route>, a: Seq<Route>, route: Route, b: Seq<Route>)
    requires
        !b.contains(route),
    ensures
        before_last(a + seq![route] + b, route) == a,
        !history.contains(route) ==> before_last(history, route).len() == 0,
    decreases b.len(), history.len(),
{
    let all = a + seq![route] + b;
    if b.len() == 0 {
        assert(all.last() == route);
        assert(all.drop_last() =~= a);
    } else {
        let c = b.drop_last();
        assert(!c.contains(route)) by {
            if c.contains(route) {
                let i = choose|i: int| 0 <= i < c.len() && c[i] == route;
                assert(b[i] == route);
            }
        }
        assert(b.contains(b[b.len() - 1]));
        assert(all.last() != route);
        assert(all.drop_last() =~= a + seq![route] + c);
        resuming_goes_back(history, a, route, c);
    }
    lemma_not_shown(history, route);
}

proof fn lemma_not_shown(history: Seq<Route>, route: Route)
    ensures
        !history.contains(route) ==> before_last(history, route).len() == 0,
    decreases history.len(),
{
    if history.len() > 0 && !history.contains(route) {
        assert(history.contains(history[history.len() - 1]));
        let rest = history.drop_last();
        assert(!rest.contains(route)) by {
            if rest.contains(route) {
                let i = choose|i: int| 0 <= i < rest.len() && rest[i] == route;
                assert(history[i] == route);
            }
        }
        lemma_not_shown(rest, route);
    }
}

/// A generation differs from the one before it and is never zero.
pub proof fn generations_differ(g: u32)
    ensures
        next_generation(g) != g,
        next_generation(g) != 0,
        g < u32::MAX ==> next_generation(g) == g + 1,
{
}

/// The volume goes up and down by ten of a hundred, and stays within its range;
/// down and up again leads back.
pub proof fn volume_stays_in_range(current: u8, event: u32)
    requires
        current <= 100,
    ensures
        volume_changed(current, event) is Some <==> event == EVENT_VOLUME_DOWN || event
            == EVENT_VOLUME_UP,
        volume_changed(current, event) matches Some(v) ==> v <= 100,
        volume_changed(current, EVENT_VOLUME_DOWN)->0 <= current,
        volume_changed(current, EVENT_VOLUME_UP)->0 >= current,
        current >= 10 ==> volume_changed(current, EVENT_VOLUME_DOWN)->0 == current - 10,
        current <= 90 ==> volume_changed(current, EVENT_VOLUME_UP)->0 == current + 10,
        current >= 10 ==> volume_changed(
            volume_changed(current, EVENT_VOLUME_DOWN)->0,
            EVENT_VOLUME_UP,
        ) == Some(current),
{
}

} // verus!
