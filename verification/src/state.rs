//! The editor itself: cursor, open buffers, the active mode, pending
//! keystrokes, the yank register, the minibuffer, and the dispatcher that
//! turns resolved actions into state changes.
//!
//! The editor performs no file system work of its own: executing `Save` or
//! an `:e` command queues an [`IoRequest`], and the surrounding application
//! performs the request and reports the outcome back through
//! [`State::finish_load`], [`State::report_saved`] and
//! [`State::report_io_failed`].

use vstd::prelude::*;
use std::collections::VecDeque;
use crate::action::{clone_action, Action, ActionV};
use crate::buffer::{
    loaded_lines, serialize_lines, spec_last_col, BufView, Buffer,
};
use crate::keys::{Key, KeyCode};
use crate::mode::{
    fresh_mode, mode_wf, resolve_spec, spec_on_exit, Mode, ModeType, ModeV,
};
use crate::point::{Direction, Point};

verus! {

/// Which micro state the editor is in: routing keys through the active mode,
/// or collecting a command line in the minibuffer.
#[derive(PartialEq, Eq, Structural, Copy, Clone, Debug)]
pub enum MicroState {
    /// The default: key events are delegated to the current mode.
    Mode,
    /// Entering a command after `:`. Keystrokes collect in the minibuffer
    /// until enter or escape is pressed.
    MiniBuffer,
}

/// A status message for the bottom bar.
#[derive(PartialEq, Eq, Debug)]
pub enum Status {
    /// A buffer was written out.
    Saved { path: Vec<char>, bytes: usize },
    /// Paste was requested with an empty yank register.
    NothingToPaste,
    /// The minibuffer text was not a known command.
    InvalidCommand { text: Vec<char> },
    /// A queued file request failed; `reason` is the reported cause.
    IoFailed { path: Vec<char>, reason: Vec<char> },
}

/// Mathematical model of a `Status`.
pub enum StatusV {
    Saved { path: Seq<char>, bytes: usize },
    NothingToPaste,
    InvalidCommand { text: Seq<char> },
    IoFailed { path: Seq<char>, reason: Seq<char> },
}

impl View for Status {
    type V = StatusV;

    open spec fn view(&self) -> StatusV {
        match self {
            Status::Saved { path, bytes } => (StatusV::Saved { path: path@, bytes: *bytes }),
            Status::NothingToPaste => StatusV::NothingToPaste,
            Status::InvalidCommand { text } => (StatusV::InvalidCommand { text: text@ }),
            Status::IoFailed { path, reason } => (StatusV::IoFailed {
                path: path@,
                reason: reason@,
            }),
        }
    }
}

impl DeepView for Status {
    type V = StatusV;

    open spec fn deep_view(&self) -> StatusV {
        self.view()
    }
}

/// A file operation the editor asks the application to perform.
#[derive(PartialEq, Eq, Debug)]
pub enum IoRequest {
    /// Write `content` to `path`.
    Write { path: Vec<char>, content: Vec<char> },
    /// Read the contents of `path` into the active buffer, through
    /// `State::finish_load`.
    Read { path: Vec<char> },
}

/// Mathematical model of an `IoRequest`.
pub enum IoV {
    Write { path: Seq<char>, content: Seq<char> },
    Read { path: Seq<char> },
}

impl View for IoRequest {
    type V = IoV;

    open spec fn view(&self) -> IoV {
        match self {
            IoRequest::Write { path, content } => (IoV::Write {
                path: path@,
                content: content@,
            }),
            IoRequest::Read { path } => (IoV::Read { path: path@ }),
        }
    }
}

impl DeepView for IoRequest {
    type V = IoV;

    open spec fn deep_view(&self) -> IoV {
        self.view()
    }
}

impl DeepView for Buffer {
    type V = BufView;

    open spec fn deep_view(&self) -> BufView {
        self.view()
    }
}

/// Mathematical model of the whole editor.
#[verifier::ext_equal]
pub struct EdView {
    pub cursor: Point,
    pub buffers: Seq<BufView>,
    pub buffer_idx: usize,
    pub mode: ModeV,
    pub keystrokes: Seq<Key>,
    pub minibuffer: Seq<char>,
    pub microstate: MicroState,
    pub status: Option<StatusV>,
    pub yanked: Seq<Seq<char>>,
    pub previous: Option<ActionV>,
    pub io: Seq<IoV>,
}

/// The editor. One buffer in the collection is active; the cursor always
/// addresses a valid position in it.
pub struct State {
    /// Position of the cursor in the active buffer (not on the screen).
    pub cursor: Point,
    /// All open buffers.
    pub buffers: Vec<Buffer>,
    /// Index of the active buffer.
    pub buffer_idx: usize,
    /// The current mode.
    pub mode: Mode,
    /// Recorded keystrokes, awaiting resolution (`d` while hoping for `dd`).
    pub keystrokes: Vec<Key>,
    /// The text of the minibuffer; empty when it is not in use.
    pub minibuffer: Vec<char>,
    /// Whether keys route to the mode or to the minibuffer.
    pub microstate: MicroState,
    /// Status message for the bottom bar, if one is pending.
    pub status: Option<Status>,
    /// Most-recent-first register of yanked fragments.
    yanked: VecDeque<Vec<char>>,
    /// The last executed action, for `RepeatPrevious`.
    previous_action: Option<Action>,
    /// File work queued for the application.
    io_queue: Vec<IoRequest>,
}

impl View for State {
    type V = EdView;

    closed spec fn view(&self) -> EdView {
        EdView {
            cursor: self.cursor,
            buffers: self.buffers.deep_view(),
            buffer_idx: self.buffer_idx,
            mode: self.mode@,
            keystrokes: self.keystrokes@,
            minibuffer: self.minibuffer@,
            microstate: self.microstate,
            status: self.status.deep_view(),
            yanked: self.yanked.deep_view(),
            previous: self.previous_action.deep_view(),
            io: self.io_queue.deep_view(),
        }
    }
}

/// The active buffer of a view.
pub open spec fn active_buf(v: EdView) -> BufView {
    v.buffers[v.buffer_idx as int]
}

/// The active buffer's line at the cursor's row.
pub open spec fn cursor_line(v: EdView) -> Seq<char> {
    active_buf(v).lines[v.cursor.y as int]
}

/// The editor's structural invariant: at least one buffer is open, the
/// active index is in range, every buffer has at least one line, the cursor
/// addresses a column no further than one place past the end of its line,
/// and the mode is well formed with its default trie.
pub open spec fn ed_wf(v: EdView) -> bool {
    &&& v.buffers.len() >= 1
    &&& v.buffer_idx < v.buffers.len()
    &&& forall|i: int| 0 <= i < v.buffers.len() ==> (#[trigger] v.buffers[i]).lines.len() >= 1
    &&& v.cursor.y < active_buf(v).lines.len()
    &&& v.cursor.x <= cursor_line(v).len()
    &&& mode_wf(v.mode)
    &&& v.mode.trie == crate::mode::default_trie(v.mode.kind)
}

/// The model of a freshly opened editor: one empty buffer, Normal mode,
/// nothing pending.
pub open spec fn init_view() -> EdView {
    EdView {
        cursor: Point { x: 0, y: 0 },
        buffers: seq![BufView { lines: seq![seq!['\n']], path: None }],
        buffer_idx: 0,
        mode: fresh_mode(ModeType::Normal),
        keystrokes: Seq::empty(),
        minibuffer: Seq::empty(),
        microstate: MicroState::Mode,
        status: None,
        yanked: Seq::empty(),
        previous: None,
        io: Seq::empty(),
    }
}

/// Where one cursor motion lands: the raw destination of the direction,
/// with `EndOfLine` forced to the rightmost column and `EndOfFile` to the
/// last line, then clamped to the last line and to the destination row's
/// last usable column.
pub open spec fn motion_spec(lines: Seq<Seq<char>>, cur: Point, dir: Direction) -> Point
    recommends
        lines.len() >= 1,
{
    let raw = cur.spec_with_direction(dir);
    let y1 = if dir == Direction::EndOfFile || raw.y >= lines.len() {
        (lines.len() - 1) as usize
    } else {
        raw.y
    };
    let rawx = if dir == Direction::EndOfLine {
        usize::MAX
    } else {
        raw.x
    };
    let maxx = spec_last_col(lines[y1 as int], rawx as int);
    Point { x: maxx as usize, y: y1 }
}

/// `v` with its cursor moved one motion.
pub open spec fn do_move(v: EdView, dir: Direction) -> EdView {
    EdView { cursor: motion_spec(active_buf(v).lines, v.cursor, dir), ..v }
}

impl State {
    /// A fresh editor: a single empty buffer, Normal mode.
    pub fn new() -> (r: State)
        ensures
            r@ == init_view(),
            ed_wf(r@),
    {
        let buffer = Buffer::new();
        let mut buffers: Vec<Buffer> = Vec::new();
        buffers.push(buffer);
        let r = State {
            cursor: Point::new(0, 0),
            buffers,
            buffer_idx: 0,
            mode: Mode::normal_mode(),
            keystrokes: Vec::new(),
            minibuffer: Vec::new(),
            microstate: MicroState::Mode,
            status: None,
            yanked: VecDeque::new(),
            previous_action: None,
            io_queue: Vec::new(),
        };
        proof {
            assert(r@.buffers =~~= init_view().buffers);
            assert(r@.yanked =~~= init_view().yanked);
            assert(r@.io =~~= init_view().io);
            assert(r@.keystrokes =~~= init_view().keystrokes);
            assert(r@.minibuffer =~~= init_view().minibuffer);
            assert(r@ == init_view());
        }
        r
    }

    /// The current mode.
    pub fn mode(&self) -> (r: &Mode)
        ensures
            r@ == self@.mode,
    {
        &self.mode
    }

    /// The active buffer, for the renderer.
    pub fn active_buffer(&self) -> (r: &Buffer)
        requires
            ed_wf(self@),
        ensures
            r@ == active_buf(self@),
    {
        &self.buffers[self.buffer_idx]
    }

    /// Move the cursor one motion, clamping it to the active buffer.
    pub fn move_cursor(&mut self, direction: Direction)
        requires
            bufs_wf(old(self)@),
        ensures
            final(self)@ == do_move(old(self)@, direction),
            bufs_wf(final(self)@),
            final(self)@.cursor.y < active_buf(final(self)@).lines.len(),
            final(self)@.cursor.x <= cursor_line(final(self)@).len(),
            ed_wf(old(self)@) ==> ed_wf(final(self)@),
    {
        let mut cur = self.cursor.with_direction(direction);
        let nlines = self.buffers[self.buffer_idx].line_len();
        match direction {
            Direction::EndOfFile => {
                cur.y = nlines - 1;
            }
            _ => {}
        }
        if cur.y >= nlines {
            cur.y = nlines - 1;
        }
        match direction {
            Direction::EndOfLine => {
                cur.x = usize::MAX;
            }
            _ => {}
        }
        let max_x = self.buffers[self.buffer_idx].last_non_empty_col(cur);
        cur.clamp_by(max_x, nlines - 1);
        self.cursor = cur;
        proof {
            assert(final(self)@ == do_move(old(self)@, direction));
        }
    }
}

/// Moving up from the first row stays on the first row: the motion is
/// idempotent at the top boundary.
pub proof fn lemma_up_at_top(lines: Seq<Seq<char>>, cur: Point)
    requires
        lines.len() >= 1,
        cur.y == 0,
    ensures
        motion_spec(lines, cur, Direction::Up).y == 0,
{
}

/// Moving left from the first column stays on the first column: the motion
/// is idempotent at the left boundary.
pub proof fn lemma_left_at_zero(lines: Seq<Seq<char>>, cur: Point)
    requires
        lines.len() >= 1,
        cur.y < lines.len(),
        cur.x == 0,
    ensures
        motion_spec(lines, cur, Direction::Left).x == 0,
        motion_spec(lines, cur, Direction::Left).y == cur.y,
{
}

/// `EndOfFile` always lands on the last line.
pub proof fn lemma_end_of_file_lands_last(lines: Seq<Seq<char>>, cur: Point)
    requires
        1 <= lines.len() <= usize::MAX,
    ensures
        motion_spec(lines, cur, Direction::EndOfFile).y == lines.len() - 1,
{
}


/// The buffer-collection part of the invariant: at least one buffer, the
/// active index in range, every buffer non-lineless.
pub open spec fn bufs_wf(v: EdView) -> bool {
    &&& v.buffers.len() >= 1
    &&& v.buffer_idx < v.buffers.len()
    &&& forall|i: int| 0 <= i < v.buffers.len() ==> (#[trigger] v.buffers[i]).lines.len() >= 1
}

/// `v` with the active buffer's lines replaced.
pub open spec fn with_lines(v: EdView, lines: Seq<Seq<char>>) -> EdView {
    EdView {
        buffers: v.buffers.update(
            v.buffer_idx as int,
            BufView { lines, path: active_buf(v).path },
        ),
        ..v
    }
}

/// The cursor clamped to the buffer under it, without a motion: used when
/// the buffer collection or contents change out from under the cursor.
pub open spec fn clamp_spec(lines: Seq<Seq<char>>, cur: Point) -> Point {
    let y1 = if cur.y < lines.len() {
        cur.y
    } else {
        (lines.len() - 1) as usize
    };
    Point { x: spec_last_col(lines[y1 as int], cur.x as int) as usize, y: y1 }
}

/// `v` with its cursor clamped to the active buffer.
pub open spec fn do_clamp(v: EdView) -> EdView {
    EdView { cursor: clamp_spec(active_buf(v).lines, v.cursor), ..v }
}

/// Switching modes: run the old mode's exit action through the dispatch
/// rules, recording it as the last action, then install a fresh instance of
/// the destination mode. The only exit action any mode issues is a cursor
/// motion.
pub open spec fn switch_spec(v: EdView, kind: ModeType) -> EdView {
    let v1 = match spec_on_exit(v.mode.kind) {
        None => v,
        Some(a) => match a {
            ActionV::MoveCursor(d) => (EdView { previous: Some(a), ..do_move(v, d) }),
            _ => v,
        },
    };
    EdView { mode: fresh_mode(kind), ..v1 }
}

/// Whether a yanked fragment holds a line terminator, making paste linewise.
pub open spec fn has_nl(s: Seq<char>) -> bool {
    exists|i: int| 0 <= i < s.len() && s[i] == '\n'
}

/// Record `a` as the last executed action; `RepeatPrevious` and `Cancel`
/// leave the record alone.
pub open spec fn record(v: EdView, a: ActionV) -> EdView {
    match a {
        ActionV::RepeatPrevious => v,
        ActionV::Cancel => v,
        _ => EdView { previous: Some(a), ..v },
    }
}

/// Insert a character at the cursor; the cursor moves right.
pub open spec fn insert_arm(v: EdView, c: char) -> EdView {
    let v1 = with_lines(
        v,
        active_buf(v).lines.update(
            v.cursor.y as int,
            cursor_line(v).insert(v.cursor.x as int, c),
        ),
    );
    do_move(v1, Direction::Right)
}

/// Overwrite the character at the cursor, or insert at the trailing marker;
/// the cursor moves right.
pub open spec fn replace_arm(v: EdView, c: char) -> EdView {
    let v1 = with_lines(
        v,
        active_buf(v).lines.update(
            v.cursor.y as int,
            crate::buffer::upserted(cursor_line(v), v.cursor.x as int, c),
        ),
    );
    do_move(v1, Direction::Right)
}

/// Remove the character at the cursor, pushing it onto the yank register
/// front; with no character under the cursor nothing happens.
pub open spec fn delete_arm(v: EdView) -> EdView {
    let line = cursor_line(v);
    if v.cursor.x < line.len() {
        let v1 = with_lines(
            v,
            active_buf(v).lines.update(v.cursor.y as int, line.remove(v.cursor.x as int)),
        );
        EdView { yanked: seq![seq![line[v.cursor.x as int]]] + v1.yanked, ..v1 }
    } else {
        v
    }
}

/// Remove the whole current line onto the yank register front; the cursor
/// moves to the beginning of the line. Removing the only line leaves one
/// empty line behind.
pub open spec fn delete_line_arm(v: EdView) -> EdView {
    let line = cursor_line(v);
    let lines2 = if active_buf(v).lines.len() == 1 {
        seq![seq!['\n']]
    } else {
        active_buf(v).lines.remove(v.cursor.y as int)
    };
    let v1 = with_lines(v, lines2);
    let v2 = EdView { yanked: seq![line] + v1.yanked, ..v1 };
    do_move(v2, Direction::BeginningOfLine)
}

/// Move left, then remove the character now under the cursor, if any.
pub open spec fn backward_delete_arm(v: EdView) -> EdView {
    let v1 = do_move(v, Direction::Left);
    let line = cursor_line(v1);
    if v1.cursor.x < line.len() {
        with_lines(
            v1,
            active_buf(v1).lines.update(
                v1.cursor.y as int,
                line.remove(v1.cursor.x as int),
            ),
        )
    } else {
        v1
    }
}

/// Paste the yank register front: linewise below the cursor when the
/// fragment holds a terminator, else inline after the cursor; an empty
/// register only posts a status message.
pub open spec fn paste_arm(v: EdView) -> EdView {
    if v.yanked.len() == 0 {
        EdView { status: Some(StatusV::NothingToPaste), ..v }
    } else {
        let frag = v.yanked[0];
        if has_nl(frag) {
            let v1 = with_lines(v, active_buf(v).lines.insert(v.cursor.y + 1, seq!['\n']));
            let v2 = do_move(do_move(v1, Direction::Down), Direction::BeginningOfLine);
            with_lines(
                v2,
                active_buf(v2).lines.update(
                    v2.cursor.y as int,
                    crate::buffer::spliced(
                        cursor_line(v2),
                        v2.cursor.x as int,
                        frag.drop_last(),
                    ),
                ),
            )
        } else {
            let v1 = do_move(v, Direction::Right);
            with_lines(
                v1,
                active_buf(v1).lines.update(
                    v1.cursor.y as int,
                    crate::buffer::spliced(cursor_line(v1), v1.cursor.x as int, frag),
                ),
            )
        }
    }
}

/// Split the current line at the cursor; the cursor moves to the beginning
/// of the new line below.
pub open spec fn new_line_at_point_arm(v: EdView) -> EdView {
    let line = cursor_line(v);
    let lines2 = active_buf(v).lines.update(
        v.cursor.y as int,
        line.subrange(0, v.cursor.x as int).push('\n'),
    ).insert(v.cursor.y + 1, line.subrange(v.cursor.x as int, line.len() as int));
    let v1 = with_lines(v, lines2);
    do_move(do_move(v1, Direction::Down), Direction::BeginningOfLine)
}

/// Open an empty line below the cursor, move onto it, and enter Insert
/// mode.
pub open spec fn new_line_arm(v: EdView) -> EdView {
    let v1 = with_lines(v, active_buf(v).lines.insert(v.cursor.y + 1, seq!['\n']));
    let v2 = do_move(do_move(v1, Direction::Down), Direction::BeginningOfLine);
    switch_spec(v2, ModeType::Insert)
}

/// Queue a write of the active buffer to its bound path; with no bound path
/// nothing happens.
pub open spec fn save_arm(v: EdView) -> EdView {
    match active_buf(v).path {
        Some(p) => (EdView {
            io: v.io.push(
                IoV::Write { path: p, content: serialize_lines(active_buf(v).lines) },
            ),
            ..v
        }),
        None => v,
    }
}

/// Copy the current line onto the yank register front.
pub open spec fn yank_line_arm(v: EdView) -> EdView {
    EdView { yanked: seq![cursor_line(v)] + v.yanked, ..v }
}

/// Open a fresh empty buffer and make it active.
pub open spec fn new_buffer_arm(v: EdView) -> EdView {
    do_clamp(
        EdView {
            buffers: v.buffers.push(BufView { lines: seq![seq!['\n']], path: None }),
            buffer_idx: v.buffers.len() as usize,
            ..v
        },
    )
}

/// Advance the active buffer index, wrapping past the end.
pub open spec fn next_buffer_arm(v: EdView) -> EdView {
    do_clamp(
        EdView {
            buffer_idx: (((v.buffer_idx + 1) as int % v.buffers.len() as int)) as usize,
            ..v
        },
    )
}

/// Retreat the active buffer index, wrapping from the first buffer to the
/// last.
pub open spec fn prev_buffer_arm(v: EdView) -> EdView {
    do_clamp(
        EdView {
            buffer_idx: if v.buffer_idx == 0 {
                (v.buffers.len() - 1) as usize
            } else {
                (v.buffer_idx - 1) as usize
            },
            ..v
        },
    )
}

/// Clear the pending keystrokes and force a switch to Normal mode; the
/// forced switch is what lands in the last-action record.
pub open spec fn cancel_arm(v: EdView) -> EdView {
    let v1 = EdView { keystrokes: Seq::empty(), ..v };
    let v2 = switch_spec(v1, ModeType::Normal);
    EdView { previous: Some(ActionV::ChangeMode(ModeType::Normal)), ..v2 }
}

/// One step of the dispatch table: what executing `a` does to the editor,
/// and whether it requests quitting. `allow_prev` guards re-execution of
/// the recorded last action, so that a recorded action that itself says
/// "repeat the last action" cannot chase its own tail.
pub open spec fn step(v: EdView, a: ActionV, allow_prev: bool) -> (EdView, bool)
    decreases (if allow_prev { 1int } else { 0int }), a, 0nat,
{
    let res = match a {
        ActionV::RepeatPrevious => {
            if allow_prev && v.previous is Some {
                (step(v, v.previous->0, false).0, false)
            } else {
                (v, false)
            }
        }
        ActionV::NewLineAtPoint => (new_line_at_point_arm(v), false),
        ActionV::NewLine => (new_line_arm(v), false),
        ActionV::Insert(c) => (insert_arm(v, c), false),
        ActionV::Replace(c) => (replace_arm(v, c), false),
        ActionV::Delete => (delete_arm(v), false),
        ActionV::DeleteLine => (delete_line_arm(v), false),
        ActionV::BackwardDelete => (backward_delete_arm(v), false),
        ActionV::Paste => (paste_arm(v), false),
        ActionV::MoveCursor(d) => (do_move(v, d), false),
        ActionV::ChangeMode(m) => (switch_spec(v, m), false),
        ActionV::Cancel => (cancel_arm(v), false),
        ActionV::Save => (save_arm(v), false),
        ActionV::YankLine => (yank_line_arm(v), false),
        ActionV::NewBuffer => (new_buffer_arm(v), false),
        ActionV::NextBuffer => (next_buffer_arm(v), false),
        ActionV::PrevBuffer => (prev_buffer_arm(v), false),
        ActionV::Multi(actions) => step_seq(v, actions, allow_prev),
        ActionV::Repeat(inner, n) => step_repeat(v, *inner, n as nat, allow_prev),
        ActionV::Quit => (v, true),
        ActionV::PartialKey => (v, false),
    };
    (record(res.0, a), res.1)
}

/// Execute a list of actions in order; the quit flag is that of the last
/// action executed.
pub open spec fn step_seq(v: EdView, actions: Seq<ActionV>, allow_prev: bool) -> (
    EdView,
    bool,
)
    decreases (if allow_prev { 1int } else { 0int }), actions, 0nat,
{
    if actions.len() == 0 {
        (v, false)
    } else {
        let first = step(v, actions[0], allow_prev);
        if actions.len() == 1 {
            first
        } else {
            step_seq(first.0, actions.drop_first(), allow_prev)
        }
    }
}

/// Execute one action `n` times in sequence; the quit flag is that of the
/// last repetition.
pub open spec fn step_repeat(v: EdView, a: ActionV, n: nat, allow_prev: bool) -> (
    EdView,
    bool,
)
    decreases (if allow_prev { 1int } else { 0int }), a, n,
{
    if n == 0 {
        (v, false)
    } else {
        let first = step(v, a, allow_prev);
        if n == 1 {
            first
        } else {
            step_repeat(first.0, a, (n - 1) as nat, allow_prev)
        }
    }
}

/// An owned copy of a character vector.
fn copy_chars(v: &Vec<char>) -> (r: Vec<char>)
    ensures
        r@ == v@,
{
    let mut r: Vec<char> = Vec::new();
    let mut i: usize = 0;
    while i < v.len()
        invariant
            i <= v@.len(),
            r@ =~= v@.subrange(0, i as int),
        decreases v@.len() - i,
    {
        r.push(v[i]);
        i = i + 1;
        proof {
            assert(r@ =~= v@.subrange(0, i as int));
        }
    }
    proof {
        assert(v@.subrange(0, v@.len() as int) =~= v@);
    }
    r
}

/// Whether the fragment holds a line terminator.
fn contains_nl(v: &Vec<char>) -> (r: bool)
    ensures
        r == has_nl(v@),
{
    let mut i: usize = 0;
    while i < v.len()
        invariant
            i <= v@.len(),
            forall|j: int| 0 <= j < i ==> v@[j] != '\n',
        decreases v@.len() - i,
    {
        if v[i] == '\n' {
            return true;
        }
        i = i + 1;
    }
    false
}

impl State {
    /// Mutable access to the active buffer.
    fn active_mut(&mut self) -> (b: &mut Buffer)
        requires
            bufs_wf(old(self)@),
        ensures
            b@ == active_buf(old(self)@),
            final(self)@ =~~= (EdView {
                buffers: old(self)@.buffers.update(
                    old(self)@.buffer_idx as int,
                    final(b)@,
                ),
                ..old(self)@
            }),
    {
        let idx = self.buffer_idx;
        &mut self.buffers[idx]
    }

    /// Clamp the cursor to the active buffer after the buffer collection or
    /// contents changed under it.
    fn clamp_cursor(&mut self)
        requires
            bufs_wf(old(self)@),
        ensures
            final(self)@ == do_clamp(old(self)@),
            ed_wf(old(self)@) ==> ed_wf(final(self)@),
            bufs_wf(final(self)@),
            final(self)@.cursor.y < active_buf(final(self)@).lines.len(),
            final(self)@.cursor.x <= cursor_line(final(self)@).len(),
    {
        let nlines = self.buffers[self.buffer_idx].line_len();
        let mut cur = self.cursor;
        if cur.y >= nlines {
            cur.y = nlines - 1;
        }
        let max_x = self.buffers[self.buffer_idx].last_non_empty_col(cur);
        cur.clamp_by(max_x, nlines - 1);
        self.cursor = cur;
    }

    /// Run the current mode's exit action through the dispatch rules, then
    /// switch to a fresh instance of the destination mode.
    fn switch_mode(&mut self, kind: ModeType)
        requires
            ed_wf(old(self)@),
        ensures
            final(self)@ == switch_spec(old(self)@, kind),
            ed_wf(final(self)@),
    {
        let exit = self.mode.on_exit();
        match exit {
            Some(action) => {
                match &action {
                    Action::MoveCursor(d) => {
                        self.move_cursor(*d);
                        self.previous_action = Some(action);
                    }
                    _ => {
                        proof {
                            assert(false);
                        }
                    }
                }
            }
            None => {}
        }
        self.mode = Mode::of_type(kind);
    }

    /// Paste the front of the yank register at the cursor.
    fn paste(&mut self)
        requires
            ed_wf(old(self)@),
            old(self)@.yanked.len() > 0,
        ensures
            final(self)@ == paste_arm(old(self)@),
            ed_wf(final(self)@),
    {
        let mut frag = copy_chars(&self.yanked[0]);
        proof {
            assert(frag@ == old(self)@.yanked[0]);
        }
        if contains_nl(&frag) {
            let cursor = self.cursor;
            let b = self.active_mut();
            b.new_line(cursor);
            self.move_cursor(Direction::Down);
            self.move_cursor(Direction::BeginningOfLine);
            frag.pop();
            let cursor = self.cursor;
            let b = self.active_mut();
            b.insert_text(cursor, &frag);
        } else {
            self.move_cursor(Direction::Right);
            let cursor = self.cursor;
            let b = self.active_mut();
            b.insert_text(cursor, &frag);
        }
    }

    /// Remove the character at the cursor onto the yank register front; with
    /// no character under the cursor nothing happens.
    fn exec_delete(&mut self)
        requires
            ed_wf(old(self)@),
        ensures
            final(self)@ == delete_arm(old(self)@),
            ed_wf(final(self)@),
    {
        let ghost v0 = self@;
        let cursor = self.cursor;
        let deletable = self.buffers[self.buffer_idx].char_at(cursor).is_some();
        if deletable {
            let b = self.active_mut();
            let removed = b.delete(cursor);
            let mut one: Vec<char> = Vec::new();
            one.push(removed);
            self.yanked.push_front(one);
            proof {
                assert(self@.yanked =~~= delete_arm(v0).yanked);
                assert(self@ =~~= delete_arm(v0));
            }
        }
    }

    /// Remove the whole current line onto the yank register front; the
    /// cursor moves to the beginning of the line.
    fn exec_delete_line(&mut self)
        requires
            ed_wf(old(self)@),
        ensures
            final(self)@ == delete_line_arm(old(self)@),
            ed_wf(final(self)@),
    {
        let ghost v0 = self@;
        let cursor = self.cursor;
        let b = self.active_mut();
        let removed = b.delete_line(cursor);
        self.yanked.push_front(removed);
        proof {
            assert(self@.yanked =~~= seq![cursor_line(v0)] + v0.yanked);
        }
        self.move_cursor(Direction::BeginningOfLine);
    }

    /// Move left, then remove the character now under the cursor, if any.
    fn exec_backward_delete(&mut self)
        requires
            ed_wf(old(self)@),
        ensures
            final(self)@ == backward_delete_arm(old(self)@),
            ed_wf(final(self)@),
    {
        self.move_cursor(Direction::Left);
        let cursor = self.cursor;
        let deletable = self.buffers[self.buffer_idx].char_at(cursor).is_some();
        if deletable {
            let b = self.active_mut();
            let _ = b.delete(cursor);
        }
    }

    /// Queue a write of the active buffer to its bound path; with no bound
    /// path nothing happens.
    fn exec_save(&mut self)
        requires
            ed_wf(old(self)@),
        ensures
            final(self)@ == save_arm(old(self)@),
            ed_wf(final(self)@),
    {
        let ghost v0 = self@;
        let idx = self.buffer_idx;
        let path: Option<Vec<char>> = match &self.buffers[idx].filepath {
            Some(p) => Some(copy_chars(p)),
            None => None,
        };
        match path {
            Some(p) => {
                let content = self.buffers[idx].save_text();
                self.io_queue.push(IoRequest::Write { path: p, content });
                proof {
                    assert(self@.io =~~= save_arm(v0).io);
                    assert(self@ =~~= save_arm(v0));
                }
            }
            None => {}
        }
    }

    /// Copy the current line onto the yank register front.
    fn exec_yank_line(&mut self)
        requires
            ed_wf(old(self)@),
        ensures
            final(self)@ == yank_line_arm(old(self)@),
            ed_wf(final(self)@),
    {
        let ghost v0 = self@;
        let y = self.cursor.y;
        let idx = self.buffer_idx;
        let line: Option<Vec<char>> = match self.buffers[idx].line_at(y) {
            Some(l) => Some(copy_chars(l)),
            None => None,
        };
        match line {
            Some(l) => {
                self.yanked.push_front(l);
                proof {
                    assert(self@.yanked =~~= yank_line_arm(v0).yanked);
                    assert(self@ =~~= yank_line_arm(v0));
                }
            }
            None => {}
        }
    }

    /// Split the current line at the cursor and step onto the new line.
    fn exec_new_line_at_point(&mut self)
        requires
            ed_wf(old(self)@),
        ensures
            final(self)@ == new_line_at_point_arm(old(self)@),
            ed_wf(final(self)@),
    {
        let cursor = self.cursor;
        let b = self.active_mut();
        b.split_line(cursor);
        self.move_cursor(Direction::Down);
        self.move_cursor(Direction::BeginningOfLine);
    }

    /// Open an empty line below the cursor, step onto it, enter Insert mode.
    fn exec_new_line(&mut self)
        requires
            ed_wf(old(self)@),
        ensures
            final(self)@ == new_line_arm(old(self)@),
            ed_wf(final(self)@),
    {
        let cursor = self.cursor;
        let b = self.active_mut();
        b.new_line(cursor);
        self.move_cursor(Direction::Down);
        self.move_cursor(Direction::BeginningOfLine);
        self.switch_mode(ModeType::Insert);
    }

    /// Insert a character at the cursor and move right.
    fn exec_insert(&mut self, c: char)
        requires
            ed_wf(old(self)@),
        ensures
            final(self)@ == insert_arm(old(self)@, c),
            ed_wf(final(self)@),
    {
        let cursor = self.cursor;
        let b = self.active_mut();
        b.insert(cursor, c);
        self.move_cursor(Direction::Right);
    }

    /// Overwrite or insert a character at the cursor and move right.
    fn exec_replace(&mut self, c: char)
        requires
            ed_wf(old(self)@),
        ensures
            final(self)@ == replace_arm(old(self)@, c),
            ed_wf(final(self)@),
    {
        let cursor = self.cursor;
        let b = self.active_mut();
        b.upsert(cursor, c);
        self.move_cursor(Direction::Right);
    }

    /// Open a fresh empty buffer and make it active.
    fn exec_new_buffer(&mut self)
        requires
            ed_wf(old(self)@),
        ensures
            final(self)@ == new_buffer_arm(old(self)@),
            ed_wf(final(self)@),
    {
        let ghost v0 = self@;
        self.buffers.push(Buffer::new());
        self.buffer_idx = self.buffers.len() - 1;
        proof {
            assert(self@.buffers =~~= v0.buffers.push(
                BufView { lines: seq![seq!['\n']], path: None },
            ));
        }
        self.clamp_cursor();
    }

    /// Record the action as the last executed one, unless it is
    /// `RepeatPrevious` or `Cancel`.
    fn record_action(&mut self, action: &Action)
        ensures
            final(self)@ == record(old(self)@, action@),
    {
        match action {
            Action::RepeatPrevious => {}
            Action::Cancel => {}
            _ => {
                self.previous_action = Some(clone_action(action));
            }
        }
    }

    /// Execute a list of actions in order; the quit flag is that of the
    /// last action executed.
    #[verifier::loop_isolation(false)]
    #[verifier::rlimit(100)]
    fn execute_list(&mut self, actions: &Vec<Action>, allow_prev: bool) -> (quit: bool)
        requires
            ed_wf(old(self)@),
        ensures
            final(self)@ == step_seq(
                old(self)@,
                crate::action::view_actions(actions@),
                allow_prev,
            ).0,
            quit == step_seq(
                old(self)@,
                crate::action::view_actions(actions@),
                allow_prev,
            ).1,
            ed_wf(final(self)@),
        decreases (if allow_prev { 1int } else { 0int }), *actions, 0nat,
    {
        let ghost v0 = self@;
        let ghost seqv = crate::action::view_actions(actions@);
        proof {
            crate::action::lemma_view_actions(actions@);
            assert(seqv.subrange(0, seqv.len() as int) =~= seqv);
        }
        let mut result = false;
        let mut i: usize = 0;
        while i < actions.len()
            invariant
                i <= actions@.len(),
                ed_wf(self@),
                step_seq(v0, seqv, allow_prev).0 == if i < actions@.len() {
                    step_seq(
                        self@,
                        seqv.subrange(i as int, seqv.len() as int),
                        allow_prev,
                    ).0
                } else {
                    self@
                },
                step_seq(v0, seqv, allow_prev).1 == if i < actions@.len() {
                    step_seq(
                        self@,
                        seqv.subrange(i as int, seqv.len() as int),
                        allow_prev,
                    ).1
                } else {
                    result
                },
            decreases actions@.len() - i,
        {
            let ghost rest = seqv.subrange(i as int, seqv.len() as int);
            proof {
                assert(decreases_to!(*actions => actions@[i as int]));
                assert(rest[0] == seqv[i as int]);
                assert(rest.drop_first() =~= seqv.subrange(
                    i + 1,
                    seqv.len() as int,
                ));
            }
            result = self.execute_action(&actions[i], allow_prev);
            i = i + 1;
        }
        result
    }

    /// Execute one action `n` times in sequence; the quit flag is that of
    /// the last repetition.
    #[verifier::loop_isolation(false)]
    #[verifier::rlimit(100)]
    fn execute_repeat(&mut self, inner: &Action, n: usize, allow_prev: bool) -> (quit: bool)
        requires
            ed_wf(old(self)@),
        ensures
            final(self)@ == step_repeat(old(self)@, inner@, n as nat, allow_prev).0,
            quit == step_repeat(old(self)@, inner@, n as nat, allow_prev).1,
            ed_wf(final(self)@),
        decreases (if allow_prev { 1int } else { 0int }), *inner, n,
    {
        let ghost v0 = self@;
        let mut result = false;
        let mut cnt: usize = 0;
        while cnt < n
            invariant
                cnt <= n,
                ed_wf(self@),
                step_repeat(v0, inner@, n as nat, allow_prev).0 == if cnt < n {
                    step_repeat(self@, inner@, (n - cnt) as nat, allow_prev).0
                } else {
                    self@
                },
                step_repeat(v0, inner@, n as nat, allow_prev).1 == if cnt < n {
                    step_repeat(self@, inner@, (n - cnt) as nat, allow_prev).1
                } else {
                    result
                },
            decreases n - cnt,
        {
            result = self.execute_action(inner, allow_prev);
            cnt = cnt + 1;
        }
        result
    }

    /// Execute one action against the editor, returning the quit flag.
    /// `allow_prev` guards `RepeatPrevious`, exactly as in [`step`].
    #[verifier::loop_isolation(false)]
    #[verifier::rlimit(100)]
    fn execute_action(&mut self, action: &Action, allow_prev: bool) -> (quit: bool)
        requires
            ed_wf(old(self)@),
        ensures
            final(self)@ == step(old(self)@, action@, allow_prev).0,
            quit == step(old(self)@, action@, allow_prev).1,
            ed_wf(final(self)@),
        decreases (if allow_prev { 1int } else { 0int }), *action, 0nat,
    {
        let quit: bool = match action {
            Action::RepeatPrevious => {
                if allow_prev {
                    let prev: Option<Action> = match &self.previous_action {
                        Some(p) => Some(clone_action(p)),
                        None => None,
                    };
                    match prev {
                        Some(p) => {
                            let _ = self.execute_action(&p, false);
                        }
                        None => {}
                    }
                }
                false
            }
            Action::NewLineAtPoint => {
                self.exec_new_line_at_point();
                false
            }
            Action::NewLine => {
                self.exec_new_line();
                false
            }
            Action::Insert(c) => {
                self.exec_insert(*c);
                false
            }
            Action::Replace(c) => {
                self.exec_replace(*c);
                false
            }
            Action::Delete => {
                self.exec_delete();
                false
            }
            Action::DeleteLine => {
                self.exec_delete_line();
                false
            }
            Action::BackwardDelete => {
                self.exec_backward_delete();
                false
            }
            Action::Paste => {
                if self.yanked.len() == 0 {
                    self.status = Some(Status::NothingToPaste);
                } else {
                    self.paste();
                }
                false
            }
            Action::MoveCursor(d) => {
                self.move_cursor(*d);
                false
            }
            Action::ChangeMode(m) => {
                self.switch_mode(*m);
                false
            }
            Action::Cancel => {
                self.keystrokes = Vec::new();
                self.switch_mode(ModeType::Normal);
                self.previous_action = Some(Action::ChangeMode(ModeType::Normal));
                false
            }
            Action::Save => {
                self.exec_save();
                false
            }
            Action::YankLine => {
                self.exec_yank_line();
                false
            }
            Action::NewBuffer => {
                self.exec_new_buffer();
                false
            }
            Action::NextBuffer => {
                let len = self.buffers.len();
                self.buffer_idx = (self.buffer_idx + 1) % len;
                self.clamp_cursor();
                false
            }
            Action::PrevBuffer => {
                if self.buffer_idx == 0 {
                    self.buffer_idx = self.buffers.len() - 1;
                } else {
                    self.buffer_idx = self.buffer_idx - 1;
                }
                self.clamp_cursor();
                false
            }
            Action::Multi(actions) => {
                proof {
                    assert(decreases_to!(*action => *actions));
                }
                self.execute_list(actions, allow_prev)
            }
            Action::Repeat(inner, times) => {
                proof {
                    assert(decreases_to!(*action => **inner));
                }
                self.execute_repeat(inner, *times, allow_prev)
            }
            Action::Quit => true,
            Action::PartialKey => false,
        };
        self.record_action(action);
        quit
    }
}


/// Whether `c` separates minibuffer command tokens.
pub open spec fn is_ws(c: char) -> bool {
    c == ' ' || c == '\t' || c == '\n' || c == '\r'
}

/// Index of the first whitespace character in `s`, or `s.len()`.
pub open spec fn first_ws(s: Seq<char>) -> int
    decreases s.len(),
{
    if s.len() == 0 {
        0
    } else if is_ws(s[0]) {
        0
    } else {
        1 + first_ws(s.drop_first())
    }
}

/// `first_ws` stays within the sequence and really finds whitespace.
pub proof fn lemma_first_ws_in_range(s: Seq<char>)
    ensures
        0 <= first_ws(s) <= s.len(),
        first_ws(s) < s.len() ==> is_ws(s[first_ws(s)]),
        forall|j: int| 0 <= j < first_ws(s) ==> !is_ws(s[j]),
    decreases s.len(),
{
    if s.len() != 0 && !is_ws(s[0]) {
        lemma_first_ws_in_range(s.drop_first());
        assert forall|j: int| 0 <= j < first_ws(s) implies !is_ws(s[j]) by {
            if j > 0 {
                assert(s.drop_first()[j - 1] == s[j]);
            }
        }
    }
}

/// `first_ws(s)` is exactly the position of the first whitespace.
proof fn lemma_first_ws_position(s: Seq<char>, k: int)
    requires
        0 <= k <= s.len(),
        forall|j: int| 0 <= j < k ==> !is_ws(s[j]),
        k < s.len() ==> is_ws(s[k]),
    ensures
        first_ws(s) == k,
    decreases s.len(),
{
    if s.len() != 0 && !is_ws(s[0]) {
        lemma_first_ws_position(s.drop_first(), k - 1);
    }
}

/// The whitespace-separated tokens of the minibuffer text, in order, empty
/// tokens skipped.
pub open spec fn tokenize(s: Seq<char>) -> Seq<Seq<char>>
    decreases s.len(),
{
    if s.len() == 0 {
        Seq::empty()
    } else if is_ws(s[0]) {
        tokenize(s.drop_first())
    } else {
        let k = first_ws(s);
        proof {
            lemma_first_ws_in_range(s);
        }
        if k == s.len() {
            seq![s]
        } else {
            seq![s.subrange(0, k)] + tokenize(s.subrange(k, s.len() as int))
        }
    }
}

/// Whether a token is the single character `c1`.
pub open spec fn tok_is1(t: Seq<char>, c1: char) -> bool {
    t.len() == 1 && t[0] == c1
}

/// Whether a token is exactly the two characters `c1 c2`.
pub open spec fn tok_is2(t: Seq<char>, c1: char, c2: char) -> bool {
    t.len() == 2 && t[0] == c1 && t[1] == c2
}

/// Whether a token is exactly the three characters `c1 c2 c3`.
pub open spec fn tok_is3(t: Seq<char>, c1: char, c2: char, c3: char) -> bool {
    t.len() == 3 && t[0] == c1 && t[1] == c2 && t[2] == c3
}

/// The outcome of the minibuffer command held in `v`'s minibuffer text:
/// `w` saves, `q` quits, `wq` does both, `new` opens a buffer, `bn` and
/// `bp` cycle buffers, `e <path>` opens a buffer bound to `path` and queues
/// a read of it, and anything else posts a status message. The minibuffer
/// closes either way.
pub open spec fn minibuffer_command_spec(v: EdView) -> (EdView, bool) {
    let toks = tokenize(v.minibuffer);
    let run = if toks.len() == 1 && tok_is1(toks[0], 'w') {
        step(v, ActionV::Save, true)
    } else if toks.len() == 1 && tok_is1(toks[0], 'q') {
        step(v, ActionV::Quit, true)
    } else if toks.len() == 1 && tok_is2(toks[0], 'w', 'q') {
        step(v, ActionV::Multi(seq![ActionV::Save, ActionV::Quit]), true)
    } else if toks.len() == 1 && tok_is3(toks[0], 'n', 'e', 'w') {
        step(v, ActionV::NewBuffer, true)
    } else if toks.len() == 1 && tok_is2(toks[0], 'b', 'n') {
        step(v, ActionV::NextBuffer, true)
    } else if toks.len() == 1 && tok_is2(toks[0], 'b', 'p') {
        step(v, ActionV::PrevBuffer, true)
    } else if toks.len() == 2 && tok_is1(toks[0], 'e') {
        let path = toks[1];
        let vb = step(v, ActionV::NewBuffer, true).0;
        let bound = EdView {
            buffers: vb.buffers.update(
                vb.buffer_idx as int,
                BufView { lines: active_buf(vb).lines, path: Some(path) },
            ),
            ..vb
        };
        (EdView { io: bound.io.push(IoV::Read { path }), ..bound }, false)
    } else {
        (
            EdView { status: Some(StatusV::InvalidCommand { text: v.minibuffer }), ..v },
            false,
        )
    };
    (EdView { microstate: MicroState::Mode, minibuffer: Seq::empty(), ..run.0 }, run.1)
}

/// How a key lands while the minibuffer is open: characters collect,
/// backspace removes, enter runs the command, escape abandons it.
pub open spec fn minibuffer_input_spec(v: EdView, key: Key) -> (EdView, bool) {
    match key.code {
        KeyCode::Char(c) => ((EdView { minibuffer: v.minibuffer.push(c), ..v }, false)),
        KeyCode::Backspace => (
            (
                EdView {
                    minibuffer: if v.minibuffer.len() > 0 {
                        v.minibuffer.drop_last()
                    } else {
                        v.minibuffer
                    },
                    ..v
                },
                false,
            )
        ),
        KeyCode::Enter => minibuffer_command_spec(v),
        KeyCode::Esc => (
            (EdView { microstate: MicroState::Mode, minibuffer: Seq::empty(), ..v }, false)
        ),
        _ => ((v, false)),
    }
}

/// How one key event lands: the pending status message is cleared; a key in
/// the minibuffer goes to the minibuffer rules; `:` opens the minibuffer;
/// anything else joins the pending keystrokes and goes through the active
/// mode, whose resolved action (if any) is executed and the pending
/// keystrokes cleared.
pub open spec fn handle_spec(v0: EdView, key: Key) -> (EdView, bool) {
    let v = EdView { status: None, ..v0 };
    if v.microstate == MicroState::MiniBuffer {
        minibuffer_input_spec(v, key)
    } else if key.code == KeyCode::Char(':') {
        (EdView { microstate: MicroState::MiniBuffer, ..v }, false)
    } else {
        let ks = v.keystrokes.push(key);
        let rs = resolve_spec(v.mode, ks);
        let v1 = EdView { keystrokes: ks, mode: rs.0, ..v };
        match rs.1 {
            Some(a) => if a == ActionV::PartialKey {
                (v1, false)
            } else {
                let run = step(v1, a, true);
                (EdView { keystrokes: Seq::empty(), ..run.0 }, run.1)
            },
            None => ((EdView { keystrokes: Seq::empty(), ..v1 }, false)),
        }
    }
}

/// Whether `c` separates minibuffer command tokens.
fn is_ws_char(c: char) -> (r: bool)
    ensures
        r == is_ws(c),
{
    c == ' ' || c == '\t' || c == '\n' || c == '\r'
}

/// Split the minibuffer text into whitespace-separated tokens.
fn tokenize_chars(text: &Vec<char>) -> (r: Vec<Vec<char>>)
    ensures
        r.deep_view() == tokenize(text@),
{
    let mut tokens: Vec<Vec<char>> = Vec::new();
    let mut p: usize = 0;
    proof {
        assert(text@.subrange(0, text@.len() as int) =~= text@);
        assert(tokens.deep_view() =~~= Seq::<Seq<char>>::empty());
    }
    while p < text.len()
        invariant
            p <= text@.len(),
            tokenize(text@) =~~= tokens.deep_view() + tokenize(
                text@.subrange(p as int, text@.len() as int),
            ),
        decreases text@.len() - p,
    {
        let ghost rest = text@.subrange(p as int, text@.len() as int);
        if is_ws_char(text[p]) {
            proof {
                assert(rest.drop_first() =~= text@.subrange(p + 1, text@.len() as int));
            }
            p = p + 1;
        } else {
            let mut k: usize = p;
            while k < text.len() && !is_ws_char(text[k])
                invariant
                    p <= k <= text@.len(),
                    forall|j: int| p <= j < k ==> !is_ws(text@[j]),
                decreases text@.len() - k,
            {
                k = k + 1;
            }
            proof {
                lemma_first_ws_position(rest, k - p);
            }
            let mut token: Vec<char> = Vec::new();
            let mut i: usize = p;
            while i < k
                invariant
                    p <= i <= k <= text@.len(),
                    token@ =~= text@.subrange(p as int, i as int),
                decreases k - i,
            {
                token.push(text[i]);
                i = i + 1;
                proof {
                    assert(token@ =~= text@.subrange(p as int, i as int));
                }
            }
            proof {
                assert(token@ =~= rest.subrange(0, k - p));
                if k < text@.len() {
                    assert(rest.subrange(k - p, rest.len() as int) =~= text@.subrange(
                        k as int,
                        text@.len() as int,
                    ));
                } else {
                    assert(token@ =~= rest);
                }
            }
            tokens.push(token);
            p = k;
        }
    }
    tokens
}

/// Whether a token is the single character `c1`.
fn tok1(t: &Vec<char>, c1: char) -> (r: bool)
    ensures
        r == tok_is1(t@, c1),
{
    t.len() == 1 && t[0] == c1
}

/// Whether a token is exactly the two characters `c1 c2`.
fn tok2(t: &Vec<char>, c1: char, c2: char) -> (r: bool)
    ensures
        r == tok_is2(t@, c1, c2),
{
    t.len() == 2 && t[0] == c1 && t[1] == c2
}

/// Whether a token is exactly the three characters `c1 c2 c3`.
fn tok3(t: &Vec<char>, c1: char, c2: char, c3: char) -> (r: bool)
    ensures
        r == tok_is3(t@, c1, c2, c3),
{
    t.len() == 3 && t[0] == c1 && t[1] == c2 && t[2] == c3
}

/// The deep view of a token list is its tokens' views, element by element.
proof fn lemma_chars_deep(ts: Vec<Vec<char>>)
    ensures
        ts.deep_view().len() == ts@.len(),
        forall|i: int| 0 <= i < ts@.len() ==> #[trigger] ts.deep_view()[i] == ts@[i]@,
{
    assert forall|i: int| 0 <= i < ts@.len() implies #[trigger] ts.deep_view()[i] == ts@[
        i
    ]@ by {
        assert(ts@[i].deep_view() =~= ts@[i]@);
    }
}

impl State {
    /// Handle one key event; the result says whether the caller should stop
    /// its input loop.
    #[verifier::rlimit(100)]
    pub fn handle_key(&mut self, key: Key) -> (quit: bool)
        requires
            ed_wf(old(self)@),
        ensures
            final(self)@ == handle_spec(old(self)@, key).0,
            quit == handle_spec(old(self)@, key).1,
            ed_wf(final(self)@),
    {
        self.status = None;
        if self.microstate == MicroState::MiniBuffer {
            return self.handle_minibuffer_input(key);
        }
        if key.code == KeyCode::Char(':') {
            self.microstate = MicroState::MiniBuffer;
            return false;
        }
        self.keystrokes.push(key);
        let resolved = self.mode.keys_pressed(self.keystrokes.as_slice());
        match resolved {
            Some(action) => {
                match &action {
                    Action::PartialKey => false,
                    _ => {
                        let quit = self.execute_action(&action, true);
                        self.keystrokes = Vec::new();
                        proof {
                            assert(self@.keystrokes =~= Seq::<Key>::empty());
                        }
                        quit
                    }
                }
            }
            None => {
                self.keystrokes = Vec::new();
                proof {
                    assert(self@.keystrokes =~= Seq::<Key>::empty());
                }
                false
            }
        }
    }

    /// One key while the minibuffer is open.
    fn handle_minibuffer_input(&mut self, key: Key) -> (quit: bool)
        requires
            ed_wf(old(self)@),
        ensures
            final(self)@ == minibuffer_input_spec(old(self)@, key).0,
            quit == minibuffer_input_spec(old(self)@, key).1,
            ed_wf(final(self)@),
    {
        match key.code {
            KeyCode::Char(c) => {
                self.minibuffer.push(c);
                false
            }
            KeyCode::Backspace => {
                let _ = self.minibuffer.pop();
                false
            }
            KeyCode::Enter => self.handle_minibuffer_command(),
            KeyCode::Esc => {
                self.microstate = MicroState::Mode;
                self.minibuffer = Vec::new();
                proof {
                    assert(self@.minibuffer =~= Seq::<char>::empty());
                }
                false
            }
            _ => false,
        }
    }

    /// Run the collected minibuffer command and close the minibuffer.
    #[verifier::rlimit(100)]
    fn handle_minibuffer_command(&mut self) -> (quit: bool)
        requires
            ed_wf(old(self)@),
        ensures
            final(self)@ == minibuffer_command_spec(old(self)@).0,
            quit == minibuffer_command_spec(old(self)@).1,
            ed_wf(final(self)@),
    {
        let ghost v0 = self@;
        let tokens = tokenize_chars(&self.minibuffer);
        proof {
            lemma_chars_deep(tokens);
        }
        let quit: bool;
        if tokens.len() == 1 && tok1(&tokens[0], 'w') {
            quit = self.execute_action(&Action::Save, true);
            proof {
                assert(minibuffer_command_spec(v0).1 == quit);
                assert(minibuffer_command_spec(v0).0 == (EdView {
                    microstate: MicroState::Mode,
                    minibuffer: Seq::empty(),
                    ..self@
                }));
            }
        } else if tokens.len() == 1 && tok1(&tokens[0], 'q') {
            quit = self.execute_action(&Action::Quit, true);
            proof {
                assert(minibuffer_command_spec(v0).1 == quit);
                assert(minibuffer_command_spec(v0).0 == (EdView {
                    microstate: MicroState::Mode,
                    minibuffer: Seq::empty(),
                    ..self@
                }));
            }
        } else if tokens.len() == 1 && tok2(&tokens[0], 'w', 'q') {
            let action = crate::action::multi2(Action::Save, Action::Quit);
            quit = self.execute_action(&action, true);
            proof {
                assert(minibuffer_command_spec(v0).1 == quit);
                assert(minibuffer_command_spec(v0).0 == (EdView {
                    microstate: MicroState::Mode,
                    minibuffer: Seq::empty(),
                    ..self@
                }));
            }
        } else if tokens.len() == 1 && tok3(&tokens[0], 'n', 'e', 'w') {
            quit = self.execute_action(&Action::NewBuffer, true);
            proof {
                assert(minibuffer_command_spec(v0).1 == quit);
                assert(minibuffer_command_spec(v0).0 == (EdView {
                    microstate: MicroState::Mode,
                    minibuffer: Seq::empty(),
                    ..self@
                }));
            }
        } else if tokens.len() == 1 && tok2(&tokens[0], 'b', 'n') {
            quit = self.execute_action(&Action::NextBuffer, true);
            proof {
                assert(minibuffer_command_spec(v0).1 == quit);
                assert(minibuffer_command_spec(v0).0 == (EdView {
                    microstate: MicroState::Mode,
                    minibuffer: Seq::empty(),
                    ..self@
                }));
            }
        } else if tokens.len() == 1 && tok2(&tokens[0], 'b', 'p') {
            quit = self.execute_action(&Action::PrevBuffer, true);
            proof {
                assert(minibuffer_command_spec(v0).1 == quit);
                assert(minibuffer_command_spec(v0).0 == (EdView {
                    microstate: MicroState::Mode,
                    minibuffer: Seq::empty(),
                    ..self@
                }));
            }
        } else if tokens.len() == 2 && tok1(&tokens[0], 'e') {
            proof {
                assert(tokenize(v0.minibuffer)[1] == tokens.deep_view()[1]);
            }
            let _ = self.execute_action(&Action::NewBuffer, true);
            let ghost vb = self@;
            let path = copy_chars(&tokens[1]);
            let path2 = copy_chars(&tokens[1]);
            let b = self.active_mut();
            b.filepath = Some(path);
            let ghost bound = self@;
            proof {
                assert(bound.buffers =~~= vb.buffers.update(
                    vb.buffer_idx as int,
                    BufView {
                        lines: active_buf(vb).lines,
                        path: Some(tokenize(v0.minibuffer)[1]),
                    },
                ));
            }
            self.io_queue.push(IoRequest::Read { path: path2 });
            proof {
                assert(path2@ =~= tokenize(v0.minibuffer)[1]);
                assert(self@.io =~~= bound.io.push(
                    IoV::Read { path: tokenize(v0.minibuffer)[1] },
                ));
                assert(self@ =~~= minibuffer_command_spec_body_e(v0));
            }
            quit = false;
            proof {
                assert(minibuffer_command_spec(v0).1 == quit);
                assert(minibuffer_command_spec(v0).0 == (EdView {
                    microstate: MicroState::Mode,
                    minibuffer: Seq::empty(),
                    ..self@
                }));
            }
        } else {
            self.status = Some(
                Status::InvalidCommand { text: copy_chars(&self.minibuffer) },
            );
            quit = false;
            proof {
                assert(minibuffer_command_spec(v0).1 == quit);
                assert(minibuffer_command_spec(v0).0 == (EdView {
                    microstate: MicroState::Mode,
                    minibuffer: Seq::empty(),
                    ..self@
                }));
            }
        }
        self.microstate = MicroState::Mode;
        self.minibuffer = Vec::new();
        proof {
            assert(self@.minibuffer =~= Seq::<char>::empty());
            assert(final(self)@ =~~= minibuffer_command_spec(v0).0);
        }
        quit
    }

    /// The most recently yanked fragment, if any.
    pub fn yanked_front(&self) -> (r: Option<&Vec<char>>)
        ensures
            match r {
                Some(f) => self@.yanked.len() > 0 && f@ == self@.yanked[0],
                None => self@.yanked.len() == 0,
            },
    {
        if self.yanked.len() > 0 {
            let f = &self.yanked[0];
            proof {
                assert(f.deep_view() =~= f@);
            }
            Some(f)
        } else {
            None
        }
    }

    /// Hand the queued file requests to the application, emptying the queue.
    pub fn take_io_requests(&mut self) -> (r: Vec<IoRequest>)
        ensures
            r.deep_view() == old(self)@.io,
            final(self)@ == (EdView { io: Seq::empty(), ..old(self)@ }),
            ed_wf(old(self)@) ==> ed_wf(final(self)@),
    {
        let mut r: Vec<IoRequest> = Vec::new();
        core::mem::swap(&mut r, &mut self.io_queue);
        proof {
            assert(self@.io =~~= Seq::<IoV>::empty());
            assert(final(self)@ =~~= (EdView { io: Seq::empty(), ..old(self)@ }));
        }
        r
    }

    /// Report that a queued write succeeded; the status line shows the path
    /// and the byte count.
    pub fn report_saved(&mut self, path: Vec<char>, bytes: usize)
        ensures
            final(self)@ == (EdView {
                status: Some(StatusV::Saved { path: path@, bytes }),
                ..old(self)@
            }),
            ed_wf(old(self)@) ==> ed_wf(final(self)@),
    {
        self.status = Some(Status::Saved { path, bytes });
    }

    /// Report that a queued request failed; the status line shows the path
    /// and the cause.
    pub fn report_io_failed(&mut self, path: Vec<char>, reason: Vec<char>)
        ensures
            final(self)@ == (EdView {
                status: Some(StatusV::IoFailed { path: path@, reason: reason@ }),
                ..old(self)@
            }),
            ed_wf(old(self)@) ==> ed_wf(final(self)@),
    {
        self.status = Some(Status::IoFailed { path, reason });
    }

    /// Fill the active buffer from the character stream a queued read
    /// produced, keeping its bound path, and clamp the cursor to the new
    /// contents.
    pub fn finish_load(&mut self, text: &Vec<char>)
        requires
            ed_wf(old(self)@),
        ensures
            final(self)@ == do_clamp(
                with_lines(old(self)@, loaded_lines(text@)),
            ),
            ed_wf(final(self)@),
    {
        let b = self.active_mut();
        b.load_text(text);
        self.clamp_cursor();
    }
}

/// The editor after an `e <path>` command ran, before the minibuffer
/// closes: a fresh buffer bound to the path, with a read queued.
pub open spec fn minibuffer_command_spec_body_e(v: EdView) -> EdView {
    let toks = tokenize(v.minibuffer);
    let path = toks[1];
    let vb = step(v, ActionV::NewBuffer, true).0;
    let bound = EdView {
        buffers: vb.buffers.update(
            vb.buffer_idx as int,
            BufView { lines: active_buf(vb).lines, path: Some(path) },
        ),
        ..vb
    };
    EdView { io: bound.io.push(IoV::Read { path }), ..bound }
}

} // verus!
