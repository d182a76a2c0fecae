//! The line editor and its event semantics.
//!
//! A `Console` owns the escape-sequence decoder, a bounded edit buffer and
//! a cursor.  Bytes are fed to `get_console_command`, which turns them into
//! events; `handle_event` applies one event to the line and answers with
//! redraw instructions, the submitted line (on newline) and a shutdown
//! request (on Ctrl-C or Ctrl-D).  The caller performs the I/O: it writes
//! the rendered bytes to its device, hands a submitted line to its command
//! handler, and powers the machine off on a shutdown request.
//!
//! The whole per-event semantics is the spec function `edit_step` over the
//! mathematical state `LineState`; `handle_event` is verified against it,
//! and the lemmas at the end of the module state the editor's laws.

use vstd::prelude::*;

use crate::command::ansi_escape_bytes;
use crate::command::is_ascii_digit_byte;
use crate::command::ConsoleCommand;
use crate::decode::feed_spec;
use crate::decode::Decoder;
use crate::render::append_byte_range;
use crate::render::column_of;
use crate::render::PROMPT_WIDTH;
use crate::render::dec_digits;
use crate::render::lemma_dec_digits_are_digits;
use crate::render::push_decimal;
use crate::render::render_views;
use crate::render::RenderAction;
use crate::render::RenderView;

verus! {

/// Maximum number of bytes one command line may hold.
pub const LINE_CAPACITY: usize = 4096;

/// The mathematical state of the line editor: the line's bytes, the cursor
/// (an index into the line, `0..=len`), and whether a termination event has
/// been taken.
pub struct LineState {
    pub buffer: Seq<u8>,
    pub cursor: int,
    pub terminated: bool,
}

impl LineState {
    /// The editor's invariant: the cursor stays inside the line and the
    /// line stays inside its capacity.
    pub open spec fn inv(self) -> bool {
        0 <= self.cursor <= self.buffer.len() <= LINE_CAPACITY
    }

    /// The state of a console at the start of a line.
    pub open spec fn start() -> LineState {
        LineState { buffer: Seq::empty(), cursor: 0, terminated: false }
    }
}

/// Everything one event causes: the next editor state, the redraw
/// instructions, the completed line handed to the command handler (on
/// submit only), and whether shutdown was requested.
pub struct LineStep {
    pub state: LineState,
    pub actions: Seq<RenderView>,
    pub submitted: Option<Seq<u8>>,
    pub shutdown: bool,
}

/// The textual report form of each event: names for the escapes, a stray
/// byte with its decimal value, a control sequence written back out, and
/// the echo forms of the two edit events.  The editor itself routes only
/// the escape and stray-byte reports to the sink (see `edit_step`); the
/// full set serves `execute_console_command`, whose caller decides what
/// to do with the bytes.
pub open spec fn report_bytes(cmd: ConsoleCommand) -> Seq<u8> {
    match cmd {
        ConsoleCommand::Character(c) => seq![c as u8],
        ConsoleCommand::Backspace => seq![8u8, ' ' as u8, 8u8],
        ConsoleCommand::Esc => seq!['E' as u8, 's' as u8, 'c' as u8, '\n' as u8],
        ConsoleCommand::CsiEscape(e) => ansi_escape_bytes(e),
        ConsoleCommand::UnknownEscape => seq![
            'U' as u8, 'n' as u8, 'k' as u8, 'n' as u8, 'o' as u8, 'w' as u8, 'n' as u8,
            ' ' as u8, 'e' as u8, 's' as u8, 'c' as u8, 'a' as u8, 'p' as u8, 'e' as u8,
            '\n' as u8,
        ],
        ConsoleCommand::Byte(b) => seq!['B' as u8, 'y' as u8, 't' as u8, 'e' as u8, ':' as u8,
            ' ' as u8] + dec_digits(b as nat) + seq!['\n' as u8],
    }
}

/// A step that leaves the line untouched and only reports the event.
pub open spec fn report_step(m: LineState, cmd: ConsoleCommand) -> LineStep {
    LineStep {
        state: m,
        actions: seq![RenderView::Text(report_bytes(cmd))],
        submitted: None,
        shutdown: false,
    }
}

/// A step that does nothing at all.
pub open spec fn quiet_step(m: LineState) -> LineStep {
    LineStep { state: m, actions: Seq::empty(), submitted: None, shutdown: false }
}

/// The per-event semantics of the line editor.
///
/// - A newline submits the line: the buffer's contents go to the command
///   handler, buffer and cursor reset, a newline is echoed.
/// - Any other character is inserted at the cursor (a no-op when the line
///   is full); the shifted suffix is re-echoed and the terminal cursor
///   repositioned.
/// - Backspace deletes before the cursor (a no-op at the line's start) and
///   re-echoes the remaining suffix plus one blank to erase the freed cell.
/// - Cursor sequences `C`/`D` move right/left by their first argument
///   (0 counts as 1), clamped to `0..=len`; any other function byte —
///   `A`/`B` included — is accepted as a quiet no-op, so that absolute
///   column positioning stays the only control code the editor ever
///   emits.
/// - Ctrl-C or Ctrl-D (raw bytes 3 and 4) echo a newline, request shutdown
///   and terminate the console; a terminated console absorbs every further
///   event without effect.
/// - A bare escape, an unknown escape and any other stray byte leave the
///   line untouched and are reported in plain text.
pub open spec fn edit_step(m: LineState, cmd: ConsoleCommand) -> LineStep {
    if m.terminated {
        quiet_step(m)
    } else {
        match cmd {
            ConsoleCommand::Character(c) => {
                if c == '\n' {
                    LineStep {
                        state: LineState::start(),
                        actions: seq![RenderView::Text(seq!['\n' as u8])],
                        submitted: Some(m.buffer),
                        shutdown: false,
                    }
                } else if m.buffer.len() >= LINE_CAPACITY {
                    quiet_step(m)
                } else {
                    let buf2 = m.buffer.insert(m.cursor, c as u8);
                    LineStep {
                        state: LineState { buffer: buf2, cursor: m.cursor + 1, terminated: false },
                        actions: seq![
                            RenderView::Text(buf2.subrange(m.cursor, buf2.len() as int)),
                            RenderView::MoveCursor(column_of(m.cursor + 1)),
                        ],
                        submitted: None,
                        shutdown: false,
                    }
                }
            },
            ConsoleCommand::Backspace => {
                if m.cursor == 0 {
                    quiet_step(m)
                } else {
                    let cur2 = m.cursor - 1;
                    let buf2 = m.buffer.remove(cur2);
                    LineStep {
                        state: LineState { buffer: buf2, cursor: cur2, terminated: false },
                        actions: seq![
                            RenderView::MoveCursor(column_of(cur2)),
                            RenderView::Text(buf2.subrange(cur2, buf2.len() as int)),
                            RenderView::Text(seq![' ' as u8]),
                            RenderView::MoveCursor(column_of(cur2)),
                        ],
                        submitted: None,
                        shutdown: false,
                    }
                }
            },
            ConsoleCommand::CsiEscape(e) => {
                if e.function == 'A' || e.function == 'B' {
                    quiet_step(m)
                } else if e.function == 'C' {
                    let n: int = if e.args[0] == 0 { 1 } else { e.args[0] as int };
                    let cur2: int = if m.cursor + n > m.buffer.len() {
                        m.buffer.len() as int
                    } else {
                        m.cursor + n
                    };
                    LineStep {
                        state: LineState { buffer: m.buffer, cursor: cur2, terminated: false },
                        actions: seq![RenderView::MoveCursor(column_of(cur2))],
                        submitted: None,
                        shutdown: false,
                    }
                } else if e.function == 'D' {
                    let n: int = if e.args[0] == 0 { 1 } else { e.args[0] as int };
                    let cur2: int = if n >= m.cursor { 0 } else { m.cursor - n };
                    LineStep {
                        state: LineState { buffer: m.buffer, cursor: cur2, terminated: false },
                        actions: seq![RenderView::MoveCursor(column_of(cur2))],
                        submitted: None,
                        shutdown: false,
                    }
                } else {
                    quiet_step(m)
                }
            },
            ConsoleCommand::Byte(b) => {
                if b == 3 || b == 4 {
                    LineStep {
                        state: LineState { buffer: m.buffer, cursor: m.cursor, terminated: true },
                        actions: seq![RenderView::Text(seq!['\n' as u8])],
                        submitted: None,
                        shutdown: true,
                    }
                } else {
                    report_step(m, cmd)
                }
            },
            _ => report_step(m, cmd),
        }
    }
}

/// The contents a caller hands to the command handler, as a sequence.
pub open spec fn submitted_view(o: Option<Vec<u8>>) -> Option<Seq<u8>> {
    match o {
        Some(v) => Some(v@),
        None => None,
    }
}

/// What `handle_event` answers: redraw instructions for the sink, the
/// completed line when one was submitted, and whether the caller must shut
/// the machine down.
pub struct ConsoleOutput {
    pub actions: Vec<RenderAction>,
    pub submitted: Option<Vec<u8>>,
    pub shutdown: bool,
}

/// The console: the escape-sequence decoder plus the editable line.
pub struct Console {
    pub decoder: Decoder,
    pub buffer: Vec<u8>,
    pub cursor: usize,
    pub terminated: bool,
}

impl Console {
    /// The editor part of the console as its mathematical state.
    pub open spec fn line(&self) -> LineState {
        LineState {
            buffer: self.buffer@,
            cursor: self.cursor as int,
            terminated: self.terminated,
        }
    }

    /// Well-formedness: the editor's invariant.
    pub open spec fn wf(&self) -> bool {
        self.line().inv()
    }

    /// A fresh console: decoder at ground, line empty, cursor at 0.
    pub fn new() -> (c: Console)
        ensures
            c.wf(),
            c.decoder.state is Ground,
            c.line() == LineState::start(),
    {
        let c = Console {
            decoder: Decoder::new(),
            buffer: Vec::new(),
            cursor: 0,
            terminated: false,
        };
        proof {
            assert(c.line().buffer =~= LineState::start().buffer);
        }
        c
    }

    /// Feeds one raw input byte to the decoder and returns the events it
    /// completes, in order.  The line itself is not touched; every returned
    /// event is well formed and ready for `handle_event`.
    pub fn get_console_command(&mut self, byte: u8) -> (events: Vec<ConsoleCommand>)
        ensures
            final(self).decoder.state == feed_spec(old(self).decoder.state, byte).state,
            events@ == feed_spec(old(self).decoder.state, byte).events,
            forall|i: int| 0 <= i < events@.len() ==> (#[trigger] events@[i]).wf(),
            final(self).line() == old(self).line(),
    {
        self.decoder.feed(byte)
    }

    /// Applies one event to the line, exactly as `edit_step` describes:
    /// the new line state, the redraw instructions, the submitted line when
    /// a newline arrived, and the shutdown request on Ctrl-C or Ctrl-D.
    pub fn handle_event(&mut self, cmd: ConsoleCommand) -> (out: ConsoleOutput)
        requires
            old(self).wf(),
            cmd.wf(),
        ensures
            final(self).wf(),
            final(self).decoder == old(self).decoder,
            final(self).line() == edit_step(old(self).line(), cmd).state,
            render_views(out.actions@) == edit_step(old(self).line(), cmd).actions,
            submitted_view(out.submitted) == edit_step(old(self).line(), cmd).submitted,
            out.shutdown == edit_step(old(self).line(), cmd).shutdown,
    {
        let ghost m = self.line();
        let ghost step = edit_step(m, cmd);
        if self.terminated {
            let out = ConsoleOutput { actions: Vec::new(), submitted: None, shutdown: false };
            proof {
                assert(render_views(out.actions@) =~= step.actions);
            }
            return out;
        }
        match cmd {
            ConsoleCommand::Character(c) => {
                if c == '\n' {
                    let mut line: Vec<u8> = Vec::new();
                    append_byte_range(&mut line, &self.buffer, 0, self.buffer.len());
                    proof {
                        assert(line@ =~= m.buffer);
                    }
                    self.buffer.clear();
                    self.cursor = 0;
                    let mut actions: Vec<RenderAction> = Vec::new();
                    actions.push(RenderAction::Text(newline_text()));
                    let out = ConsoleOutput {
                        actions,
                        submitted: Some(line),
                        shutdown: false,
                    };
                    proof {
                        assert(self.line().buffer =~= step.state.buffer);
                        assert(render_views(out.actions@) =~= step.actions);
                    }
                    out
                } else if self.buffer.len() >= LINE_CAPACITY {
                    let out = ConsoleOutput { actions: Vec::new(), submitted: None, shutdown: false };
                    proof {
                        assert(render_views(out.actions@) =~= step.actions);
                    }
                    out
                } else {
                    let code = c as u32;
                    self.buffer.insert(self.cursor, code as u8);
                    proof {
                        assert(code as u8 == c as u8);
                    }
                    let mut echo: Vec<u8> = Vec::new();
                    append_byte_range(&mut echo, &self.buffer, self.cursor, self.buffer.len());
                    self.cursor = self.cursor + 1;
                    let mut actions: Vec<RenderAction> = Vec::new();
                    actions.push(RenderAction::Text(echo));
                    actions.push(RenderAction::MoveCursor(self.cursor + PROMPT_WIDTH + 1));
                    let out = ConsoleOutput { actions, submitted: None, shutdown: false };
                    proof {
                        assert(render_views(out.actions@) =~= step.actions);
                    }
                    out
                }
            },
            ConsoleCommand::Backspace => {
                if self.cursor == 0 {
                    let out = ConsoleOutput { actions: Vec::new(), submitted: None, shutdown: false };
                    proof {
                        assert(render_views(out.actions@) =~= step.actions);
                    }
                    out
                } else {
                    self.cursor = self.cursor - 1;
                    self.buffer.remove(self.cursor);
                    let mut echo: Vec<u8> = Vec::new();
                    append_byte_range(&mut echo, &self.buffer, self.cursor, self.buffer.len());
                    let mut actions: Vec<RenderAction> = Vec::new();
                    actions.push(RenderAction::MoveCursor(self.cursor + PROMPT_WIDTH + 1));
                    actions.push(RenderAction::Text(echo));
                    actions.push(RenderAction::Text(blank_text()));
                    actions.push(RenderAction::MoveCursor(self.cursor + PROMPT_WIDTH + 1));
                    let out = ConsoleOutput { actions, submitted: None, shutdown: false };
                    proof {
                        assert(render_views(out.actions@) =~= step.actions);
                    }
                    out
                }
            },
            ConsoleCommand::CsiEscape(e) => {
                if e.function == 'A' || e.function == 'B' {
                    let out = ConsoleOutput { actions: Vec::new(), submitted: None, shutdown: false };
                    proof {
                        assert(render_views(out.actions@) =~= step.actions);
                    }
                    out
                } else if e.function == 'C' {
                    let n = if e.args[0] == 0 { 1 } else { e.args[0] };
                    let room = self.buffer.len() - self.cursor;
                    if n as usize > room {
                        self.cursor = self.buffer.len();
                    } else {
                        self.cursor = self.cursor + n as usize;
                    }
                    let mut actions: Vec<RenderAction> = Vec::new();
                    actions.push(RenderAction::MoveCursor(self.cursor + PROMPT_WIDTH + 1));
                    let out = ConsoleOutput { actions, submitted: None, shutdown: false };
                    proof {
                        assert(render_views(out.actions@) =~= step.actions);
                    }
                    out
                } else if e.function == 'D' {
                    let n = if e.args[0] == 0 { 1 } else { e.args[0] };
                    if n as usize >= self.cursor {
                        self.cursor = 0;
                    } else {
                        self.cursor = self.cursor - n as usize;
                    }
                    let mut actions: Vec<RenderAction> = Vec::new();
                    actions.push(RenderAction::MoveCursor(self.cursor + PROMPT_WIDTH + 1));
                    let out = ConsoleOutput { actions, submitted: None, shutdown: false };
                    proof {
                        assert(render_views(out.actions@) =~= step.actions);
                    }
                    out
                } else {
                    let out = ConsoleOutput { actions: Vec::new(), submitted: None, shutdown: false };
                    proof {
                        assert(render_views(out.actions@) =~= step.actions);
                    }
                    out
                }
            },
            ConsoleCommand::Byte(b) => {
                if b == 3 || b == 4 {
                    self.terminated = true;
                    let mut actions: Vec<RenderAction> = Vec::new();
                    actions.push(RenderAction::Text(newline_text()));
                    let out = ConsoleOutput { actions, submitted: None, shutdown: true };
                    proof {
                        assert(render_views(out.actions@) =~= step.actions);
                    }
                    out
                } else {
                    let report = self.put_console_command(cmd);
                    let mut actions: Vec<RenderAction> = Vec::new();
                    actions.push(RenderAction::Text(report));
                    let out = ConsoleOutput { actions, submitted: None, shutdown: false };
                    proof {
                        assert(render_views(out.actions@) =~= step.actions);
                    }
                    out
                }
            },
            _ => {
                let report = self.put_console_command(cmd);
                let mut actions: Vec<RenderAction> = Vec::new();
                actions.push(RenderAction::Text(report));
                let out = ConsoleOutput { actions, submitted: None, shutdown: false };
                proof {
                    assert(render_views(out.actions@) =~= step.actions);
                }
                out
            },
        }
    }

    /// Renders the console's textual report for `command` and leaves the
    /// console as it was; the caller writes the bytes to the sink.
    pub fn execute_console_command(&self, command: ConsoleCommand) -> (out: Vec<u8>)
        requires
            command.wf(),
        ensures
            out@ == report_bytes(command),
    {
        self.put_console_command(command)
    }

    /// The textual report for one event: the echo form of a character or
    /// backspace, names for the escapes, an unhandled control sequence
    /// written back out, and a stray byte with its decimal value.
    fn put_console_command(&self, command: ConsoleCommand) -> (out: Vec<u8>)
        requires
            command.wf(),
        ensures
            out@ == report_bytes(command),
    {
        match command {
            ConsoleCommand::Character(c) => {
                let mut out: Vec<u8> = Vec::new();
                let code = c as u32;
                out.push(code as u8);
                proof {
                    assert(code as u8 == c as u8);
                    assert(out@ =~= report_bytes(command));
                }
                out
            },
            ConsoleCommand::Backspace => {
                let mut out: Vec<u8> = Vec::new();
                out.push(8);
                out.push(' ' as u8);
                out.push(8);
                proof {
                    assert(out@ =~= report_bytes(command));
                }
                out
            },
            ConsoleCommand::Esc => {
                let mut out: Vec<u8> = Vec::new();
                out.push('E' as u8);
                out.push('s' as u8);
                out.push('c' as u8);
                out.push('\n' as u8);
                proof {
                    assert(out@ =~= report_bytes(command));
                }
                out
            },
            ConsoleCommand::CsiEscape(e) => e.to_ansi_escape(),
            ConsoleCommand::UnknownEscape => {
                let mut out: Vec<u8> = Vec::new();
                out.push('U' as u8);
                out.push('n' as u8);
                out.push('k' as u8);
                out.push('n' as u8);
                out.push('o' as u8);
                out.push('w' as u8);
                out.push('n' as u8);
                out.push(' ' as u8);
                out.push('e' as u8);
                out.push('s' as u8);
                out.push('c' as u8);
                out.push('a' as u8);
                out.push('p' as u8);
                out.push('e' as u8);
                out.push('\n' as u8);
                proof {
                    assert(out@ =~= report_bytes(command));
                }
                out
            },
            ConsoleCommand::Byte(b) => {
                let mut out: Vec<u8> = Vec::new();
                out.push('B' as u8);
                out.push('y' as u8);
                out.push('t' as u8);
                out.push('e' as u8);
                out.push(':' as u8);
                out.push(' ' as u8);
                push_decimal(&mut out, b as u64);
                out.push('\n' as u8);
                proof {
                    assert(out@ =~= report_bytes(command));
                }
                out
            },
        }
    }
}

/// `edit_step` folded over a sequence of events: the state the editor is
/// in after handling each of `cmds` in order.
pub open spec fn edit_run(m: LineState, cmds: Seq<ConsoleCommand>) -> LineState
    decreases cmds.len(),
{
    if cmds.len() == 0 {
        m
    } else {
        edit_run(edit_step(m, cmds.first()).state, cmds.drop_first())
    }
}

/// No single event can break the editor's invariant: from any state with
/// `0 <= cursor <= len <= capacity`, the state after any event satisfies
/// the same bounds.
pub proof fn lemma_edit_step_inv(m: LineState, cmd: ConsoleCommand)
    requires
        m.inv(),
    ensures
        edit_step(m, cmd).state.inv(),
{
}

/// The cursor is always clamped: whatever sequence of events is handled —
/// cursor movements included — the editor state after every step keeps
/// `0 <= cursor <= len`.
pub proof fn lemma_cursor_always_clamped(m: LineState, cmds: Seq<ConsoleCommand>)
    requires
        m.inv(),
    ensures
        edit_run(m, cmds).inv(),
    decreases cmds.len(),
{
    if cmds.len() > 0 {
        lemma_edit_step_inv(m, cmds.first());
        lemma_cursor_always_clamped(edit_step(m, cmds.first()).state, cmds.drop_first());
    }
}

/// Insert-then-delete round-trip: inserting a character at the cursor and
/// immediately deleting it with backspace restores the line's contents and
/// the cursor exactly.
pub proof fn lemma_insert_then_backspace(m: LineState, c: char)
    requires
        m.inv(),
        !m.terminated,
        m.buffer.len() < LINE_CAPACITY,
        c != '\n',
    ensures
        edit_step(edit_step(m, ConsoleCommand::Character(c)).state, ConsoleCommand::Backspace).state
            == m,
{
    let inserted = edit_step(m, ConsoleCommand::Character(c)).state;
    let after = edit_step(inserted, ConsoleCommand::Backspace).state;
    assert(after.buffer =~= m.buffer);
}

/// Submitting a line always hands the command handler exactly the line's
/// contents — for an empty line, the empty sequence, never anything
/// undefined — and resets the editor for the next line.
pub proof fn lemma_submit_delivers_line(m: LineState)
    requires
        !m.terminated,
    ensures
        edit_step(m, ConsoleCommand::Character('\n')).submitted == Some(m.buffer),
        edit_step(m, ConsoleCommand::Character('\n')).state == LineState::start(),
{
}

/// Ctrl-C and Ctrl-D (raw bytes 3 and 4) are the termination events: each
/// requests shutdown and moves the editor to its terminal state.
pub proof fn lemma_interrupt_terminates(m: LineState)
    requires
        !m.terminated,
    ensures
        edit_step(m, ConsoleCommand::Byte(3)).shutdown,
        edit_step(m, ConsoleCommand::Byte(3)).state.terminated,
        edit_step(m, ConsoleCommand::Byte(4)).shutdown,
        edit_step(m, ConsoleCommand::Byte(4)).state.terminated,
{
}

/// A terminated console absorbs every further event: nothing changes, no
/// output is produced, no line is submitted, and — together with
/// `lemma_interrupt_terminates` — shutdown is requested at most once over
/// any event sequence.
pub proof fn lemma_terminated_absorbs(m: LineState, cmd: ConsoleCommand)
    requires
        m.terminated,
    ensures
        edit_step(m, cmd).state == m,
        !edit_step(m, cmd).shutdown,
        edit_step(m, cmd).submitted is None,
        edit_step(m, cmd).actions == Seq::<RenderView>::empty(),
{
}

/// A command line holds printable bytes only (`0x20..=0x7e`).
pub open spec fn printable_line(buf: Seq<u8>) -> bool {
    forall|i: int| 0 <= i < buf.len() ==> 0x20 <= #[trigger] buf[i] < 0x7f
}

/// Verbatim text that never contains the escape byte can start no
/// terminal control code.
pub open spec fn text_free_of_escape(a: RenderView) -> bool {
    a matches RenderView::Text(t) ==> forall|j: int| 0 <= j < t.len() ==> #[trigger] t[j] != 0x1b
}

/// Absolute column positioning is the only terminal control code the
/// editor ever emits: from a printable line, every event keeps the line
/// printable, and every redraw action is either plain text free of the
/// escape byte or a `MoveCursor`, which renders as `ESC [ <col> G`.
pub proof fn lemma_column_moves_are_the_only_codes(m: LineState, cmd: ConsoleCommand)
    requires
        m.inv(),
        printable_line(m.buffer),
        cmd.wf(),
    ensures
        printable_line(edit_step(m, cmd).state.buffer),
        forall|i: int|
            0 <= i < edit_step(m, cmd).actions.len() ==> text_free_of_escape(
                #[trigger] edit_step(m, cmd).actions[i],
            ),
{
    let step = edit_step(m, cmd);
    if !m.terminated {
        match cmd {
            ConsoleCommand::Character(c) => {
                if c == '\n' {
                } else if m.buffer.len() < LINE_CAPACITY {
                    let b = c as u8;
                    assert(0x20 <= b < 0x7f);
                    let buf2 = m.buffer.insert(m.cursor, b);
                    assert forall|i: int| 0 <= i < buf2.len() implies 0x20 <= #[trigger] buf2[i]
                        < 0x7f by {
                        if i < m.cursor {
                            assert(buf2[i] == m.buffer[i]);
                        } else if i == m.cursor {
                            assert(buf2[i] == b);
                        } else {
                            assert(buf2[i] == m.buffer[i - 1]);
                        }
                    }
                }
            },
            ConsoleCommand::Backspace => {
                if m.cursor > 0 {
                    let buf2 = m.buffer.remove(m.cursor - 1);
                    assert forall|i: int| 0 <= i < buf2.len() implies 0x20 <= #[trigger] buf2[i]
                        < 0x7f by {
                        if i < m.cursor - 1 {
                            assert(buf2[i] == m.buffer[i]);
                        } else {
                            assert(buf2[i] == m.buffer[i + 1]);
                        }
                    }
                }
            },
            ConsoleCommand::Byte(b) => {
                if b != 3 && b != 4 {
                    lemma_report_free_of_escape(cmd);
                }
            },
            ConsoleCommand::CsiEscape(_) => {
            },
            _ => {
                lemma_report_free_of_escape(cmd);
            },
        }
    }
}

/// The plain-text reports for a bare escape, an unknown escape and a
/// stray byte spell the event out in printable characters and newlines;
/// none contains the escape byte.
proof fn lemma_report_free_of_escape(cmd: ConsoleCommand)
    requires
        cmd is Esc || cmd is UnknownEscape || cmd is Byte,
    ensures
        forall|j: int| 0 <= j < report_bytes(cmd).len() ==> #[trigger] report_bytes(cmd)[j]
            != 0x1b,
{
    if cmd is Byte {
        let b = cmd->Byte_0;
        lemma_dec_digits_are_digits(b as nat);
        let head = seq!['B' as u8, 'y' as u8, 't' as u8, 'e' as u8, ':' as u8, ' ' as u8];
        let digits = dec_digits(b as nat);
        assert forall|j: int| 0 <= j < report_bytes(cmd).len() implies #[trigger] report_bytes(
            cmd,
        )[j] != 0x1b by {
            if j < head.len() {
                assert(report_bytes(cmd)[j] == head[j]);
            } else if j < head.len() + digits.len() {
                assert(report_bytes(cmd)[j] == digits[j - head.len()]);
                assert(is_ascii_digit_byte(digits[j - head.len()]));
            } else {
                assert(report_bytes(cmd)[j] == '\n' as u8);
            }
        }
    }
}

/// A one-byte newline echo.
fn newline_text() -> (v: Vec<u8>)
    ensures
        v@ == seq!['\n' as u8],
{
    let mut v: Vec<u8> = Vec::new();
    v.push('\n' as u8);
    proof {
        assert(v@ =~= seq!['\n' as u8]);
    }
    v
}

/// A one-byte blank, used to erase the freed screen cell after a delete.
fn blank_text() -> (v: Vec<u8>)
    ensures
        v@ == seq![' ' as u8],
{
    let mut v: Vec<u8> = Vec::new();
    v.push(' ' as u8);
    proof {
        assert(v@ =~= seq![' ' as u8]);
    }
    v
}

} // verus!
