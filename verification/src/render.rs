//! Redraw instructions and their encoding as terminal output bytes.
//!
//! The line editor answers each event with a short list of `RenderAction`s:
//! text to echo verbatim, and absolute cursor repositioning.  The only
//! terminal control code the console ever emits is absolute column
//! positioning, `ESC [ <col> G` (columns are 1-based).  `render_actions`
//! turns a list of actions into the exact byte sequence for the device.

use vstd::prelude::*;

use crate::command::dec_value;
use crate::command::is_ascii_digit_byte;

verus! {

/// Display width of the prompt marker `"$ "`, in columns.
pub const PROMPT_WIDTH: usize = 2;

/// The prompt marker's bytes.
pub open spec fn prompt_marker_bytes() -> Seq<u8> {
    seq!['$' as u8, ' ' as u8]
}

/// The 1-based terminal column at which the buffer cell `cursor` displays:
/// the prompt marker sits in the first `PROMPT_WIDTH` columns.
pub open spec fn column_of(cursor: int) -> int {
    cursor + PROMPT_WIDTH + 1
}

/// The prompt marker written at the start of every line, `"$ "`.
pub fn prompt_marker() -> (v: Vec<u8>)
    ensures
        v@ == prompt_marker_bytes(),
        v@.len() == PROMPT_WIDTH,
{
    let mut v: Vec<u8> = Vec::new();
    v.push('$' as u8);
    v.push(' ' as u8);
    proof {
        assert(v@ =~= prompt_marker_bytes());
    }
    v
}

/// One redraw instruction for the byte sink.
#[derive(Clone, Debug, PartialEq, Eq)]
pub enum RenderAction {
    /// Write these bytes verbatim.
    Text(Vec<u8>),
    /// Move the terminal cursor to this 1-based column on the current line,
    /// by emitting `ESC [ <col> G`.
    MoveCursor(usize),
}

/// The mathematical view of a redraw instruction.
pub enum RenderView {
    Text(Seq<u8>),
    MoveCursor(int),
}

impl View for RenderAction {
    type V = RenderView;

    open spec fn view(&self) -> RenderView {
        match self {
            RenderAction::Text(t) => RenderView::Text(t@),
            RenderAction::MoveCursor(col) => RenderView::MoveCursor(*col as int),
        }
    }
}

/// The views of a list of redraw instructions.
pub open spec fn render_views(s: Seq<RenderAction>) -> Seq<RenderView> {
    s.map_values(|a: RenderAction| a@)
}

/// The decimal digit bytes of `n`, most significant first, no sign and no
/// leading zero (`0` itself is the single byte `0x30`).
pub open spec fn dec_digits(n: nat) -> Seq<u8>
    decreases n,
{
    if n < 10 {
        seq![(0x30 + n) as u8]
    } else {
        dec_digits(n / 10) + seq![(0x30 + n % 10) as u8]
    }
}

/// The bytes of the absolute-column positioning code `ESC [ <col> G`.
pub open spec fn move_cursor_bytes(col: int) -> Seq<u8>
    recommends
        col >= 0,
{
    seq![0x1b, '[' as u8] + dec_digits(col as nat) + seq!['G' as u8]
}

/// The bytes one redraw instruction writes to the sink.
pub open spec fn render_bytes(r: RenderView) -> Seq<u8> {
    match r {
        RenderView::Text(t) => t,
        RenderView::MoveCursor(col) => move_cursor_bytes(col),
    }
}

/// The bytes a whole list of redraw instructions writes, in order.
pub open spec fn render_all(rs: Seq<RenderView>) -> Seq<u8>
    decreases rs.len(),
{
    if rs.len() == 0 {
        Seq::empty()
    } else {
        render_all(rs.drop_last()) + render_bytes(rs.last())
    }
}

/// Appends the decimal digits of `n` to `out`.
pub fn push_decimal(out: &mut Vec<u8>, n: u64)
    ensures
        final(out)@ == old(out)@ + dec_digits(n as nat),
    decreases n,
{
    if n < 10 {
        out.push(0x30 + (n as u8));
        proof {
            assert(out@ =~= old(out)@ + dec_digits(n as nat));
        }
    } else {
        push_decimal(out, n / 10);
        out.push(0x30 + ((n % 10) as u8));
        proof {
            assert(out@ =~= old(out)@ + dec_digits(n as nat));
        }
    }
}

/// Appends `src[from..to]` to `out`.
pub fn append_byte_range(out: &mut Vec<u8>, src: &Vec<u8>, from: usize, to: usize)
    requires
        from <= to <= src@.len(),
    ensures
        final(out)@ == old(out)@ + src@.subrange(from as int, to as int),
{
    let mut i: usize = from;
    while i < to
        invariant
            from <= i <= to <= src@.len(),
            out@ == old(out)@ + src@.subrange(from as int, i as int),
        decreases to - i,
    {
        out.push(src[i]);
        proof {
            assert(out@ =~= old(out)@ + src@.subrange(from as int, i + 1));
        }
        i += 1;
    }
    proof {
        assert(out@ =~= old(out)@ + src@.subrange(from as int, to as int));
    }
}

/// Encodes a list of redraw instructions as the byte sequence the console
/// writes to its sink.
pub fn render_actions(actions: &Vec<RenderAction>) -> (out: Vec<u8>)
    ensures
        out@ == render_all(render_views(actions@)),
{
    let mut out: Vec<u8> = Vec::new();
    let mut i: usize = 0;
    while i < actions.len()
        invariant
            i <= actions@.len(),
            out@ == render_all(render_views(actions@.subrange(0, i as int))),
        decreases actions@.len() - i,
    {
        let ghost prefix = render_views(actions@.subrange(0, i as int));
        match &actions[i] {
            RenderAction::Text(t) => {
                append_byte_range(&mut out, t, 0, t.len());
                proof {
                    assert(t@.subrange(0, t@.len() as int) =~= t@);
                }
            }
            RenderAction::MoveCursor(col) => {
                out.push(0x1b);
                out.push('[' as u8);
                push_decimal(&mut out, *col as u64);
                out.push('G' as u8);
                proof {
                    assert(out@ =~= render_all(prefix) + move_cursor_bytes(*col as int));
                }
            }
        }
        proof {
            let next = render_views(actions@.subrange(0, i + 1));
            assert(next.drop_last() =~= prefix);
            assert(next.last() == actions@[i as int]@);
            assert(out@ == render_all(prefix) + render_bytes(actions@[i as int]@));
            assert(out@ == render_all(next));
        }
        i += 1;
    }
    proof {
        assert(actions@.subrange(0, actions@.len() as int) =~= actions@);
    }
    out
}

/// `dec_digits` writes only decimal digit bytes.
pub proof fn lemma_dec_digits_are_digits(n: nat)
    ensures
        forall|i: int|
            0 <= i < dec_digits(n).len() ==> is_ascii_digit_byte(#[trigger] dec_digits(n)[i]),
    decreases n,
{
    if n < 10 {
        assert((0x30 + n) as u8 == 0x30 + n);
        assert(dec_digits(n) =~= seq![(0x30 + n) as u8]);
    } else {
        lemma_dec_digits_are_digits(n / 10);
        assert((0x30 + n % 10) as u8 == 0x30 + n % 10);
        assert forall|i: int| 0 <= i < dec_digits(n).len() implies is_ascii_digit_byte(
            #[trigger] dec_digits(n)[i],
        ) by {
            if i < dec_digits(n / 10).len() {
                assert(dec_digits(n)[i] == dec_digits(n / 10)[i]);
            } else {
                assert(dec_digits(n)[i] == (0x30 + n % 10) as u8);
            }
        }
    }
}

/// Reading the decimal digits of `n` back as a number gives `n`.
pub proof fn lemma_dec_digits_value(n: nat)
    ensures
        dec_value(dec_digits(n)) == n,
    decreases n,
{
    if n < 10 {
        let s = dec_digits(n);
        assert((0x30 + n) as u8 == 0x30 + n);
        assert(s =~= seq![(0x30 + n) as u8]);
        assert(s.len() == 1);
        assert(s.drop_last() =~= Seq::<u8>::empty());
        assert(dec_value(s.drop_last()) == 0);
        assert(dec_value(s) == dec_value(s.drop_last()) * 10 + (s.last() - 0x30));
        assert(s.last() == (0x30 + n) as u8);
        assert(dec_value(s) == n);
    } else {
        lemma_dec_digits_value(n / 10);
        assert((0x30 + n % 10) as u8 == 0x30 + n % 10);
        assert(dec_digits(n).drop_last() =~= dec_digits(n / 10));
        assert(dec_digits(n).last() == (0x30 + n % 10) as u8);
        assert(dec_value(dec_digits(n)) == dec_value(dec_digits(n / 10)) * 10 + (n % 10));
        assert(n == (n / 10) * 10 + n % 10) by (nonlinear_arith);
    }
}

} // verus!
