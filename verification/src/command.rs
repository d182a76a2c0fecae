//! The input-event vocabulary of the console and the CSI parameter grammar.
//!
//! A `ConsoleCommand` is one decoded input event.  A CSI (Control Sequence
//! Introducer) sequence is `ESC [ <params> <function>`, where `<params>` is up
//! to two decimal arguments separated by `;` and `<function>` is the final
//! byte in `0x40..=0x7f`.  Parameter parsing is modelled by the accumulator
//! `CsiAccum` and the step function `csi_step`, which both the incremental
//! decoder and the whole-string parser `from_ansi_escape` share.

use vstd::prelude::*;

use crate::render::dec_digits;
use crate::render::push_decimal;
use vstd::slice::slice_index_get;

verus! {

/// One decoded input event.  Exactly one event is produced per complete,
/// self-terminating token of the input byte stream.
#[derive(Clone, Copy, Debug, PartialEq, Eq)]
pub enum ConsoleCommand {
    /// A printable character, or a newline (a carriage return is normalized
    /// to `'\n'`).  The decoder only produces characters below `0x80`.
    Character(char),
    /// Delete-before-cursor request, from DEL (`0x7f`).
    Backspace,
    /// A bare escape byte that was not followed by `[`.
    Esc,
    /// A complete, well-formed control sequence `ESC [ <params> <function>`.
    CsiEscape(CsiEscapeSequence),
    /// An `ESC [` sequence whose parameter bytes did not parse as a valid
    /// CSI form.  Malformed escape input is reported this way, never as a
    /// failure.
    UnknownEscape,
    /// Any other control byte (below `0x20`) or byte at or above `0x80`,
    /// carried through unmodified.
    Byte(u8),
}

/// A decoded Control Sequence Introducer: up to two decimal arguments
/// (missing arguments default to 0) and the final byte as `function`.
#[derive(Clone, Copy, Debug, PartialEq, Eq)]
pub struct CsiEscapeSequence {
    pub args: [u32; 2],
    pub function: char,
}

/// The textual form of a CSI sequence with both arguments written out:
/// `ESC [ <arg0> ; <arg1> <function>`.
pub open spec fn ansi_escape_bytes(e: CsiEscapeSequence) -> Seq<u8> {
    seq![0x1b, '[' as u8] + dec_digits(e.args[0] as nat) + seq![';' as u8] + dec_digits(
        e.args[1] as nat,
    ) + seq![e.function as u8]
}

impl CsiEscapeSequence {
    /// The final byte of a well-formed sequence lies in `0x40..=0x7f`.
    pub open spec fn wf(self) -> bool {
        0x40 <= (self.function as int) <= 0x7f
    }

    /// Writes the sequence back out as terminal bytes, both arguments
    /// explicit: `ESC [ <arg0> ; <arg1> <function>`.
    pub fn to_ansi_escape(&self) -> (out: Vec<u8>)
        requires
            self.wf(),
        ensures
            out@ == ansi_escape_bytes(*self),
    {
        let mut out: Vec<u8> = Vec::new();
        out.push(0x1b);
        out.push('[' as u8);
        push_decimal(&mut out, self.args[0] as u64);
        out.push(';' as u8);
        push_decimal(&mut out, self.args[1] as u64);
        let f = self.function as u32;
        out.push(f as u8);
        proof {
            assert(out@ =~= ansi_escape_bytes(*self));
        }
        out
    }
}

impl ConsoleCommand {
    /// What the decoder can produce: a character is the newline or a
    /// printable byte (`0x20..=0x7e`), and a control sequence carries a
    /// final byte in `0x40..=0x7f`.
    pub open spec fn wf(self) -> bool {
        match self {
            ConsoleCommand::Character(c) => c == '\n' || 0x20 <= (c as int) < 0x7f,
            ConsoleCommand::CsiEscape(e) => e.wf(),
            _ => true,
        }
    }
}

/// Bytes in `0x40..=0x7f` terminate a CSI sequence.
pub open spec fn is_csi_final_byte(b: u8) -> bool {
    0x40 <= b <= 0x7f
}

/// ASCII `'0'..='9'`.
pub open spec fn is_ascii_digit_byte(b: u8) -> bool {
    0x30 <= b <= 0x39
}

/// A byte that may appear between `ESC [` and the final byte: a decimal
/// digit or the argument separator `;`.
pub open spec fn is_csi_param_byte(b: u8) -> bool {
    is_ascii_digit_byte(b) || b == 0x3b
}

/// State of CSI parameter accumulation: the two argument slots, the number
/// of separators seen so far, and whether the bytes seen so far still form
/// a valid parameter list.
#[derive(Clone, Copy, Debug, PartialEq, Eq)]
pub struct CsiAccum {
    pub arg0: u32,
    pub arg1: u32,
    pub seps: u8,
    pub ok: bool,
}

/// Accumulation starts with both arguments 0 (missing arguments default
/// to 0), no separator seen, and nothing wrong yet.
pub open spec fn csi_init() -> CsiAccum {
    CsiAccum { arg0: 0, arg1: 0, seps: 0, ok: true }
}

/// One non-final byte of the parameter list.  A digit extends the current
/// argument by decimal accumulation; `;` advances to the next slot.  The
/// sequence becomes invalid when a parameter byte follows the second
/// separator, when a byte is neither digit nor `;`, or when an argument
/// would no longer fit in 32 bits.  Invalidity is sticky.
pub open spec fn csi_step(a: CsiAccum, b: u8) -> CsiAccum {
    if !a.ok {
        a
    } else if a.seps >= 2 {
        CsiAccum { arg0: a.arg0, arg1: a.arg1, seps: a.seps, ok: false }
    } else if is_ascii_digit_byte(b) {
        let d = b - 0x30;
        if a.seps == 0 {
            if a.arg0 * 10 + d > u32::MAX {
                CsiAccum { arg0: a.arg0, arg1: a.arg1, seps: a.seps, ok: false }
            } else {
                CsiAccum { arg0: (a.arg0 * 10 + d) as u32, arg1: a.arg1, seps: a.seps, ok: true }
            }
        } else {
            if a.arg1 * 10 + d > u32::MAX {
                CsiAccum { arg0: a.arg0, arg1: a.arg1, seps: a.seps, ok: false }
            } else {
                CsiAccum { arg0: a.arg0, arg1: (a.arg1 * 10 + d) as u32, seps: a.seps, ok: true }
            }
        }
    } else if b == 0x3b {
        CsiAccum { arg0: a.arg0, arg1: a.arg1, seps: (a.seps + 1) as u8, ok: true }
    } else {
        CsiAccum { arg0: a.arg0, arg1: a.arg1, seps: a.seps, ok: false }
    }
}

/// `csi_step` folded over a whole parameter list, left to right.
pub open spec fn csi_run(a: CsiAccum, params: Seq<u8>) -> CsiAccum
    decreases params.len(),
{
    if params.len() == 0 {
        a
    } else {
        csi_step(csi_run(a, params.drop_last()), params.last())
    }
}

/// The value of a run of decimal digit bytes, most significant first.
pub open spec fn dec_value(digits: Seq<u8>) -> int
    decreases digits.len(),
{
    if digits.len() == 0 {
        0
    } else {
        dec_value(digits.drop_last()) * 10 + (digits.last() - 0x30)
    }
}

/// A character that may appear between `ESC [` and the final character:
/// a decimal digit or the argument separator `;`.
pub open spec fn is_csi_param_char(c: char) -> bool {
    ('0' <= c && c <= '9') || c == ';'
}

/// A final character: one whose scalar value lies in `0x40..=0x7f`.
pub open spec fn is_csi_final_char(c: char) -> bool {
    0x40 <= (c as int) <= 0x7f
}

/// The parameter characters of an escape string — everything between
/// `ESC [` and the final character — read as bytes.
pub open spec fn csi_param_bytes_of(s: Seq<char>) -> Seq<u8> {
    s.subrange(2, s.len() as int - 1).map_values(|c: char| c as u8)
}

/// A whole string is a well-formed CSI escape exactly when it reads
/// `ESC [`, then parameter characters whose accumulation stays valid,
/// then one final character, and nothing else.
pub open spec fn wf_ansi_escape(s: Seq<char>) -> bool {
    &&& s.len() >= 3
    &&& s[0] == '\x1b'
    &&& s[1] == '['
    &&& (forall|i: int| 2 <= i < s.len() - 1 ==> is_csi_param_char(#[trigger] s[i]))
    &&& is_csi_final_char(s[s.len() - 1])
    &&& csi_run(csi_init(), csi_param_bytes_of(s)).ok
}

/// What parsing an escape string yields: the accumulated arguments and the
/// final character for a well-formed string, and an error for every other
/// string.
pub open spec fn spec_from_ansi_escape(s: Seq<char>) -> Result<CsiEscapeSequence, ()> {
    if wf_ansi_escape(s) {
        let a = csi_run(csi_init(), csi_param_bytes_of(s));
        Ok(CsiEscapeSequence { args: [a.arg0, a.arg1], function: s[s.len() - 1] })
    } else {
        Err(())
    }
}

/// A well-formed escape string consists of ASCII characters only: the
/// opener is ASCII, parameter characters are digits or `;`, and the final
/// character's scalar value lies below 0x80.
proof fn lemma_wf_ansi_is_ascii(s: Seq<char>)
    requires
        wf_ansi_escape(s),
    ensures
        vstd::utf8::is_ascii_chars(s),
{
    assert forall|i: int| 0 <= i < s.len() implies '\0' <= #[trigger] s[i] <= '\u{7f}' by {
        if i == 0 {
            assert(s[i] == '\x1b');
        } else if i == 1 {
            assert(s[i] == '[');
        } else if i < s.len() - 1 {
            assert(is_csi_param_char(s[i]));
        } else {
            assert(is_csi_final_char(s[i]));
        }
    }
}

impl CsiEscapeSequence {
    /// Parses a whole string of the form `ESC [ <params> <function>`.
    ///
    /// The string must be exactly one escape sequence: `ESC`, `[`, any
    /// run of digits and up to two `;` separators whose argument values
    /// fit in 32 bits, and one final character in `0x40..=0x7f` — else
    /// the parse fails.  Missing arguments read as 0.
    pub fn from_ansi_escape(s: &str) -> (r: Result<Self, ()>)
        ensures
            r == spec_from_ansi_escape(s@),
    {
        let ghost cs = s@;
        if !s.is_ascii() {
            proof {
                if wf_ansi_escape(cs) {
                    lemma_wf_ansi_is_ascii(cs);
                }
            }
            return Err(());
        }
        proof {
            vstd::string::is_ascii_spec_bytes(s);
        }
        let bytes = s.as_bytes();
        let n = bytes.len();
        proof {
            assert(bytes@.len() == cs.len());
            assert(forall|j: int| 0 <= j < cs.len() ==> bytes@[j] == (#[trigger] cs[j]) as u8);
        }
        if n < 3 {
            return Err(());
        }
        if *slice_index_get(bytes, 0) != 0x1b {
            proof {
                assert(cs[0] != '\x1b');
            }
            return Err(());
        }
        if *slice_index_get(bytes, 1) != 0x5b {
            proof {
                assert(cs[1] != '[');
            }
            return Err(());
        }
        let mut acc = CsiAccum { arg0: 0, arg1: 0, seps: 0, ok: true };
        let mut i: usize = 2;
        while i < n - 1
            invariant
                cs == s@,
                2 <= i <= n - 1,
                3 <= n == cs.len() == bytes@.len(),
                vstd::utf8::is_ascii_chars(cs),
                forall|j: int| 0 <= j < cs.len() ==> bytes@[j] == (#[trigger] cs[j]) as u8,
                forall|j: int| 2 <= j < i ==> is_csi_param_char(#[trigger] cs[j]),
                acc == csi_run(
                    csi_init(),
                    cs.subrange(2, i as int).map_values(|c: char| c as u8),
                ),
            decreases n - 1 - i,
        {
            let b = *slice_index_get(bytes, i);
            if !((0x30 <= b && b <= 0x39) || b == 0x3b) {
                proof {
                    assert(!is_csi_param_char(cs[i as int]));
                    assert(!wf_ansi_escape(cs)) by {
                        if wf_ansi_escape(cs) {
                            assert(is_csi_param_char(cs[i as int]));
                        }
                    }
                }
                return Err(());
            }
            acc = csi_accum_step(acc, b);
            proof {
                let prefix = cs.subrange(2, i as int).map_values(|c: char| c as u8);
                let next = cs.subrange(2, i + 1).map_values(|c: char| c as u8);
                assert(next.drop_last() =~= prefix);
                assert(next.last() == b);
                assert(csi_run(csi_init(), next) == csi_step(csi_run(csi_init(), prefix), b));
            }
            i += 1;
        }
        let f = *slice_index_get(bytes, n - 1);
        if !(0x40 <= f && f <= 0x7f) {
            proof {
                assert(!is_csi_final_char(cs[cs.len() - 1]));
            }
            return Err(());
        }
        proof {
            assert(cs.subrange(2, cs.len() as int - 1).map_values(|c: char| c as u8)
                =~= csi_param_bytes_of(cs));
        }
        if !acc.ok {
            proof {
                assert(!wf_ansi_escape(cs));
            }
            return Err(());
        }
        let result = CsiEscapeSequence { args: [acc.arg0, acc.arg1], function: f as char };
        proof {
            assert(f as char == cs[cs.len() - 1]);
            assert(wf_ansi_escape(cs));
        }
        Ok(result)
    }
}

/// Executable mirror of `csi_step`.
pub fn csi_accum_step(a: CsiAccum, b: u8) -> (r: CsiAccum)
    ensures
        r == csi_step(a, b),
{
    if !a.ok {
        a
    } else if a.seps >= 2 {
        CsiAccum { arg0: a.arg0, arg1: a.arg1, seps: a.seps, ok: false }
    } else if 0x30 <= b && b <= 0x39 {
        let d = (b - 0x30) as u32;
        if a.seps == 0 {
            let wide = (a.arg0 as u64) * 10 + (d as u64);
            if wide > u32::MAX as u64 {
                CsiAccum { arg0: a.arg0, arg1: a.arg1, seps: a.seps, ok: false }
            } else {
                CsiAccum { arg0: wide as u32, arg1: a.arg1, seps: a.seps, ok: true }
            }
        } else {
            let wide = (a.arg1 as u64) * 10 + (d as u64);
            if wide > u32::MAX as u64 {
                CsiAccum { arg0: a.arg0, arg1: a.arg1, seps: a.seps, ok: false }
            } else {
                CsiAccum { arg0: a.arg0, arg1: wide as u32, seps: a.seps, ok: true }
            }
        }
    } else if b == 0x3b {
        CsiAccum { arg0: a.arg0, arg1: a.arg1, seps: a.seps + 1, ok: true }
    } else {
        CsiAccum { arg0: a.arg0, arg1: a.arg1, seps: a.seps, ok: false }
    }
}

} // verus!
