//! The escape-sequence decoder: a state machine fed one byte at a time.
//!
//! The decoder classifies bytes into `ConsoleCommand` events.  Outside any
//! escape sequence, each byte yields exactly one event.  An ESC byte opens
//! an escape sequence: if `[` follows, parameter bytes accumulate until a
//! final byte in `0x40..=0x7f` closes the sequence as `CsiEscape` (or as
//! `UnknownEscape` when the parameters were invalid); any other byte after
//! ESC surfaces a bare `Esc` event and is then reclassified at once, so a
//! byte read ahead of need is never lost.
//!
//! The transition relation is the spec function `feed_spec`; `decode_run`
//! folds it over a whole byte sequence, and the lemmas at the end of the
//! module state how byte streams decode.

use vstd::prelude::*;

use crate::command::ansi_escape_bytes;
use crate::command::ConsoleCommand;
use crate::command::csi_accum_step;
use crate::command::csi_init;
use crate::command::csi_param_bytes_of;
use crate::command::csi_run;
use crate::command::csi_step;
use crate::command::CsiAccum;
use crate::command::CsiEscapeSequence;
use crate::command::dec_value;
use crate::command::is_ascii_digit_byte;
use crate::command::is_csi_final_byte;
use crate::command::is_csi_final_char;
use crate::command::is_csi_param_byte;
use crate::command::is_csi_param_char;
use crate::command::spec_from_ansi_escape;
use crate::command::wf_ansi_escape;
use crate::render::dec_digits;
use crate::render::lemma_dec_digits_are_digits;
use crate::render::lemma_dec_digits_value;

verus! {

/// Decoder state between bytes: outside any sequence, after a bare ESC,
/// or inside `ESC [` with the parameters accumulated so far.
#[derive(Clone, Copy, Debug, PartialEq, Eq)]
pub enum DecoderState {
    Ground,
    Escape,
    Csi(CsiAccum),
}

/// The escape-sequence decoder.
#[derive(Clone, Copy, Debug, PartialEq, Eq)]
pub struct Decoder {
    pub state: DecoderState,
}

/// How a byte outside any escape sequence is classified: DEL deletes, a
/// line feed or carriage return reads as the newline character, bytes
/// `0x20..=0x7e` are printable characters, and every other byte is
/// carried through unmodified.  Only DEL (`0x7f`) maps to `Backspace`;
/// BS (`0x08`) is carried through as a raw byte like any other control
/// byte.
pub open spec fn ground_event(b: u8) -> ConsoleCommand
    recommends
        b != 0x1b,
{
    if b == 0x7f {
        ConsoleCommand::Backspace
    } else if b == 0x0a || b == 0x0d {
        ConsoleCommand::Character('\n')
    } else if 0x20 <= b < 0x7f {
        ConsoleCommand::Character(b as char)
    } else {
        ConsoleCommand::Byte(b)
    }
}

/// The event that closes a CSI sequence on final byte `f`.
pub open spec fn csi_close_event(a: CsiAccum, f: u8) -> ConsoleCommand {
    if a.ok {
        ConsoleCommand::CsiEscape(
            CsiEscapeSequence { args: [a.arg0, a.arg1], function: f as char },
        )
    } else {
        ConsoleCommand::UnknownEscape
    }
}

/// Result of feeding one byte: the next state and the events completed by
/// that byte (none, one, or — after a bare ESC — two).
pub struct DecodeStep {
    pub state: DecoderState,
    pub events: Seq<ConsoleCommand>,
}

/// The decoder's transition relation, one byte at a time.
pub open spec fn feed_spec(st: DecoderState, b: u8) -> DecodeStep {
    match st {
        DecoderState::Ground => {
            if b == 0x1b {
                DecodeStep { state: DecoderState::Escape, events: Seq::empty() }
            } else {
                DecodeStep { state: DecoderState::Ground, events: seq![ground_event(b)] }
            }
        },
        DecoderState::Escape => {
            if b == 0x5b {
                DecodeStep { state: DecoderState::Csi(csi_init()), events: Seq::empty() }
            } else if b == 0x1b {
                DecodeStep { state: DecoderState::Escape, events: seq![ConsoleCommand::Esc] }
            } else {
                DecodeStep {
                    state: DecoderState::Ground,
                    events: seq![ConsoleCommand::Esc, ground_event(b)],
                }
            }
        },
        DecoderState::Csi(a) => {
            if is_csi_final_byte(b) {
                DecodeStep { state: DecoderState::Ground, events: seq![csi_close_event(a, b)] }
            } else {
                DecodeStep { state: DecoderState::Csi(csi_step(a, b)), events: Seq::empty() }
            }
        },
    }
}

/// `feed_spec` folded over a whole byte sequence from a starting state.
pub open spec fn decode_run(st: DecoderState, bytes: Seq<u8>) -> DecodeStep
    decreases bytes.len(),
{
    if bytes.len() == 0 {
        DecodeStep { state: st, events: Seq::empty() }
    } else {
        let head = feed_spec(st, bytes.first());
        let rest = decode_run(head.state, bytes.drop_first());
        DecodeStep { state: rest.state, events: head.events + rest.events }
    }
}

impl Decoder {
    /// A fresh decoder, outside any escape sequence.
    pub fn new() -> (d: Decoder)
        ensures
            d.state is Ground,
    {
        Decoder { state: DecoderState::Ground }
    }

    /// Consumes one byte and returns the events it completes, exactly as
    /// `feed_spec` describes.  Every returned event is well formed.
    pub fn feed(&mut self, byte: u8) -> (events: Vec<ConsoleCommand>)
        ensures
            final(self).state == feed_spec(old(self).state, byte).state,
            events@ == feed_spec(old(self).state, byte).events,
            forall|i: int| 0 <= i < events@.len() ==> (#[trigger] events@[i]).wf(),
    {
        let mut events: Vec<ConsoleCommand> = Vec::new();
        match self.state {
            DecoderState::Ground => {
                if byte == 0x1b {
                    self.state = DecoderState::Escape;
                } else {
                    events.push(ground_command(byte));
                }
            },
            DecoderState::Escape => {
                if byte == 0x5b {
                    self.state = DecoderState::Csi(
                        CsiAccum { arg0: 0, arg1: 0, seps: 0, ok: true },
                    );
                } else if byte == 0x1b {
                    events.push(ConsoleCommand::Esc);
                } else {
                    events.push(ConsoleCommand::Esc);
                    events.push(ground_command(byte));
                    self.state = DecoderState::Ground;
                }
            },
            DecoderState::Csi(a) => {
                if 0x40 <= byte && byte <= 0x7f {
                    if a.ok {
                        events.push(
                            ConsoleCommand::CsiEscape(
                                CsiEscapeSequence {
                                    args: [a.arg0, a.arg1],
                                    function: byte as char,
                                },
                            ),
                        );
                    } else {
                        events.push(ConsoleCommand::UnknownEscape);
                    }
                    self.state = DecoderState::Ground;
                } else {
                    self.state = DecoderState::Csi(csi_accum_step(a, byte));
                }
            },
        }
        events
    }
}

/// Running the decoder over a single byte is one step of `feed_spec`.
pub proof fn lemma_decode_run_one(st: DecoderState, b: u8)
    ensures
        decode_run(st, seq![b]).state == feed_spec(st, b).state,
        decode_run(st, seq![b]).events == feed_spec(st, b).events,
{
    assert(seq![b].first() == b);
    assert(seq![b].drop_first() =~= Seq::<u8>::empty());
    assert(decode_run(feed_spec(st, b).state, seq![b].drop_first()).events
        == Seq::<ConsoleCommand>::empty());
    assert(decode_run(st, seq![b]).events =~= feed_spec(st, b).events);
}

/// Folding the accumulator over a single byte is one `csi_step`.
pub proof fn lemma_csi_run_one(a: CsiAccum, b: u8)
    ensures
        csi_run(a, seq![b]) == csi_step(a, b),
{
    assert(seq![b].drop_last() =~= Seq::<u8>::empty());
    assert(csi_run(a, seq![b].drop_last()) == a);
    assert(seq![b].last() == b);
}

/// Decoding distributes over concatenation: running the decoder over
/// `s + t` is running it over `s` and then over `t` from the state reached.
pub proof fn lemma_decode_run_concat(st: DecoderState, s: Seq<u8>, t: Seq<u8>)
    ensures
        decode_run(st, s + t).state == decode_run(decode_run(st, s).state, t).state,
        decode_run(st, s + t).events == decode_run(st, s).events + decode_run(
            decode_run(st, s).state,
            t,
        ).events,
    decreases s.len(),
{
    if s.len() == 0 {
        assert(s + t =~= t);
        assert(decode_run(st, s).events + decode_run(decode_run(st, s).state, t).events
            =~= decode_run(st, t).events);
    } else {
        let head = feed_spec(st, s.first());
        assert((s + t).first() == s.first());
        assert((s + t).drop_first() =~= s.drop_first() + t);
        lemma_decode_run_concat(head.state, s.drop_first(), t);
        assert(decode_run(st, s + t).events =~= decode_run(st, s).events + decode_run(
            decode_run(st, s).state,
            t,
        ).events);
    }
}

/// Every byte stream free of ESC decodes from ground to exactly one event
/// per input byte: the classification `ground_event`, under which each
/// byte yields a `Character`, `Backspace` or `Byte` event and a carriage
/// return becomes `Character('\n')`.  The decoder ends back at ground.
pub proof fn lemma_plain_bytes_decode(bytes: Seq<u8>)
    requires
        forall|i: int| 0 <= i < bytes.len() ==> bytes[i] != 0x1b,
    ensures
        decode_run(DecoderState::Ground, bytes).state is Ground,
        decode_run(DecoderState::Ground, bytes).events.len() == bytes.len(),
        forall|i: int|
            0 <= i < bytes.len() ==> decode_run(DecoderState::Ground, bytes).events[i]
                == ground_event(bytes[i]),
        forall|i: int|
            0 <= i < bytes.len() ==> ((#[trigger] decode_run(DecoderState::Ground, bytes).events[i])
                is Character || decode_run(DecoderState::Ground, bytes).events[i] is Backspace
                || decode_run(DecoderState::Ground, bytes).events[i] is Byte),
    decreases bytes.len(),
{
    if bytes.len() > 0 {
        let b0 = bytes.first();
        assert(bytes[0] != 0x1b);
        let rest = bytes.drop_first();
        assert(forall|i: int| 0 <= i < rest.len() ==> rest[i] == bytes[i + 1]);
        lemma_plain_bytes_decode(rest);
        let run = decode_run(DecoderState::Ground, bytes);
        let run_rest = decode_run(DecoderState::Ground, rest);
        assert(run.events =~= seq![ground_event(b0)] + run_rest.events);
        assert forall|i: int| 0 <= i < bytes.len() implies run.events[i] == ground_event(
            bytes[i],
        ) by {
            if i > 0 {
                assert(run.events[i] == run_rest.events[i - 1]);
            }
        }
    }
}

/// While no final byte arrives, CSI parameter bytes only fold into the
/// accumulator: no event is produced and the decoder stays in the
/// sequence.
pub proof fn lemma_csi_body(a: CsiAccum, params: Seq<u8>)
    requires
        forall|i: int| 0 <= i < params.len() ==> !is_csi_final_byte(#[trigger] params[i]),
    ensures
        decode_run(DecoderState::Csi(a), params).state == DecoderState::Csi(csi_run(a, params)),
        decode_run(DecoderState::Csi(a), params).events == Seq::<ConsoleCommand>::empty(),
    decreases params.len(),
{
    if params.len() == 0 {
    } else {
        assert(!is_csi_final_byte(params[0]));
        lemma_csi_run_first(a, params);
        lemma_csi_body(csi_step(a, params.first()), params.drop_first());
        assert(decode_run(DecoderState::Csi(a), params).events
            =~= Seq::<ConsoleCommand>::empty());
    }
}

/// Folding the accumulator over a sequence can start from the front:
/// running over all of `s` equals one step on the first byte and a run
/// over the rest.
pub proof fn lemma_csi_run_first(a: CsiAccum, s: Seq<u8>)
    requires
        s.len() > 0,
    ensures
        csi_run(a, s) == csi_run(csi_step(a, s.first()), s.drop_first()),
    decreases s.len(),
{
    if s.len() == 1 {
        assert(s =~= seq![s.first()]);
        lemma_csi_run_one(a, s.first());
        assert(s.drop_first() =~= Seq::<u8>::empty());
        assert(csi_run(csi_step(a, s.first()), s.drop_first()) == csi_step(a, s.first()));
    } else {
        let b = csi_step(a, s.first());
        lemma_csi_run_first(a, s.drop_last());
        assert(s.drop_last().first() == s.first());
        assert(s.drop_last().drop_first() =~= s.drop_first().drop_last());
        assert(s.drop_first().last() == s.last());
        assert(s.drop_first().len() > 0);
        assert(csi_run(a, s) == csi_step(csi_run(a, s.drop_last()), s.last()));
        assert(csi_run(b, s.drop_first()) == csi_step(
            csi_run(b, s.drop_first().drop_last()),
            s.drop_first().last(),
        ));
        assert(csi_run(a, s.drop_last()) == csi_run(b, s.drop_last().drop_first()));
        assert(csi_run(b, s.drop_last().drop_first()) == csi_run(b, s.drop_first().drop_last()));
    }
}

/// The accumulator run also distributes over concatenation.
pub proof fn lemma_csi_run_concat(a: CsiAccum, s: Seq<u8>, t: Seq<u8>)
    ensures
        csi_run(a, s + t) == csi_run(csi_run(a, s), t),
    decreases t.len(),
{
    if t.len() == 0 {
        assert(s + t =~= s);
    } else {
        lemma_csi_run_concat(a, s, t.drop_last());
        assert((s + t).drop_last() =~= s + t.drop_last());
        assert((s + t).last() == t.last());
    }
}

/// A complete escape sequence `ESC [ <params> <final>` decodes from ground
/// to exactly one event: the closed control sequence when the parameters
/// were valid, `UnknownEscape` otherwise.  The decoder ends back at
/// ground.
pub proof fn lemma_csi_sequence(params: Seq<u8>, f: u8)
    requires
        forall|i: int| 0 <= i < params.len() ==> !is_csi_final_byte(#[trigger] params[i]),
        is_csi_final_byte(f),
    ensures
        decode_run(DecoderState::Ground, seq![0x1b, 0x5b] + params + seq![f]).state is Ground,
        decode_run(DecoderState::Ground, seq![0x1b, 0x5b] + params + seq![f]).events == seq![
            csi_close_event(csi_run(csi_init(), params), f),
        ],
{
    let opener = seq![0x1bu8, 0x5bu8];
    let full = opener + params + seq![f];
    assert(opener =~= seq![0x1bu8] + seq![0x5bu8]);
    lemma_decode_run_concat(DecoderState::Ground, seq![0x1bu8], seq![0x5bu8]);
    lemma_decode_run_one(DecoderState::Ground, 0x1b);
    lemma_decode_run_one(DecoderState::Escape, 0x5b);
    assert(decode_run(DecoderState::Ground, opener).state == DecoderState::Csi(csi_init()));
    assert(decode_run(DecoderState::Ground, opener).events =~= Seq::<ConsoleCommand>::empty());
    assert(full =~= opener + (params + seq![f]));
    lemma_decode_run_concat(DecoderState::Ground, opener, params + seq![f]);
    lemma_decode_run_concat(DecoderState::Csi(csi_init()), params, seq![f]);
    lemma_csi_body(csi_init(), params);
    let closed = csi_run(csi_init(), params);
    lemma_decode_run_one(DecoderState::Csi(closed), f);
    assert(decode_run(DecoderState::Ground, full).events =~= seq![csi_close_event(closed, f)]);
}

/// The value of a digit run is never negative.
pub proof fn lemma_dec_value_nonneg(digits: Seq<u8>)
    requires
        forall|i: int| 0 <= i < digits.len() ==> is_ascii_digit_byte(#[trigger] digits[i]),
    ensures
        dec_value(digits) >= 0,
    decreases digits.len(),
{
    if digits.len() > 0 {
        assert(forall|i: int|
            0 <= i < digits.drop_last().len() ==> digits.drop_last()[i] == digits[i]);
        lemma_dec_value_nonneg(digits.drop_last());
        assert(is_ascii_digit_byte(digits.last()));
    }
}

/// Folding a representable run of digits into an argument slot that holds
/// 0 leaves the accumulator valid with exactly the run's decimal value in
/// that slot; nothing else changes.
pub proof fn lemma_csi_run_digits(a: CsiAccum, ds: Seq<u8>)
    requires
        a.ok,
        a.seps <= 1,
        a.seps == 0 ==> a.arg0 == 0,
        a.seps == 1 ==> a.arg1 == 0,
        forall|i: int| 0 <= i < ds.len() ==> is_ascii_digit_byte(#[trigger] ds[i]),
        dec_value(ds) <= u32::MAX,
    ensures
        csi_run(a, ds).ok,
        csi_run(a, ds).seps == a.seps,
        a.seps == 0 ==> csi_run(a, ds).arg0 == dec_value(ds) && csi_run(a, ds).arg1 == a.arg1,
        a.seps == 1 ==> csi_run(a, ds).arg1 == dec_value(ds) && csi_run(a, ds).arg0 == a.arg0,
    decreases ds.len(),
{
    if ds.len() > 0 {
        let prefix = ds.drop_last();
        let d = ds.last();
        assert(forall|i: int| 0 <= i < prefix.len() ==> prefix[i] == ds[i]);
        lemma_dec_value_nonneg(prefix);
        assert(is_ascii_digit_byte(d));
        assert(dec_value(ds) == dec_value(prefix) * 10 + (d - 0x30));
        assert(dec_value(prefix) <= dec_value(ds));
        lemma_csi_run_digits(a, prefix);
    }
}

/// A byte that is neither a digit nor `;` anywhere in the parameter list
/// spoils the whole accumulation.
pub proof fn lemma_csi_run_bad_byte(a: CsiAccum, s: Seq<u8>, j: int)
    requires
        0 <= j < s.len(),
        !is_csi_param_byte(s[j]),
    ensures
        !csi_run(a, s).ok,
    decreases s.len(),
{
    if j == s.len() - 1 {
        assert(s.last() == s[j]);
    } else {
        assert(s.drop_last()[j] == s[j]);
        lemma_csi_run_bad_byte(a, s.drop_last(), j);
    }
}

/// Second half of the CSI decoding property: a sequence `ESC [ ... f`
/// whose parameter bytes contain anything but digits and `;` before the
/// terminator decodes to `UnknownEscape`.
pub proof fn lemma_csi_invalid_param(params: Seq<u8>, f: u8, j: int)
    requires
        forall|i: int| 0 <= i < params.len() ==> !is_csi_final_byte(#[trigger] params[i]),
        is_csi_final_byte(f),
        0 <= j < params.len(),
        !is_csi_param_byte(params[j]),
    ensures
        decode_run(DecoderState::Ground, seq![0x1b, 0x5b] + params + seq![f]).events == seq![
            ConsoleCommand::UnknownEscape,
        ],
{
    lemma_csi_sequence(params, f);
    lemma_csi_run_bad_byte(csi_init(), params, j);
}

/// First half of the CSI decoding property: a well-formed sequence
/// `ESC [ <digits> ; <digits> <final>` with representable digit runs
/// decodes from ground to exactly the control sequence with those two
/// argument values (an empty run reads as 0) and that final byte.
pub proof fn lemma_csi_two_args(d1: Seq<u8>, d2: Seq<u8>, f: u8)
    requires
        forall|i: int| 0 <= i < d1.len() ==> is_ascii_digit_byte(#[trigger] d1[i]),
        forall|i: int| 0 <= i < d2.len() ==> is_ascii_digit_byte(#[trigger] d2[i]),
        dec_value(d1) <= u32::MAX,
        dec_value(d2) <= u32::MAX,
        is_csi_final_byte(f),
    ensures
        decode_run(DecoderState::Ground, seq![0x1b, 0x5b] + (d1 + seq![0x3b] + d2) + seq![f]).events
            == seq![
            ConsoleCommand::CsiEscape(
                CsiEscapeSequence {
                    args: [dec_value(d1) as u32, dec_value(d2) as u32],
                    function: f as char,
                },
            ),
        ],
        decode_run(
            DecoderState::Ground,
            seq![0x1b, 0x5b] + (d1 + seq![0x3b] + d2) + seq![f],
        ).state is Ground,
{
    let params = d1 + seq![0x3bu8] + d2;
    assert forall|i: int| 0 <= i < params.len() implies !is_csi_final_byte(
        #[trigger] params[i],
    ) by {
        if i < d1.len() {
            assert(params[i] == d1[i]);
        } else if i == d1.len() {
            assert(params[i] == 0x3b);
        } else {
            assert(params[i] == d2[i - d1.len() - 1]);
        }
    }
    lemma_csi_sequence(params, f);
    lemma_csi_run_digits(csi_init(), d1);
    let after_d1 = csi_run(csi_init(), d1);
    lemma_csi_run_concat(csi_init(), d1, seq![0x3bu8]);
    lemma_csi_run_one(after_d1, 0x3b);
    let after_sep = csi_step(after_d1, 0x3b);
    lemma_csi_run_digits(after_sep, d2);
    lemma_csi_run_concat(csi_init(), d1 + seq![0x3bu8], d2);
    assert(params =~= (d1 + seq![0x3bu8]) + d2);
    let closed = csi_run(csi_init(), params);
    assert(closed.ok && closed.arg0 == dec_value(d1) && closed.arg1 == dec_value(d2));
    assert(csi_close_event(closed, f) == ConsoleCommand::CsiEscape(
        CsiEscapeSequence {
            args: [dec_value(d1) as u32, dec_value(d2) as u32],
            function: f as char,
        },
    ));
}

/// The byte-at-a-time decoder agrees with the whole-string parser: feeding
/// the bytes of a well-formed escape string from ground yields exactly the
/// control sequence `from_ansi_escape` reads from that string.
pub proof fn lemma_decoder_agrees_with_string_parse(s: Seq<char>)
    requires
        wf_ansi_escape(s),
    ensures
        spec_from_ansi_escape(s) matches Ok(e) && decode_run(
            DecoderState::Ground,
            s.map_values(|c: char| c as u8),
        ).events == seq![ConsoleCommand::CsiEscape(e)],
        decode_run(DecoderState::Ground, s.map_values(|c: char| c as u8)).state is Ground,
{
    let bytes = s.map_values(|c: char| c as u8);
    let params = csi_param_bytes_of(s);
    let f = s[s.len() - 1] as u8;
    assert forall|i: int| 0 <= i < params.len() implies !is_csi_final_byte(
        #[trigger] params[i],
    ) by {
        assert(params[i] == s[i + 2] as u8);
        assert(is_csi_param_char(s[i + 2]));
    }
    assert(is_csi_final_byte(f)) by {
        assert(is_csi_final_char(s[s.len() - 1]));
    }
    lemma_csi_sequence(params, f);
    assert(bytes =~= seq![0x1bu8, 0x5bu8] + params + seq![f]) by {
        assert(bytes.len() == s.len());
        assert(bytes[0] == s[0] as u8);
        assert(bytes[1] == s[1] as u8);
        assert forall|i: int| 0 <= i < bytes.len() implies bytes[i] == (seq![0x1bu8, 0x5bu8]
            + params + seq![f])[i] by {
            if i >= 2 && i < bytes.len() - 1 {
                assert(params[i - 2] == s[i] as u8);
            }
        }
    }
    let closed = csi_run(csi_init(), params);
    assert(f as char == s[s.len() - 1]) by {
        assert(is_csi_final_char(s[s.len() - 1]));
    }
    assert(csi_close_event(closed, f) == ConsoleCommand::CsiEscape(
        spec_from_ansi_escape(s)->Ok_0,
    ));
}

/// Printing a well-formed control sequence and decoding the printed bytes
/// gives back exactly that sequence: the decoder inverts
/// `ansi_escape_bytes`.
pub proof fn lemma_ansi_escape_round_trip(e: CsiEscapeSequence)
    requires
        e.wf(),
    ensures
        decode_run(DecoderState::Ground, ansi_escape_bytes(e)).events == seq![
            ConsoleCommand::CsiEscape(e),
        ],
        decode_run(DecoderState::Ground, ansi_escape_bytes(e)).state is Ground,
{
    let d1 = dec_digits(e.args[0] as nat);
    let d2 = dec_digits(e.args[1] as nat);
    let f = e.function as u8;
    lemma_dec_digits_are_digits(e.args[0] as nat);
    lemma_dec_digits_are_digits(e.args[1] as nat);
    lemma_dec_digits_value(e.args[0] as nat);
    lemma_dec_digits_value(e.args[1] as nat);
    assert forall|i: int| 0 <= i < d1.len() implies is_ascii_digit_byte(#[trigger] d1[i]) by {}
    assert forall|i: int| 0 <= i < d2.len() implies is_ascii_digit_byte(#[trigger] d2[i]) by {}
    lemma_csi_two_args(d1, d2, f);
    assert(ansi_escape_bytes(e) =~= seq![0x1bu8, 0x5bu8] + (d1 + seq![0x3bu8] + d2) + seq![f]);
    assert(f as char == e.function);
    assert(dec_value(d1) as u32 == e.args[0]);
    assert(dec_value(d2) as u32 == e.args[1]);
    let args2: [u32; 2] = [dec_value(d1) as u32, dec_value(d2) as u32];
    assert(args2 =~= e.args) by {
        assert(args2[0] == e.args[0]);
        assert(args2[1] == e.args[1]);
    }
    assert(CsiEscapeSequence { args: args2, function: f as char } == e);
}

/// Classifies one byte outside any escape sequence.
fn ground_command(b: u8) -> (c: ConsoleCommand)
    requires
        b != 0x1b,
    ensures
        c == ground_event(b),
        c.wf(),
{
    if b == 0x7f {
        ConsoleCommand::Backspace
    } else if b == 0x0a || b == 0x0d {
        ConsoleCommand::Character('\n')
    } else if 0x20 <= b && b < 0x7f {
        ConsoleCommand::Character(b as char)
    } else {
        ConsoleCommand::Byte(b)
    }
}

} // verus!
