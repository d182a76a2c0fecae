use serial_console::command::ConsoleCommand;
use serial_console::command::CsiEscapeSequence;
use serial_console::decode::Decoder;

fn feed_all(d: &mut Decoder, bytes: &[u8]) -> Vec<ConsoleCommand> {
    let mut events = Vec::new();
    for &b in bytes {
        events.append(&mut d.feed(b));
    }
    events
}

fn csi(arg0: u32, arg1: u32, function: char) -> ConsoleCommand {
    ConsoleCommand::CsiEscape(CsiEscapeSequence { args: [arg0, arg1], function })
}

#[test]
fn plain_bytes_one_event_each() {
    let mut d = Decoder::new();
    let events = feed_all(&mut d, b"abc");
    assert_eq!(
        events,
        vec![
            ConsoleCommand::Character('a'),
            ConsoleCommand::Character('b'),
            ConsoleCommand::Character('c'),
        ]
    );
}

#[test]
fn line_ending_bytes_read_as_newline() {
    let mut d = Decoder::new();
    assert_eq!(d.feed(b'\r'), vec![ConsoleCommand::Character('\n')]);
    assert_eq!(d.feed(b'\n'), vec![ConsoleCommand::Character('\n')]);
}

#[test]
fn delete_byte_reads_as_backspace() {
    let mut d = Decoder::new();
    assert_eq!(d.feed(0x7f), vec![ConsoleCommand::Backspace]);
}

#[test]
fn control_and_high_bytes_pass_through() {
    let mut d = Decoder::new();
    assert_eq!(d.feed(0x01), vec![ConsoleCommand::Byte(0x01)]);
    assert_eq!(d.feed(0x03), vec![ConsoleCommand::Byte(0x03)]);
    assert_eq!(d.feed(0x80), vec![ConsoleCommand::Byte(0x80)]);
    assert_eq!(d.feed(0xff), vec![ConsoleCommand::Byte(0xff)]);
}

#[test]
fn csi_with_two_args() {
    let mut d = Decoder::new();
    let events = feed_all(&mut d, b"\x1b[5;2H");
    assert_eq!(events, vec![csi(5, 2, 'H')]);
}

#[test]
fn csi_without_args_defaults_to_zero() {
    let mut d = Decoder::new();
    assert_eq!(feed_all(&mut d, b"\x1b[C"), vec![csi(0, 0, 'C')]);
    assert_eq!(feed_all(&mut d, b"\x1b[;D"), vec![csi(0, 0, 'D')]);
}

#[test]
fn csi_multi_digit_argument() {
    let mut d = Decoder::new();
    assert_eq!(feed_all(&mut d, b"\x1b[123D"), vec![csi(123, 0, 'D')]);
}

#[test]
fn csi_bad_parameter_byte_is_unknown_escape() {
    let mut d = Decoder::new();
    let events = feed_all(&mut d, b"\x1b[1.2C");
    assert_eq!(events, vec![ConsoleCommand::UnknownEscape]);
}

#[test]
fn csi_third_argument_is_unknown_escape() {
    let mut d = Decoder::new();
    let events = feed_all(&mut d, b"\x1b[1;2;3C");
    assert_eq!(events, vec![ConsoleCommand::UnknownEscape]);
}

#[test]
fn csi_trailing_second_separator_is_accepted() {
    let mut d = Decoder::new();
    let events = feed_all(&mut d, b"\x1b[1;2;C");
    assert_eq!(events, vec![csi(1, 2, 'C')]);
}

#[test]
fn csi_argument_overflow_is_unknown_escape() {
    let mut d = Decoder::new();
    assert_eq!(
        feed_all(&mut d, b"\x1b[4294967295C"),
        vec![csi(4294967295, 0, 'C')]
    );
    assert_eq!(
        feed_all(&mut d, b"\x1b[4294967296C"),
        vec![ConsoleCommand::UnknownEscape]
    );
}

#[test]
fn lone_escape_surfaces_and_reclassifies() {
    let mut d = Decoder::new();
    assert_eq!(d.feed(0x1b), vec![]);
    assert_eq!(
        d.feed(b'a'),
        vec![ConsoleCommand::Esc, ConsoleCommand::Character('a')]
    );
}

#[test]
fn escape_escape_bracket_still_opens_a_sequence() {
    let mut d = Decoder::new();
    assert_eq!(d.feed(0x1b), vec![]);
    assert_eq!(d.feed(0x1b), vec![ConsoleCommand::Esc]);
    assert_eq!(d.feed(b'['), vec![]);
    assert_eq!(d.feed(b'D'), vec![csi(0, 0, 'D')]);
}

#[test]
fn printed_sequence_decodes_back_to_itself() {
    let seq = CsiEscapeSequence { args: [5, 2], function: 'H' };
    let bytes = seq.to_ansi_escape();
    assert_eq!(bytes, b"\x1b[5;2H".to_vec());
    let mut d = Decoder::new();
    let events = feed_all(&mut d, &bytes);
    assert_eq!(events, vec![ConsoleCommand::CsiEscape(seq)]);
}

#[test]
fn printing_writes_zero_arguments_explicitly() {
    let seq = CsiEscapeSequence { args: [0, 0], function: 'C' };
    assert_eq!(seq.to_ansi_escape(), b"\x1b[0;0C".to_vec());
    let seq = CsiEscapeSequence { args: [4294967295, 10], function: 'G' };
    assert_eq!(seq.to_ansi_escape(), b"\x1b[4294967295;10G".to_vec());
}

#[test]
fn parse_well_formed_strings() {
    assert_eq!(
        CsiEscapeSequence::from_ansi_escape("\x1b[5;2H"),
        Ok(CsiEscapeSequence { args: [5, 2], function: 'H' })
    );
    assert_eq!(
        CsiEscapeSequence::from_ansi_escape("\x1b[C"),
        Ok(CsiEscapeSequence { args: [0, 0], function: 'C' })
    );
    assert_eq!(
        CsiEscapeSequence::from_ansi_escape("\x1b[12D"),
        Ok(CsiEscapeSequence { args: [12, 0], function: 'D' })
    );
    assert_eq!(
        CsiEscapeSequence::from_ansi_escape("\x1b[1;2;C"),
        Ok(CsiEscapeSequence { args: [1, 2], function: 'C' })
    );
    assert_eq!(
        CsiEscapeSequence::from_ansi_escape("\x1b[4294967295C"),
        Ok(CsiEscapeSequence { args: [4294967295, 0], function: 'C' })
    );
}

#[test]
fn parse_rejects_malformed_strings() {
    assert_eq!(CsiEscapeSequence::from_ansi_escape(""), Err(()));
    assert_eq!(CsiEscapeSequence::from_ansi_escape("x"), Err(()));
    assert_eq!(CsiEscapeSequence::from_ansi_escape("\x1bX"), Err(()));
    assert_eq!(CsiEscapeSequence::from_ansi_escape("\x1b["), Err(()));
    assert_eq!(CsiEscapeSequence::from_ansi_escape("\x1b[12"), Err(()));
    assert_eq!(CsiEscapeSequence::from_ansi_escape("\x1b[1;2;3C"), Err(()));
    assert_eq!(CsiEscapeSequence::from_ansi_escape("\x1b[1.2C"), Err(()));
    assert_eq!(CsiEscapeSequence::from_ansi_escape("\x1b[5;2Hx"), Err(()));
    assert_eq!(CsiEscapeSequence::from_ansi_escape("\x1b[4294967296C"), Err(()));
    assert_eq!(CsiEscapeSequence::from_ansi_escape("\x1b[\u{e9}"), Err(()));
}
