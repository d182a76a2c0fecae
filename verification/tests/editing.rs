use serial_console::command::ConsoleCommand;
use serial_console::command::CsiEscapeSequence;
use serial_console::console::Console;
use serial_console::console::ConsoleOutput;
use serial_console::console::LINE_CAPACITY;
use serial_console::render::render_actions;
use serial_console::render::prompt_marker;

fn csi(arg0: u32, arg1: u32, function: char) -> ConsoleCommand {
    ConsoleCommand::CsiEscape(CsiEscapeSequence { args: [arg0, arg1], function })
}

/// Everything a byte stream caused: terminal output, submitted lines, and
/// whether shutdown was requested.
struct Driven {
    output: Vec<u8>,
    submitted: Vec<Vec<u8>>,
    shutdown_requests: usize,
}

/// Feeds raw bytes to the console the way the device loop does: decode
/// each byte, handle every completed event, collect what comes back.
fn drive(console: &mut Console, bytes: &[u8]) -> Driven {
    let mut driven = Driven { output: Vec::new(), submitted: Vec::new(), shutdown_requests: 0 };
    for &b in bytes {
        for event in console.get_console_command(b) {
            let out: ConsoleOutput = console.handle_event(event);
            driven.output.append(&mut render_actions(&out.actions));
            if let Some(line) = out.submitted {
                driven.submitted.push(line);
            }
            if out.shutdown {
                driven.shutdown_requests += 1;
            }
        }
    }
    driven
}

#[test]
fn edit_mid_line_and_submit() {
    // h e l l o, twice cursor-left, x, newline.
    let mut console = Console::new();
    let driven = drive(&mut console, b"hello\x1b[D\x1b[D");
    assert_eq!(console.cursor, 3);
    assert_eq!(console.buffer, b"hello".to_vec());
    assert_eq!(driven.submitted.len(), 0);

    let driven = drive(&mut console, b"x");
    assert_eq!(console.buffer, b"helxlo".to_vec());
    assert_eq!(console.cursor, 4);
    assert_eq!(driven.submitted.len(), 0);

    let driven = drive(&mut console, b"\n");
    assert_eq!(driven.submitted, vec![b"helxlo".to_vec()]);
    assert_eq!(console.buffer, Vec::<u8>::new());
    assert_eq!(console.cursor, 0);
}

#[test]
fn backspace_deletes_before_cursor() {
    // a b c, backspace, backspace, newline: only "a" is left.
    let mut console = Console::new();
    let driven = drive(&mut console, b"abc\x7f\x7f\n");
    assert_eq!(driven.submitted, vec![b"a".to_vec()]);
    assert_eq!(driven.shutdown_requests, 0);
}

#[test]
fn backspace_at_line_start_is_a_quiet_no_op() {
    let mut console = Console::new();
    let out = console.handle_event(ConsoleCommand::Backspace);
    assert_eq!(console.buffer, Vec::<u8>::new());
    assert_eq!(console.cursor, 0);
    assert!(out.actions.is_empty());
    assert!(out.submitted.is_none());
    assert!(!out.shutdown);
}

#[test]
fn empty_line_submits_as_empty() {
    let mut console = Console::new();
    let out = console.handle_event(ConsoleCommand::Character('\n'));
    assert_eq!(out.submitted, Some(Vec::new()));
    assert!(!out.shutdown);
    assert_eq!(console.buffer, Vec::<u8>::new());
    assert_eq!(console.cursor, 0);
}

#[test]
fn ctrl_c_shuts_down_exactly_once() {
    let mut console = Console::new();
    let driven = drive(&mut console, b"he\x03");
    assert_eq!(driven.shutdown_requests, 1);
    assert!(console.terminated);

    // Whatever arrives afterwards is absorbed without any further effect.
    let driven = drive(&mut console, b"more\x03\x04\n");
    assert_eq!(driven.shutdown_requests, 0);
    assert_eq!(driven.submitted.len(), 0);
    assert_eq!(driven.output, Vec::<u8>::new());
    assert_eq!(console.buffer, b"he".to_vec());
}

#[test]
fn ctrl_d_also_shuts_down() {
    let mut console = Console::new();
    let driven = drive(&mut console, b"\x04");
    assert_eq!(driven.shutdown_requests, 1);
    assert!(console.terminated);
}

#[test]
fn insert_then_backspace_restores_the_line() {
    let mut console = Console::new();
    drive(&mut console, b"abcd\x1b[2D");
    let buffer_before = console.buffer.clone();
    let cursor_before = console.cursor;
    drive(&mut console, b"x\x7f");
    assert_eq!(console.buffer, buffer_before);
    assert_eq!(console.cursor, cursor_before);
}

#[test]
fn cursor_movement_is_clamped() {
    let mut console = Console::new();
    drive(&mut console, b"ab");
    console.handle_event(csi(9, 0, 'C'));
    assert_eq!(console.cursor, 2);
    console.handle_event(csi(9, 0, 'D'));
    assert_eq!(console.cursor, 0);
    console.handle_event(csi(0, 0, 'D'));
    assert_eq!(console.cursor, 0);
    // A zero argument counts as one.
    console.handle_event(csi(0, 0, 'C'));
    assert_eq!(console.cursor, 1);
}

#[test]
fn up_and_down_arrows_are_no_ops() {
    let mut console = Console::new();
    drive(&mut console, b"ab");
    let out_up = console.handle_event(csi(0, 0, 'A'));
    let out_down = console.handle_event(csi(0, 0, 'B'));
    assert!(out_up.actions.is_empty());
    assert!(out_down.actions.is_empty());
    assert_eq!(console.buffer, b"ab".to_vec());
    assert_eq!(console.cursor, 2);
}

#[test]
fn unrecognized_function_leaves_the_line_alone() {
    // ESC [ 5 ; 2 H: decoded faithfully, but the editor treats the
    // unrecognized function byte as a quiet no-op — no buffer mutation
    // and nothing written to the sink, so absolute column positioning
    // stays the only control code the console ever emits.
    let mut console = Console::new();
    drive(&mut console, b"ab");
    let driven = drive(&mut console, b"\x1b[5;2H");
    assert_eq!(console.buffer, b"ab".to_vec());
    assert_eq!(console.cursor, 2);
    assert_eq!(driven.output, Vec::<u8>::new());
    assert_eq!(driven.submitted.len(), 0);
    assert_eq!(driven.shutdown_requests, 0);
}

#[test]
fn a_full_line_rejects_further_characters() {
    let mut console = Console::new();
    for _ in 0..LINE_CAPACITY {
        console.handle_event(ConsoleCommand::Character('x'));
    }
    assert_eq!(console.buffer.len(), LINE_CAPACITY);
    let out = console.handle_event(ConsoleCommand::Character('y'));
    assert_eq!(console.buffer.len(), LINE_CAPACITY);
    assert_eq!(console.cursor, LINE_CAPACITY);
    assert!(out.actions.is_empty());
    assert!(console.buffer.iter().all(|&b| b == b'x'));
}

#[test]
fn insert_echoes_suffix_and_repositions() {
    // With the prompt two columns wide, buffer index 0 displays at
    // column 3; after inserting the first character the cursor cell is
    // index 1, column 4.
    let mut console = Console::new();
    let driven = drive(&mut console, b"a");
    assert_eq!(driven.output, b"a\x1b[4G".to_vec());
}

#[test]
fn mid_line_insert_echoes_shifted_tail() {
    let mut console = Console::new();
    drive(&mut console, b"bc\x1b[2D");
    let driven = drive(&mut console, b"a");
    assert_eq!(console.buffer, b"abc".to_vec());
    assert_eq!(driven.output, b"abc\x1b[4G".to_vec());
}

#[test]
fn backspace_redraw_erases_the_freed_cell() {
    // "abc" with the cursor after 'a': deleting 'a' repositions to its
    // column, re-echoes "bc", blanks the stale cell, and repositions.
    let mut console = Console::new();
    drive(&mut console, b"abc\x1b[2D");
    let driven = drive(&mut console, b"\x7f");
    assert_eq!(console.buffer, b"bc".to_vec());
    assert_eq!(console.cursor, 0);
    assert_eq!(driven.output, b"\x1b[3Gbc \x1b[3G".to_vec());
}

#[test]
fn reports_for_unhandled_events() {
    let mut console = Console::new();
    let driven = drive(&mut console, b"\x1bq");
    // Bare escape reported, then 'q' inserted.
    assert_eq!(driven.output, b"Esc\nq\x1b[4G".to_vec());

    let mut console = Console::new();
    let driven = drive(&mut console, b"\x01");
    assert_eq!(driven.output, b"Byte: 1\n".to_vec());

    let mut console = Console::new();
    let driven = drive(&mut console, &[0x80]);
    assert_eq!(driven.output, b"Byte: 128\n".to_vec());

    let mut console = Console::new();
    let driven = drive(&mut console, b"\x1b[1.2C");
    assert_eq!(driven.output, b"Unknown escape\n".to_vec());
}

#[test]
fn execute_console_command_renders_the_report() {
    let console = Console::new();
    assert_eq!(
        console.execute_console_command(ConsoleCommand::Esc),
        b"Esc\n".to_vec()
    );
    assert_eq!(
        console.execute_console_command(ConsoleCommand::Byte(200)),
        b"Byte: 200\n".to_vec()
    );
    assert_eq!(
        console.execute_console_command(ConsoleCommand::UnknownEscape),
        b"Unknown escape\n".to_vec()
    );
    assert_eq!(
        console.execute_console_command(ConsoleCommand::Backspace),
        vec![8, b' ', 8]
    );
    assert_eq!(
        console.execute_console_command(ConsoleCommand::Character('q')),
        b"q".to_vec()
    );
    assert_eq!(
        console.execute_console_command(csi(5, 2, 'H')),
        b"\x1b[5;2H".to_vec()
    );
}

#[test]
fn prompt_marker_is_two_columns() {
    let marker = prompt_marker();
    assert_eq!(marker, b"$ ".to_vec());
}
