use ushell::autocomplete::{Autocomplete, NoAutocomplete, StaticAutocomplete};
use ushell::history::{History, LRUHistory, NoHistory};
use ushell::{Environment, Input, Serial, ShellError, SpinError, SpinResult, UShell};

fn feed<A: Autocomplete, H: History, const N: usize>(sh: &mut UShell<A, H, N>, bytes: &[u8]) {
    let rx = sh.get_serial_mut().rx();
    for &b in bytes {
        rx.push(b);
    }
}

fn run<A: Autocomplete, H: History, const N: usize>(sh: &mut UShell<A, H, N>) -> Vec<Input> {
    let mut events = Vec::new();
    loop {
        match sh.poll() {
            Err(ShellError::WouldBlock) => break,
            Err(e) => panic!("unexpected poll error: {:?}", e),
            Ok(None) => {}
            Ok(Some(ev)) => events.push(ev),
        }
    }
    events
}

fn take_tx<A: Autocomplete, H: History, const N: usize>(sh: &mut UShell<A, H, N>) -> Vec<u8> {
    let tx = sh.get_serial_mut().tx();
    let out = tx.clone();
    tx.clear();
    out
}

fn expect_command(ev: &Input, cmd: &str, args: &str) {
    match ev {
        Input::Command((c, a)) => {
            assert_eq!(c.as_str(), cmd);
            assert_eq!(a.as_str(), args);
        }
        other => panic!("expected a command event, got {:?}", other),
    }
}

fn basic_shell() -> UShell<NoAutocomplete, LRUHistory<16, 4>, 16> {
    UShell::new(
        Serial::from_parts(Vec::new(), Vec::new()),
        NoAutocomplete,
        LRUHistory::default(),
    )
}

#[test]
fn typed_line_submits_split_command_event() {
    let mut sh = basic_shell();
    feed(&mut sh, b"ls -la\x0d");
    let evs = run(&mut sh);
    assert_eq!(evs.len(), 1);
    expect_command(&evs[0], "ls", "-la");
    assert_eq!(sh.get_history_mut().go_back().as_deref(), Some("ls -la"));
}

#[test]
fn line_without_space_has_empty_arguments() {
    let mut sh = basic_shell();
    feed(&mut sh, b"pwd\x0d");
    let evs = run(&mut sh);
    expect_command(&evs[0], "pwd", "");
}

#[test]
fn submission_resets_line_for_the_next_command() {
    let mut sh = basic_shell();
    feed(&mut sh, b"ab\x0dc\x0d");
    let evs = run(&mut sh);
    assert_eq!(evs.len(), 2);
    expect_command(&evs[0], "ab", "");
    expect_command(&evs[1], "c", "");
}

#[test]
fn mid_line_insert_echoes_tail_between_save_and_restore() {
    let mut sh = basic_shell();
    feed(&mut sh, b"abcd\x1b[D\x1b[D\x1b[D");
    run(&mut sh);
    take_tx(&mut sh);
    feed(&mut sh, b"X");
    run(&mut sh);
    assert_eq!(take_tx(&mut sh), b"X\x1b[s\x1b[Kbcd\x1b[u".to_vec());
    feed(&mut sh, b"\x0d");
    let evs = run(&mut sh);
    expect_command(&evs[0], "aXbcd", "");
}

#[test]
fn backspace_on_empty_line_bells_and_leaves_buffer_alone() {
    let mut sh = basic_shell();
    feed(&mut sh, b"\x08");
    let evs = run(&mut sh);
    assert!(evs.is_empty());
    assert_eq!(take_tx(&mut sh), vec![0x07]);
    feed(&mut sh, b"\x0d");
    let evs = run(&mut sh);
    expect_command(&evs[0], "", "");
}

#[test]
fn poll_without_input_reports_would_block() {
    let mut sh = basic_shell();
    assert!(matches!(sh.poll(), Err(ShellError::WouldBlock)));
}

#[test]
fn unhandled_control_byte_becomes_control_event() {
    let mut sh = basic_shell();
    feed(&mut sh, &[0x03]);
    let evs = run(&mut sh);
    assert_eq!(evs.len(), 1);
    match &evs[0] {
        Input::Control(code) => assert_eq!(*code, 0x03),
        other => panic!("expected a control event, got {:?}", other),
    }
}

#[test]
fn invalid_utf8_submission_is_bad_input_error() {
    let mut sh = basic_shell();
    feed(&mut sh, &[0xff]);
    assert!(matches!(sh.poll(), Ok(None)));
    feed(&mut sh, &[0x0d]);
    assert!(matches!(sh.poll(), Err(ShellError::BadInputError)));
}

#[test]
fn overlong_entry_for_history_is_history_error() {
    let mut sh: UShell<NoAutocomplete, LRUHistory<2, 4>, 16> = UShell::new(
        Serial::from_parts(Vec::new(), Vec::new()),
        NoAutocomplete,
        LRUHistory::default(),
    );
    feed(&mut sh, b"abc");
    run(&mut sh);
    feed(&mut sh, b"\x0d");
    assert!(matches!(sh.poll(), Err(ShellError::HistoryError)));
}

#[test]
fn full_buffer_insert_bells_and_drops_the_byte() {
    let mut sh: UShell<NoAutocomplete, NoHistory, 4> = UShell::new(
        Serial::from_parts(Vec::new(), Vec::new()),
        NoAutocomplete,
        NoHistory,
    );
    feed(&mut sh, b"abcd");
    run(&mut sh);
    take_tx(&mut sh);
    feed(&mut sh, b"e");
    run(&mut sh);
    assert_eq!(take_tx(&mut sh), vec![0x07]);
    feed(&mut sh, b"\x0d");
    let evs = run(&mut sh);
    expect_command(&evs[0], "abcd", "");
}

#[test]
fn mid_line_delete_echoes_repainted_tail() {
    let mut sh = basic_shell();
    feed(&mut sh, b"abcd\x1b[D\x1b[D");
    run(&mut sh);
    take_tx(&mut sh);
    feed(&mut sh, &[0x08]);
    run(&mut sh);
    assert_eq!(take_tx(&mut sh), b"\x1b[D\x1b[s\x1b[Kcd\x1b[u".to_vec());
    feed(&mut sh, b"\x0d");
    let evs = run(&mut sh);
    expect_command(&evs[0], "acd", "");
}

#[test]
fn delete_at_end_of_line_erases_with_backspace_space_backspace() {
    let mut sh = basic_shell();
    feed(&mut sh, b"ab");
    run(&mut sh);
    take_tx(&mut sh);
    feed(&mut sh, &[0x7f]);
    run(&mut sh);
    assert_eq!(take_tx(&mut sh), vec![0x08, 0x20, 0x08]);
    feed(&mut sh, b"\x0d");
    let evs = run(&mut sh);
    expect_command(&evs[0], "a", "");
}

#[test]
fn cursor_moves_shift_where_bytes_land() {
    let mut sh = basic_shell();
    feed(&mut sh, b"ab\x1b[Dc\x0d");
    let evs = run(&mut sh);
    expect_command(&evs[0], "acb", "");
}

#[test]
fn left_arrow_at_start_bells() {
    let mut sh = basic_shell();
    take_tx(&mut sh);
    feed(&mut sh, b"\x1b[D");
    run(&mut sh);
    assert_eq!(take_tx(&mut sh), vec![0x07]);
}

#[test]
fn right_arrow_at_end_bells() {
    let mut sh = basic_shell();
    feed(&mut sh, b"a");
    run(&mut sh);
    take_tx(&mut sh);
    feed(&mut sh, b"\x1b[C");
    run(&mut sh);
    assert_eq!(take_tx(&mut sh), vec![0x07]);
}

#[test]
fn garbled_escape_is_silently_abandoned() {
    let mut sh = basic_shell();
    feed(&mut sh, b"\x1bZy\x0d");
    let evs = run(&mut sh);
    assert_eq!(evs.len(), 1);
    expect_command(&evs[0], "y", "");
}

#[test]
fn unrecognized_csi_final_byte_is_dropped() {
    let mut sh = basic_shell();
    feed(&mut sh, b"\x1b[Zy\x0d");
    let evs = run(&mut sh);
    assert_eq!(evs.len(), 1);
    expect_command(&evs[0], "y", "");
}

#[test]
fn up_arrow_recalls_most_recent_then_older_entries() {
    let mut sh = basic_shell();
    assert!(sh.push_history("pwd").is_ok());
    assert!(sh.push_history("ls").is_ok());
    take_tx(&mut sh);
    feed(&mut sh, b"\x1b[A");
    run(&mut sh);
    assert_eq!(take_tx(&mut sh), b"\x1b[Kls".to_vec());
    feed(&mut sh, b"\x1b[A");
    run(&mut sh);
    assert_eq!(take_tx(&mut sh), b"\x1b[2D\x1b[Kpwd".to_vec());
    feed(&mut sh, b"\x0d");
    let evs = run(&mut sh);
    expect_command(&evs[0], "pwd", "");
}

#[test]
fn up_arrow_past_oldest_entry_bells() {
    let mut sh = basic_shell();
    assert!(sh.push_history("ls").is_ok());
    feed(&mut sh, b"\x1b[A");
    run(&mut sh);
    take_tx(&mut sh);
    feed(&mut sh, b"\x1b[A");
    run(&mut sh);
    assert_eq!(take_tx(&mut sh), vec![0x07]);
}

#[test]
fn down_arrow_at_live_line_bells() {
    let mut sh = basic_shell();
    take_tx(&mut sh);
    feed(&mut sh, b"\x1b[B");
    run(&mut sh);
    assert_eq!(take_tx(&mut sh), vec![0x07]);
}

#[test]
fn down_arrow_returns_toward_newer_entries() {
    let mut sh = basic_shell();
    assert!(sh.push_history("one").is_ok());
    assert!(sh.push_history("two").is_ok());
    feed(&mut sh, b"\x1b[A\x1b[A\x1b[B\x0d");
    let evs = run(&mut sh);
    expect_command(&evs[0], "one", "");
}

#[test]
fn history_navigation_mid_line_bells() {
    let mut sh = basic_shell();
    assert!(sh.push_history("ls").is_ok());
    feed(&mut sh, b"ab\x1b[D");
    run(&mut sh);
    take_tx(&mut sh);
    feed(&mut sh, b"\x1b[A");
    run(&mut sh);
    assert_eq!(take_tx(&mut sh), vec![0x07]);
}

#[test]
fn history_disabled_up_arrow_bells() {
    let mut sh = basic_shell();
    assert!(sh.push_history("ls").is_ok());
    sh.history(false);
    take_tx(&mut sh);
    feed(&mut sh, b"\x1b[A");
    run(&mut sh);
    assert_eq!(take_tx(&mut sh), vec![0x07]);
}

#[test]
fn tab_completes_prefix_and_echoes_suffix() {
    let mut sh: UShell<StaticAutocomplete<1>, NoHistory, 16> = UShell::new(
        Serial::from_parts(Vec::new(), Vec::new()),
        StaticAutocomplete(["help"]),
        NoHistory,
    );
    feed(&mut sh, b"he");
    run(&mut sh);
    take_tx(&mut sh);
    feed(&mut sh, &[0x09]);
    run(&mut sh);
    assert_eq!(take_tx(&mut sh), b"\x1b[Klp".to_vec());
    feed(&mut sh, b"\x0d");
    let evs = run(&mut sh);
    expect_command(&evs[0], "help", "");
}

#[test]
fn tab_without_match_bells() {
    let mut sh: UShell<StaticAutocomplete<1>, NoHistory, 16> = UShell::new(
        Serial::from_parts(Vec::new(), Vec::new()),
        StaticAutocomplete(["help"]),
        NoHistory,
    );
    feed(&mut sh, b"zz");
    run(&mut sh);
    take_tx(&mut sh);
    feed(&mut sh, &[0x09]);
    run(&mut sh);
    assert_eq!(take_tx(&mut sh), vec![0x07]);
}

#[test]
fn tab_with_autocomplete_disabled_bells() {
    let mut sh: UShell<StaticAutocomplete<1>, NoHistory, 16> = UShell::new(
        Serial::from_parts(Vec::new(), Vec::new()),
        StaticAutocomplete(["help"]),
        NoHistory,
    );
    sh.autocomplete(false);
    feed(&mut sh, b"he");
    run(&mut sh);
    take_tx(&mut sh);
    feed(&mut sh, &[0x09]);
    run(&mut sh);
    assert_eq!(take_tx(&mut sh), vec![0x07]);
}

#[test]
fn overflowing_suggestion_is_refused_with_a_bell() {
    let mut sh: UShell<StaticAutocomplete<1>, NoHistory, 4> = UShell::new(
        Serial::from_parts(Vec::new(), Vec::new()),
        StaticAutocomplete(["abcdefgh"]),
        NoHistory,
    );
    feed(&mut sh, b"a");
    run(&mut sh);
    take_tx(&mut sh);
    feed(&mut sh, &[0x09]);
    run(&mut sh);
    assert_eq!(take_tx(&mut sh), vec![0x07]);
    feed(&mut sh, b"\x0d");
    let evs = run(&mut sh);
    expect_command(&evs[0], "a", "");
}

#[test]
fn clear_empties_line_and_clears_screen() {
    let mut sh = basic_shell();
    feed(&mut sh, b"ab");
    run(&mut sh);
    take_tx(&mut sh);
    assert!(sh.clear().is_ok());
    assert_eq!(take_tx(&mut sh), b"\x1b[H\x1b[2J".to_vec());
    feed(&mut sh, b"\x0d");
    let evs = run(&mut sh);
    expect_command(&evs[0], "", "");
}

#[test]
fn reset_discards_line_and_partial_escape() {
    let mut sh = basic_shell();
    feed(&mut sh, b"ab\x1b");
    run(&mut sh);
    sh.reset();
    feed(&mut sh, b"c\x0d");
    let evs = run(&mut sh);
    expect_command(&evs[0], "c", "");
}

#[test]
fn bell_writes_the_bell_byte() {
    let mut sh = basic_shell();
    take_tx(&mut sh);
    assert!(sh.bell().is_ok());
    assert_eq!(take_tx(&mut sh), vec![0x07]);
}

#[test]
fn serial_splits_back_into_its_queues() {
    let mut serial = Serial::from_parts(vec![1u8, 2], vec![3u8]);
    assert_eq!(serial.read(), Ok(3));
    assert_eq!(serial.read(), Err(ShellError::WouldBlock));
    serial.write(9);
    let (tx, rx) = serial.split();
    assert_eq!(tx, vec![1, 2, 9]);
    assert_eq!(rx, Vec::new());
}

struct RecordingEnv {
    commands: Vec<(String, String)>,
    controls: Vec<u8>,
    fail_on_control: bool,
}

impl Environment<NoAutocomplete, LRUHistory<16, 4>, String, 16> for RecordingEnv {
    fn command(
        &mut self,
        _shell: &mut UShell<NoAutocomplete, LRUHistory<16, 4>, 16>,
        cmd: &str,
        args: &str,
    ) -> SpinResult<String> {
        self.commands.push((cmd.to_string(), args.to_string()));
        Ok(())
    }

    fn control(
        &mut self,
        _shell: &mut UShell<NoAutocomplete, LRUHistory<16, 4>, 16>,
        code: u8,
    ) -> SpinResult<String> {
        if self.fail_on_control {
            return Err(SpinError::EnvironmentError(format!("control {}", code)));
        }
        self.controls.push(code);
        Ok(())
    }
}

#[test]
fn spin_dispatches_events_and_stops_when_caught_up() {
    let mut sh = basic_shell();
    let mut env = RecordingEnv { commands: Vec::new(), controls: Vec::new(), fail_on_control: false };
    feed(&mut sh, b"ls -la\x0d\x03");
    assert!(sh.spin(&mut env).is_ok());
    assert_eq!(env.commands, vec![(String::from("ls"), String::from("-la"))]);
    assert_eq!(env.controls, vec![0x03]);
}

#[test]
fn spin_propagates_environment_failure() {
    let mut sh = basic_shell();
    let mut env = RecordingEnv { commands: Vec::new(), controls: Vec::new(), fail_on_control: true };
    feed(&mut sh, &[0x03]);
    match sh.spin(&mut env) {
        Err(SpinError::EnvironmentError(msg)) => assert_eq!(msg, "control 3"),
        other => panic!("expected an environment error, got {:?}", other.is_ok()),
    }
}

#[test]
fn arguments_keep_their_own_spaces() {
    let mut sh = basic_shell();
    feed(&mut sh, b"a b c\x0d");
    let evs = run(&mut sh);
    expect_command(&evs[0], "a", "b c");
}

#[test]
fn trailing_space_yields_empty_arguments() {
    let mut sh = basic_shell();
    feed(&mut sh, b"a \x0d");
    let evs = run(&mut sh);
    expect_command(&evs[0], "a", "");
}

#[test]
fn leading_space_yields_empty_command() {
    let mut sh = basic_shell();
    feed(&mut sh, b" x\x0d");
    let evs = run(&mut sh);
    expect_command(&evs[0], "", "x");
}

#[test]
fn multi_digit_cursor_return_is_rendered_in_decimal() {
    let mut sh = basic_shell();
    assert!(sh.push_history("x").is_ok());
    feed(&mut sh, b"abcdefghijkl");
    run(&mut sh);
    take_tx(&mut sh);
    feed(&mut sh, b"\x1b[A");
    run(&mut sh);
    assert_eq!(take_tx(&mut sh), b"\x1b[12D\x1b[Kx".to_vec());
}

#[test]
fn spin_propagates_engine_error_unchanged() {
    let mut sh = basic_shell();
    let mut env = RecordingEnv { commands: Vec::new(), controls: Vec::new(), fail_on_control: false };
    feed(&mut sh, &[0xff, 0x0d]);
    match sh.spin(&mut env) {
        Err(SpinError::ShellError(e)) => assert_eq!(e, ShellError::BadInputError),
        _ => panic!("expected the engine's decode error to propagate"),
    }
}

#[test]
fn spin_with_no_input_returns_ok_at_once() {
    let mut sh = basic_shell();
    let mut env = RecordingEnv { commands: Vec::new(), controls: Vec::new(), fail_on_control: false };
    assert!(sh.spin(&mut env).is_ok());
    assert!(env.commands.is_empty());
    assert!(env.controls.is_empty());
    assert_eq!(take_tx(&mut sh), Vec::new());
}
