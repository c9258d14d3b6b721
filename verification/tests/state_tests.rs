use sqlite_lite::state::bytes_eq;
use sqlite_lite::state::do_meta_command;
use sqlite_lite::state::usage;
use sqlite_lite::state::InputBuffer;
use sqlite_lite::state::ProgramState;
use sqlite_lite::status::MetaCommandResult;

#[test]
fn program_state_starts_stopped() {
    let state = ProgramState::new();
    assert!(!state.get_running());
}

#[test]
fn set_running_toggles_the_flag() {
    let mut state = ProgramState::new();
    state.set_running(true);
    assert!(state.get_running());
    state.set_running(false);
    assert!(!state.get_running());
}

#[test]
fn input_buffer_starts_empty() {
    let buffer = InputBuffer::new();
    assert_eq!(buffer.buffer, "");
}

#[test]
fn exit_command_stops_the_loop() {
    let mut state = ProgramState::new();
    state.set_running(true);
    let r = do_meta_command(&b".exit".to_vec(), &mut state);
    assert!(matches!(r, MetaCommandResult::MetaCommandSuccess));
    assert!(!state.get_running());
}

#[test]
fn test_command_succeeds_without_stopping() {
    let mut state = ProgramState::new();
    state.set_running(true);
    let r = do_meta_command(&b".test".to_vec(), &mut state);
    assert!(matches!(r, MetaCommandResult::MetaCommandSuccess));
    assert!(state.get_running());
}

#[test]
fn other_dot_commands_are_unrecognized() {
    let mut state = ProgramState::new();
    state.set_running(true);
    let r = do_meta_command(&b".help".to_vec(), &mut state);
    assert!(matches!(r, MetaCommandResult::MetaCommandUnrecognized));
    assert!(state.get_running());
}

#[test]
fn bytes_eq_compares_contents() {
    assert!(bytes_eq(&b"abc".to_vec(), &b"abc".to_vec()));
    assert!(!bytes_eq(&b"abc".to_vec(), &b"abd".to_vec()));
    assert!(!bytes_eq(&b"abc".to_vec(), &b"ab".to_vec()));
    assert!(bytes_eq(&Vec::new(), &Vec::new()));
}

#[test]
fn usage_names_the_program() {
    let line = usage("sqlite_lite".to_string());
    assert_eq!(line, "Usage: sqlite_lite <database_file_name>");
}
