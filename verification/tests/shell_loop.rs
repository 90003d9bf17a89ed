use flush::shell::apply_change_directory;
use flush::shell::next_directive;
use flush::shell::LineEvent;
use flush::shell::LoopDirective;
use flush::shell::ShellState;
use flush::CommandEntry;
use flush::CommandTable;
use flush::Origin;

#[test]
fn end_of_input_and_interrupt_exit() {
    let t = CommandTable::empty();
    assert!(matches!(next_directive(&LineEvent::EndOfInput, &t), LoopDirective::Exit));
    assert!(matches!(next_directive(&LineEvent::Interrupted, &t), LoopDirective::Exit));
}

#[test]
fn empty_line_prompts_again() {
    let t = CommandTable::empty();
    let d = next_directive(&LineEvent::Line("".to_string()), &t);
    assert!(matches!(d, LoopDirective::Prompt));
}

#[test]
fn cd_line_attempts_a_directory_change() {
    let t = CommandTable::empty();
    match next_directive(&LineEvent::Line("cd /tmp".to_string()), &t) {
        LoopDirective::AttemptChangeDirectory { target } => assert_eq!(target, "/tmp"),
        _ => panic!("expected a directory-change attempt"),
    }
}

#[test]
fn known_command_launches() {
    let mut t = CommandTable::empty();
    t.insert(CommandEntry {
        name: "echo".to_string(),
        absolute_path: "/bin/echo".to_string(),
        origin: Origin::External,
    });
    match next_directive(&LineEvent::Line("echo hi".to_string()), &t) {
        LoopDirective::LaunchCommand { entry, arguments } => {
            assert_eq!(entry.absolute_path, "/bin/echo");
            assert_eq!(arguments, vec!["hi".to_string()]);
        },
        _ => panic!("expected a launch"),
    }
}

#[test]
fn unknown_command_is_reported() {
    let t = CommandTable::empty();
    match next_directive(&LineEvent::Line("nope".to_string()), &t) {
        LoopDirective::ReportUnresolved { raw_command } => assert_eq!(raw_command, "nope"),
        _ => panic!("expected an unresolved report"),
    }
}

#[test]
fn failed_directory_change_leaves_state_untouched() {
    let mut state = ShellState { working_directory: "/home/user".to_string() };
    let before = state.working_directory.clone();
    let err = apply_change_directory(&mut state, "/does-not-exist", false);
    assert_eq!(state.working_directory, before);
    assert_eq!(err, Some("No such file or directory".to_string()));
}

#[test]
fn successful_directory_change_updates_state() {
    let mut state = ShellState { working_directory: "/home/user".to_string() };
    let err = apply_change_directory(&mut state, "/tmp", true);
    assert_eq!(state.working_directory, "/tmp");
    assert_eq!(err, None);
}
