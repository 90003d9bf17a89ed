use flush::resolve;
use flush::CommandEntry;
use flush::CommandTable;
use flush::Origin;
use flush::ResolvedCommand;

fn table_with(entries: Vec<CommandEntry>) -> CommandTable {
    let mut t = CommandTable::empty();
    for e in entries {
        t.insert(e);
    }
    t
}

fn entry(name: &str, path: &str, origin: Origin) -> CommandEntry {
    CommandEntry { name: name.to_string(), absolute_path: path.to_string(), origin }
}

#[test]
fn resolve_cd_with_target() {
    let t = CommandTable::empty();
    match resolve("cd /tmp", &t) {
        ResolvedCommand::ChangeDirectory { target } => assert_eq!(target, "/tmp"),
        _ => panic!("expected a directory change"),
    }
}

#[test]
fn resolve_cd_without_target() {
    let t = CommandTable::empty();
    match resolve("cd", &t) {
        ResolvedCommand::ChangeDirectory { target } => assert_eq!(target, ""),
        _ => panic!("expected a directory change"),
    }
}

#[test]
fn resolve_empty_line_is_noop() {
    let t = CommandTable::empty();
    assert!(matches!(resolve("", &t), ResolvedCommand::NoOp));
    assert!(matches!(resolve("   \t  ", &t), ResolvedCommand::NoOp));
}

#[test]
fn resolve_unknown_command() {
    let t = CommandTable::empty();
    match resolve("nonexistent-cmd a b", &t) {
        ResolvedCommand::Unresolved { raw_command } => assert_eq!(raw_command, "nonexistent-cmd"),
        _ => panic!("expected an unresolved command"),
    }
}

#[test]
fn resolve_known_command_with_arguments() {
    let t = table_with(vec![entry("echo", "/bin/echo", Origin::External)]);
    match resolve("echo hi there", &t) {
        ResolvedCommand::Invoke { entry, arguments } => {
            assert_eq!(entry.name, "echo");
            assert_eq!(entry.absolute_path, "/bin/echo");
            assert_eq!(arguments, vec!["hi".to_string(), "there".to_string()]);
        },
        _ => panic!("expected an invocation"),
    }
}

#[test]
fn resolve_splits_on_whitespace_runs() {
    let t = table_with(vec![entry("echo", "/bin/echo", Origin::External)]);
    match resolve("  echo \t one\t\ttwo  ", &t) {
        ResolvedCommand::Invoke { entry, arguments } => {
            assert_eq!(entry.name, "echo");
            assert_eq!(arguments, vec!["one".to_string(), "two".to_string()]);
        },
        _ => panic!("expected an invocation"),
    }
}

#[test]
fn resolve_cd_beats_table_entry() {
    let t = table_with(vec![entry("cd", "/bin/cd-not-used", Origin::External)]);
    match resolve("cd somewhere", &t) {
        ResolvedCommand::ChangeDirectory { target } => assert_eq!(target, "somewhere"),
        _ => panic!("expected the builtin directory change"),
    }
}

#[test]
fn resolve_arguments_kept_verbatim() {
    let t = table_with(vec![entry("grep", "/usr/bin/grep", Origin::External)]);
    match resolve("grep *.rs --color=auto", &t) {
        ResolvedCommand::Invoke { arguments, .. } => {
            assert_eq!(arguments, vec!["*.rs".to_string(), "--color=auto".to_string()]);
        },
        _ => panic!("expected an invocation"),
    }
}
