use flush::get_env_path_files;
use flush::parse_env_path_commands;
use flush::CommandTable;
use flush::FileEntry;
use flush::Origin;
use flush::ScannedDirectory;

const EXECUTABLE_FILE: u32 = 0o100755;
const PLAIN_FILE: u32 = 0o100644;
const EXECUTABLE_DIRECTORY: u32 = 0o040755;

fn dir(path: &str, names: &[(&str, u32)]) -> ScannedDirectory {
    ScannedDirectory {
        path: path.to_string(),
        entries: names
            .iter()
            .map(|(n, m)| FileEntry { name: n.to_string(), mode: *m })
            .collect(),
    }
}

#[test]
fn build_keeps_executables_only() {
    let dirs = vec![dir(
        "/bin",
        &[("cat", EXECUTABLE_FILE), ("notes.txt", PLAIN_FILE), ("sub", EXECUTABLE_DIRECTORY)],
    )];
    let t = get_env_path_files(&dirs, &None, true, true);
    assert!(t.lookup("cat").is_some());
    assert!(t.lookup("notes.txt").is_none());
    assert!(t.lookup("sub").is_none());
}

#[test]
fn build_records_name_and_absolute_path() {
    let dirs = vec![dir("/usr/bin", &[("cat", EXECUTABLE_FILE)])];
    let t = get_env_path_files(&dirs, &None, true, true);
    let e = t.lookup("cat").expect("cat should be found");
    assert_eq!(e.name, "cat");
    assert_eq!(e.absolute_path, "/usr/bin/cat");
    assert_eq!(e.origin, Origin::External);
}

#[test]
fn build_without_builtin_has_no_builtin_entries() {
    let builtin = Some("/opt/shell".to_string());
    let dirs = vec![
        dir("/bin", &[("cat", EXECUTABLE_FILE)]),
        dir("/opt/shell", &[("help", EXECUTABLE_FILE)]),
    ];
    let t = get_env_path_files(&dirs, &builtin, false, true);
    assert!(t.lookup("help").is_none());
    assert!(t.lookup("cat").is_some());
    for e in &t.entries {
        assert!(e.origin != Origin::Builtin);
    }
}

#[test]
fn build_without_external_has_no_external_entries() {
    let builtin = Some("/opt/shell".to_string());
    let dirs = vec![
        dir("/bin", &[("cat", EXECUTABLE_FILE)]),
        dir("/opt/shell", &[("help", EXECUTABLE_FILE)]),
    ];
    let t = get_env_path_files(&dirs, &builtin, true, false);
    assert!(t.lookup("cat").is_none());
    let e = t.lookup("help").expect("help should be found");
    assert_eq!(e.origin, Origin::Builtin);
    for e in &t.entries {
        assert!(e.origin != Origin::External);
    }
}

#[test]
fn later_scanned_directory_wins() {
    let dirs = vec![
        dir("/usr/bin", &[("cat", EXECUTABLE_FILE)]),
        dir("/usr/local/bin", &[("cat", EXECUTABLE_FILE)]),
    ];
    let t = get_env_path_files(&dirs, &None, true, true);
    let e = t.lookup("cat").expect("cat should be found");
    assert_eq!(e.absolute_path, "/usr/local/bin/cat");
}

#[test]
fn builtin_scanned_last_shadows_external() {
    let builtin = Some("/opt/shell".to_string());
    let dirs = vec![
        dir("/bin", &[("help", EXECUTABLE_FILE)]),
        dir("/opt/shell", &[("help", EXECUTABLE_FILE)]),
    ];
    let t = get_env_path_files(&dirs, &builtin, true, true);
    let e = t.lookup("help").expect("help should be found");
    assert_eq!(e.absolute_path, "/opt/shell/help");
    assert_eq!(e.origin, Origin::Builtin);
}

#[test]
fn duplicate_name_keeps_single_entry() {
    let dirs = vec![
        dir("/a", &[("x", EXECUTABLE_FILE)]),
        dir("/b", &[("x", EXECUTABLE_FILE)]),
    ];
    let t = get_env_path_files(&dirs, &None, true, true);
    assert_eq!(t.entries.len(), 1);
}

#[test]
fn unreadable_directory_contributes_nothing() {
    let dirs = vec![
        dir("/gone", &[]),
        dir("/bin", &[("cat", EXECUTABLE_FILE)]),
    ];
    let t = get_env_path_files(&dirs, &None, true, true);
    assert_eq!(t.entries.len(), 1);
    assert!(t.lookup("cat").is_some());
}

#[test]
fn names_join_in_insertion_order() {
    let dirs = vec![dir(
        "/bin",
        &[("alpha", EXECUTABLE_FILE), ("beta", EXECUTABLE_FILE), ("gamma", EXECUTABLE_FILE)],
    )];
    let t = get_env_path_files(&dirs, &None, true, true);
    assert_eq!(parse_env_path_commands(&t), "alpha beta gamma");
}

#[test]
fn parse_commands_of_empty_table_is_empty() {
    let t = CommandTable::empty();
    assert_eq!(parse_env_path_commands(&t), "");
}

#[test]
fn overwritten_name_keeps_its_first_position() {
    let dirs = vec![
        dir("/a", &[("x", EXECUTABLE_FILE)]),
        dir("/b", &[("y", EXECUTABLE_FILE), ("x", EXECUTABLE_FILE)]),
    ];
    let t = get_env_path_files(&dirs, &None, true, true);
    assert_eq!(parse_env_path_commands(&t), "x y");
    assert_eq!(t.lookup("x").unwrap().absolute_path, "/b/x");
}

#[test]
fn join_path_respects_a_trailing_slash() {
    let dirs = vec![dir("/bin/", &[("cat", EXECUTABLE_FILE)])];
    let t = get_env_path_files(&dirs, &None, true, true);
    assert_eq!(t.lookup("cat").unwrap().absolute_path, "/bin/cat");
}
