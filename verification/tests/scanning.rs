use flush::build_search_path;
use flush::executable_entries;
use flush::get_file_type;
use flush::get_is_hidden;
use flush::get_mode;
use flush::is_command_file;
use flush::FileEntry;

const EXECUTABLE_FILE: u32 = 0o100755;
const PLAIN_FILE: u32 = 0o100644;
const EXECUTABLE_DIRECTORY: u32 = 0o040755;
const GROUP_EXECUTABLE_FILE: u32 = 0o100010;
const EXECUTABLE_SYMLINK: u32 = 0o120777;

#[test]
fn scanner_keeps_exactly_the_executable_files() {
    let entries = vec![
        FileEntry { name: "one".to_string(), mode: EXECUTABLE_FILE },
        FileEntry { name: "two".to_string(), mode: EXECUTABLE_FILE },
        FileEntry { name: "three".to_string(), mode: EXECUTABLE_FILE },
    ];
    let kept = executable_entries(&entries);
    let names: Vec<&str> = kept.iter().map(|e| e.name.as_str()).collect();
    assert_eq!(names, vec!["one", "two", "three"]);
}

#[test]
fn scanner_drops_directories_and_plain_files() {
    let entries = vec![
        FileEntry { name: "prog".to_string(), mode: EXECUTABLE_FILE },
        FileEntry { name: "data".to_string(), mode: PLAIN_FILE },
        FileEntry { name: "subdir".to_string(), mode: EXECUTABLE_DIRECTORY },
        FileEntry { name: "tool".to_string(), mode: GROUP_EXECUTABLE_FILE },
        FileEntry { name: "link".to_string(), mode: EXECUTABLE_SYMLINK },
    ];
    let kept = executable_entries(&entries);
    let names: Vec<&str> = kept.iter().map(|e| e.name.as_str()).collect();
    assert_eq!(names, vec!["prog", "tool", "link"]);
}

#[test]
fn command_file_test_matches_mode_bits() {
    assert!(is_command_file(EXECUTABLE_FILE));
    assert!(is_command_file(GROUP_EXECUTABLE_FILE));
    assert!(is_command_file(0o100001));
    assert!(!is_command_file(PLAIN_FILE));
    assert!(!is_command_file(EXECUTABLE_DIRECTORY));
    assert!(is_command_file(EXECUTABLE_SYMLINK));
}

#[test]
fn mode_string_of_a_plain_executable() {
    assert_eq!(get_mode(0o100755), "-rwxr-xr-x");
}

#[test]
fn mode_string_of_a_directory() {
    assert_eq!(get_mode(0o040750), "drwxr-x---");
}

#[test]
fn mode_string_of_a_symlink() {
    assert_eq!(get_mode(0o120777), "lrwxrwxrwx");
}

#[test]
fn file_type_characters() {
    assert_eq!(get_file_type(0o040000), 'd');
    assert_eq!(get_file_type(0o120000), 'l');
    assert_eq!(get_file_type(0o100000), '-');
}

#[test]
fn hidden_names_start_with_a_dot() {
    assert!(get_is_hidden(".bashrc"));
    assert!(!get_is_hidden("bashrc"));
    assert!(!get_is_hidden(""));
}

#[test]
fn search_path_splits_on_colons_and_drops_empties() {
    let p = build_search_path("/bin::/usr/bin:", &None);
    assert_eq!(p, vec!["/bin".to_string(), "/usr/bin".to_string()]);
}

#[test]
fn search_path_appends_the_builtin_directory_last() {
    let p = build_search_path("/bin:/usr/bin", &Some("/opt/shell".to_string()));
    assert_eq!(
        p,
        vec!["/bin".to_string(), "/usr/bin".to_string(), "/opt/shell".to_string()]
    );
}

#[test]
fn empty_search_path_value_gives_only_the_builtin_directory() {
    let p = build_search_path("", &Some("/opt/shell".to_string()));
    assert_eq!(p, vec!["/opt/shell".to_string()]);
}
