use flush::find_column_widths;
use flush::format_table;
use flush::format_file_row;
use flush::join_listings;
use flush::render_directory_listing;
use flush::listing::xattr_suffix;
use flush::partition_arguments;
use flush::FileInfo;
use flush::Flags;

fn info(name: &str) -> FileInfo {
    FileInfo {
        name: name.to_string(),
        path: format!("/home/user/{}", name),
        mode: 0o100644,
        nlink: 1,
        size: 1234,
        user: Some("alice".to_string()),
        group: Some("staff".to_string()),
        time: Some("Jan  1 00:00".to_string()),
        xattr: Some("security.selinux".to_string()),
    }
}

fn flags(all: bool, long: bool, full_path: bool) -> Flags {
    Flags { all, full_path, help: false, long }
}

#[test]
fn column_widths_take_the_longest_cell() {
    let rows = vec![
        vec!["a".to_string(), "bb".to_string()],
        vec!["ccc".to_string(), "d".to_string()],
    ];
    assert_eq!(find_column_widths(&rows), Some(vec![3, 2]));
}

#[test]
fn column_widths_of_no_rows_is_none() {
    let rows: Vec<Vec<String>> = vec![];
    assert_eq!(find_column_widths(&rows), None);
}

#[test]
fn table_right_aligns_numbers_and_left_aligns_text() {
    let rows = vec![
        vec!["10".to_string(), "b".to_string()],
        vec!["5".to_string(), "dd".to_string()],
    ];
    assert_eq!(format_table(&rows), Some("10b \n 5dd".to_string()));
}

#[test]
fn table_with_an_empty_cell_is_none() {
    let rows = vec![vec!["a".to_string(), "".to_string()]];
    assert_eq!(format_table(&rows), None);
}

#[test]
fn table_spaces_middle_columns_only() {
    let rows = vec![vec![
        "-rw-r--r--".to_string(),
        ".".to_string(),
        "1".to_string(),
        "alice".to_string(),
    ]];
    assert_eq!(format_table(&rows), Some("-rw-r--r--. 1 alice".to_string()));
}

#[test]
fn short_row_is_just_the_name() {
    let row = format_file_row(&info("notes"), &flags(false, false, false));
    assert_eq!(row, Some(vec!["notes".to_string()]));
}

#[test]
fn full_path_row_uses_the_path() {
    let row = format_file_row(&info("notes"), &flags(false, false, true));
    assert_eq!(row, Some(vec!["/home/user/notes".to_string()]));
}

#[test]
fn long_row_has_the_eight_columns_in_order() {
    let row = format_file_row(&info("notes"), &flags(false, true, false));
    assert_eq!(
        row,
        Some(vec![
            "-rw-r--r--".to_string(),
            ".".to_string(),
            "1".to_string(),
            "alice".to_string(),
            "staff".to_string(),
            "1234".to_string(),
            "Jan  1 00:00".to_string(),
            "notes".to_string(),
        ])
    );
}

#[test]
fn hidden_file_is_dropped_without_all() {
    assert_eq!(format_file_row(&info(".secret"), &flags(false, false, false)), None);
    assert_eq!(
        format_file_row(&info(".secret"), &flags(true, false, false)),
        Some(vec![".secret".to_string()])
    );
}

#[test]
fn missing_detail_drops_the_row() {
    let mut i = info("notes");
    i.user = None;
    assert_eq!(format_file_row(&i, &flags(false, false, false)), None);
}

#[test]
fn xattr_suffixes() {
    assert_eq!(xattr_suffix("system.posix_acl_access"), "+");
    assert_eq!(xattr_suffix("system.posix_acl_default"), "+");
    assert_eq!(xattr_suffix("security.selinux"), ".");
    assert_eq!(xattr_suffix("user.comment"), "");
}

#[test]
fn listing_skips_hidden_and_renders_the_rest() {
    let files = vec![info(".hidden"), info("visible")];
    let out = render_directory_listing(&files, &flags(false, false, false));
    assert_eq!(out, "visible");
}

#[test]
fn listing_of_nothing_is_empty() {
    let files: Vec<FileInfo> = vec![];
    let out = render_directory_listing(&files, &flags(false, false, false));
    assert_eq!(out, "");
}

#[test]
fn listings_join_only_when_all_exist() {
    let all = vec![Some("a".to_string()), Some("b".to_string())];
    assert_eq!(join_listings(&all), Some("a\nb".to_string()));
    let broken = vec![Some("a".to_string()), None];
    assert_eq!(join_listings(&broken), None);
}

#[test]
fn arguments_split_from_flag_words() {
    let args = vec![
        "file1".to_string(),
        "-a".to_string(),
        "--long".to_string(),
        "file2".to_string(),
        "---x".to_string(),
    ];
    let (positional, stripped) = partition_arguments(&args);
    assert_eq!(positional, vec!["file1".to_string(), "file2".to_string()]);
    assert_eq!(stripped, vec!["a".to_string(), "long".to_string(), "-x".to_string()]);
}

#[test]
fn flag_switches_are_read_off_the_words() {
    let f = Flags::new(&vec!["a".to_string(), "l".to_string()]);
    assert!(f.all);
    assert!(f.long);
    assert!(!f.full_path);
    assert!(!f.help);
}
