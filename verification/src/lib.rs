//! A minimal interactive shell's command-resolution engine, together with the
//! small text-processing cores of the tools shipped beside it: directory
//! listing layout, argument parsing, and line scrambling.
//!
//! The library works on plain values (names, mode bits, path strings) that the
//! surrounding programs gather from the operating system; everything here is
//! verified.

pub mod args;
pub mod filemode;
pub mod listing;
pub mod resolve;
pub mod scan;
pub mod scramble;
pub mod shell;
pub mod split;
pub mod table;
pub mod text;

pub use args::partition_arguments;
pub use args::Flags;
pub use filemode::get_file_type;
pub use listing::find_column_widths;
pub use listing::format_table;
pub use listing::render_directory_listing;
pub use listing::join_listings;
pub use listing::format_file_row;
pub use listing::FileInfo;
pub use filemode::get_mode;
pub use filemode::is_command_file;
pub use scan::executable_entries;
pub use scan::build_search_path;
pub use scan::ScannedDirectory;
pub use scan::FileEntry;
pub use scramble::scramble_contents;
pub use resolve::resolve;
pub use resolve::ResolvedCommand;
pub use table::get_env_path_files;
pub use table::parse_env_path_commands;
pub use table::CommandEntry;
pub use table::CommandTable;
pub use table::Origin;
pub use text::get_is_hidden;
