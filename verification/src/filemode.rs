//! Unix file-mode bits: file-type classification, the execute-permission test
//! that command discovery filters by, and the `ls`-style mode string.

use vstd::prelude::*;
use crate::text::push_char;

verus! {

/// Mask of the file-type bits inside a mode word.
pub const FILE_TYPE_MASK: u32 = 0o170000;
/// File-type bits of a directory.
pub const FILE_TYPE_DIRECTORY: u32 = 0o040000;
/// File-type bits of a symbolic link.
pub const FILE_TYPE_SYMLINK: u32 = 0o120000;

pub const READ_OWNER: u32 = 0o400;
pub const WRITE_OWNER: u32 = 0o200;
pub const EXECUTE_OWNER: u32 = 0o100;
pub const READ_GROUP: u32 = 0o040;
pub const WRITE_GROUP: u32 = 0o020;
pub const EXECUTE_GROUP: u32 = 0o010;
pub const READ_OTHER: u32 = 0o004;
pub const WRITE_OTHER: u32 = 0o002;
pub const EXECUTE_OTHER: u32 = 0o001;

pub open spec fn spec_is_directory(mode: u32) -> bool {
    mode & FILE_TYPE_MASK == FILE_TYPE_DIRECTORY
}

pub open spec fn spec_is_symlink(mode: u32) -> bool {
    mode & FILE_TYPE_MASK == FILE_TYPE_SYMLINK
}

pub open spec fn spec_has_execute_bit(mode: u32) -> bool {
    mode & (EXECUTE_OWNER | EXECUTE_GROUP | EXECUTE_OTHER) != 0
}

/// An entry qualifies as a command when it is not a directory and carries at
/// least one execute bit, for owner, group or other.
pub open spec fn spec_is_command_file(mode: u32) -> bool {
    !spec_is_directory(mode) && spec_has_execute_bit(mode)
}

pub open spec fn spec_file_type_char(mode: u32) -> char {
    if spec_is_directory(mode) {
        'd'
    } else if spec_is_symlink(mode) {
        'l'
    } else {
        '-'
    }
}

pub open spec fn spec_permission_char(mode: u32, bit: u32, symbol: char) -> char {
    if mode & bit != 0 {
        symbol
    } else {
        '-'
    }
}

/// The ten-character mode column of a long listing: the file-type character
/// followed by the read, write and execute flags of owner, group and other.
pub open spec fn spec_mode_string(mode: u32) -> Seq<char> {
    seq![
        spec_file_type_char(mode),
        spec_permission_char(mode, READ_OWNER, 'r'),
        spec_permission_char(mode, WRITE_OWNER, 'w'),
        spec_permission_char(mode, EXECUTE_OWNER, 'x'),
        spec_permission_char(mode, READ_GROUP, 'r'),
        spec_permission_char(mode, WRITE_GROUP, 'w'),
        spec_permission_char(mode, EXECUTE_GROUP, 'x'),
        spec_permission_char(mode, READ_OTHER, 'r'),
        spec_permission_char(mode, WRITE_OTHER, 'w'),
        spec_permission_char(mode, EXECUTE_OTHER, 'x'),
    ]
}

pub fn get_file_type(mode: u32) -> (c: char)
    ensures
        c == spec_file_type_char(mode),
{
    if mode & FILE_TYPE_MASK == FILE_TYPE_DIRECTORY {
        'd'
    } else if mode & FILE_TYPE_MASK == FILE_TYPE_SYMLINK {
        'l'
    } else {
        '-'
    }
}

pub fn is_command_file(mode: u32) -> (r: bool)
    ensures
        r == spec_is_command_file(mode),
{
    let is_directory = mode & FILE_TYPE_MASK == FILE_TYPE_DIRECTORY;
    let executable = mode & (EXECUTE_OWNER | EXECUTE_GROUP | EXECUTE_OTHER) != 0;
    !is_directory && executable
}

fn permission_char(mode: u32, bit: u32, symbol: char) -> (c: char)
    ensures
        c == spec_permission_char(mode, bit, symbol),
{
    if mode & bit != 0 {
        symbol
    } else {
        '-'
    }
}

pub fn get_mode(mode: u32) -> (s: String)
    ensures
        s@ == spec_mode_string(mode),
{
    let mut s = String::new();
    push_char(&mut s, get_file_type(mode));
    push_char(&mut s, permission_char(mode, READ_OWNER, 'r'));
    push_char(&mut s, permission_char(mode, WRITE_OWNER, 'w'));
    push_char(&mut s, permission_char(mode, EXECUTE_OWNER, 'x'));
    push_char(&mut s, permission_char(mode, READ_GROUP, 'r'));
    push_char(&mut s, permission_char(mode, WRITE_GROUP, 'w'));
    push_char(&mut s, permission_char(mode, EXECUTE_GROUP, 'x'));
    push_char(&mut s, permission_char(mode, READ_OTHER, 'r'));
    push_char(&mut s, permission_char(mode, WRITE_OTHER, 'w'));
    push_char(&mut s, permission_char(mode, EXECUTE_OTHER, 'x'));
    proof {
        assert(s@ =~= spec_mode_string(mode));
    }
    s
}

} // verus!
