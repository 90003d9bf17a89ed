//! Discovering candidate command files: the plain-value picture of a scanned
//! directory, the filter that keeps executable non-directories, and the
//! construction of the ordered search path.

use vstd::prelude::*;
use crate::filemode::is_command_file;
use crate::filemode::spec_is_command_file;
use crate::split::spec_path_segments;
use crate::split::split_path_list;
use crate::text::push_char;

verus! {

/// One directory entry as the operating system reports it: its bare name and
/// its mode word (file-type and permission bits).
pub struct FileEntry {
    pub name: String,
    pub mode: u32,
}

pub ghost struct FileEntryView {
    pub name: Seq<char>,
    pub mode: u32,
}

impl View for FileEntry {
    type V = FileEntryView;

    open spec fn view(&self) -> FileEntryView {
        FileEntryView { name: self.name@, mode: self.mode }
    }
}

impl DeepView for FileEntry {
    type V = FileEntryView;

    open spec fn deep_view(&self) -> FileEntryView {
        self@
    }
}

impl Clone for FileEntry {
    fn clone(&self) -> (r: Self)
        ensures
            r == *self,
    {
        FileEntry { name: self.name.clone(), mode: self.mode }
    }
}

/// A directory that was listed: its path and the entries found in it.
/// A directory that could not be read is simply given no entries.
pub struct ScannedDirectory {
    pub path: String,
    pub entries: Vec<FileEntry>,
}

pub ghost struct ScannedDirectoryView {
    pub path: Seq<char>,
    pub entries: Seq<FileEntryView>,
}

impl View for ScannedDirectory {
    type V = ScannedDirectoryView;

    open spec fn view(&self) -> ScannedDirectoryView {
        ScannedDirectoryView { path: self.path@, entries: self.entries.deep_view() }
    }
}

impl DeepView for ScannedDirectory {
    type V = ScannedDirectoryView;

    open spec fn deep_view(&self) -> ScannedDirectoryView {
        self@
    }
}

pub open spec fn command_file_filter() -> spec_fn(FileEntryView) -> bool {
    |e: FileEntryView| spec_is_command_file(e.mode)
}

/// Keep exactly the entries that qualify as commands: not directories, and
/// carrying at least one execute bit. Everything else is dropped, and nothing
/// is reordered.
pub fn executable_entries(entries: &Vec<FileEntry>) -> (r: Vec<FileEntry>)
    ensures
        r.deep_view() == entries.deep_view().filter(command_file_filter()),
{
    let mut r: Vec<FileEntry> = Vec::new();
    let mut i: usize = 0;
    proof {
        reveal(Seq::filter);
        assert(entries.deep_view().take(0) =~= Seq::<FileEntryView>::empty());
        assert(r.deep_view() =~= entries.deep_view().take(0).filter(command_file_filter()));
    }
    while i < entries.len()
        invariant
            i <= entries@.len(),
            entries.deep_view().len() == entries@.len(),
            r.deep_view() == entries.deep_view().take(i as int).filter(command_file_filter()),
        decreases entries@.len() - i,
    {
        let ghost dv = entries.deep_view();
        let ghost old_r = r.deep_view();
        let e = &entries[i];
        proof {
            reveal(Seq::filter);
            assert(dv.take(i + 1 as int).drop_last() =~= dv.take(i as int));
            assert(dv.take(i + 1 as int).last() == dv[i as int]);
            assert(dv[i as int] == e@);
            assert(command_file_filter()(e@) == spec_is_command_file(e@.mode));
        }
        if is_command_file(e.mode) {
            r.push(e.clone());
            proof {
                assert(r.deep_view() =~= old_r.push(e@));
            }
        }
        i = i + 1;
    }
    proof {
        assert(entries.deep_view().take(entries.deep_view().len() as int) =~= entries.deep_view());
    }
    r
}

/// A directory holding only command files is returned whole: nothing is
/// dropped and nothing is reordered, whatever order the entries came in.
pub proof fn lemma_all_executables_kept(entries: Seq<FileEntryView>)
    requires
        forall|i: int| 0 <= i < entries.len() ==> spec_is_command_file(
            #[trigger] entries[i].mode,
        ),
    ensures
        entries.filter(command_file_filter()) == entries,
    decreases entries.len(),
{
    reveal(Seq::filter);
    if entries.len() == 0 {
        assert(entries.filter(command_file_filter()) =~= entries);
    } else {
        assert forall|i: int| 0 <= i < entries.drop_last().len() implies spec_is_command_file(
            #[trigger] entries.drop_last()[i].mode,
        ) by {
            assert(entries.drop_last()[i] == entries[i]);
        }
        lemma_all_executables_kept(entries.drop_last());
        assert(command_file_filter()(entries.last()));
        assert(entries.filter(command_file_filter()) =~= entries);
    }
}

/// The absolute path of an entry: the directory joined with the bare name,
/// with one slash between them, as the operating system joins paths.
pub open spec fn spec_join_path(directory: Seq<char>, name: Seq<char>) -> Seq<char> {
    if directory.len() == 0 {
        name
    } else if directory.last() == '/' {
        directory + name
    } else {
        directory + seq!['/'] + name
    }
}

pub fn join_path(directory: &str, name: &str) -> (r: String)
    ensures
        r@ == spec_join_path(directory@, name@),
{
    let n = directory.unicode_len();
    if n == 0 {
        return name.to_owned();
    }
    let mut r = directory.to_owned();
    if directory.get_char(n - 1) != '/' {
        push_char(&mut r, '/');
        proof {
            assert(directory@.push('/') =~= directory@ + seq!['/']);
        }
    }
    r.append(name);
    r
}

/// The ordered search path: the colon-separated directories of the
/// search-path value (empty segments dropped), followed by the shell's own
/// directory when it is known. Scanning follows this order, so the shell's
/// own directory is scanned last and shadows name collisions.
pub open spec fn spec_search_path(path_value: Seq<char>, builtin_dir: Option<Seq<char>>) -> Seq<
    Seq<char>,
> {
    match builtin_dir {
        Some(b) => spec_path_segments(path_value).push(b),
        None => spec_path_segments(path_value),
    }
}

pub fn build_search_path(path_value: &str, builtin_dir: &Option<String>) -> (r: Vec<String>)
    ensures
        r.deep_view() == spec_search_path(path_value@, builtin_dir.deep_view()),
{
    let mut r = split_path_list(path_value);
    let ghost segments = r.deep_view();
    match builtin_dir {
        Some(b) => {
            r.push(b.clone());
            proof {
                assert(r.deep_view() =~= segments.push(b@));
            }
        },
        None => {},
    }
    r
}

} // verus!
