//! The command table: a mapping from command name to the entry discovered for
//! it, built once from the scanned search-path directories.
//!
//! Scanning follows the order the directories were supplied in; when two
//! scanned directories hold a command of the same name, the later-scanned one
//! overwrites the earlier. An entry is tagged with its origin: the shell's
//! own (builtin) directory, or an external search-path directory.

use vstd::prelude::*;
use crate::filemode::is_command_file;
use crate::filemode::spec_is_command_file;
use crate::scan::join_path;
use crate::scan::spec_join_path;
use crate::scan::ScannedDirectory;
use crate::scan::ScannedDirectoryView;
use crate::scan::FileEntryView;
use crate::split::join_with;
use crate::split::spec_join;
use crate::text::str_eq;

verus! {

/// Where a command was discovered.
#[derive(Clone, Copy, Debug, PartialEq, Eq, Structural)]
pub enum Origin {
    /// The directory holding the shell's own executable.
    Builtin,
    /// A directory named by the search-path value.
    External,
}

/// One discovered command: its bare name, the absolute path it resolved to at
/// discovery time, and its origin. The path is not re-validated until the
/// command is executed.
pub struct CommandEntry {
    pub name: String,
    pub absolute_path: String,
    pub origin: Origin,
}

pub ghost struct CommandEntryView {
    pub name: Seq<char>,
    pub absolute_path: Seq<char>,
    pub origin: Origin,
}

impl View for CommandEntry {
    type V = CommandEntryView;

    open spec fn view(&self) -> CommandEntryView {
        CommandEntryView {
            name: self.name@,
            absolute_path: self.absolute_path@,
            origin: self.origin,
        }
    }
}

impl DeepView for CommandEntry {
    type V = CommandEntryView;

    open spec fn deep_view(&self) -> CommandEntryView {
        self@
    }
}

impl Clone for CommandEntry {
    fn clone(&self) -> (r: Self)
        ensures
            r == *self,
    {
        CommandEntry {
            name: self.name.clone(),
            absolute_path: self.absolute_path.clone(),
            origin: self.origin,
        }
    }
}

pub open spec fn entry_name_fn() -> spec_fn(CommandEntryView) -> Seq<char> {
    |e: CommandEntryView| e.name
}

/// The mapping an entry sequence denotes: entries are folded in order, so a
/// later entry of the same name overwrites an earlier one.
pub open spec fn seq_to_map(s: Seq<CommandEntryView>) -> Map<Seq<char>, CommandEntryView>
    decreases s.len(),
{
    if s.len() == 0 {
        Map::empty()
    } else {
        seq_to_map(s.drop_last()).insert(s.last().name, s.last())
    }
}

pub proof fn lemma_seq_to_map_domain(s: Seq<CommandEntryView>, name: Seq<char>)
    ensures
        seq_to_map(s).contains_key(name) <==> exists|i: int|
            0 <= i < s.len() && s[i].name == name,
    decreases s.len(),
{
    if s.len() == 0 {
    } else {
        lemma_seq_to_map_domain(s.drop_last(), name);
        if s.last().name == name {
            assert(s[s.len() - 1].name == name);
        } else {
            if exists|i: int| 0 <= i < s.len() && s[i].name == name {
                let i = choose|i: int| 0 <= i < s.len() && s[i].name == name;
                assert(s.drop_last()[i].name == name);
            }
        }
    }
}

/// The entry stored for a name is the one at its last occurrence.
pub proof fn lemma_seq_to_map_at(s: Seq<CommandEntryView>, i: int)
    requires
        0 <= i < s.len(),
        forall|j: int| i < j < s.len() ==> s[j].name != s[i].name,
    ensures
        seq_to_map(s).contains_key(s[i].name),
        seq_to_map(s)[s[i].name] == s[i],
    decreases s.len(),
{
    if i == s.len() - 1 {
    } else {
        assert(s.drop_last()[i] == s[i]);
        lemma_seq_to_map_at(s.drop_last(), i);
        assert(s.last().name != s[i].name);
    }
}

proof fn lemma_seq_to_map_update(s: Seq<CommandEntryView>, i: int, e: CommandEntryView)
    requires
        0 <= i < s.len(),
        s[i].name == e.name,
        forall|j: int| 0 <= j < s.len() && j != i ==> s[j].name != e.name,
    ensures
        seq_to_map(s.update(i, e)) == seq_to_map(s).insert(e.name, e),
    decreases s.len(),
{
    let su = s.update(i, e);
    if i == s.len() - 1 {
        assert(su.drop_last() =~= s.drop_last());
        assert(su.last() == e);
        assert(seq_to_map(s.drop_last()).insert(s.last().name, s.last()).insert(e.name, e)
            =~= seq_to_map(s.drop_last()).insert(e.name, e));
    } else {
        assert(su.drop_last() =~= s.drop_last().update(i, e));
        assert(su.last() == s.last());
        assert(forall|j: int|
            0 <= j < s.drop_last().len() && j != i ==> s.drop_last()[j].name != e.name);
        lemma_seq_to_map_update(s.drop_last(), i, e);
        assert(s.last().name != e.name);
        assert(seq_to_map(s.drop_last()).insert(e.name, e).insert(s.last().name, s.last())
            =~= seq_to_map(s.drop_last()).insert(s.last().name, s.last()).insert(e.name, e));
    }
}

/// The command table. Entry names are pairwise distinct; the stored sequence
/// remembers insertion order for reporting.
pub struct CommandTable {
    pub entries: Vec<CommandEntry>,
}

impl CommandTable {
    /// Names are unique: the well-formedness every method preserves.
    pub open spec fn wf(self) -> bool {
        forall|i: int, j: int|
            0 <= i < j < self.entries.deep_view().len() ==> #[trigger] self.entries.deep_view()[i].name
                != #[trigger] self.entries.deep_view()[j].name
    }

    /// The mapping from command name to entry.
    pub open spec fn as_map(self) -> Map<Seq<char>, CommandEntryView> {
        seq_to_map(self.entries.deep_view())
    }

    /// The known names, in insertion order.
    pub open spec fn names_seq(self) -> Seq<Seq<char>> {
        self.entries.deep_view().map_values(entry_name_fn())
    }

    pub fn empty() -> (t: CommandTable)
        ensures
            t.wf(),
            t.as_map() == Map::<Seq<char>, CommandEntryView>::empty(),
            t.names_seq() == Seq::<Seq<char>>::empty(),
    {
        let t = CommandTable { entries: Vec::new() };
        proof {
            assert(t.entries.deep_view() =~= Seq::<CommandEntryView>::empty());
            assert(t.names_seq() =~= Seq::<Seq<char>>::empty());
        }
        t
    }

    /// Insert an entry; an entry of the same name is overwritten in place, so
    /// the name keeps its first position in the reporting order.
    pub fn insert(&mut self, entry: CommandEntry)
        requires
            old(self).wf(),
        ensures
            final(self).wf(),
            final(self).as_map() == old(self).as_map().insert(entry@.name, entry@),
            old(self).as_map().contains_key(entry@.name) ==> final(self).names_seq() == old(
                self,
            ).names_seq(),
            !old(self).as_map().contains_key(entry@.name) ==> final(self).names_seq() == old(
                self,
            ).names_seq().push(entry@.name),
    {
        let ghost ev = entry@;
        let n = self.entries.len();
        let mut i: usize = 0;
        while i < n
            invariant
                n == self.entries@.len(),
                i <= n,
                *self == *old(self),
                self.wf(),
                forall|j: int| 0 <= j < i ==> self.entries.deep_view()[j].name != ev.name,
                ev == entry@,
            decreases n - i,
        {
            proof {
                assert(self.entries.deep_view()[i as int] == self.entries@[i as int]@);
            }
            if str_eq(self.entries[i].name.as_str(), entry.name.as_str()) {
                let ghost dv = self.entries.deep_view();
                proof {
                    assert(dv[i as int].name == ev.name);
                    assert forall|j: int| 0 <= j < dv.len() && j != i as int implies dv[j].name
                        != ev.name by {
                        if j < i as int {
                            assert(dv[j].name != dv[i as int].name);
                        } else {
                            assert(dv[i as int].name != dv[j].name);
                        }
                    }
                    lemma_seq_to_map_update(dv, i as int, ev);
                    lemma_seq_to_map_domain(dv, ev.name);
                }
                self.entries[i] = entry;
                proof {
                    let dv2 = self.entries.deep_view();
                    assert(dv2 =~= dv.update(i as int, ev));
                    assert forall|k: int| 0 <= k < dv2.len() implies dv2[k].name == dv[k].name by {
                        if k == i as int {
                            assert(dv2[k].name == ev.name);
                        }
                    }
                    assert(self.names_seq() =~= old(self).names_seq());
                    assert forall|p: int, q: int| 0 <= p < q < dv2.len() implies dv2[p].name
                        != dv2[q].name by {
                        assert(dv[p].name != dv[q].name);
                    }
                    assert(self.wf());
                }
                return;
            }
            i = i + 1;
        }
        proof {
            lemma_seq_to_map_domain(self.entries.deep_view(), ev.name);
            assert(!old(self).as_map().contains_key(ev.name));
        }
        let ghost dv = self.entries.deep_view();
        self.entries.push(entry);
        proof {
            assert(self.entries.deep_view() =~= dv.push(ev));
            assert(dv.push(ev).drop_last() =~= dv);
            assert(dv.push(ev).last() == ev);
            assert(self.as_map() == old(self).as_map().insert(ev.name, ev));
            assert(self.names_seq() =~= old(self).names_seq().push(ev.name));
            assert(self.wf());
        }
    }

    /// Pure lookup: no input is touched but the stored entries.
    pub fn lookup(&self, name: &str) -> (r: Option<&CommandEntry>)
        requires
            self.wf(),
        ensures
            match r {
                Some(e) => self.as_map().contains_key(name@) && e@ == self.as_map()[name@],
                None => !self.as_map().contains_key(name@),
            },
    {
        let n = self.entries.len();
        let mut i: usize = 0;
        while i < n
            invariant
                self.wf(),
                n == self.entries@.len(),
                i <= n,
                forall|j: int| 0 <= j < i ==> self.entries.deep_view()[j].name != name@,
            decreases n - i,
        {
            proof {
                assert(self.entries.deep_view()[i as int] == self.entries@[i as int]@);
            }
            if str_eq(self.entries[i].name.as_str(), name) {
                proof {
                    lemma_seq_to_map_at(self.entries.deep_view(), i as int);
                }
                return Some(&self.entries[i]);
            }
            i = i + 1;
        }
        proof {
            lemma_seq_to_map_domain(self.entries.deep_view(), name@);
        }
        None
    }

    /// All known names, in insertion order.
    pub fn names(&self) -> (r: Vec<String>)
        ensures
            r.deep_view() == self.names_seq(),
    {
        let mut r: Vec<String> = Vec::new();
        let mut i: usize = 0;
        proof {
            assert(r.deep_view() =~= self.entries.deep_view().take(0).map_values(entry_name_fn()));
        }
        while i < self.entries.len()
            invariant
                i <= self.entries@.len(),
                r.deep_view() == self.entries.deep_view().take(i as int).map_values(
                    entry_name_fn(),
                ),
            decreases self.entries@.len() - i,
        {
            let ghost old_r = r.deep_view();
            let ghost dv = self.entries.deep_view();
            r.push(self.entries[i].name.clone());
            proof {
                assert(dv[i as int] == self.entries@[i as int]@);
                assert(r.deep_view() =~= old_r.push(dv[i as int].name));
                assert forall|k: int| 0 <= k < i + 1 implies dv.take(i + 1 as int).map_values(
                    entry_name_fn(),
                )[k] == r.deep_view()[k] by {
                    assert(dv.take(i + 1 as int)[k] == dv[k]);
                    if k < i as int {
                        assert(dv.take(i as int)[k] == dv[k]);
                        assert(old_r[k] == dv.take(i as int).map_values(entry_name_fn())[k]);
                    }
                }
                assert(r.deep_view() =~= dv.take(i + 1 as int).map_values(entry_name_fn()));
            }
            i = i + 1;
        }
        proof {
            assert(self.entries.deep_view().take(self.entries.deep_view().len() as int)
                =~= self.entries.deep_view());
        }
        r
    }
}

/// The reporting list is faithful to the mapping: the names it shows are
/// exactly the known command names, and each appears once.
pub proof fn lemma_names_list_the_mapping(t: CommandTable)
    requires
        t.wf(),
    ensures
        forall|n: Seq<char>| #[trigger] t.names_seq().contains(n) <==> t.as_map().contains_key(n),
        t.names_seq().no_duplicates(),
{
    let dv = t.entries.deep_view();
    assert forall|n: Seq<char>| #[trigger] t.names_seq().contains(n) <==> t.as_map().contains_key(
        n,
    ) by {
        lemma_seq_to_map_domain(dv, n);
        if t.names_seq().contains(n) {
            let i = choose|i: int| 0 <= i < t.names_seq().len() && t.names_seq()[i] == n;
            assert(dv[i].name == n);
        }
        if t.as_map().contains_key(n) {
            let i = choose|i: int| 0 <= i < dv.len() && dv[i].name == n;
            assert(t.names_seq()[i] == n);
        }
    }
    assert forall|i: int, j: int|
        0 <= i < t.names_seq().len() && 0 <= j < t.names_seq().len() && i != j implies t.names_seq()[i]
        != t.names_seq()[j] by {
        assert(t.names_seq()[i] == dv[i].name);
        assert(t.names_seq()[j] == dv[j].name);
        if i < j {
            assert(dv[i].name != dv[j].name);
        } else {
            assert(dv[j].name != dv[i].name);
        }
    }
}

/// The origin a directory's entries get: builtin exactly when the directory
/// is the shell's own, compared as path strings.
pub open spec fn spec_dir_origin(dir_path: Seq<char>, builtin_path: Option<Seq<char>>) -> Origin {
    if builtin_path == Some(dir_path) {
        Origin::Builtin
    } else {
        Origin::External
    }
}

/// Whether a directory contributes entries under the chosen origins.
pub open spec fn spec_dir_included(
    dir_path: Seq<char>,
    builtin_path: Option<Seq<char>>,
    include_builtin: bool,
    include_external: bool,
) -> bool {
    if spec_dir_origin(dir_path, builtin_path) == Origin::Builtin {
        include_builtin
    } else {
        include_external
    }
}

/// The table entry a directory entry becomes.
pub open spec fn spec_entry_of(dir_path: Seq<char>, e: FileEntryView, origin: Origin) -> CommandEntryView {
    CommandEntryView {
        name: e.name,
        absolute_path: spec_join_path(dir_path, e.name),
        origin,
    }
}

/// Folding one directory's entries into the mapping, in listed order; only
/// command files (executable non-directories) are taken.
pub open spec fn spec_scan_entries(
    m: Map<Seq<char>, CommandEntryView>,
    dir_path: Seq<char>,
    origin: Origin,
    entries: Seq<FileEntryView>,
) -> Map<Seq<char>, CommandEntryView>
    decreases entries.len(),
{
    if entries.len() == 0 {
        m
    } else {
        let prev = spec_scan_entries(m, dir_path, origin, entries.drop_last());
        let e = entries.last();
        if spec_is_command_file(e.mode) {
            prev.insert(e.name, spec_entry_of(dir_path, e, origin))
        } else {
            prev
        }
    }
}

/// Folding whole directories into the mapping, in scan order.
pub open spec fn spec_scan_dirs(
    m: Map<Seq<char>, CommandEntryView>,
    dirs: Seq<ScannedDirectoryView>,
    builtin_path: Option<Seq<char>>,
    include_builtin: bool,
    include_external: bool,
) -> Map<Seq<char>, CommandEntryView>
    decreases dirs.len(),
{
    if dirs.len() == 0 {
        m
    } else {
        let prev = spec_scan_dirs(
            m,
            dirs.drop_last(),
            builtin_path,
            include_builtin,
            include_external,
        );
        let d = dirs.last();
        if spec_dir_included(d.path, builtin_path, include_builtin, include_external) {
            spec_scan_entries(prev, d.path, spec_dir_origin(d.path, builtin_path), d.entries)
        } else {
            prev
        }
    }
}

/// The mapping a scan of `dirs` produces from nothing.
pub open spec fn spec_build(
    dirs: Seq<ScannedDirectoryView>,
    builtin_path: Option<Seq<char>>,
    include_builtin: bool,
    include_external: bool,
) -> Map<Seq<char>, CommandEntryView> {
    spec_scan_dirs(
        Map::empty(),
        dirs,
        builtin_path,
        include_builtin,
        include_external,
    )
}

impl CommandTable {
    /// Build the table from the scanned directories, in their order. A
    /// directory whose path equals the builtin path contributes `Builtin`
    /// entries, every other one `External` entries; either origin can be
    /// switched off wholesale.
    pub fn build(
        dirs: &Vec<ScannedDirectory>,
        builtin_path: &Option<String>,
        include_builtin: bool,
        include_external: bool,
    ) -> (t: CommandTable)
        ensures
            t.wf(),
            t.as_map() == spec_build(
                dirs.deep_view(),
                builtin_path.deep_view(),
                include_builtin,
                include_external,
            ),
    {
        let ghost bp = builtin_path.deep_view();
        let mut t = CommandTable::empty();
        let mut i: usize = 0;
        proof {
            assert(dirs.deep_view().take(0) =~= Seq::<ScannedDirectoryView>::empty());
        }
        while i < dirs.len()
            invariant
                i <= dirs@.len(),
                dirs.deep_view().len() == dirs@.len(),
                bp == builtin_path.deep_view(),
                t.wf(),
                t.as_map() == spec_scan_dirs(
                    Map::empty(),
                    dirs.deep_view().take(i as int),
                    bp,
                    include_builtin,
                    include_external,
                ),
            decreases dirs@.len() - i,
        {
            let ghost dirs_dv = dirs.deep_view();
            let dir = &dirs[i];
            proof {
                assert(dirs_dv[i as int] == dirs@[i as int]@);
            }
            let is_builtin = match builtin_path {
                Some(b) => str_eq(dir.path.as_str(), b.as_str()),
                None => false,
            };
            proof {
                assert(is_builtin == (spec_dir_origin(dir@.path, bp) == Origin::Builtin));
            }
            let included = if is_builtin {
                include_builtin
            } else {
                include_external
            };
            let ghost m0 = t.as_map();
            if included {
                let origin = if is_builtin {
                    Origin::Builtin
                } else {
                    Origin::External
                };
                proof {
                    assert(origin == spec_dir_origin(dir@.path, bp));
                    assert(dir.entries.deep_view().take(0) =~= Seq::<FileEntryView>::empty());
                }
                let mut j: usize = 0;
                while j < dir.entries.len()
                    invariant
                        j <= dir.entries@.len(),
                        dir.entries.deep_view().len() == dir.entries@.len(),
                        t.wf(),
                        t.as_map() == spec_scan_entries(
                            m0,
                            dir@.path,
                            origin,
                            dir.entries.deep_view().take(j as int),
                        ),
                    decreases dir.entries@.len() - j,
                {
                    let ghost edv = dir.entries.deep_view();
                    let e = &dir.entries[j];
                    proof {
                        assert(edv[j as int] == dir.entries@[j as int]@);
                        assert(edv.take(j + 1 as int).drop_last() =~= edv.take(j as int));
                        assert(edv.take(j + 1 as int).last() == edv[j as int]);
                    }
                    if is_command_file(e.mode) {
                        let ce = CommandEntry {
                            name: e.name.clone(),
                            absolute_path: join_path(dir.path.as_str(), e.name.as_str()),
                            origin,
                        };
                        proof {
                            assert(ce@ == spec_entry_of(dir@.path, e@, origin));
                        }
                        t.insert(ce);
                    }
                    j = j + 1;
                }
                proof {
                    assert(dir.entries.deep_view().take(dir.entries.deep_view().len() as int)
                        =~= dir.entries.deep_view());
                    assert(dirs_dv.take(i + 1 as int).drop_last() =~= dirs_dv.take(i as int));
                    assert(dirs_dv.take(i + 1 as int).last() == dirs_dv[i as int]);
                }
            } else {
                proof {
                    assert(dirs_dv.take(i + 1 as int).drop_last() =~= dirs_dv.take(i as int));
                    assert(dirs_dv.take(i + 1 as int).last() == dirs_dv[i as int]);
                }
            }
            i = i + 1;
        }
        proof {
            assert(dirs.deep_view().take(dirs.deep_view().len() as int) =~= dirs.deep_view());
        }
        t
    }
}

/// Discover every command reachable through the scanned search-path
/// directories, under the chosen origins.
pub fn get_env_path_files(
    dirs: &Vec<ScannedDirectory>,
    builtin_path: &Option<String>,
    builtin: bool,
    external: bool,
) -> (t: CommandTable)
    ensures
        t.wf(),
        t.as_map() == spec_build(dirs.deep_view(), builtin_path.deep_view(), builtin, external),
{
    CommandTable::build(dirs, builtin_path, builtin, external)
}

/// The known command names joined with single spaces, in the table's
/// reporting order; what the help listing prints.
pub fn parse_env_path_commands(path_files: &CommandTable) -> (r: String)
    ensures
        r@ == spec_join(path_files.names_seq(), ' '),
{
    let names = path_files.names();
    join_with(&names, ' ')
}

proof fn lemma_scan_entries_origins(
    m: Map<Seq<char>, CommandEntryView>,
    dir_path: Seq<char>,
    origin: Origin,
    entries: Seq<FileEntryView>,
    name: Seq<char>,
)
    ensures
        ({
            let r = spec_scan_entries(m, dir_path, origin, entries);
            r.contains_key(name) ==> (r[name].origin == origin || (m.contains_key(name) && r[name]
                == m[name]))
        }),
    decreases entries.len(),
{
    if entries.len() == 0 {
    } else {
        lemma_scan_entries_origins(m, dir_path, origin, entries.drop_last(), name);
    }
}

proof fn lemma_scan_dirs_origins(
    m: Map<Seq<char>, CommandEntryView>,
    dirs: Seq<ScannedDirectoryView>,
    builtin_path: Option<Seq<char>>,
    include_builtin: bool,
    include_external: bool,
    name: Seq<char>,
)
    ensures
        ({
            let r = spec_scan_dirs(m, dirs, builtin_path, include_builtin, include_external);
            r.contains_key(name) ==> ((m.contains_key(name) && r[name] == m[name]) || (
            r[name].origin == Origin::Builtin && include_builtin) || (r[name].origin
                == Origin::External && include_external))
        }),
    decreases dirs.len(),
{
    if dirs.len() == 0 {
    } else {
        lemma_scan_dirs_origins(
            m,
            dirs.drop_last(),
            builtin_path,
            include_builtin,
            include_external,
            name,
        );
        let d = dirs.last();
        let prev = spec_scan_dirs(
            m,
            dirs.drop_last(),
            builtin_path,
            include_builtin,
            include_external,
        );
        if spec_dir_included(d.path, builtin_path, include_builtin, include_external) {
            lemma_scan_entries_origins(
                prev,
                d.path,
                spec_dir_origin(d.path, builtin_path),
                d.entries,
                name,
            );
        }
    }
}

/// A table built with an origin switched off holds no entry of that origin:
/// without `include_builtin` nothing is `Builtin`, without `include_external`
/// nothing is `External`.
pub proof fn lemma_excluded_origin_absent(
    dirs: Seq<ScannedDirectoryView>,
    builtin_path: Option<Seq<char>>,
    include_builtin: bool,
    include_external: bool,
    name: Seq<char>,
)
    ensures
        spec_build(dirs, builtin_path, include_builtin, include_external).contains_key(name)
            ==> ({
            let e = spec_build(dirs, builtin_path, include_builtin, include_external)[name];
            &&& (e.origin == Origin::Builtin ==> include_builtin)
            &&& (e.origin == Origin::External ==> include_external)
        }),
{
    lemma_scan_dirs_origins(
        Map::empty(),
        dirs,
        builtin_path,
        include_builtin,
        include_external,
        name,
    );
}

/// Whether a directory's listing offers a command file of this name.
pub open spec fn spec_entries_provide(entries: Seq<FileEntryView>, name: Seq<char>) -> bool {
    exists|i: int|
        0 <= i < entries.len() && entries[i].name == name && spec_is_command_file(entries[i].mode)
}

/// Whether any included directory of the scan offers this name.
pub open spec fn spec_dirs_provide(
    dirs: Seq<ScannedDirectoryView>,
    builtin_path: Option<Seq<char>>,
    include_builtin: bool,
    include_external: bool,
    name: Seq<char>,
) -> bool {
    exists|i: int|
        0 <= i < dirs.len() && spec_dir_included(
            dirs[i].path,
            builtin_path,
            include_builtin,
            include_external,
        ) && spec_entries_provide(dirs[i].entries, name)
}

proof fn lemma_scan_entries_layering(
    m1: Map<Seq<char>, CommandEntryView>,
    m2: Map<Seq<char>, CommandEntryView>,
    dir_path: Seq<char>,
    origin: Origin,
    entries: Seq<FileEntryView>,
    name: Seq<char>,
)
    ensures
        ({
            let r1 = spec_scan_entries(m1, dir_path, origin, entries);
            let r2 = spec_scan_entries(m2, dir_path, origin, entries);
            if spec_entries_provide(entries, name) {
                r1.contains_key(name) && r2.contains_key(name) && r1[name] == r2[name]
            } else {
                &&& (r1.contains_key(name) <==> m1.contains_key(name))
                &&& (m1.contains_key(name) ==> r1[name] == m1[name])
                &&& (r2.contains_key(name) <==> m2.contains_key(name))
                &&& (m2.contains_key(name) ==> r2[name] == m2[name])
            }
        }),
    decreases entries.len(),
{
    if entries.len() == 0 {
    } else {
        lemma_scan_entries_layering(m1, m2, dir_path, origin, entries.drop_last(), name);
        let e = entries.last();
        let prefix = entries.drop_last();
        if spec_is_command_file(e.mode) && e.name == name {
            assert(entries[entries.len() - 1].name == name && spec_is_command_file(
                entries[entries.len() - 1].mode,
            ));
            assert(spec_entries_provide(entries, name));
        } else {
            if spec_entries_provide(entries, name) {
                let i = choose|i: int|
                    0 <= i < entries.len() && entries[i].name == name && spec_is_command_file(
                        entries[i].mode,
                    );
                assert(i < entries.len() - 1);
                assert(prefix[i].name == name && spec_is_command_file(prefix[i].mode));
                assert(spec_entries_provide(prefix, name));
            }
            if spec_entries_provide(prefix, name) {
                let i = choose|i: int|
                    0 <= i < prefix.len() && prefix[i].name == name && spec_is_command_file(
                        prefix[i].mode,
                    );
                assert(entries[i].name == name && spec_is_command_file(entries[i].mode));
                assert(spec_entries_provide(entries, name));
            }
        }
    }
}

proof fn lemma_scan_dirs_layering(
    m1: Map<Seq<char>, CommandEntryView>,
    m2: Map<Seq<char>, CommandEntryView>,
    dirs: Seq<ScannedDirectoryView>,
    builtin_path: Option<Seq<char>>,
    include_builtin: bool,
    include_external: bool,
    name: Seq<char>,
)
    ensures
        ({
            let r1 = spec_scan_dirs(m1, dirs, builtin_path, include_builtin, include_external);
            let r2 = spec_scan_dirs(m2, dirs, builtin_path, include_builtin, include_external);
            if spec_dirs_provide(dirs, builtin_path, include_builtin, include_external, name) {
                r1.contains_key(name) && r2.contains_key(name) && r1[name] == r2[name]
            } else {
                &&& (r1.contains_key(name) <==> m1.contains_key(name))
                &&& (m1.contains_key(name) ==> r1[name] == m1[name])
                &&& (r2.contains_key(name) <==> m2.contains_key(name))
                &&& (m2.contains_key(name) ==> r2[name] == m2[name])
            }
        }),
    decreases dirs.len(),
{
    if dirs.len() == 0 {
    } else {
        lemma_scan_dirs_layering(
            m1,
            m2,
            dirs.drop_last(),
            builtin_path,
            include_builtin,
            include_external,
            name,
        );
        let d = dirs.last();
        let prefix = dirs.drop_last();
        let p1 = spec_scan_dirs(m1, prefix, builtin_path, include_builtin, include_external);
        let p2 = spec_scan_dirs(m2, prefix, builtin_path, include_builtin, include_external);
        let included = spec_dir_included(
            d.path,
            builtin_path,
            include_builtin,
            include_external,
        );
        if included {
            lemma_scan_entries_layering(
                p1,
                p2,
                d.path,
                spec_dir_origin(d.path, builtin_path),
                d.entries,
                name,
            );
        }
        if included && spec_entries_provide(d.entries, name) {
            assert(spec_dir_included(
                dirs[dirs.len() - 1].path,
                builtin_path,
                include_builtin,
                include_external,
            ) && spec_entries_provide(dirs[dirs.len() - 1].entries, name));
            assert(spec_dirs_provide(dirs, builtin_path, include_builtin, include_external, name));
        } else {
            if spec_dirs_provide(dirs, builtin_path, include_builtin, include_external, name) {
                let i = choose|i: int|
                    0 <= i < dirs.len() && spec_dir_included(
                        dirs[i].path,
                        builtin_path,
                        include_builtin,
                        include_external,
                    ) && spec_entries_provide(dirs[i].entries, name);
                assert(i < dirs.len() - 1);
                assert(spec_dir_included(
                    prefix[i].path,
                    builtin_path,
                    include_builtin,
                    include_external,
                ) && spec_entries_provide(prefix[i].entries, name));
                assert(spec_dirs_provide(
                    prefix,
                    builtin_path,
                    include_builtin,
                    include_external,
                    name,
                ));
            }
            if spec_dirs_provide(prefix, builtin_path, include_builtin, include_external, name) {
                let i = choose|i: int|
                    0 <= i < prefix.len() && spec_dir_included(
                        prefix[i].path,
                        builtin_path,
                        include_builtin,
                        include_external,
                    ) && spec_entries_provide(prefix[i].entries, name);
                assert(spec_dir_included(
                    dirs[i].path,
                    builtin_path,
                    include_builtin,
                    include_external,
                ) && spec_entries_provide(dirs[i].entries, name));
                assert(spec_dirs_provide(
                    dirs,
                    builtin_path,
                    include_builtin,
                    include_external,
                    name,
                ));
            }
        }
    }
}

proof fn lemma_scan_dirs_append(
    m: Map<Seq<char>, CommandEntryView>,
    a: Seq<ScannedDirectoryView>,
    b: Seq<ScannedDirectoryView>,
    builtin_path: Option<Seq<char>>,
    include_builtin: bool,
    include_external: bool,
)
    ensures
        spec_scan_dirs(m, a + b, builtin_path, include_builtin, include_external)
            == spec_scan_dirs(
            spec_scan_dirs(m, a, builtin_path, include_builtin, include_external),
            b,
            builtin_path,
            include_builtin,
            include_external,
        ),
    decreases b.len(),
{
    if b.len() == 0 {
        assert(a + b =~= a);
    } else {
        lemma_scan_dirs_append(m, a, b.drop_last(), builtin_path, include_builtin,
            include_external);
        assert((a + b).drop_last() =~= a + b.drop_last());
        assert((a + b).last() == b.last());
    }
}

/// Later-scanned directories win. Whatever a scan of `later` alone records
/// for a name, a scan of `earlier` followed by `later` records the very same
/// entry: a name found in a later-scanned directory shadows any entry of the
/// same name from the earlier-scanned ones.
pub proof fn lemma_later_directories_win(
    earlier: Seq<ScannedDirectoryView>,
    later: Seq<ScannedDirectoryView>,
    builtin_path: Option<Seq<char>>,
    include_builtin: bool,
    include_external: bool,
    name: Seq<char>,
)
    requires
        spec_build(later, builtin_path, include_builtin, include_external).contains_key(name),
    ensures
        spec_build(earlier + later, builtin_path, include_builtin, include_external).contains_key(
            name,
        ),
        spec_build(earlier + later, builtin_path, include_builtin, include_external)[name]
            == spec_build(later, builtin_path, include_builtin, include_external)[name],
{
    lemma_scan_dirs_append(
        Map::empty(),
        earlier,
        later,
        builtin_path,
        include_builtin,
        include_external,
    );
    let m2 = spec_scan_dirs(
        Map::empty(),
        earlier,
        builtin_path,
        include_builtin,
        include_external,
    );
    lemma_scan_dirs_layering(
        Map::empty(),
        m2,
        later,
        builtin_path,
        include_builtin,
        include_external,
        name,
    );
}

} // verus!
