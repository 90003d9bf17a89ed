//! Directory-listing layout: turning one file's details into a row of
//! columns, measuring column widths, and rendering rows into an aligned
//! table. Numeric columns are right-aligned, text columns left-aligned.

use vstd::prelude::*;
use crate::args::Flags;
use crate::filemode::get_mode;
use crate::filemode::spec_mode_string;
use crate::text::get_is_hidden;
use crate::text::push_char;
use crate::text::str_eq;

verus! {

/// The decimal digits of `n`, most significant first.
pub open spec fn spec_digit_char(d: int) -> char {
    if d == 0 {
        '0'
    } else if d == 1 {
        '1'
    } else if d == 2 {
        '2'
    } else if d == 3 {
        '3'
    } else if d == 4 {
        '4'
    } else if d == 5 {
        '5'
    } else if d == 6 {
        '6'
    } else if d == 7 {
        '7'
    } else if d == 8 {
        '8'
    } else {
        '9'
    }
}

pub open spec fn spec_u64_string(n: nat) -> Seq<char>
    decreases n,
{
    if n < 10 {
        seq![spec_digit_char(n as int)]
    } else {
        spec_u64_string(n / 10).push(spec_digit_char((n % 10) as int))
    }
}

fn decimal_digit_char(d: u64) -> (c: char)
    requires
        d < 10,
    ensures
        c == spec_digit_char(d as int),
{
    if d == 0 {
        '0'
    } else if d == 1 {
        '1'
    } else if d == 2 {
        '2'
    } else if d == 3 {
        '3'
    } else if d == 4 {
        '4'
    } else if d == 5 {
        '5'
    } else if d == 6 {
        '6'
    } else if d == 7 {
        '7'
    } else if d == 8 {
        '8'
    } else {
        '9'
    }
}

fn push_u64_decimal(s: &mut String, n: u64)
    ensures
        final(s)@ == old(s)@ + spec_u64_string(n as nat),
    decreases n,
{
    if n < 10 {
        push_char(s, decimal_digit_char(n));
        proof {
            assert(old(s)@.push(spec_digit_char(n as int)) =~= old(s)@ + spec_u64_string(n as nat));
        }
    } else {
        push_u64_decimal(s, n / 10);
        let ghost mid = s@;
        push_char(s, decimal_digit_char(n % 10));
        proof {
            assert(mid.push(spec_digit_char((n % 10) as int)) =~= old(s)@ + spec_u64_string(
                n as nat,
            ));
        }
    }
}

/// The decimal digits of the value, most significant first.
fn u64_to_string(n: u64) -> (r: String)
    ensures
        r@ == spec_u64_string(n as nat),
{
    let mut s = String::new();
    push_u64_decimal(&mut s, n);
    proof {
        assert(Seq::<char>::empty() + spec_u64_string(n as nat) =~= spec_u64_string(n as nat));
    }
    s
}

/// The one-character suffix an extended-attribute name earns in a long
/// listing: `+` for POSIX ACLs, `.` for SELinux labels, nothing otherwise.
pub open spec fn spec_xattr_suffix(attr: Seq<char>) -> Seq<char> {
    if attr == "system.posix_acl_access"@ || attr == "system.posix_acl_default"@ {
        "+"@
    } else if attr == "security.selinux"@ {
        "."@
    } else {
        Seq::<char>::empty()
    }
}

pub fn xattr_suffix(attr: &str) -> (r: String)
    ensures
        r@ == spec_xattr_suffix(attr@),
{
    if str_eq(attr, "system.posix_acl_access") || str_eq(attr, "system.posix_acl_default") {
        String::from_str("+")
    } else if str_eq(attr, "security.selinux") {
        String::from_str(".")
    } else {
        String::new()
    }
}

/// One file's details, as plain values: whatever the operating system could
/// not provide stays absent rather than defaulted, and the row is dropped.
pub struct FileInfo {
    pub name: String,
    pub path: String,
    pub mode: u32,
    pub nlink: u64,
    pub size: u64,
    pub user: Option<String>,
    pub group: Option<String>,
    pub time: Option<String>,
    pub xattr: Option<String>,
}

pub ghost struct FileInfoView {
    pub name: Seq<char>,
    pub path: Seq<char>,
    pub mode: u32,
    pub nlink: u64,
    pub size: u64,
    pub user: Option<Seq<char>>,
    pub group: Option<Seq<char>>,
    pub time: Option<Seq<char>>,
    pub xattr: Option<Seq<char>>,
}

impl View for FileInfo {
    type V = FileInfoView;

    open spec fn view(&self) -> FileInfoView {
        FileInfoView {
            name: self.name@,
            path: self.path@,
            mode: self.mode,
            nlink: self.nlink,
            size: self.size,
            user: self.user.deep_view(),
            group: self.group.deep_view(),
            time: self.time.deep_view(),
            xattr: self.xattr.deep_view(),
        }
    }
}

impl DeepView for FileInfo {
    type V = FileInfoView;

    open spec fn deep_view(&self) -> FileInfoView {
        self@
    }
}

/// The row a file contributes: none when the file is hidden and hidden files
/// are not wanted, or when any needed detail is absent; otherwise the bare
/// name or full path alone, or the eight long-format columns.
pub open spec fn spec_file_row(f: FileInfoView, all: bool, long: bool, full_path: bool) -> Option<
    Seq<Seq<char>>,
> {
    if !all && f.name.len() > 0 && f.name[0] == '.' {
        None
    } else if f.user is None || f.group is None || f.time is None || f.xattr is None {
        None
    } else {
        let display = if full_path {
            f.path
        } else {
            f.name
        };
        if long {
            Some(
                seq![
                    spec_mode_string(f.mode),
                    spec_xattr_suffix(f.xattr->0),
                    spec_u64_string(f.nlink as nat),
                    f.user->0,
                    f.group->0,
                    spec_u64_string(f.size as nat),
                    f.time->0,
                    display,
                ],
            )
        } else {
            Some(seq![display])
        }
    }
}

pub fn format_file_row(info: &FileInfo, flags: &Flags) -> (r: Option<Vec<String>>)
    ensures
        r.deep_view() == spec_file_row(info@, flags.all, flags.long, flags.full_path),
{
    let hidden = get_is_hidden(info.name.as_str());
    if !flags.all && hidden {
        return None;
    }
    let user = match &info.user {
        Some(u) => u,
        None => {
            return None;
        },
    };
    let group = match &info.group {
        Some(g) => g,
        None => {
            return None;
        },
    };
    let time = match &info.time {
        Some(t) => t,
        None => {
            return None;
        },
    };
    let xattr = match &info.xattr {
        Some(x) => x,
        None => {
            return None;
        },
    };
    let display = if flags.full_path {
        info.path.clone()
    } else {
        info.name.clone()
    };
    if flags.long {
        let mut row: Vec<String> = Vec::new();
        row.push(get_mode(info.mode));
        row.push(xattr_suffix(xattr.as_str()));
        row.push(u64_to_string(info.nlink));
        row.push(user.clone());
        row.push(group.clone());
        row.push(u64_to_string(info.size));
        row.push(time.clone());
        row.push(display);
        let r = Some(row);
        proof {
            assert(r.deep_view() matches Some(v) && v =~= spec_file_row(
                info@,
                flags.all,
                flags.long,
                flags.full_path,
            )->0);
        }
        r
    } else {
        let mut row: Vec<String> = Vec::new();
        row.push(display);
        let r = Some(row);
        proof {
            assert(r.deep_view() matches Some(v) && v =~= spec_file_row(
                info@,
                flags.all,
                flags.long,
                flags.full_path,
            )->0);
        }
        r
    }
}

/// The width of a column: the longest cell that any row shows in it.
pub open spec fn spec_cell_width(rows: Seq<Seq<Seq<char>>>, c: int) -> nat
    decreases rows.len(),
{
    if rows.len() == 0 {
        0
    } else {
        let w = spec_cell_width(rows.drop_last(), c);
        let last = rows.last();
        let lw: nat = if 0 <= c < last.len() {
            last[c].len()
        } else {
            0
        };
        if lw > w {
            lw
        } else {
            w
        }
    }
}

pub proof fn lemma_cell_width_bound(rows: Seq<Seq<Seq<char>>>, k: int, c: int)
    requires
        0 <= k < rows.len(),
        0 <= c < rows[k].len(),
    ensures
        rows[k][c].len() <= spec_cell_width(rows, c),
    decreases rows.len(),
{
    if k == rows.len() - 1 {
    } else {
        assert(rows.drop_last()[k] == rows[k]);
        lemma_cell_width_bound(rows.drop_last(), k, c);
    }
}

/// The per-column widths of a table: one width for each column of the first
/// row, each the longest cell shown in that column by any row.
pub fn find_column_widths(rows: &Vec<Vec<String>>) -> (r: Option<Vec<usize>>)
    requires
        forall|k: int|
            0 <= k < rows.deep_view().len() ==> #[trigger] rows.deep_view()[k].len()
                <= rows.deep_view()[0].len(),
    ensures
        match r {
            Some(w) => rows.deep_view().len() > 0 && w@.len() == rows.deep_view()[0].len()
                && forall|c: int|
                0 <= c < w@.len() ==> w@[c] == spec_cell_width(rows.deep_view(), c),
            None => rows.deep_view().len() == 0,
        },
{
    let ghost dv = rows.deep_view();
    if rows.len() == 0 {
        return None;
    }
    let column_amount = rows[0].len();
    proof {
        assert(dv[0] == rows@[0].deep_view());
        assert(dv[0].len() == rows@[0]@.len());
    }
    let mut widths: Vec<usize> = Vec::new();
    while widths.len() < column_amount
        invariant
            widths@.len() <= column_amount,
            forall|c: int| 0 <= c < widths@.len() ==> widths@[c] == 0,
        decreases column_amount - widths@.len(),
    {
        widths.push(0);
    }
    let mut k: usize = 0;
    proof {
        assert(dv.take(0) =~= Seq::<Seq<Seq<char>>>::empty());
        assert forall|c: int| 0 <= c < column_amount implies widths@[c] == spec_cell_width(
            dv.take(0),
            c,
        ) by {}
    }
    while k < rows.len()
        invariant
            k <= rows@.len(),
            dv == rows.deep_view(),
            dv.len() == rows@.len(),
            forall|kk: int| 0 <= kk < dv.len() ==> #[trigger] dv[kk].len() <= dv[0].len(),
            dv.len() > 0,
            column_amount == dv[0].len(),
            widths@.len() == column_amount,
            forall|c: int|
                0 <= c < column_amount ==> widths@[c] == spec_cell_width(dv.take(k as int), c),
        decreases rows@.len() - k,
    {
        let row = &rows[k];
        proof {
            assert(dv[k as int] == rows@[k as int].deep_view());
            assert(dv[k as int].len() == row@.len());
            assert(dv[k as int].len() <= dv[0].len());
        }
        let mut c: usize = 0;
        while c < row.len()
            invariant
                c <= row@.len(),
                dv == rows.deep_view(),
                dv.len() == rows@.len(),
                k < rows@.len(),
                dv[k as int] == row.deep_view(),
                dv[k as int].len() == row@.len(),
                row@.len() <= column_amount,
                column_amount == dv[0].len(),
                widths@.len() == column_amount,
                forall|cc: int|
                    c <= cc < column_amount ==> widths@[cc] == spec_cell_width(
                        dv.take(k as int),
                        cc,
                    ),
                forall|cc: int|
                    0 <= cc < c ==> widths@[cc] == spec_cell_width(dv.take(k + 1 as int), cc),
            decreases row@.len() - c,
        {
            let item_len = row[c].as_str().unicode_len();
            proof {
                assert(dv[k as int][c as int] == row@[c as int]@);
                assert(dv.take(k + 1 as int).drop_last() =~= dv.take(k as int));
                assert(dv.take(k + 1 as int).last() == dv[k as int]);
            }
            if item_len > widths[c] {
                widths[c] = item_len;
            }
            proof {
                assert(widths@[c as int] == spec_cell_width(dv.take(k + 1 as int), c as int));
            }
            c = c + 1;
        }
        proof {
            assert forall|cc: int| 0 <= cc < column_amount implies widths@[cc] == spec_cell_width(
                dv.take(k + 1 as int),
                cc,
            ) by {
                if cc >= row@.len() {
                    assert(dv.take(k + 1 as int).drop_last() =~= dv.take(k as int));
                    assert(dv.take(k + 1 as int).last() == dv[k as int]);
                    assert(!(0 <= cc < dv[k as int].len()));
                }
            }
        }
        k = k + 1;
    }
    proof {
        assert(dv.take(dv.len() as int) =~= dv);
    }
    Some(widths)
}

pub open spec fn spec_spaces(n: nat) -> Seq<char> {
    Seq::new(n, |i: int| ' ')
}

pub open spec fn spec_is_ascii_digit(c: char) -> bool {
    48 <= c as u32 <= 57
}

/// A cell padded to its column's width: right-aligned when it starts with a
/// digit, left-aligned otherwise.
pub open spec fn spec_pad_cell(item: Seq<char>, width: int) -> Seq<char> {
    if item.len() >= width {
        item
    } else if item.len() > 0 && spec_is_ascii_digit(item[0]) {
        spec_spaces((width - item.len()) as nat) + item
    } else {
        item + spec_spaces((width - item.len()) as nat)
    }
}

/// The first `c` cells of row `k`, rendered: each padded, and followed by
/// one space unless it is the first or the last cell of the row.
pub open spec fn spec_row_prefix(rows: Seq<Seq<Seq<char>>>, k: int, c: int) -> Seq<char>
    decreases c,
{
    if c <= 0 {
        Seq::empty()
    } else {
        let cell = spec_pad_cell(rows[k][c - 1], spec_cell_width(rows, c - 1) as int);
        let sep: Seq<char> = if c - 1 != 0 && c - 1 != rows[k].len() - 1 {
            seq![' ']
        } else {
            Seq::empty()
        };
        spec_row_prefix(rows, k, c - 1) + cell + sep
    }
}

pub open spec fn spec_row_rendered(rows: Seq<Seq<Seq<char>>>, k: int) -> Seq<char> {
    spec_row_prefix(rows, k, rows[k].len() as int)
}

/// The first `k` rows, rendered and joined with newlines.
pub open spec fn spec_table_prefix(rows: Seq<Seq<Seq<char>>>, k: int) -> Seq<char>
    decreases k,
{
    if k <= 0 {
        Seq::empty()
    } else if k == 1 {
        spec_row_rendered(rows, 0)
    } else {
        spec_table_prefix(rows, k - 1) + seq!['\n'] + spec_row_rendered(rows, k - 1)
    }
}

pub open spec fn spec_table(rows: Seq<Seq<Seq<char>>>) -> Seq<char> {
    spec_table_prefix(rows, rows.len() as int)
}

pub open spec fn spec_has_empty_cell(rows: Seq<Seq<Seq<char>>>) -> bool {
    exists|k: int, c: int|
        0 <= k < rows.len() && 0 <= c < rows[k].len() && rows[k][c].len() == 0
}

fn append_padded(table: &mut String, item: &str, width: usize)
    requires
        item@.len() <= width,
        item@.len() > 0,
    ensures
        final(table)@ == old(table)@ + spec_pad_cell(item@, width as int),
{
    let item_len = item.unicode_len();
    let pad = width - item_len;
    let first = item.get_char(0);
    let digit = (first as u32) >= 48 && (first as u32) <= 57;
    if digit && pad > 0 {
        let ghost base = table@;
        let mut p: usize = 0;
        proof {
            assert(spec_spaces(0) =~= Seq::<char>::empty());
            assert(table@ =~= base + spec_spaces(0));
        }
        while p < pad
            invariant
                p <= pad,
                table@ == base + spec_spaces(p as nat),
            decreases pad - p,
        {
            push_char(table, ' ');
            proof {
                assert(spec_spaces((p + 1) as nat) =~= spec_spaces(p as nat).push(' '));
                assert(table@ =~= base + spec_spaces((p + 1) as nat));
            }
            p = p + 1;
        }
        table.append(item);
        proof {
            assert(table@ =~= base + spec_pad_cell(item@, width as int));
        }
    } else {
        let ghost base = table@;
        table.append(item);
        let ghost mid = table@;
        let mut p: usize = 0;
        proof {
            assert(spec_spaces(0) =~= Seq::<char>::empty());
            assert(table@ =~= mid + spec_spaces(0));
        }
        while p < pad
            invariant
                p <= pad,
                table@ == mid + spec_spaces(p as nat),
            decreases pad - p,
        {
            push_char(table, ' ');
            proof {
                assert(spec_spaces((p + 1) as nat) =~= spec_spaces(p as nat).push(' '));
                assert(table@ =~= mid + spec_spaces((p + 1) as nat));
            }
            p = p + 1;
        }
        proof {
            if pad == 0 {
                assert(table@ =~= base + spec_pad_cell(item@, width as int));
            } else {
                assert(table@ =~= base + spec_pad_cell(item@, width as int));
            }
        }
    }
}

/// Render the rows as an aligned table: rows joined by newlines, each cell
/// padded to its column's width, with one space between cells except after
/// the first column. No table exists for an empty row list, nor when a cell
/// is empty.
pub fn format_table(rows: &Vec<Vec<String>>) -> (r: Option<String>)
    requires
        forall|k: int|
            0 <= k < rows.deep_view().len() ==> #[trigger] rows.deep_view()[k].len()
                <= rows.deep_view()[0].len(),
    ensures
        match r {
            Some(t) => rows.deep_view().len() > 0 && !spec_has_empty_cell(rows.deep_view()) && t@
                == spec_table(rows.deep_view()),
            None => rows.deep_view().len() == 0 || spec_has_empty_cell(rows.deep_view()),
        },
{
    let ghost dv = rows.deep_view();
    let widths = match find_column_widths(rows) {
        Some(w) => w,
        None => {
            return None;
        },
    };
    let mut table = String::new();
    let mut k: usize = 0;
    proof {
        assert(table@ =~= spec_table_prefix(dv, 0));
    }
    while k < rows.len()
        invariant
            k <= rows@.len(),
            dv == rows.deep_view(),
            dv.len() == rows@.len(),
            dv.len() > 0,
            forall|kk: int| 0 <= kk < dv.len() ==> #[trigger] dv[kk].len() <= dv[0].len(),
            widths@.len() == dv[0].len(),
            forall|c: int| 0 <= c < widths@.len() ==> widths@[c] == spec_cell_width(dv, c),
            table@ == spec_table_prefix(dv, k as int),
            forall|kk: int, cc: int|
                0 <= kk < k && 0 <= cc < dv[kk].len() ==> dv[kk][cc].len() > 0,
        decreases rows@.len() - k,
    {
        let row = &rows[k];
        proof {
            assert(dv[k as int] == row.deep_view());
            assert(dv[k as int].len() == row@.len());
            assert(dv[k as int].len() <= dv[0].len());
        }
        if k != 0 {
            push_char(&mut table, '\n');
        }
        let ghost row_start = table@;
        let mut c: usize = 0;
        proof {
            assert(table@ =~= row_start + spec_row_prefix(dv, k as int, 0));
        }
        while c < row.len()
            invariant
                c <= row@.len(),
                dv == rows.deep_view(),
                dv.len() == rows@.len(),
                k < rows@.len(),
                dv[k as int] == row.deep_view(),
                dv[k as int].len() == row@.len(),
                row@.len() <= dv[0].len(),
                widths@.len() == dv[0].len(),
                forall|cc: int| 0 <= cc < widths@.len() ==> widths@[cc] == spec_cell_width(dv, cc),
                table@ == row_start + spec_row_prefix(dv, k as int, c as int),
                forall|cc: int| 0 <= cc < c ==> dv[k as int][cc].len() > 0,
            decreases row@.len() - c,
        {
            let item = &row[c];
            let item_len = item.as_str().unicode_len();
            proof {
                assert(dv[k as int][c as int] == row@[c as int]@);
            }
            if item_len == 0 {
                proof {
                    assert(dv[k as int][c as int].len() == 0);
                    assert(spec_has_empty_cell(dv));
                }
                return None;
            }
            proof {
                lemma_cell_width_bound(dv, k as int, c as int);
            }
            let ghost before_cell = table@;
            append_padded(&mut table, item.as_str(), widths[c]);
            if c != 0 && c + 1 != row.len() {
                push_char(&mut table, ' ');
            }
            proof {
                let sep: Seq<char> = if c as int != 0 && c as int != dv[k as int].len() - 1 {
                    seq![' ']
                } else {
                    Seq::<char>::empty()
                };
                assert(table@ =~= before_cell + spec_pad_cell(
                    dv[k as int][c as int],
                    spec_cell_width(dv, c as int) as int,
                ) + sep);
                assert(table@ =~= row_start + spec_row_prefix(dv, k as int, c + 1 as int));
            }
            c = c + 1;
        }
        proof {
            assert(table@ =~= spec_table_prefix(dv, k + 1 as int));
        }
        k = k + 1;
    }
    proof {
        if spec_has_empty_cell(dv) {
            let (k0, c0): (int, int) = choose|k0: int, c0: int|
                0 <= k0 < dv.len() && 0 <= c0 < dv[k0].len() && dv[k0][c0].len() == 0;
            assert(dv[k0][c0].len() > 0);
        }
    }
    Some(table)
}

/// The rows a directory listing shows, in file order, files without a row
/// dropped.
pub open spec fn spec_listing_rows(
    files: Seq<FileInfoView>,
    all: bool,
    long: bool,
    full_path: bool,
) -> Seq<Seq<Seq<char>>>
    decreases files.len(),
{
    if files.len() == 0 {
        Seq::empty()
    } else {
        let prev = spec_listing_rows(files.drop_last(), all, long, full_path);
        match spec_file_row(files.last(), all, long, full_path) {
            Some(row) => prev.push(row),
            None => prev,
        }
    }
}

proof fn lemma_listing_rows_uniform(
    files: Seq<FileInfoView>,
    all: bool,
    long: bool,
    full_path: bool,
)
    ensures
        forall|k: int|
            0 <= k < spec_listing_rows(files, all, long, full_path).len()
                ==> #[trigger] spec_listing_rows(files, all, long, full_path)[k].len() == (
            if long {
                8nat
            } else {
                1nat
            }),
    decreases files.len(),
{
    if files.len() == 0 {
    } else {
        lemma_listing_rows_uniform(files.drop_last(), all, long, full_path);
        let prev = spec_listing_rows(files.drop_last(), all, long, full_path);
        let rows = spec_listing_rows(files, all, long, full_path);
        match spec_file_row(files.last(), all, long, full_path) {
            Some(row) => {
                assert(rows == prev.push(row));
                assert(row.len() == (if long {
                    8nat
                } else {
                    1nat
                }));
                assert forall|k: int| 0 <= k < rows.len() implies rows[k].len() == (
                if long {
                    8nat
                } else {
                    1nat
                }) by {
                    if k < prev.len() {
                        assert(rows[k] == prev[k]);
                    }
                }
            },
            None => {},
        }
    }
}

/// One directory's listing: the rows its files contribute, rendered as an
/// aligned table; empty when nothing contributes a row.
pub fn render_directory_listing(files: &Vec<FileInfo>, flags: &Flags) -> (r: String)
    ensures
        ({
            let rows = spec_listing_rows(files.deep_view(), flags.all, flags.long, flags.full_path);
            if rows.len() == 0 || spec_has_empty_cell(rows) {
                r@ == Seq::<char>::empty()
            } else {
                r@ == spec_table(rows)
            }
        }),
{
    let ghost fdv = files.deep_view();
    let mut rows: Vec<Vec<String>> = Vec::new();
    let mut i: usize = 0;
    proof {
        assert(fdv.take(0) =~= Seq::<FileInfoView>::empty());
        assert(rows.deep_view() =~= spec_listing_rows(
            fdv.take(0),
            flags.all,
            flags.long,
            flags.full_path,
        ));
    }
    while i < files.len()
        invariant
            i <= files@.len(),
            fdv == files.deep_view(),
            fdv.len() == files@.len(),
            rows.deep_view() == spec_listing_rows(
                fdv.take(i as int),
                flags.all,
                flags.long,
                flags.full_path,
            ),
        decreases files@.len() - i,
    {
        let ghost old_rows = rows.deep_view();
        proof {
            assert(fdv[i as int] == files@[i as int]@);
            assert(fdv.take(i + 1 as int).drop_last() =~= fdv.take(i as int));
            assert(fdv.take(i + 1 as int).last() == fdv[i as int]);
        }
        match format_file_row(&files[i], flags) {
            Some(row) => {
                rows.push(row);
                proof {
                    assert(rows.deep_view() =~= old_rows.push(rows@[rows@.len() - 1].deep_view()));
                }
            },
            None => {},
        }
        i = i + 1;
    }
    proof {
        assert(fdv.take(fdv.len() as int) =~= fdv);
        lemma_listing_rows_uniform(fdv, flags.all, flags.long, flags.full_path);
    }
    match format_table(&rows) {
        Some(t) => t,
        None => String::new(),
    }
}

pub open spec fn unwrap_listing_fn() -> spec_fn(Option<Seq<char>>) -> Seq<char> {
    |o: Option<Seq<char>>|
        if o is Some {
            o->0
        } else {
            Seq::<char>::empty()
        }
}

/// Join per-directory listings with newlines; the whole join exists only
/// when every directory produced a listing.
pub fn join_listings(listings: &Vec<Option<String>>) -> (r: Option<String>)
    ensures
        match r {
            Some(t) => (forall|k: int|
                0 <= k < listings.deep_view().len() ==> listings.deep_view()[k] is Some) && t@
                == crate::split::spec_join(
                listings.deep_view().map_values(unwrap_listing_fn()),
                '\n',
            ),
            None => exists|k: int|
                0 <= k < listings.deep_view().len() && listings.deep_view()[k] is None,
        },
{
    let ghost dv = listings.deep_view();
    let mut parts: Vec<String> = Vec::new();
    let mut i: usize = 0;
    proof {
        assert(parts.deep_view() =~= dv.take(0).map_values(unwrap_listing_fn()));
    }
    while i < listings.len()
        invariant
            i <= listings@.len(),
            dv == listings.deep_view(),
            dv.len() == listings@.len(),
            parts.deep_view() == dv.take(i as int).map_values(unwrap_listing_fn()),
            forall|k: int| 0 <= k < i ==> dv[k] is Some,
        decreases listings@.len() - i,
    {
        let ghost old_parts = parts.deep_view();
        proof {
            assert(dv[i as int] == listings@[i as int].deep_view());
        }
        match &listings[i] {
            Some(s) => {
                parts.push(s.clone());
                proof {
                    assert(parts.deep_view() =~= old_parts.push(s@));
                    assert(unwrap_listing_fn()(dv[i as int]) == s@);
                    assert(parts.deep_view() =~= dv.take(i + 1 as int).map_values(
                        unwrap_listing_fn(),
                    ));
                }
            },
            None => {
                proof {
                    assert(dv[i as int] is None);
                }
                return None;
            },
        }
        i = i + 1;
    }
    proof {
        assert(dv.take(dv.len() as int) =~= dv);
    }
    Some(crate::split::join_with(&parts, '\n'))
}

} // verus!
