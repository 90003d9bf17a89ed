//! Splitting text into pieces: whitespace-separated tokens of a command line,
//! colon-separated segments of a search-path value, and newline-separated
//! lines of a file.
//!
//! Tokens and path segments drop empty pieces (runs of separators count as
//! one); lines keep them (every newline ends a line).

use vstd::prelude::*;
use crate::text::push_char;

verus! {

/// ASCII whitespace: space, tab, line feed, carriage return, form feed.
pub open spec fn is_ascii_space(c: char) -> bool {
    c == ' ' || c == '\t' || c == '\n' || c == '\r' || c == '\x0c'
}

pub open spec fn space_separator() -> spec_fn(char) -> bool {
    |c: char| is_ascii_space(c)
}

pub open spec fn colon_separator() -> spec_fn(char) -> bool {
    |c: char| c == ':'
}

pub open spec fn newline_separator() -> spec_fn(char) -> bool {
    |c: char| c == '\n'
}

/// Length of the longest separator-free prefix.
pub open spec fn token_len(s: Seq<char>, sep: spec_fn(char) -> bool) -> nat
    decreases s.len(),
{
    if s.len() == 0 || sep(s[0]) {
        0
    } else {
        1 + token_len(s.skip(1), sep)
    }
}

/// The maximal separator-free runs of `s`, in order; empty runs are dropped.
pub open spec fn spec_split(s: Seq<char>, sep: spec_fn(char) -> bool) -> Seq<Seq<char>>
    decreases s.len(),
{
    if s.len() == 0 {
        Seq::empty()
    } else if sep(s[0]) {
        spec_split(s.skip(1), sep)
    } else if token_len(s, sep) < s.len() {
        seq![s.take(token_len(s, sep) as int)] + spec_split(s.skip(token_len(s, sep) as int), sep)
    } else {
        seq![s]
    }
}

/// The pieces of `s` when splitting begins with the unfinished piece `cur`
/// already read; the shape a splitting loop's invariant takes.
pub open spec fn spec_split_partial(cur: Seq<char>, rest: Seq<char>, sep: spec_fn(char) -> bool) -> Seq<
    Seq<char>,
> {
    if cur.len() == 0 {
        spec_split(rest, sep)
    } else {
        seq![cur + rest.take(token_len(rest, sep) as int)] + spec_split(
            rest.skip(token_len(rest, sep) as int),
            sep,
        )
    }
}

/// Whitespace-separated tokens of a command line.
pub open spec fn spec_tokens(s: Seq<char>) -> Seq<Seq<char>> {
    spec_split(s, space_separator())
}

/// Colon-separated directory names of a search-path value, empty names dropped.
pub open spec fn spec_path_segments(s: Seq<char>) -> Seq<Seq<char>> {
    spec_split(s, colon_separator())
}

pub proof fn lemma_token_len_le(s: Seq<char>, sep: spec_fn(char) -> bool)
    ensures
        token_len(s, sep) <= s.len(),
    decreases s.len(),
{
    if s.len() == 0 || sep(s[0]) {
    } else {
        lemma_token_len_le(s.skip(1), sep);
    }
}

/// When `s` starts with a non-separator, splitting takes off the first token.
pub proof fn lemma_split_unfold_token(s: Seq<char>, sep: spec_fn(char) -> bool)
    requires
        s.len() > 0,
        !sep(s[0]),
    ensures
        spec_split(s, sep) == seq![s.take(token_len(s, sep) as int)] + spec_split(
            s.skip(token_len(s, sep) as int),
            sep,
        ),
{
    lemma_token_len_le(s, sep);
    let tl = token_len(s, sep) as int;
    if tl < s.len() {
    } else {
        assert(s.take(tl) =~= s);
        assert(s.skip(tl) =~= Seq::<char>::empty());
        assert(spec_split(s.skip(tl), sep) =~= Seq::<Seq<char>>::empty());
        assert(seq![s.take(tl)] + spec_split(s.skip(tl), sep) =~= seq![s]);
    }
}

/// How the partial-split shape changes when one more character is read.
pub proof fn lemma_split_partial_advance(cur: Seq<char>, rest: Seq<char>, sep: spec_fn(char) -> bool)
    requires
        rest.len() > 0,
    ensures
        sep(rest[0]) && cur.len() == 0 ==> spec_split_partial(cur, rest, sep)
            == spec_split_partial(cur, rest.skip(1), sep),
        sep(rest[0]) && cur.len() > 0 ==> spec_split_partial(cur, rest, sep) == seq![cur]
            + spec_split_partial(Seq::<char>::empty(), rest.skip(1), sep),
        !sep(rest[0]) ==> spec_split_partial(cur, rest, sep) == spec_split_partial(
            cur.push(rest[0]),
            rest.skip(1),
            sep,
        ),
{
    lemma_token_len_le(rest, sep);
    let rest1 = rest.skip(1);
    if sep(rest[0]) {
        if cur.len() > 0 {
            assert(token_len(rest, sep) == 0);
            assert(cur + rest.take(0) =~= cur);
            assert(rest.skip(0) =~= rest);
            assert(spec_split_partial(cur, rest, sep) =~= seq![cur] + spec_split(rest, sep));
            assert(spec_split_partial(Seq::<char>::empty(), rest1, sep) == spec_split(rest1, sep));
        }
    } else {
        let c = rest[0];
        let tl = token_len(rest, sep) as int;
        assert(token_len(rest, sep) == 1 + token_len(rest1, sep));
        let tl1 = token_len(rest1, sep) as int;
        lemma_token_len_le(rest1, sep);
        assert(cur.push(c) + rest1.take(tl1) =~= cur + rest.take(tl));
        assert(rest1.skip(tl1) =~= rest.skip(tl));
        if cur.len() == 0 {
            lemma_split_unfold_token(rest, sep);
            assert(cur + rest.take(tl) =~= rest.take(tl));
            assert(cur.push(c) =~= Seq::<char>::empty().push(c));
            assert(spec_split_partial(cur, rest, sep) == spec_split(rest, sep));
            assert(spec_split_partial(cur.push(c), rest1, sep) =~= spec_split_partial(
                cur,
                rest,
                sep,
            ));
        } else {
            assert(spec_split_partial(cur.push(c), rest1, sep) =~= spec_split_partial(
                cur,
                rest,
                sep,
            ));
        }
    }
}

fn is_space_char(c: char) -> (r: bool)
    ensures
        r == is_ascii_space(c),
{
    c == ' ' || c == '\t' || c == '\n' || c == '\r' || c == '\x0c'
}

/// Split a command line on runs of ASCII whitespace, dropping empty pieces.
pub fn tokenize(line: &str) -> (r: Vec<String>)
    ensures
        r.deep_view() == spec_tokens(line@),
{
    let n = line.unicode_len();
    let mut out: Vec<String> = Vec::new();
    let mut cur = String::new();
    let mut i: usize = 0;
    proof {
        assert(line@.skip(0) =~= line@);
        assert(out.deep_view() =~= Seq::<Seq<char>>::empty());
        assert(Seq::<Seq<char>>::empty() + spec_tokens(line@) =~= spec_tokens(line@));
    }
    while i < n
        invariant
            n == line@.len(),
            i <= n,
            spec_tokens(line@) == out.deep_view() + spec_split_partial(
                cur@,
                line@.skip(i as int),
                space_separator(),
            ),
        decreases n - i,
    {
        let c = line.get_char(i);
        proof {
            lemma_split_partial_advance(cur@, line@.skip(i as int), space_separator());
            assert(line@.skip(i as int)[0] == line@[i as int]);
            assert(line@.skip(i as int).skip(1) =~= line@.skip(i + 1 as int));
            assert(space_separator()(c) == is_ascii_space(c));
        }
        if is_space_char(c) {
            if !cur.as_str().is_empty() {
                let ghost old_out = out.deep_view();
                let ghost finished = cur@;
                out.push(cur);
                cur = String::new();
                proof {
                    assert(out.deep_view() =~= old_out.push(finished));
                    assert(old_out.push(finished) =~= old_out + seq![finished]);
                }
            }
        } else {
            push_char(&mut cur, c);
        }
        i = i + 1;
    }
    proof {
        assert(line@.skip(n as int) =~= Seq::<char>::empty());
        assert(token_len(Seq::<char>::empty(), space_separator()) == 0);
        assert(spec_split(Seq::<char>::empty(), space_separator()) =~= Seq::<Seq<char>>::empty());
    }
    if !cur.as_str().is_empty() {
        let ghost old_out = out.deep_view();
        let ghost finished = cur@;
        proof {
            assert(cur@ + Seq::<char>::empty().take(0) =~= cur@);
            assert(spec_split_partial(cur@, Seq::<char>::empty(), space_separator()) =~= seq![cur@]);
        }
        out.push(cur);
        proof {
            assert(out.deep_view() =~= old_out.push(finished));
            assert(old_out + seq![finished] =~= old_out.push(finished));
        }
    } else {
        proof {
            assert(out.deep_view() + Seq::<Seq<char>>::empty() =~= out.deep_view());
        }
    }
    out
}

/// Split a search-path value on colons, dropping empty segments.
pub fn split_path_list(value: &str) -> (r: Vec<String>)
    ensures
        r.deep_view() == spec_path_segments(value@),
{
    let n = value.unicode_len();
    let mut out: Vec<String> = Vec::new();
    let mut cur = String::new();
    let mut i: usize = 0;
    proof {
        assert(value@.skip(0) =~= value@);
        assert(out.deep_view() =~= Seq::<Seq<char>>::empty());
        assert(Seq::<Seq<char>>::empty() + spec_path_segments(value@) =~= spec_path_segments(
            value@,
        ));
    }
    while i < n
        invariant
            n == value@.len(),
            i <= n,
            spec_path_segments(value@) == out.deep_view() + spec_split_partial(
                cur@,
                value@.skip(i as int),
                colon_separator(),
            ),
        decreases n - i,
    {
        let c = value.get_char(i);
        proof {
            lemma_split_partial_advance(cur@, value@.skip(i as int), colon_separator());
            assert(value@.skip(i as int)[0] == value@[i as int]);
            assert(value@.skip(i as int).skip(1) =~= value@.skip(i + 1 as int));
            assert(colon_separator()(c) == (c == ':'));
        }
        if c == ':' {
            if !cur.as_str().is_empty() {
                let ghost old_out = out.deep_view();
                let ghost finished = cur@;
                out.push(cur);
                cur = String::new();
                proof {
                    assert(out.deep_view() =~= old_out.push(finished));
                    assert(old_out.push(finished) =~= old_out + seq![finished]);
                }
            }
        } else {
            push_char(&mut cur, c);
        }
        i = i + 1;
    }
    proof {
        assert(value@.skip(n as int) =~= Seq::<char>::empty());
        assert(token_len(Seq::<char>::empty(), colon_separator()) == 0);
        assert(spec_split(Seq::<char>::empty(), colon_separator()) =~= Seq::<Seq<char>>::empty());
    }
    if !cur.as_str().is_empty() {
        let ghost old_out = out.deep_view();
        let ghost finished = cur@;
        proof {
            assert(cur@ + Seq::<char>::empty().take(0) =~= cur@);
            assert(spec_split_partial(cur@, Seq::<char>::empty(), colon_separator()) =~= seq![cur@]);
        }
        out.push(cur);
        proof {
            assert(out.deep_view() =~= old_out.push(finished));
            assert(old_out + seq![finished] =~= old_out.push(finished));
        }
    } else {
        proof {
            assert(out.deep_view() + Seq::<Seq<char>>::empty() =~= out.deep_view());
        }
    }
    out
}

/// The lines of `s`: pieces between newlines, empty pieces kept, so that a
/// text of `n` newlines has `n + 1` lines.
pub open spec fn spec_lines(s: Seq<char>) -> Seq<Seq<char>>
    decreases s.len(),
{
    let k = token_len(s, newline_separator());
    if k >= s.len() {
        seq![s]
    } else {
        seq![s.take(k as int)] + spec_lines(s.skip(k as int + 1))
    }
}

/// The lines of `s` when the unfinished line `cur` was already read.
pub open spec fn spec_lines_partial(cur: Seq<char>, rest: Seq<char>) -> Seq<Seq<char>> {
    let k = token_len(rest, newline_separator());
    if k >= rest.len() {
        seq![cur + rest]
    } else {
        seq![cur + rest.take(k as int)] + spec_lines(rest.skip(k as int + 1))
    }
}

pub proof fn lemma_lines_partial_empty(rest: Seq<char>)
    ensures
        spec_lines_partial(Seq::<char>::empty(), rest) == spec_lines(rest),
{
    let nl = newline_separator();
    let k = token_len(rest, nl) as int;
    if token_len(rest, nl) >= rest.len() {
        assert(Seq::<char>::empty() + rest =~= rest);
    } else {
        assert(Seq::<char>::empty() + rest.take(k) =~= rest.take(k));
    }
}

/// How the partial-lines shape changes when one more character is read.
pub proof fn lemma_lines_partial_advance(cur: Seq<char>, rest: Seq<char>)
    requires
        rest.len() > 0,
    ensures
        rest[0] == '\n' ==> spec_lines_partial(cur, rest) == seq![cur] + spec_lines_partial(
            Seq::<char>::empty(),
            rest.skip(1),
        ),
        rest[0] != '\n' ==> spec_lines_partial(cur, rest) == spec_lines_partial(
            cur.push(rest[0]),
            rest.skip(1),
        ),
{
    let nl = newline_separator();
    lemma_token_len_le(rest, nl);
    let rest1 = rest.skip(1);
    lemma_token_len_le(rest1, nl);
    if rest[0] == '\n' {
        assert(nl(rest[0]));
        assert(token_len(rest, nl) == 0);
        assert(cur + rest.take(0) =~= cur);
        assert(rest.skip(0int + 1) =~= rest1);
        lemma_lines_partial_empty(rest1);
        assert(spec_lines_partial(cur, rest) =~= seq![cur] + spec_lines(rest1));
    } else {
        let c = rest[0];
        assert(!nl(c));
        assert(token_len(rest, nl) == 1 + token_len(rest1, nl));
        let k = token_len(rest, nl) as int;
        let k1 = token_len(rest1, nl) as int;
        assert(cur.push(c) + rest1.take(k1) =~= cur + rest.take(k));
        if token_len(rest, nl) >= rest.len() {
            assert(cur.push(c) + rest1 =~= cur + rest);
        } else {
            assert(rest1.skip(k1 + 1) =~= rest.skip(k + 1));
        }
    }
}

/// Split text on every newline, keeping empty lines.
pub fn split_lines(s: &str) -> (r: Vec<String>)
    ensures
        r.deep_view() == spec_lines(s@),
{
    let n = s.unicode_len();
    let mut out: Vec<String> = Vec::new();
    let mut cur = String::new();
    let mut i: usize = 0;
    proof {
        assert(s@.skip(0) =~= s@);
        lemma_lines_partial_empty(s@);
        assert(out.deep_view() =~= Seq::<Seq<char>>::empty());
        assert(Seq::<Seq<char>>::empty() + spec_lines(s@) =~= spec_lines(s@));
    }
    while i < n
        invariant
            n == s@.len(),
            i <= n,
            spec_lines(s@) == out.deep_view() + spec_lines_partial(cur@, s@.skip(i as int)),
        decreases n - i,
    {
        let c = s.get_char(i);
        proof {
            lemma_lines_partial_advance(cur@, s@.skip(i as int));
            assert(s@.skip(i as int)[0] == s@[i as int]);
            assert(s@.skip(i as int).skip(1) =~= s@.skip(i + 1 as int));
        }
        if c == '\n' {
            let ghost old_out = out.deep_view();
            let ghost finished = cur@;
            out.push(cur);
            cur = String::new();
            proof {
                assert(out.deep_view() =~= old_out.push(finished));
                assert(old_out.push(finished) =~= old_out + seq![finished]);
            }
        } else {
            push_char(&mut cur, c);
        }
        i = i + 1;
    }
    let ghost old_out = out.deep_view();
    let ghost finished = cur@;
    proof {
        assert(s@.skip(n as int) =~= Seq::<char>::empty());
        assert(cur@ + Seq::<char>::empty() =~= cur@);
        assert(spec_lines_partial(cur@, Seq::<char>::empty()) =~= seq![cur@]);
    }
    out.push(cur);
    proof {
        assert(out.deep_view() =~= old_out.push(finished));
        assert(old_out + seq![finished] =~= old_out.push(finished));
    }
    out
}

/// The pieces joined with one separator character between neighbours.
pub open spec fn spec_join(parts: Seq<Seq<char>>, sep_char: char) -> Seq<char>
    decreases parts.len(),
{
    if parts.len() == 0 {
        Seq::empty()
    } else if parts.len() == 1 {
        parts[0]
    } else {
        parts[0] + seq![sep_char] + spec_join(parts.skip(1), sep_char)
    }
}

pub proof fn lemma_join_push(parts: Seq<Seq<char>>, sep_char: char, piece: Seq<char>)
    requires
        parts.len() >= 1,
    ensures
        spec_join(parts.push(piece), sep_char) == spec_join(parts, sep_char) + seq![sep_char]
            + piece,
    decreases parts.len(),
{
    if parts.len() == 1 {
        assert(parts.push(piece)[0] == parts[0]);
        assert(parts.push(piece).skip(1) =~= seq![piece]);
        assert(spec_join(seq![piece], sep_char) == piece);
        assert(parts[0] + seq![sep_char] + piece =~= spec_join(parts, sep_char) + seq![sep_char]
            + piece);
    } else {
        lemma_join_push(parts.skip(1), sep_char, piece);
        assert(parts.push(piece).skip(1) =~= parts.skip(1).push(piece));
        assert(parts.push(piece)[0] == parts[0]);
        assert(parts[0] + seq![sep_char] + (spec_join(parts.skip(1), sep_char) + seq![sep_char]
            + piece) =~= parts[0] + seq![sep_char] + spec_join(parts.skip(1), sep_char)
            + seq![sep_char] + piece);
    }
}

/// Join the pieces with one separator character between neighbours.
pub fn join_with(parts: &Vec<String>, sep_char: char) -> (r: String)
    ensures
        r@ == spec_join(parts.deep_view(), sep_char),
{
    let mut r = String::new();
    let mut i: usize = 0;
    proof {
        assert(parts.deep_view().take(0) =~= Seq::<Seq<char>>::empty());
    }
    while i < parts.len()
        invariant
            i <= parts.len(),
            r@ == spec_join(parts.deep_view().take(i as int), sep_char),
        decreases parts.len() - i,
    {
        let ghost dv = parts.deep_view();
        if i > 0 {
            push_char(&mut r, sep_char);
        }
        r.append(parts[i].as_str());
        proof {
            assert(dv.take(i as int).push(dv[i as int]) =~= dv.take(i + 1 as int));
            if i > 0 {
                lemma_join_push(dv.take(i as int), sep_char, dv[i as int]);
            } else {
                assert(spec_join(dv.take(1int), sep_char) == dv.take(1int)[0]);
                assert(Seq::<char>::empty() + seq![sep_char].take(0) =~= Seq::<char>::empty());
                assert(r@ =~= dv[0]);
                assert(dv.take(1int)[0] == dv[0]);
            }
        }
        i = i + 1;
    }
    proof {
        assert(parts.deep_view().take(parts.deep_view().len() as int) =~= parts.deep_view());
    }
    r
}

pub proof fn lemma_token_len_full(s: Seq<char>, sep: spec_fn(char) -> bool)
    requires
        forall|i: int| 0 <= i < s.len() ==> !sep(s[i]),
    ensures
        token_len(s, sep) == s.len(),
    decreases s.len(),
{
    if s.len() == 0 {
    } else {
        assert(!sep(s[0]));
        assert forall|i: int| 0 <= i < s.skip(1).len() implies !sep(s.skip(1)[i]) by {
            assert(s.skip(1)[i] == s[i + 1]);
        }
        lemma_token_len_full(s.skip(1), sep);
    }
}

pub proof fn lemma_token_len_concat(a: Seq<char>, c: char, b: Seq<char>, sep: spec_fn(char) -> bool)
    requires
        forall|i: int| 0 <= i < a.len() ==> !sep(a[i]),
        sep(c),
    ensures
        token_len(a + seq![c] + b, sep) == a.len(),
    decreases a.len(),
{
    let s = a + seq![c] + b;
    if a.len() == 0 {
        assert(s[0] == c);
    } else {
        assert(s[0] == a[0]);
        assert(!sep(s[0]));
        assert(s.skip(1) =~= a.skip(1) + seq![c] + b);
        assert forall|i: int| 0 <= i < a.skip(1).len() implies !sep(a.skip(1)[i]) by {
            assert(a.skip(1)[i] == a[i + 1]);
        }
        lemma_token_len_concat(a.skip(1), c, b, sep);
    }
}

/// Splitting a newline-join of newline-free parts gives back the parts.
pub proof fn lemma_lines_of_join(parts: Seq<Seq<char>>)
    requires
        parts.len() >= 1,
        forall|i: int, j: int|
            0 <= i < parts.len() && 0 <= j < parts[i].len() ==> #[trigger] parts[i][j] != '\n',
    ensures
        spec_lines(spec_join(parts, '\n')) == parts,
    decreases parts.len(),
{
    let nl = newline_separator();
    if parts.len() == 1 {
        let s = parts[0];
        assert forall|j: int| 0 <= j < s.len() implies !nl(s[j]) by {
            assert(parts[0][j] != '\n');
        }
        lemma_token_len_full(s, nl);
        assert(spec_lines(spec_join(parts, '\n')) =~= parts);
    } else {
        let rest = parts.skip(1);
        let j0 = spec_join(rest, '\n');
        let s = parts[0] + seq!['\n'] + j0;
        assert(spec_join(parts, '\n') == s);
        assert forall|i: int| 0 <= i < parts[0].len() implies !nl(parts[0][i]) by {
            assert(parts[0][i] != '\n');
        }
        assert(nl('\n'));
        lemma_token_len_concat(parts[0], '\n', j0, nl);
        let k = token_len(s, nl) as int;
        assert(k == parts[0].len());
        assert(s.len() >= parts[0].len() + 1);
        assert(s.take(k) =~= parts[0]);
        assert(s.skip(k + 1) =~= j0);
        assert forall|i: int, j: int|
            0 <= i < rest.len() && 0 <= j < rest[i].len() implies #[trigger] rest[i][j] != '\n' by {
            assert(rest[i] == parts[i + 1]);
            assert(parts[i + 1][j] != '\n');
        }
        lemma_lines_of_join(rest);
        assert(spec_lines(s) =~= seq![parts[0]] + rest);
        assert(seq![parts[0]] + rest =~= parts);
    }
}

} // verus!
