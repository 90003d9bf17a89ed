//! Command-line argument handling for the listing tools: words that do not
//! start with a dash are positional arguments; words that do are flag names
//! once their leading dashes (one or two) are stripped.

use vstd::prelude::*;
use crate::text::str_eq;

verus! {

/// A word that names flags rather than a positional argument.
pub open spec fn starts_with_dash(s: Seq<char>) -> bool {
    s.len() > 0 && s[0] == '-'
}

pub open spec fn dash_filter() -> spec_fn(Seq<char>) -> bool {
    |s: Seq<char>| starts_with_dash(s)
}

pub open spec fn non_dash_filter() -> spec_fn(Seq<char>) -> bool {
    |s: Seq<char>| !starts_with_dash(s)
}

/// A flag word with its leading dashes removed: two dashes when there are
/// two, else one when there is one, else nothing.
pub open spec fn spec_strip_dashes(s: Seq<char>) -> Seq<char> {
    if s.len() >= 2 && s[0] == '-' && s[1] == '-' {
        s.skip(2)
    } else if s.len() >= 1 && s[0] == '-' {
        s.skip(1)
    } else {
        s
    }
}

pub open spec fn strip_dashes_fn() -> spec_fn(Seq<char>) -> Seq<char> {
    |s: Seq<char>| spec_strip_dashes(s)
}

/// Relies on regex::Regex::new accepting the fixed pattern of one or two
/// leading dashes, and on regex::Regex::replace removing the leftmost match,
/// which here is the longest run of one or two dashes at the start.
#[verifier::external_body]
fn strip_flag_dashes(argument: &str) -> (r: String)
    ensures
        r@ == spec_strip_dashes(argument@),
{
    match regex::Regex::new("^-{1,2}") {
        Ok(re) => re.replace(argument, "").into_owned(),
        Err(_) => argument.to_owned(),
    }
}

/// Split the raw argument words into positional arguments and stripped flag
/// names, each side keeping its original order.
pub fn partition_arguments(args: &Vec<String>) -> (r: (Vec<String>, Vec<String>))
    ensures
        r.0.deep_view() == args.deep_view().filter(non_dash_filter()),
        r.1.deep_view() == args.deep_view().filter(dash_filter()).map_values(strip_dashes_fn()),
{
    let mut positional: Vec<String> = Vec::new();
    let mut flags: Vec<String> = Vec::new();
    let mut i: usize = 0;
    proof {
        reveal(Seq::filter);
        assert(args.deep_view().take(0) =~= Seq::<Seq<char>>::empty());
        assert(positional.deep_view() =~= args.deep_view().take(0).filter(non_dash_filter()));
        assert(flags.deep_view() =~= args.deep_view().take(0).filter(dash_filter()).map_values(
            strip_dashes_fn(),
        ));
    }
    while i < args.len()
        invariant
            i <= args@.len(),
            args.deep_view().len() == args@.len(),
            positional.deep_view() == args.deep_view().take(i as int).filter(non_dash_filter()),
            flags.deep_view() == args.deep_view().take(i as int).filter(dash_filter()).map_values(
                strip_dashes_fn(),
            ),
        decreases args@.len() - i,
    {
        let ghost dv = args.deep_view();
        let ghost old_pos = positional.deep_view();
        let ghost old_flags = flags.deep_view();
        let a = &args[i];
        proof {
            reveal(Seq::filter);
            assert(dv[i as int] == args@[i as int]@);
            assert(dv.take(i + 1 as int).drop_last() =~= dv.take(i as int));
            assert(dv.take(i + 1 as int).last() == dv[i as int]);
        }
        let is_flag_word = if a.as_str().unicode_len() > 0 {
            a.as_str().get_char(0) == '-'
        } else {
            false
        };
        proof {
            assert(is_flag_word == starts_with_dash(a@));
        }
        if is_flag_word {
            flags.push(strip_flag_dashes(a.as_str()));
            proof {
                assert(flags.deep_view() =~= old_flags.push(spec_strip_dashes(dv[i as int])));
                assert(dv.take(i + 1 as int).filter(dash_filter()) =~= dv.take(i as int).filter(
                    dash_filter(),
                ).push(dv[i as int]));
                assert(flags.deep_view() =~= dv.take(i + 1 as int).filter(
                    dash_filter(),
                ).map_values(strip_dashes_fn()));
            }
        } else {
            positional.push(a.clone());
            proof {
                assert(positional.deep_view() =~= old_pos.push(dv[i as int]));
                assert(flags.deep_view() =~= dv.take(i + 1 as int).filter(dash_filter()).map_values(
                    strip_dashes_fn(),
                ));
            }
        }
        i = i + 1;
    }
    proof {
        assert(args.deep_view().take(args.deep_view().len() as int) =~= args.deep_view());
    }
    (positional, flags)
}

/// The switches of the listing tool, read off the stripped flag words.
pub struct Flags {
    pub all: bool,
    pub full_path: bool,
    pub help: bool,
    pub long: bool,
}

fn contains_flag(flags: &Vec<String>, name: &str) -> (r: bool)
    ensures
        r == flags.deep_view().contains(name@),
{
    let mut i: usize = 0;
    while i < flags.len()
        invariant
            i <= flags@.len(),
            forall|j: int| 0 <= j < i ==> flags.deep_view()[j] != name@,
        decreases flags@.len() - i,
    {
        proof {
            assert(flags.deep_view()[i as int] == flags@[i as int]@);
        }
        if str_eq(flags[i].as_str(), name) {
            proof {
                assert(flags.deep_view()[i as int] == name@);
            }
            return true;
        }
        i = i + 1;
    }
    proof {
        assert(forall|j: int|
            0 <= j < flags.deep_view().len() ==> flags.deep_view()[j] != name@);
    }
    false
}

impl Flags {
    /// Which switches are present among the stripped flag words.
    pub fn new(flags: &Vec<String>) -> (r: Flags)
        ensures
            r.all == flags.deep_view().contains("a"@),
            r.full_path == flags.deep_view().contains("f"@),
            r.help == flags.deep_view().contains("h"@),
            r.long == flags.deep_view().contains("l"@),
    {
        Flags {
            all: contains_flag(flags, "a"),
            full_path: contains_flag(flags, "f"),
            help: contains_flag(flags, "h"),
            long: contains_flag(flags, "l"),
        }
    }
}

} // verus!
