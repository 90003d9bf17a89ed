//! Resolving one typed line: split it into a command word and argument
//! words, and decide between the directory-change builtin, a known external
//! command, an unknown word, and the empty line.

use vstd::prelude::*;
use crate::split::spec_tokens;
use crate::split::tokenize;
use crate::table::CommandEntry;
use crate::table::CommandTable;
use crate::text::str_eq;

verus! {

/// What a typed line resolves to.
pub enum ResolvedCommand {
    /// An empty line: nothing to run, and no error either.
    NoOp,
    /// The directory-change builtin; the target is empty when the line gave
    /// no argument, and callers choose what an empty target means.
    ChangeDirectory { target: String },
    /// A known command, with the remaining words as its arguments, verbatim.
    Invoke { entry: CommandEntry, arguments: Vec<String> },
    /// The command word matched nothing in the table.
    Unresolved { raw_command: String },
}

/// Resolve a raw line against the table: the first whitespace-separated word
/// picks the command, the rest are its arguments.
pub fn resolve(raw_line: &str, table: &CommandTable) -> (r: ResolvedCommand)
    requires
        table.wf(),
    ensures
        ({
            let toks = spec_tokens(raw_line@);
            &&& (toks.len() == 0 ==> r is NoOp)
            &&& (toks.len() > 0 && toks[0] == "cd"@ ==> (r matches ResolvedCommand::ChangeDirectory {
                target,
            } && target@ == (if toks.len() > 1 {
                toks[1]
            } else {
                Seq::<char>::empty()
            })))
            &&& (toks.len() > 0 && toks[0] != "cd"@ && table.as_map().contains_key(toks[0])
                ==> (r matches ResolvedCommand::Invoke { entry, arguments } && entry@
                == table.as_map()[toks[0]] && arguments.deep_view() == toks.skip(1)))
            &&& (toks.len() > 0 && toks[0] != "cd"@ && !table.as_map().contains_key(toks[0])
                ==> (r matches ResolvedCommand::Unresolved { raw_command } && raw_command@
                == toks[0]))
        }),
{
    let toks = tokenize(raw_line);
    let ghost tv = spec_tokens(raw_line@);
    if toks.len() == 0 {
        proof {
            assert(tv.len() == 0);
        }
        return ResolvedCommand::NoOp;
    }
    proof {
        assert(toks@[0]@ == tv[0]);
    }
    if str_eq(toks[0].as_str(), "cd") {
        let target = if toks.len() > 1 {
            proof {
                assert(toks@[1]@ == tv[1]);
            }
            toks[1].clone()
        } else {
            String::new()
        };
        return ResolvedCommand::ChangeDirectory { target };
    }
    match table.lookup(toks[0].as_str()) {
        Some(e) => {
            let entry = e.clone();
            let mut arguments: Vec<String> = Vec::new();
            let mut i: usize = 1;
            proof {
                assert(arguments.deep_view() =~= toks.deep_view().subrange(1, 1));
            }
            while i < toks.len()
                invariant
                    1 <= i <= toks@.len(),
                    toks.deep_view() == spec_tokens(raw_line@),
                    arguments.deep_view() == toks.deep_view().subrange(1, i as int),
                decreases toks@.len() - i,
            {
                let ghost old_args = arguments.deep_view();
                arguments.push(toks[i].clone());
                proof {
                    assert(toks@[i as int]@ == toks.deep_view()[i as int]);
                    assert(arguments.deep_view() =~= old_args.push(toks.deep_view()[i as int]));
                    assert(arguments.deep_view() =~= toks.deep_view().subrange(1, i + 1 as int));
                }
                i = i + 1;
            }
            proof {
                assert(toks.deep_view().subrange(1, toks.deep_view().len() as int)
                    =~= toks.deep_view().skip(1));
            }
            ResolvedCommand::Invoke { entry, arguments }
        },
        None => {
            ResolvedCommand::Unresolved { raw_command: toks[0].clone() }
        },
    }
}

} // verus!
