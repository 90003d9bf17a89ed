//! The shell loop's decisions: what one line event leads to, and how the
//! working-directory state changes when a directory change succeeds or
//! fails. The surrounding program performs the reads, the process launches
//! and the actual directory change, and feeds the outcomes back in.

use vstd::prelude::*;
use crate::resolve::resolve;
use crate::resolve::ResolvedCommand;
use crate::split::spec_tokens;
use crate::table::CommandEntry;
use crate::table::CommandTable;

verus! {

/// What the line reader reported.
pub enum LineEvent {
    /// A full line was read.
    Line(String),
    /// The input ended.
    EndOfInput,
    /// The reader was interrupted.
    Interrupted,
}

/// What the loop must do next for one event.
pub enum LoopDirective {
    /// Nothing to run: prompt for the next line.
    Prompt,
    /// Try to change the working directory to the target.
    AttemptChangeDirectory { target: String },
    /// Launch the resolved command and wait for it.
    LaunchCommand { entry: CommandEntry, arguments: Vec<String> },
    /// The command word matched nothing: report it and prompt again.
    ReportUnresolved { raw_command: String },
    /// End of input or an interrupt: leave the loop.
    Exit,
}

/// The state the loop owns: the working directory it believes the process
/// is in. It is mutated only by a successful directory change.
pub struct ShellState {
    pub working_directory: String,
}

/// Decide what one event leads to. Every line loops back to prompting; only
/// end-of-input or an interrupt ends the loop.
pub fn next_directive(event: &LineEvent, table: &CommandTable) -> (d: LoopDirective)
    requires
        table.wf(),
    ensures
        ({
            match event {
                LineEvent::EndOfInput => d is Exit,
                LineEvent::Interrupted => d is Exit,
                LineEvent::Line(l) => {
                    let toks = spec_tokens(l@);
                    &&& (toks.len() == 0 ==> d is Prompt)
                    &&& (toks.len() > 0 && toks[0] == "cd"@
                        ==> (d matches LoopDirective::AttemptChangeDirectory { target } && target@
                        == (if toks.len() > 1 {
                        toks[1]
                    } else {
                        Seq::<char>::empty()
                    })))
                    &&& (toks.len() > 0 && toks[0] != "cd"@ && table.as_map().contains_key(toks[0])
                        ==> (d matches LoopDirective::LaunchCommand { entry, arguments } && entry@
                        == table.as_map()[toks[0]] && arguments.deep_view() == toks.skip(1)))
                    &&& (toks.len() > 0 && toks[0] != "cd"@ && !table.as_map().contains_key(
                        toks[0],
                    ) ==> (d matches LoopDirective::ReportUnresolved { raw_command } && raw_command@
                        == toks[0]))
                },
            }
        }),
{
    match event {
        LineEvent::Line(l) => {
            match resolve(l.as_str(), table) {
                ResolvedCommand::NoOp => LoopDirective::Prompt,
                ResolvedCommand::ChangeDirectory { target } => {
                    LoopDirective::AttemptChangeDirectory { target }
                },
                ResolvedCommand::Invoke { entry, arguments } => {
                    LoopDirective::LaunchCommand { entry, arguments }
                },
                ResolvedCommand::Unresolved { raw_command } => {
                    LoopDirective::ReportUnresolved { raw_command }
                },
            }
        },
        LineEvent::EndOfInput => LoopDirective::Exit,
        LineEvent::Interrupted => LoopDirective::Exit,
    }
}

/// Record the outcome of a directory change. On success the state follows
/// the new target; on failure the state is left exactly as it was and a
/// diagnostic is handed back for printing. No partial change is possible.
pub fn apply_change_directory(state: &mut ShellState, target: &str, changed: bool) -> (err: Option<
    String,
>)
    ensures
        changed ==> final(state).working_directory@ == target@ && err is None,
        !changed ==> *final(state) == *old(state) && (err matches Some(m) && m@
            == "No such file or directory"@),
{
    if changed {
        state.working_directory = target.to_owned();
        None
    } else {
        Some(String::from_str("No such file or directory"))
    }
}

} // verus!
