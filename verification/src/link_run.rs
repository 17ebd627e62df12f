//! The order of the work of a link wrapper and what it does on each outcome: the real link,
//! the search for its inputs' IR, the IR of its source files, the merge, and the exit.
use vstd::prelude::*;

verus! {

/// Where a link wrapper stands.
#[derive(PartialEq, Eq, Structural, Clone, Copy, Debug)]
pub enum LinkPhase {
    /// Nothing has run yet.
    Start,
    /// The real link runs.
    Linking,
    /// The IR of the inputs is looked for.
    Finding,
    /// The IR of a source file is generated.
    Compiling,
    /// `llvm-link` merges the IR.
    Merging,
    /// The wrapper is done.
    Finished,
}

/// The state of a link wrapper: its phase, how many source files the link names, and which
/// of them is compiled to IR now.
#[derive(PartialEq, Eq, Structural, Clone, Copy, Debug)]
pub struct LinkState {
    pub phase: LinkPhase,
    pub sources: usize,
    pub current_source: usize,
}

/// What happened last.
#[derive(PartialEq, Eq, Structural, Clone, Copy, Debug)]
pub enum LinkEvent {
    /// The wrapper starts.
    Begin,
    /// The program last run ended, with its exit code (`None` where it could not be run or
    /// ended without one).
    Exited(Option<i32>),
    /// The search for the inputs' IR found this many files.
    IrFound(usize),
}

/// What the wrapper does next.
#[derive(PartialEq, Eq, Structural, Clone, Copy, Debug)]
pub enum LinkAction {
    /// Run the real link.
    RunLink,
    /// Look for the IR of the object files and static archives.
    FindIr,
    /// Generate the IR of the source file with this index into a temporary file.
    CompileSource(usize),
    /// Remove the temporary IR of the failed source file and the link's output, and exit with
    /// this code.
    AbandonSource(i32),
    /// Merge the IR with `llvm-link`.
    RunLlvmLink,
    /// Remove the temporary IR files, keep the version script, write the re-link script, and
    /// exit with 0.
    Finish,
    /// Remove the link's output and exit with this code.
    AbandonMerge(i32),
    /// Exit with this code.
    Exit(i32),
    /// Nothing: the event does not belong to this phase.
    Wait,
}

/// The exit code that an outcome gives: its own code, else 1.
pub open spec fn code_or_one(c: Option<i32>) -> i32 {
    match c {
        Some(n) => n,
        None => 1,
    }
}

/// The state in which a link wrapper for a link with `sources` source files starts.
pub open spec fn initial_link_state(sources: usize) -> LinkState {
    LinkState { phase: LinkPhase::Start, sources, current_source: 0 }
}

/// How a link wrapper goes on from the state `s` after the event `e`, and what it does: the
/// real link runs first, and a failed link ends the wrapper with its code; then the IR of the
/// inputs is looked for; then the IR of each source file is generated in turn, a failure
/// ending the wrapper (after removing the output) with its code; without source files and
/// without any IR found the wrapper ends with 0; otherwise `llvm-link` merges the IR, and its
/// failure removes the output and ends the wrapper with its code, its success finishes the
/// wrapper's work.
pub open spec fn link_transition(s: LinkState, e: LinkEvent) -> (LinkState, LinkAction) {
    let done = LinkState { phase: LinkPhase::Finished, ..s };
    match (s.phase, e) {
        (LinkPhase::Start, LinkEvent::Begin) => (
            LinkState { phase: LinkPhase::Linking, ..s },
            LinkAction::RunLink,
        ),
        (LinkPhase::Linking, LinkEvent::Exited(c)) => if c == Some(0i32) {
            (LinkState { phase: LinkPhase::Finding, ..s }, LinkAction::FindIr)
        } else {
            (done, LinkAction::Exit(code_or_one(c)))
        },
        (LinkPhase::Finding, LinkEvent::IrFound(n)) => if s.sources > 0 {
            (
                LinkState { phase: LinkPhase::Compiling, current_source: 0, ..s },
                LinkAction::CompileSource(0),
            )
        } else if n == 0 {
            (done, LinkAction::Exit(0))
        } else {
            (LinkState { phase: LinkPhase::Merging, ..s }, LinkAction::RunLlvmLink)
        },
        (LinkPhase::Compiling, LinkEvent::Exited(c)) => if c == Some(0i32) {
            if s.current_source + 1 < s.sources {
                (
                    LinkState { current_source: (s.current_source + 1) as usize, ..s },
                    LinkAction::CompileSource((s.current_source + 1) as usize),
                )
            } else {
                (LinkState { phase: LinkPhase::Merging, ..s }, LinkAction::RunLlvmLink)
            }
        } else {
            (done, LinkAction::AbandonSource(code_or_one(c)))
        },
        (LinkPhase::Merging, LinkEvent::Exited(c)) => if c == Some(0i32) {
            (done, LinkAction::Finish)
        } else {
            (done, LinkAction::AbandonMerge(code_or_one(c)))
        },
        _ => (s, LinkAction::Wait),
    }
}

/// The state in which a link wrapper for a link with `sources` source files starts.
pub fn start_link(sources: usize) -> (r: LinkState)
    ensures
        r == initial_link_state(sources),
{
    LinkState { phase: LinkPhase::Start, sources, current_source: 0 }
}

/// The exit code that an outcome gives.
fn exit_code(c: Option<i32>) -> (r: i32)
    ensures
        r == code_or_one(c),
{
    match c {
        Some(n) => n,
        None => 1,
    }
}

/// How a link wrapper goes on from `s` after `e`, and what it does next.
pub fn link_step(s: LinkState, e: LinkEvent) -> (r: (LinkState, LinkAction))
    requires
        s.current_source < s.sources || s.phase != LinkPhase::Compiling,
    ensures
        r == link_transition(s, e),
        r.0.current_source < r.0.sources || r.0.phase != LinkPhase::Compiling,
{
    let done = LinkState { phase: LinkPhase::Finished, ..s };
    match (s.phase, e) {
        (LinkPhase::Start, LinkEvent::Begin) => (
            LinkState { phase: LinkPhase::Linking, ..s },
            LinkAction::RunLink,
        ),
        (LinkPhase::Linking, LinkEvent::Exited(c)) => if c == Some(0i32) {
            (LinkState { phase: LinkPhase::Finding, ..s }, LinkAction::FindIr)
        } else {
            (done, LinkAction::Exit(exit_code(c)))
        },
        (LinkPhase::Finding, LinkEvent::IrFound(n)) => if s.sources > 0 {
            (
                LinkState { phase: LinkPhase::Compiling, current_source: 0, ..s },
                LinkAction::CompileSource(0),
            )
        } else if n == 0 {
            (done, LinkAction::Exit(0))
        } else {
            (LinkState { phase: LinkPhase::Merging, ..s }, LinkAction::RunLlvmLink)
        },
        (LinkPhase::Compiling, LinkEvent::Exited(c)) => if c == Some(0i32) {
            if s.current_source + 1 < s.sources {
                (
                    LinkState { current_source: s.current_source + 1, ..s },
                    LinkAction::CompileSource(s.current_source + 1),
                )
            } else {
                (LinkState { phase: LinkPhase::Merging, ..s }, LinkAction::RunLlvmLink)
            }
        } else {
            (done, LinkAction::AbandonSource(exit_code(c)))
        },
        (LinkPhase::Merging, LinkEvent::Exited(c)) => if c == Some(0i32) {
            (done, LinkAction::Finish)
        } else {
            (done, LinkAction::AbandonMerge(exit_code(c)))
        },
        _ => (s, LinkAction::Wait),
    }
}

/// A link whose real link fails ends with the link's code and does nothing else; one with no
/// source file and no IR found ends with 0 before any merge; a failed merge always removes the
/// output.
pub proof fn lemma_link_outcomes(sources: usize, c: Option<i32>, n: usize)
    requires
        c != Some(0i32),
    ensures
        link_transition(
            link_transition(initial_link_state(sources), LinkEvent::Begin).0,
            LinkEvent::Exited(c),
        ).1 == LinkAction::Exit(code_or_one(c)),
        link_transition(
            LinkState { phase: LinkPhase::Finding, sources: 0, current_source: 0 },
            LinkEvent::IrFound(0),
        ).1 == LinkAction::Exit(0),
        link_transition(
            LinkState { phase: LinkPhase::Merging, sources, current_source: n },
            LinkEvent::Exited(c),
        ).1 == LinkAction::AbandonMerge(code_or_one(c)),
{
}

} // verus!
