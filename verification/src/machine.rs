//! The three-phase confirmation state machine that drives a transfer:
//! deliver fragments one by one, optionally confirm a closing footer, then
//! wait in a terminal phase where only replay and quit remain.
//!
//! The machine is pure: `step` maps the current phase and a parsed
//! decision to the next phase and a clipboard action, and the caller
//! performs the action.  "Quit" is a terminal result, not a process exit,
//! so the caller shuts down after the clipboard is cleared.

use vstd::prelude::*;
use vstd::string::StrSliceExecFns;
use vstd::string::StringExecFns;
use crate::fragment::{build_fragment, frag_end, frag_text};
use crate::state::AppState;

verus! {

/// Where the transfer stands.
#[derive(Clone, Copy, Debug, PartialEq, Eq, Structural)]
pub enum Phase {
    /// Fragments are still being delivered.
    Transferring,
    /// All lines are delivered; the closing footer awaits confirmation.
    Finalizing,
    /// Terminal navigation: only replay and quit are recognized.
    Exiting,
    /// The run is over; the caller shuts down.
    Terminated,
}

/// A parsed user decision.
#[derive(Clone, Copy, Debug, PartialEq, Eq, Structural)]
pub enum Decision {
    /// Deliver the next content.
    Yes,
    /// Replay the previous delivery.
    Prev,
    /// Clear the clipboard and stop.
    Quit,
    /// Anything unrecognized: prompt again.
    Other,
}

/// What the caller must do to the clipboard sink after a step.
#[derive(Debug, PartialEq, Eq)]
pub enum Action {
    /// Write this new content to the sink; it becomes the replay content.
    Deliver(String),
    /// Write the unchanged previous content to the sink again.
    Redeliver(String),
    /// Clear the sink; the run ends.
    Clear,
    /// No sink change: report the unrecognized input and prompt again.
    Reprompt,
}

/// `a` is the character `b`, compared case-insensitively over the ASCII
/// letters (`b` itself is a lowercase keyword letter).
pub open spec fn char_eq_ci(a: char, b: char) -> bool {
    a == b || (65 <= a as u32 <= 90 && a as u32 + 32 == b as u32)
}

/// `s` spells the lowercase keyword `kw`, ASCII-case-insensitively.
pub open spec fn seq_eq_ci(s: Seq<char>, kw: Seq<char>) -> bool {
    s.len() == kw.len() && forall|i: int| 0 <= i < s.len() ==> char_eq_ci(s[i], kw[i])
}

/// No input spells two different keywords: the three one-letter keywords
/// differ pairwise in their only character, and `prev` and `quit` differ
/// in their first.
proof fn lemma_keywords_disjoint(s: Seq<char>)
    ensures
        !(seq_eq_ci(s, "y"@) && seq_eq_ci(s, "p"@)),
        !(seq_eq_ci(s, "y"@) && seq_eq_ci(s, "q"@)),
        !(seq_eq_ci(s, "p"@) && seq_eq_ci(s, "q"@)),
        !(seq_eq_ci(s, "prev"@) && seq_eq_ci(s, "quit"@)),
{
    reveal_strlit("y");
    reveal_strlit("p");
    reveal_strlit("q");
    reveal_strlit("prev");
    reveal_strlit("quit");
    if seq_eq_ci(s, "y"@) && seq_eq_ci(s, "p"@) {
        assert(char_eq_ci(s[0], "y"@[0]) && char_eq_ci(s[0], "p"@[0]));
        assert(false);
    }
    if seq_eq_ci(s, "y"@) && seq_eq_ci(s, "q"@) {
        assert(char_eq_ci(s[0], "y"@[0]) && char_eq_ci(s[0], "q"@[0]));
        assert(false);
    }
    if seq_eq_ci(s, "p"@) && seq_eq_ci(s, "q"@) {
        assert(char_eq_ci(s[0], "p"@[0]) && char_eq_ci(s[0], "q"@[0]));
        assert(false);
    }
    if seq_eq_ci(s, "prev"@) && seq_eq_ci(s, "quit"@) {
        assert(char_eq_ci(s[0], "prev"@[0]) && char_eq_ci(s[0], "quit"@[0]));
        assert(false);
    }
}

/// Compare `s` against the lowercase keyword `kw`, ignoring ASCII case.
fn str_eq_ci(s: &str, kw: &str) -> (r: bool)
    ensures
        r == seq_eq_ci(s@, kw@),
{
    let n = s.unicode_len();
    let m = kw.unicode_len();
    if n != m {
        return false;
    }
    let mut i: usize = 0;
    while i < n
        invariant
            i <= n,
            n == s@.len(),
            n == kw@.len(),
            forall|j: int| 0 <= j < i ==> char_eq_ci(s@[j], kw@[j]),
        decreases n - i,
    {
        let a = s.get_char(i) as u32;
        let b = kw.get_char(i) as u32;
        if !(a == b || (65 <= a && a <= 90 && a + 32 == b)) {
            return false;
        }
        i = i + 1;
    }
    true
}

/// Parse one line of user input into a decision, per phase: empty input
/// defaults to "yes" while transferring or finalizing and to "quit" in the
/// terminal phase, keywords are matched ASCII-case-insensitively, and in
/// the terminal phase only "prev" and "quit" are recognized.  The caller
/// hands in the line already trimmed.
pub fn parse_decision(input: &str, phase: Phase) -> (d: Decision)
    requires
        !(phase is Terminated),
    ensures
        !(phase is Exiting) ==> {
            &&& (d is Yes <==> input@.len() == 0 || seq_eq_ci(input@, "y"@) || seq_eq_ci(
                input@,
                "yes"@,
            ))
            &&& (d is Prev <==> seq_eq_ci(input@, "p"@) || seq_eq_ci(input@, "prev"@))
            &&& (d is Quit <==> seq_eq_ci(input@, "q"@) || seq_eq_ci(input@, "quit"@))
        },
        phase is Exiting ==> {
            &&& !(d is Yes)
            &&& (d is Prev <==> seq_eq_ci(input@, "p"@) || seq_eq_ci(input@, "prev"@))
            &&& (d is Quit <==> input@.len() == 0 || seq_eq_ci(input@, "q"@) || seq_eq_ci(
                input@,
                "quit"@,
            ))
        },
{
    proof {
        reveal_strlit("y");
        reveal_strlit("yes");
        reveal_strlit("p");
        reveal_strlit("prev");
        reveal_strlit("q");
        reveal_strlit("quit");
        lemma_keywords_disjoint(input@);
    }
    let empty = input.is_empty();
    match phase {
        Phase::Exiting => {
            if empty {
                Decision::Quit
            } else if str_eq_ci(input, "p") || str_eq_ci(input, "prev") {
                Decision::Prev
            } else if str_eq_ci(input, "q") || str_eq_ci(input, "quit") {
                Decision::Quit
            } else {
                Decision::Other
            }
        },
        _ => {
            if empty {
                Decision::Yes
            } else if str_eq_ci(input, "y") || str_eq_ci(input, "yes") {
                Decision::Yes
            } else if str_eq_ci(input, "p") || str_eq_ci(input, "prev") {
                Decision::Prev
            } else if str_eq_ci(input, "q") || str_eq_ci(input, "quit") {
                Decision::Quit
            } else {
                Decision::Other
            }
        },
    }
}

/// The text delivered as the opening header for a named source.
pub open spec fn header_text(name: Seq<char>) -> Seq<char> {
    "以下に、ファイル: "@ + name + " を入力します。\n---\n"@
}

/// The text delivered as the closing footer: it names the source if there
/// is one.
pub open spec fn footer_text(name: Option<Seq<char>>) -> Seq<char> {
    match name {
        Some(n) => "以上が、ファイル: "@ + n + " の内容である。\n"@,
        None => "以上が、入力データの内容である。\n"@,
    }
}

/// Build the opening header for the named source.
pub fn make_header(name: &String) -> (r: String)
    ensures
        r@ == header_text(name@),
{
    let mut s = String::from_str("以下に、ファイル: ");
    s.append(name.as_str());
    s.append(" を入力します。\n---\n");
    s
}

/// Build the closing footer.
pub fn make_footer(name: &Option<String>) -> (r: String)
    ensures
        r@ == footer_text(name.deep_view()),
{
    match name {
        Some(n) => {
            let mut s = String::from_str("以上が、ファイル: ");
            s.append(n.as_str());
            s.append(" の内容である。\n");
            s
        },
        None => String::from_str("以上が、入力データの内容である。\n"),
    }
}

/// The phase a fresh run starts in: transferring while lines remain, else
/// straight to the footer for a named source, else the terminal phase.
pub fn initial_phase(state: &AppState) -> (p: Phase)
    ensures
        state.curr_index < state.lines@.len() ==> p is Transferring,
        state.curr_index >= state.lines@.len() && state.from_file ==> p is Finalizing,
        state.curr_index >= state.lines@.len() && !state.from_file ==> p is Exiting,
{
    if state.curr_index < state.lines.len() {
        Phase::Transferring
    } else if state.from_file {
        Phase::Finalizing
    } else {
        Phase::Exiting
    }
}

/// One transition of the confirmation machine: from `phase`, under the
/// decision `d`, mutate the state as required and return the next phase
/// and the clipboard action the caller must perform.
///
/// Whatever the phase, "quit" clears the sink and terminates with the
/// state untouched, "prev" replays `prev_contents` verbatim with the state
/// untouched, and unrecognized input changes nothing.  "Yes" delivers the
/// fragment at the cursor (while transferring) or the footer (while
/// finalizing); the delivered text becomes `prev_contents`.
pub fn step(state: &mut AppState, phase: Phase, d: Decision) -> (r: (Phase, Action))
    requires
        old(state).wf(),
        !(phase is Terminated),
        phase is Transferring ==> old(state).curr_index < old(state).lines@.len(),
    ensures
        final(state).wf(),
        final(state).lines == old(state).lines,
        final(state).line_units == old(state).line_units,
        final(state).total_units == old(state).total_units,
        final(state).max_unit == old(state).max_unit,
        final(state).unit == old(state).unit,
        final(state).from_file == old(state).from_file,
        final(state).input_file_name == old(state).input_file_name,
        final(state).input_text == old(state).input_text,
        old(state).curr_index <= final(state).curr_index,
        d is Quit ==> r.0 is Terminated && r.1 is Clear && *final(state) == *old(state),
        d is Other || (phase is Exiting && d is Yes) ==> {
            &&& r.0 == phase
            &&& r.1 is Reprompt
            &&& *final(state) == *old(state)
        },
        d is Prev ==> {
            &&& r.0 == phase
            &&& r.1 is Redeliver
            &&& r.1->Redeliver_0 == old(state).prev_contents
            &&& *final(state) == *old(state)
        },
        phase is Transferring && d is Yes ==> {
            &&& r.1 is Deliver
            &&& r.1->Deliver_0@ == frag_text(*old(state), old(state).curr_index as int)
            &&& r.1->Deliver_0@ == final(state).prev_contents@
            &&& final(state).curr_index == frag_end(*old(state), old(state).curr_index as int)
            &&& final(state).curr_index > old(state).curr_index
            &&& r.0 == (if final(state).curr_index >= old(state).lines@.len() {
                if old(state).from_file {
                    Phase::Finalizing
                } else {
                    Phase::Exiting
                }
            } else {
                Phase::Transferring
            })
        },
        phase is Finalizing && d is Yes ==> {
            &&& r.1 is Deliver
            &&& r.1->Deliver_0@ == footer_text(old(state).input_file_name.deep_view())
            &&& r.1->Deliver_0@ == final(state).prev_contents@
            &&& final(state).curr_index == old(state).curr_index
            &&& r.0 is Exiting
        },
{
    match d {
        Decision::Quit => (Phase::Terminated, Action::Clear),
        Decision::Other => (phase, Action::Reprompt),
        Decision::Prev => (phase, Action::Redeliver(state.prev_contents.clone())),
        Decision::Yes => {
            match phase {
                Phase::Transferring => {
                    let cur = state.curr_index;
                    let (text, _units, next) = build_fragment(state, cur);
                    state.prev_contents = text.clone();
                    state.curr_index = next;
                    let np = if next >= state.lines.len() {
                        if state.from_file {
                            Phase::Finalizing
                        } else {
                            Phase::Exiting
                        }
                    } else {
                        Phase::Transferring
                    };
                    (np, Action::Deliver(text))
                },
                Phase::Finalizing => {
                    let footer = make_footer(&state.input_file_name);
                    state.prev_contents = footer.clone();
                    (Phase::Exiting, Action::Deliver(footer))
                },
                _ => (phase, Action::Reprompt),
            }
        },
    }
}

} // verus!
