use clip_frag::fragment::{build_fragment, calc_consumed_units, format_with_underscore};
use clip_frag::machine::{initial_phase, make_footer, make_header, parse_decision, step};
use clip_frag::machine::{Action, Decision, Phase};
use clip_frag::state::{AppState, Unit};

fn named_state(text: &str, max_unit: usize) -> AppState {
    AppState::new(
        text.to_string(),
        Unit::Chars,
        max_unit,
        true,
        Some("in.txt".to_string()),
    )
}

#[test]
fn test_format_with_underscore_grouping() {
    assert_eq!(format_with_underscore(0), "0");
    assert_eq!(format_with_underscore(999), "999");
    assert_eq!(format_with_underscore(1000), "1_000");
    assert_eq!(format_with_underscore(10240), "10_240");
    assert_eq!(format_with_underscore(1234567), "1_234_567");
}

#[test]
fn test_build_fragment_oversized_first_line() {
    // The first candidate line alone exceeds the budget.  The packing
    // policy takes it alone, so the cursor still advances; the historical
    // alternative (an empty fragment with an unchanged cursor) would
    // return ("", 0, 0) here.
    let st = AppState::new("aaaaaa\nbb".to_string(), Unit::Chars, 4, false, None);

    let (frag, used, next) = build_fragment(&st, 0);

    assert_eq!(frag, "aaaaaa\n");
    assert_eq!(used, 7);
    assert_eq!(next, 1);
}

#[test]
fn test_build_fragment_idempotent() {
    let st = AppState::new("ab\ncd\nefg".to_string(), Unit::Chars, 4, false, None);

    let first = build_fragment(&st, 0);
    let second = build_fragment(&st, 0);

    assert_eq!(first, second);
    assert_eq!(st.curr_index, 0);
}

#[test]
fn test_calc_consumed_units_clamps_past_end() {
    let st = AppState::new("ab\ncd\nefg".to_string(), Unit::Chars, 4, false, None);

    assert_eq!(calc_consumed_units(&st, 100), st.total_units);
}

#[test]
fn test_empty_input_has_no_lines() {
    let st = AppState::new(String::new(), Unit::Chars, 10, false, None);

    assert_eq!(st.lines.len(), 0);
    assert_eq!(st.total_units, 0);
    assert_eq!(initial_phase(&st), Phase::Exiting);
}

#[test]
fn test_initial_phase() {
    let st = named_state("ab\ncd", 10);
    assert_eq!(initial_phase(&st), Phase::Transferring);

    let empty_named = named_state("", 10);
    assert_eq!(initial_phase(&empty_named), Phase::Finalizing);
}

#[test]
fn test_unit_label() {
    let chars = AppState::new("x".to_string(), Unit::Chars, 10, false, None);
    let bytes = AppState::new("x".to_string(), Unit::Bytes, 10, false, None);

    assert_eq!(chars.unit_label(), "chars");
    assert_eq!(bytes.unit_label(), "bytes");
}

#[test]
fn test_parse_decision_defaults_and_case() {
    assert_eq!(parse_decision("", Phase::Transferring), Decision::Yes);
    assert_eq!(parse_decision("", Phase::Finalizing), Decision::Yes);
    assert_eq!(parse_decision("", Phase::Exiting), Decision::Quit);

    assert_eq!(parse_decision("y", Phase::Transferring), Decision::Yes);
    assert_eq!(parse_decision("YES", Phase::Transferring), Decision::Yes);
    assert_eq!(parse_decision("yEs", Phase::Finalizing), Decision::Yes);
    assert_eq!(parse_decision("P", Phase::Transferring), Decision::Prev);
    assert_eq!(parse_decision("PREV", Phase::Exiting), Decision::Prev);
    assert_eq!(parse_decision("q", Phase::Finalizing), Decision::Quit);
    assert_eq!(parse_decision("Quit", Phase::Exiting), Decision::Quit);

    assert_eq!(parse_decision("nope", Phase::Transferring), Decision::Other);
    assert_eq!(parse_decision("yep", Phase::Transferring), Decision::Other);
    // the terminal phase does not recognize "yes"
    assert_eq!(parse_decision("y", Phase::Exiting), Decision::Other);
    assert_eq!(parse_decision("yes", Phase::Exiting), Decision::Other);
}

#[test]
fn test_step_prev_after_startup_replays_header() {
    // "prev" before any "yes" re-delivers the initial header unchanged
    // and leaves the cursor at 0.
    let mut st = named_state("ab\ncd", 10);
    let header = make_header(&"in.txt".to_string());
    st.prev_contents = header.clone();

    let (phase, action) = step(&mut st, Phase::Transferring, Decision::Prev);

    assert_eq!(phase, Phase::Transferring);
    assert_eq!(action, Action::Redeliver(header));
    assert_eq!(st.curr_index, 0);
}

#[test]
fn test_step_quit_clears_at_every_phase() {
    for phase in [Phase::Transferring, Phase::Finalizing, Phase::Exiting] {
        let mut st = named_state("ab\ncd", 10);
        let cursor_before = st.curr_index;

        let (next, action) = step(&mut st, phase, Decision::Quit);

        assert_eq!(next, Phase::Terminated);
        assert_eq!(action, Action::Clear);
        assert_eq!(st.curr_index, cursor_before);
    }
}

#[test]
fn test_step_yes_walks_all_phases() {
    // lines "ab\n" (3 units) and "cd" (2 units), budget 3: one line per
    // fragment, then the footer for the named source, then the terminal
    // phase.
    let mut st = named_state("ab\ncd", 3);

    let (phase, action) = step(&mut st, Phase::Transferring, Decision::Yes);
    assert_eq!(action, Action::Deliver("ab\n".to_string()));
    assert_eq!(st.prev_contents, "ab\n");
    assert_eq!(st.curr_index, 1);
    assert_eq!(phase, Phase::Transferring);

    let (phase, action) = step(&mut st, phase, Decision::Yes);
    assert_eq!(action, Action::Deliver("cd".to_string()));
    assert_eq!(st.curr_index, 2);
    assert_eq!(phase, Phase::Finalizing);

    let (phase, action) = step(&mut st, phase, Decision::Yes);
    let footer = make_footer(&Some("in.txt".to_string()));
    assert_eq!(action, Action::Deliver(footer.clone()));
    assert_eq!(st.prev_contents, footer);
    assert_eq!(phase, Phase::Exiting);

    let (phase, action) = step(&mut st, phase, Decision::Prev);
    assert_eq!(action, Action::Redeliver(footer));
    assert_eq!(phase, Phase::Exiting);

    let (phase, action) = step(&mut st, phase, Decision::Quit);
    assert_eq!(phase, Phase::Terminated);
    assert_eq!(action, Action::Clear);
}

#[test]
fn test_step_exact_fit_scenario() {
    // lines of sizes [3, 3] with budget 6: one fragment covers both.
    let mut st = AppState::new("ab\ncd\n".to_string(), Unit::Chars, 6, false, None);

    let (phase, action) = step(&mut st, Phase::Transferring, Decision::Yes);

    assert_eq!(action, Action::Deliver("ab\ncd\n".to_string()));
    assert_eq!(st.curr_index, 2);
    // no named source: straight to the terminal phase
    assert_eq!(phase, Phase::Exiting);
}

#[test]
fn test_step_other_reprompts_without_change() {
    let mut st = named_state("ab\ncd", 10);
    st.prev_contents = "before".to_string();

    let (phase, action) = step(&mut st, Phase::Transferring, Decision::Other);

    assert_eq!(phase, Phase::Transferring);
    assert_eq!(action, Action::Reprompt);
    assert_eq!(st.curr_index, 0);
    assert_eq!(st.prev_contents, "before");
}

#[test]
fn test_make_header_and_footer_text() {
    let header = make_header(&"in.txt".to_string());
    assert_eq!(header, "以下に、ファイル: in.txt を入力します。\n---\n");

    let footer = make_footer(&Some("in.txt".to_string()));
    assert_eq!(footer, "以上が、ファイル: in.txt の内容である。\n");

    let anonymous = make_footer(&None);
    assert_eq!(anonymous, "以上が、入力データの内容である。\n");
}
