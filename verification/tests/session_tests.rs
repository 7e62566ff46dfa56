use mmemo::matcher::{MatchResult, Matcher};
use mmemo::ranking::MatchKind;
use mmemo::session::{KeyInput, SessionState, StepOutcome};

fn dummy_results(n: usize) -> Vec<MatchResult> {
    (0..n)
        .map(|i| MatchResult {
            item: format!("item-{:02}", i),
            kind: MatchKind::Unfiltered,
            score: None,
            hits: Vec::new(),
        })
        .collect()
}

#[test]
fn layout_follows_terminal_rows() {
    let s = SessionState::new(20, 30);
    assert_eq!(s.max_items, 16);
    assert_eq!(s.scroll_next_pos, 9);
    assert_eq!(s.scroll_previous_pos, 5);
    assert_eq!(s.selected_index, 0);
    assert_eq!(s.start_pos, 0);
    assert_eq!(s.total_items, 30);
    assert!(s.input.is_empty());
}

#[test]
fn thirty_candidates_sixteen_rows_scrolls_before_overflow() {
    // Terminal of 20 rows: 16 visible rows.  Pressing "next" repeatedly
    // must scroll the window rather than push the selected row past 15,
    // and the selected index must never leave [0, 16).
    let mut s = SessionState::new(20, 30);
    s.set_results(dummy_results(30));
    let mut seen_scroll = false;
    for _ in 0..100 {
        let out = s.on_key(KeyInput::Next);
        assert_eq!(out, StepOutcome::Continue);
        assert!(s.selected_index < 16);
        assert!(s.start_pos + s.selected_index < 30);
        if s.start_pos > 0 {
            seen_scroll = true;
        }
    }
    assert!(seen_scroll);
}

#[test]
fn next_scrolls_at_lookahead_and_wraps_at_bottom() {
    let mut s = SessionState::new(20, 30);
    s.set_results(dummy_results(30));
    // Selection walks down to the look-ahead row...
    for expected in 1..=10 {
        s.on_key(KeyInput::Next);
        assert_eq!(s.selected_index, expected);
        assert_eq!(s.start_pos, 0);
    }
    // ...then the window starts scrolling, one row per key...
    for expected_start in 1..=14 {
        s.on_key(KeyInput::Next);
        assert_eq!(s.selected_index, 10);
        assert_eq!(s.start_pos, expected_start);
    }
    // ...until the bottom is visible and the selection moves again...
    for expected in 11..=15 {
        s.on_key(KeyInput::Next);
        assert_eq!(s.selected_index, expected);
        assert_eq!(s.start_pos, 14);
    }
    // ...and from the last loaded row it wraps to the very top.
    s.on_key(KeyInput::Next);
    assert_eq!(s.selected_index, 0);
    assert_eq!(s.start_pos, 0);
}

#[test]
fn previous_wraps_to_bottom_from_top() {
    let mut s = SessionState::new(20, 30);
    s.set_results(dummy_results(30));
    s.on_key(KeyInput::Previous);
    assert_eq!(s.selected_index, 15);
    assert_eq!(s.start_pos, 14);
}

#[test]
fn previous_moves_freely_with_few_results() {
    let mut s = SessionState::new(20, 30);
    s.set_results(dummy_results(3));
    s.on_key(KeyInput::Previous);
    assert_eq!(s.selected_index, 2);
    assert_eq!(s.start_pos, 0);
    s.on_key(KeyInput::Previous);
    assert_eq!(s.selected_index, 1);
    s.on_key(KeyInput::Previous);
    assert_eq!(s.selected_index, 0);
}

#[test]
fn navigation_ignores_empty_results() {
    let mut s = SessionState::new(20, 0);
    assert_eq!(s.on_key(KeyInput::Next), StepOutcome::Continue);
    assert_eq!(s.selected_index, 0);
    assert_eq!(s.on_key(KeyInput::Previous), StepOutcome::Continue);
    assert_eq!(s.selected_index, 0);
}

#[test]
fn query_edits_reset_selection_and_request_rerank() {
    let mut s = SessionState::new(20, 30);
    s.set_results(dummy_results(30));
    for _ in 0..12 {
        s.on_key(KeyInput::Next);
    }
    assert!(s.selected_index > 0 || s.start_pos > 0);
    let out = s.on_key(KeyInput::Printable('a'));
    assert_eq!(out, StepOutcome::QueryChanged);
    assert_eq!(s.input, "a");
    assert_eq!(s.selected_index, 0);
    assert_eq!(s.start_pos, 0);
    let out = s.on_key(KeyInput::Backspace);
    assert_eq!(out, StepOutcome::QueryChanged);
    assert_eq!(s.input, "");
    // Backspace on an empty query stays a no-op edit.
    let out = s.on_key(KeyInput::Backspace);
    assert_eq!(out, StepOutcome::QueryChanged);
    assert_eq!(s.input, "");
}

#[test]
fn enter_commits_the_selected_row() {
    let mut s = SessionState::new(20, 30);
    s.set_results(dummy_results(30));
    s.on_key(KeyInput::Next);
    s.on_key(KeyInput::Next);
    let out = s.on_key(KeyInput::Enter);
    assert_eq!(out, StepOutcome::Finished(Some("item-02".to_string())));
}

#[test]
fn enter_with_no_results_commits_nothing() {
    let mut s = SessionState::new(20, 5);
    let out = s.on_key(KeyInput::Enter);
    assert_eq!(out, StepOutcome::Finished(None));
}

#[test]
fn escape_and_interrupt_cancel() {
    let mut s = SessionState::new(20, 5);
    s.set_results(dummy_results(5));
    assert_eq!(s.on_key(KeyInput::Escape), StepOutcome::Finished(None));
    assert_eq!(s.on_key(KeyInput::Interrupt), StepOutcome::Finished(None));
}

#[test]
fn new_results_reset_selection() {
    let mut s = SessionState::new(20, 30);
    s.set_results(dummy_results(30));
    for _ in 0..5 {
        s.on_key(KeyInput::Next);
    }
    s.set_results(dummy_results(7));
    assert_eq!(s.selected_index, 0);
    assert_eq!(s.start_pos, 0);
    assert_eq!(s.results.len(), 7);
}

#[test]
fn session_drives_matcher_end_to_end() {
    // The worker loop in miniature: type a query, adopt the ranked
    // results, move once, commit.
    let mut m = Matcher::new(vec![
        "notes/abc.md".to_string(),
        "notes/abc_memo.md".to_string(),
        "other.txt".to_string(),
    ]);
    let mut s = SessionState::new(20, 3);
    s.set_results(m.fuzzy_match(""));
    assert_eq!(s.results.len(), 3);
    let out = s.on_key(KeyInput::Printable('a'));
    assert_eq!(out, StepOutcome::QueryChanged);
    s.set_results(m.fuzzy_match(&s.input));
    assert_eq!(s.results.len(), 2);
    s.on_key(KeyInput::Next);
    let out = s.on_key(KeyInput::Enter);
    assert_eq!(out, StepOutcome::Finished(Some("notes/abc_memo.md".to_string())));
}
