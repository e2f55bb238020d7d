use ppq_assistant::selector::{
    chosen_index, display_window, line_count, preview_lines, run_selection, select_step,
    trim_line, Key, SelectionState,
};
use ppq_assistant::snippet::CodeSnippet;

fn numbered_snippets(n: usize) -> Vec<CodeSnippet> {
    let mut v = Vec::new();
    for i in 0..n {
        v.push(CodeSnippet {
            language: b"bash".to_vec(),
            code: format!("echo {}", i).into_bytes(),
        });
    }
    v
}

#[test]
fn window_keeps_short_lists_whole() {
    let snippets = numbered_snippets(3);
    let shown = display_window(&snippets);
    assert_eq!(shown.len(), 3);
    for i in 0..3 {
        assert_eq!(shown[i].code, snippets[i].code);
    }
}

#[test]
fn window_shows_last_ten_in_order() {
    let snippets = numbered_snippets(20);
    let shown = display_window(&snippets);
    assert_eq!(shown.len(), 10);
    // Index 0 of the displayed set is the 11th snippet from the start, not
    // the absolute first.
    assert_eq!(shown[0].code, b"echo 10".to_vec());
    for i in 0..10 {
        assert_eq!(shown[i].code, snippets[10 + i].code);
    }
}

#[test]
fn left_arrow_at_zero_is_no_op() {
    let st = select_step(0, Key::Left, 5);
    assert_eq!(st, SelectionState::Browsing { cursor: 0 });
}

#[test]
fn right_arrow_at_last_index_is_no_op() {
    let st = select_step(4, Key::Right, 5);
    assert_eq!(st, SelectionState::Browsing { cursor: 4 });
}

#[test]
fn arrows_move_the_cursor_inside_the_range() {
    assert_eq!(select_step(2, Key::Left, 5), SelectionState::Browsing { cursor: 1 });
    assert_eq!(select_step(2, Key::Right, 5), SelectionState::Browsing { cursor: 3 });
}

#[test]
fn digit_out_of_range_is_no_op() {
    let st = select_step(1, Key::Digit(7), 3);
    assert_eq!(st, SelectionState::Browsing { cursor: 1 });
}

#[test]
fn digit_in_range_confirms_regardless_of_cursor() {
    let st = select_step(1, Key::Digit(2), 3);
    assert_eq!(st, SelectionState::Confirmed { index: 2 });
    let keys = vec![Key::Right, Key::Right, Key::Digit(0)];
    assert_eq!(run_selection(&keys, 5), SelectionState::Confirmed { index: 0 });
}

#[test]
fn enter_confirms_the_cursor() {
    let keys = vec![Key::Right, Key::Right, Key::Enter];
    assert_eq!(run_selection(&keys, 5), SelectionState::Confirmed { index: 2 });
}

#[test]
fn escape_always_cancels() {
    assert_eq!(select_step(3, Key::Esc, 5), SelectionState::Cancelled);
    let keys = vec![Key::Right, Key::Esc, Key::Enter];
    let outcome = run_selection(&keys, 5);
    assert_eq!(outcome, SelectionState::Cancelled);
    assert_eq!(chosen_index(&outcome), None);
}

#[test]
fn plain_c_cancels() {
    assert_eq!(select_step(0, Key::CharC, 5), SelectionState::Cancelled);
}

#[test]
fn unknown_keys_are_no_ops() {
    assert_eq!(select_step(2, Key::Other, 5), SelectionState::Browsing { cursor: 2 });
}

#[test]
fn exhausted_keys_leave_the_machine_browsing() {
    let keys = vec![Key::Right, Key::Other];
    assert_eq!(run_selection(&keys, 5), SelectionState::Browsing { cursor: 1 });
}

#[test]
fn confirmed_index_is_handed_out() {
    assert_eq!(chosen_index(&SelectionState::Confirmed { index: 4 }), Some(4));
    assert_eq!(chosen_index(&SelectionState::Browsing { cursor: 1 }), None);
}

#[test]
fn preview_shows_at_most_the_first_lines() {
    let shown = preview_lines(b"one\ntwo\nthree\nfour", 3);
    assert_eq!(shown, vec![b"one".to_vec(), b"two".to_vec(), b"three".to_vec()]);
    let shown = preview_lines(b"only\n", 3);
    assert_eq!(shown, vec![b"only".to_vec()]);
    let shown = preview_lines(b"", 3);
    assert!(shown.is_empty());
}

#[test]
fn preview_lines_are_trimmed_at_both_ends() {
    assert_eq!(trim_line(b"  indented code \t"), b"indented code".to_vec());
    assert_eq!(trim_line(b"bare"), b"bare".to_vec());
    assert_eq!(trim_line(b" \t "), b"".to_vec());
    assert_eq!(trim_line(b""), b"".to_vec());
}

#[test]
fn line_counts_match_line_semantics() {
    assert_eq!(line_count(b""), 0);
    assert_eq!(line_count(b"a"), 1);
    assert_eq!(line_count(b"a\n"), 1);
    assert_eq!(line_count(b"a\nb"), 2);
    assert_eq!(line_count(b"a\nb\n"), 2);
    assert_eq!(line_count(b"\n"), 1);
    assert_eq!(line_count(b"\n\n"), 2);
}
