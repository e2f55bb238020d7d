//! The interactive selection state machine.
//!
//! The terminal loop around it reads one key at a time and feeds it to
//! [`select_step`]; the machine stays in browsing (moving a cursor), confirms
//! one index, or cancels. At most the last [`DISPLAY_CAP`] snippets are ever
//! displayed, in their original relative order.

use vstd::prelude::*;

use crate::extract::{lemma_lines_of_nonempty, lines_of, split_lines, LINE_FEED};
use crate::snippet::{clone_bytes, CodeSnippet, SnippetView};

verus! {

/// How many snippets the selector shows at most: when more exist, only the
/// most recent ones are displayed.
pub const DISPLAY_CAP: usize = 10;

/// One keystroke, as the selection loop understands it. `Digit` carries the
/// digit's value; `CharC` is a plain `c` keystroke outside a control chord;
/// every key the machine does not know is `Other`.
#[derive(Clone, Copy, PartialEq, Eq, Structural, Debug)]
pub enum Key {
    Digit(u8),
    Left,
    Right,
    Enter,
    Esc,
    CharC,
    Other,
}

/// Where one interactive session stands: still browsing with a cursor, done
/// with a confirmed index into the displayed list, or cancelled.
#[derive(Clone, Copy, PartialEq, Eq, Structural, Debug)]
pub enum SelectionState {
    Browsing { cursor: usize },
    Confirmed { index: usize },
    Cancelled,
}

/// One transition of the selection machine from browsing with the given
/// cursor, among `count` displayed snippets:
/// - a digit within range confirms that index at once, regardless of the
///   cursor; a digit out of range is a no-op;
/// - the arrows move the cursor, stopping at either end;
/// - enter confirms the cursor;
/// - escape, or a plain `c`, cancels;
/// - any other key is a no-op.
pub open spec fn spec_select_step(cursor: usize, key: Key, count: usize) -> SelectionState {
    match key {
        Key::Digit(d) => if (d as usize) < count {
            SelectionState::Confirmed { index: d as usize }
        } else {
            SelectionState::Browsing { cursor }
        },
        Key::Left => SelectionState::Browsing {
            cursor: if cursor > 0 {
                (cursor - 1) as usize
            } else {
                0
            },
        },
        Key::Right => SelectionState::Browsing {
            cursor: if cursor + 1 < count {
                (cursor + 1) as usize
            } else {
                cursor
            },
        },
        Key::Enter => SelectionState::Confirmed { index: cursor },
        Key::Esc => SelectionState::Cancelled,
        Key::CharC => SelectionState::Cancelled,
        Key::Other => SelectionState::Browsing { cursor },
    }
}

/// Feeds one key to the browsing machine.
pub fn select_step(cursor: usize, key: Key, count: usize) -> (r: SelectionState)
    requires
        0 < count,
        cursor < count,
    ensures
        r == spec_select_step(cursor, key, count),
        (r matches SelectionState::Browsing { cursor: c } ==> c < count),
        (r matches SelectionState::Confirmed { index } ==> index < count),
{
    match key {
        Key::Digit(d) => {
            if (d as usize) < count {
                SelectionState::Confirmed { index: d as usize }
            } else {
                SelectionState::Browsing { cursor }
            }
        },
        Key::Left => {
            SelectionState::Browsing {
                cursor: if cursor > 0 {
                    cursor - 1
                } else {
                    0
                },
            }
        },
        Key::Right => {
            SelectionState::Browsing {
                cursor: if cursor + 1 < count {
                    cursor + 1
                } else {
                    cursor
                },
            }
        },
        Key::Enter => SelectionState::Confirmed { index: cursor },
        Key::Esc => SelectionState::Cancelled,
        Key::CharC => SelectionState::Cancelled,
        Key::Other => SelectionState::Browsing { cursor },
    }
}

/// From cursor 0 a left arrow is a no-op: the machine keeps browsing at 0.
pub proof fn lemma_left_at_zero_is_no_op(count: usize)
    ensures
        spec_select_step(0, Key::Left, count) == (SelectionState::Browsing { cursor: 0 }),
{
}

/// From the last index a right arrow is a no-op.
pub proof fn lemma_right_at_last_is_no_op(cursor: usize, count: usize)
    requires
        0 < count,
        cursor == count - 1,
    ensures
        spec_select_step(cursor, Key::Right, count) == (SelectionState::Browsing { cursor }),
{
}

/// A digit within range confirms that index at once, whatever the cursor; a
/// digit at or beyond the displayed count is a no-op.
pub proof fn lemma_digit_key(cursor: usize, d: u8, count: usize)
    ensures
        (d as usize) < count ==> spec_select_step(cursor, Key::Digit(d), count)
            == (SelectionState::Confirmed { index: d as usize }),
        (d as usize) >= count ==> spec_select_step(cursor, Key::Digit(d), count)
            == (SelectionState::Browsing { cursor }),
{
}

/// Escape always cancels, from any cursor: nothing is ever confirmed, so
/// nothing reaches the executor.
pub proof fn lemma_escape_cancels(cursor: usize, count: usize)
    ensures
        spec_select_step(cursor, Key::Esc, count) == SelectionState::Cancelled,
{
}

/// The machine run over a whole script of keys from position `i`, browsing at
/// `cursor`: the first confirming or cancelling key ends the session; a script
/// that runs out leaves the machine browsing.
pub open spec fn spec_run_selection(keys: Seq<Key>, i: int, cursor: usize, count: usize) -> SelectionState
    decreases keys.len() - i,
{
    if i < 0 || i >= keys.len() {
        SelectionState::Browsing { cursor }
    } else {
        match spec_select_step(cursor, keys[i], count) {
            SelectionState::Browsing { cursor: c } => spec_run_selection(keys, i + 1, c, count),
            st => st,
        }
    }
}

/// Runs the selection machine over a script of keys, starting at cursor 0.
pub fn run_selection(keys: &Vec<Key>, count: usize) -> (r: SelectionState)
    requires
        0 < count,
    ensures
        r == spec_run_selection(keys@, 0, 0, count),
        (r matches SelectionState::Confirmed { index } ==> index < count),
{
    let mut cursor: usize = 0;
    let mut i: usize = 0;
    while i < keys.len()
        invariant
            0 < count,
            i <= keys@.len(),
            cursor < count,
            spec_run_selection(keys@, 0, 0, count) == spec_run_selection(
                keys@,
                i as int,
                cursor,
                count,
            ),
        decreases keys@.len() - i,
    {
        let st = select_step(cursor, keys[i], count);
        match st {
            SelectionState::Browsing { cursor: c } => {
                cursor = c;
            },
            _ => {
                return st;
            },
        }
        i += 1;
    }
    SelectionState::Browsing { cursor }
}

/// The index the session chose: a confirmed index, or nothing on
/// cancellation (or while still browsing).
pub fn chosen_index(st: &SelectionState) -> (r: Option<usize>)
    ensures
        match *st {
            SelectionState::Confirmed { index } => r == Some(index),
            _ => r.is_none(),
        },
{
    match *st {
        SelectionState::Confirmed { index } => Some(index),
        _ => None,
    }
}

/// The displayed subset: all snippets when at most [`DISPLAY_CAP`] exist,
/// else exactly the last [`DISPLAY_CAP`] of them, keeping their relative
/// order.
pub open spec fn spec_display_window(s: Seq<SnippetView>) -> Seq<SnippetView> {
    if s.len() <= DISPLAY_CAP {
        s
    } else {
        s.subrange(s.len() - DISPLAY_CAP, s.len() as int)
    }
}

/// Copies the displayed subset of the snippet list.
pub fn display_window(snippets: &Vec<CodeSnippet>) -> (r: Vec<CodeSnippet>)
    ensures
        r.deep_view() == spec_display_window(snippets.deep_view()),
        r@.len() <= DISPLAY_CAP,
        r@.len() == if snippets@.len() <= DISPLAY_CAP {
            snippets@.len() as int
        } else {
            DISPLAY_CAP as int
        },
{
    let ghost sdv = snippets.deep_view();
    let start: usize = if snippets.len() > DISPLAY_CAP {
        snippets.len() - DISPLAY_CAP
    } else {
        0
    };
    let mut r: Vec<CodeSnippet> = Vec::new();
    let mut k: usize = start;
    proof {
        assert(r.deep_view() =~= sdv.subrange(start as int, start as int));
    }
    while k < snippets.len()
        invariant
            start <= k <= snippets@.len(),
            sdv == snippets.deep_view(),
            r.deep_view() == sdv.subrange(start as int, k as int),
        decreases snippets@.len() - k,
    {
        let ghost prev = r.deep_view();
        let snip = snippets[k].clone();
        r.push(snip);
        proof {
            assert(r.deep_view() =~= prev.push(sdv[k as int]));
            assert(sdv.subrange(start as int, k + 1) =~= prev.push(sdv[k as int]));
        }
        k += 1;
    }
    proof {
        if snippets@.len() <= DISPLAY_CAP {
            assert(sdv.subrange(0, sdv.len() as int) =~= sdv);
        }
    }
    r
}

/// When more snippets exist than the cap, the window shows the most recent
/// ones: position `k` of the displayed set is the snippet `len - cap + k` of
/// the full list — so position 0 is not the absolute first snippet but the
/// first of the trailing cap-many.
pub proof fn lemma_window_shows_most_recent(s: Seq<SnippetView>, k: int)
    requires
        s.len() > DISPLAY_CAP,
        0 <= k < DISPLAY_CAP,
    ensures
        spec_display_window(s)[k] == s[s.len() - DISPLAY_CAP + k],
{
}

/// How many lines a body has: line feeds end lines, and a last line needs no
/// line feed to count. An empty body has no lines.
pub open spec fn spec_line_count(s: Seq<u8>) -> int {
    if s.len() == 0 {
        0
    } else if s.last() == LINE_FEED {
        lines_of(s).len() - 1
    } else {
        lines_of(s).len() as int
    }
}

/// A text never has more lines than bytes and one: and when its last byte is
/// no line feed, no more lines than bytes.
pub proof fn lemma_lines_of_len(s: Seq<u8>)
    ensures
        lines_of(s).len() <= s.len() + 1,
        s.len() > 0 && s.last() != LINE_FEED ==> lines_of(s).len() <= s.len(),
    decreases s.len(),
{
    if s.len() > 0 {
        lemma_lines_of_len(s.drop_last());
        lemma_lines_of_nonempty(s.drop_last());
        if s.last() == LINE_FEED {
            assert(lines_of(s) == lines_of(s.drop_last()).push(Seq::<u8>::empty()));
        } else {
            assert(lines_of(s).len() == lines_of(s.drop_last()).len());
        }
    } else {
        assert(lines_of(s).len() == 1);
    }
}

/// The first lines shown as a snippet's preview: up to `max` of the body's
/// lines (a trailing line feed, ending the last line, adds no empty line).
pub open spec fn spec_preview_lines(code: Seq<u8>, max: int) -> Seq<Seq<u8>> {
    let n = spec_line_count(code);
    lines_of(code).take(
        if max < n {
            max
        } else {
            n
        },
    )
}

/// Copies the first `max` lines of a body, for its preview.
pub fn preview_lines(code: &[u8], max: usize) -> (r: Vec<Vec<u8>>)
    ensures
        r.deep_view() == spec_preview_lines(code@, max as int),
{
    let ls = split_lines(code);
    let ghost ldv = ls.deep_view();
    let n = line_count(code);
    let limit: usize = if max < n {
        max
    } else {
        n
    };
    proof {
        lemma_lines_of_nonempty(code@);
        assert(limit <= ldv.len());
    }
    let mut r: Vec<Vec<u8>> = Vec::new();
    let mut k: usize = 0;
    proof {
        assert(r.deep_view() =~= ldv.take(0));
    }
    while k < limit
        invariant
            k <= limit <= ldv.len(),
            ldv == ls.deep_view(),
            r.deep_view() == ldv.take(k as int),
        decreases limit - k,
    {
        let ghost prev = r.deep_view();
        proof {
            assert(ldv[k as int] =~= ls@[k as int]@);
        }
        let line = clone_bytes(&ls[k]);
        r.push(line);
        proof {
            assert(r.deep_view() =~= prev.push(ldv[k as int]));
            assert(ldv.take(k + 1) =~= prev.push(ldv[k as int]));
        }
        k += 1;
    }
    r
}

/// A byte that `trim_line` strips from a preview line's ends: ASCII
/// whitespace.
pub open spec fn is_strippable(b: u8) -> bool {
    b == 32 || b == 9 || b == 13 || b == 10
}

fn strippable(b: u8) -> (r: bool)
    ensures
        r == is_strippable(b),
{
    b == 32 || b == 9 || b == 13 || b == 10
}

/// A line with its leading strippable bytes removed.
pub open spec fn spec_trim_start(s: Seq<u8>) -> Seq<u8>
    decreases s.len(),
{
    if s.len() > 0 && is_strippable(s[0]) {
        spec_trim_start(s.drop_first())
    } else {
        s
    }
}

/// A line with its trailing strippable bytes removed.
pub open spec fn spec_trim_end(s: Seq<u8>) -> Seq<u8>
    decreases s.len(),
{
    if s.len() > 0 && is_strippable(s.last()) {
        spec_trim_end(s.drop_last())
    } else {
        s
    }
}

/// A line with both ends stripped, as a preview shows it.
pub open spec fn spec_trim(s: Seq<u8>) -> Seq<u8> {
    spec_trim_end(spec_trim_start(s))
}

proof fn lemma_trim_start_skip(s: Seq<u8>, a: int)
    requires
        0 <= a <= s.len(),
        forall|k: int| 0 <= k < a ==> is_strippable(#[trigger] s[k]),
        a == s.len() || !is_strippable(s[a]),
    ensures
        spec_trim_start(s) == s.skip(a),
    decreases a,
{
    if a > 0 {
        lemma_trim_start_skip(s.drop_first(), a - 1);
        assert(s.drop_first().skip(a - 1) =~= s.skip(a));
    } else {
        assert(s.skip(0) =~= s);
    }
}

proof fn lemma_trim_end_take(s: Seq<u8>, b: int)
    requires
        0 <= b <= s.len(),
        forall|k: int| b <= k < s.len() ==> is_strippable(#[trigger] s[k]),
        b == 0 || !is_strippable(s[b - 1]),
    ensures
        spec_trim_end(s) == s.take(b),
    decreases s.len(),
{
    if s.len() > b {
        lemma_trim_end_take(s.drop_last(), b);
        assert(s.drop_last().take(b) =~= s.take(b));
    } else {
        assert(s.take(b) =~= s);
    }
}

/// Strips ASCII whitespace from both ends of a preview line.
pub fn trim_line(line: &[u8]) -> (r: Vec<u8>)
    ensures
        r@ == spec_trim(line@),
{
    let mut a: usize = 0;
    while a < line.len() && strippable(line[a])
        invariant
            a <= line@.len(),
            forall|k: int| 0 <= k < a ==> is_strippable(#[trigger] line@[k]),
        decreases line@.len() - a,
    {
        a += 1;
    }
    let mut b: usize = line.len();
    while b > a && strippable(line[b - 1])
        invariant
            a <= b <= line@.len(),
            forall|k: int| b <= k < line@.len() ==> is_strippable(#[trigger] line@[k]),
        decreases b,
    {
        b -= 1;
    }
    proof {
        lemma_trim_start_skip(line@, a as int);
        lemma_trim_end_take(line@.skip(a as int), b - a);
        assert(line@.skip(a as int).take(b - a) =~= line@.subrange(a as int, b as int));
    }
    let r = vstd::slice::slice_to_vec(vstd::slice::slice_subrange(line, a, b));
    r
}

/// Counts the lines of a snippet body, for its preview.
pub fn line_count(code: &[u8]) -> (r: usize)
    ensures
        r as int == spec_line_count(code@),
{
    if code.len() == 0 {
        return 0;
    }
    let mut n: usize = 0;
    let mut i: usize = 0;
    proof {
        assert(code@.take(0) =~= Seq::<u8>::empty());
    }
    while i < code.len()
        invariant
            i <= code@.len(),
            n <= i,
            n as int + 1 == lines_of(code@.take(i as int)).len(),
        decreases code@.len() - i,
    {
        proof {
            assert(code@.take(i + 1).drop_last() =~= code@.take(i as int));
            assert(code@.take(i + 1).last() == code@[i as int]);
            lemma_lines_of_nonempty(code@.take(i as int));
        }
        if code[i] == LINE_FEED {
            n += 1;
        }
        i += 1;
    }
    proof {
        assert(code@.take(code@.len() as int) =~= code@);
        lemma_lines_of_len(code@);
    }
    if code[code.len() - 1] == LINE_FEED {
        n
    } else {
        n + 1
    }
}

} // verus!
