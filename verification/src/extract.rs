//! Extraction of fenced code blocks from response text.
//!
//! The text is split into lines at line feeds. A line that starts with three
//! backticks, followed by a (possibly empty) word and then nothing but blank
//! bytes, opens a block; the tag is that word, defaulting to the sentinel
//! "text" when empty. The first following line of three backticks (and only
//! blank bytes after them) closes the block; the body is everything strictly
//! between the two fence lines. An opening fence with no closing fence
//! matches nothing. Blocks pair up regardless of their tag; only those whose
//! tag resolves in the registry are kept.

use vstd::prelude::*;

use crate::registry::{find_language, spec_find_language, tag_text};
use crate::snippet::{clone_bytes, CodeSnippet, SnippetView};

verus! {

/// The byte that separates lines.
pub const LINE_FEED: u8 = 10;

/// The byte that fences are made of.
pub const BACKTICK: u8 = 96;

/// The lines of a byte sequence, split at line feeds. A text without line
/// feeds is a single line; every line feed ends the current line and starts
/// a new, initially empty one, so the result always holds at least one line.
pub open spec fn lines_of(s: Seq<u8>) -> Seq<Seq<u8>>
    decreases s.len(),
{
    if s.len() == 0 {
        seq![Seq::<u8>::empty()]
    } else {
        let prev = lines_of(s.drop_last());
        if s.last() == LINE_FEED {
            prev.push(Seq::<u8>::empty())
        } else {
            prev.update(prev.len() - 1, prev.last().push(s.last()))
        }
    }
}

pub proof fn lemma_lines_of_nonempty(s: Seq<u8>)
    ensures
        lines_of(s).len() >= 1,
    decreases s.len(),
{
    if s.len() > 0 {
        lemma_lines_of_nonempty(s.drop_last());
    }
}

/// A word byte: an ASCII letter, digit or underscore. Fence tags are maximal
/// runs of these.
pub open spec fn is_word_byte(b: u8) -> bool {
    (48 <= b && b <= 57) || (65 <= b && b <= 90) || (97 <= b && b <= 122) || b == 95
}

fn word_byte(b: u8) -> (r: bool)
    ensures
        r == is_word_byte(b),
{
    (48 <= b && b <= 57) || (65 <= b && b <= 90) || (97 <= b && b <= 122) || b == 95
}

/// A blank byte that may pad a fence line: space, tab or carriage return.
pub open spec fn is_blank_byte(b: u8) -> bool {
    b == 32 || b == 9 || b == 13
}

fn blank_byte(b: u8) -> (r: bool)
    ensures
        r == is_blank_byte(b),
{
    b == 32 || b == 9 || b == 13
}

/// Whether a line starts with three backticks.
pub open spec fn has_fence_prefix(line: Seq<u8>) -> bool {
    line.len() >= 3 && line[0] == BACKTICK && line[1] == BACKTICK && line[2] == BACKTICK
}

/// Whether everything from position `i` to the end of the line is blank.
pub open spec fn all_blank_from(line: Seq<u8>, i: int) -> bool {
    forall|j: int| i <= j < line.len() ==> is_blank_byte(#[trigger] line[j])
}

/// The length of the run of word bytes starting at position `i`.
pub open spec fn word_run_len(line: Seq<u8>, i: int) -> int
    decreases line.len() - i,
    when 0 <= i <= line.len()
{
    if i >= line.len() {
        0
    } else if is_word_byte(line[i]) {
        1 + word_run_len(line, i + 1)
    } else {
        0
    }
}

pub proof fn lemma_word_run_len(line: Seq<u8>, a: int, b: int)
    requires
        0 <= a <= b <= line.len(),
        forall|k: int| a <= k < b ==> is_word_byte(#[trigger] line[k]),
        b == line.len() || !is_word_byte(line[b]),
    ensures
        word_run_len(line, a) == b - a,
    decreases b - a,
{
    if a < b {
        lemma_word_run_len(line, a + 1, b);
    }
}

/// An opening fence: three backticks, a (possibly empty) word, then only
/// blank bytes to the end of the line.
pub open spec fn is_open_fence(line: Seq<u8>) -> bool {
    has_fence_prefix(line) && all_blank_from(line, 3 + word_run_len(line, 3))
}

/// The tag written on an opening fence: the word right after the backticks.
pub open spec fn raw_tag(line: Seq<u8>) -> Seq<u8> {
    line.subrange(3, 3 + word_run_len(line, 3))
}

/// A closing fence: three backticks followed by nothing but blank bytes.
pub open spec fn is_close_fence(line: Seq<u8>) -> bool {
    has_fence_prefix(line) && all_blank_from(line, 3)
}

/// An empty tag defaults to the sentinel "text", which resolves to no
/// language.
pub open spec fn effective_tag(t: Seq<u8>) -> Seq<u8> {
    if t.len() == 0 {
        tag_text()
    } else {
        t
    }
}

/// The given lines joined back into one byte sequence with line feeds
/// between them (none at either end).
pub open spec fn join_lines(ls: Seq<Seq<u8>>) -> Seq<u8>
    decreases ls.len(),
{
    if ls.len() == 0 {
        Seq::empty()
    } else if ls.len() == 1 {
        ls[0]
    } else {
        join_lines(ls.drop_last()) + seq![LINE_FEED] + ls.last()
    }
}

/// Splitting a text into lines and joining them back is the identity: a
/// block's body is the exact text between its fences, newline for newline.
pub proof fn lemma_join_lines_of(s: Seq<u8>)
    ensures
        join_lines(lines_of(s)) == s,
    decreases s.len(),
{
    if s.len() == 0 {
        assert(join_lines(lines_of(s)) =~= s);
    } else {
        lemma_join_lines_of(s.drop_last());
        lemma_lines_of_nonempty(s.drop_last());
        let prev = lines_of(s.drop_last());
        if s.last() == LINE_FEED {
            assert(prev.push(Seq::<u8>::empty()).drop_last() =~= prev);
            assert(join_lines(lines_of(s)) =~= s);
        } else {
            let grown = prev.update(prev.len() - 1, prev.last().push(s.last()));
            if prev.len() == 1 {
                assert(join_lines(lines_of(s)) =~= s);
            } else {
                assert(grown.drop_last() =~= prev.drop_last());
                assert(grown.last() == prev.last().push(s.last()));
                assert(join_lines(grown) =~= join_lines(prev).push(s.last()));
                assert(join_lines(lines_of(s)) =~= s);
            }
        }
    }
}

/// Where the scan over the lines stands: outside any block, or inside a
/// block whose tag resolved from line `start - 1` and whose body starts at
/// line `start`.
pub enum ScanState {
    Outside,
    Inside { tag: Seq<u8>, start: int },
}

/// The snippets extracted from `lines[i..]`, scanning in state `st`: an
/// opening fence enters a block, the first closing fence after it ends the
/// block, and the block is kept exactly when its tag resolves. A block that
/// never closes yields nothing.
pub open spec fn scan(lines: Seq<Seq<u8>>, i: int, st: ScanState) -> Seq<SnippetView>
    decreases lines.len() - i,
{
    if i < 0 || i >= lines.len() {
        Seq::empty()
    } else {
        match st {
            ScanState::Outside => {
                if is_open_fence(lines[i]) {
                    scan(
                        lines,
                        i + 1,
                        ScanState::Inside { tag: effective_tag(raw_tag(lines[i])), start: i + 1 },
                    )
                } else {
                    scan(lines, i + 1, ScanState::Outside)
                }
            },
            ScanState::Inside { tag, start } => {
                if is_close_fence(lines[i]) {
                    let rest = scan(lines, i + 1, ScanState::Outside);
                    if spec_find_language(tag).is_some() {
                        seq![
                            SnippetView { language: tag, code: join_lines(lines.subrange(start, i)) },
                        ] + rest
                    } else {
                        rest
                    }
                } else {
                    scan(lines, i + 1, st)
                }
            },
        }
    }
}

/// The executable snippets of a text, in order of appearance.
pub open spec fn spec_extract(text: Seq<u8>) -> Seq<SnippetView> {
    scan(lines_of(text), 0, ScanState::Outside)
}

/// Splits a text into its lines.
pub fn split_lines(text: &[u8]) -> (r: Vec<Vec<u8>>)
    ensures
        r.deep_view() == lines_of(text@),
        r@.len() >= 1,
{
    let mut done: Vec<Vec<u8>> = Vec::new();
    let mut cur: Vec<u8> = Vec::new();
    let mut i: usize = 0;
    proof {
        assert(text@.take(0) =~= Seq::<u8>::empty());
        assert(done.deep_view().push(cur.deep_view()) =~~= lines_of(text@.take(0)));
    }
    while i < text.len()
        invariant
            i <= text@.len(),
            done.deep_view().push(cur.deep_view()) == lines_of(text@.take(i as int)),
        decreases text@.len() - i,
    {
        let ghost prev_done = done.deep_view();
        let ghost prev_cur = cur.deep_view();
        let b = text[i];
        proof {
            assert(text@.take(i + 1).drop_last() =~= text@.take(i as int));
            assert(text@.take(i + 1).last() == text@[i as int]);
            lemma_lines_of_nonempty(text@.take(i as int));
        }
        if b == LINE_FEED {
            let full = cur;
            cur = Vec::new();
            done.push(full);
        } else {
            cur.push(b);
        }
        proof {
            let now = lines_of(text@.take(i + 1));
            let before = lines_of(text@.take(i as int));
            if b == LINE_FEED {
                assert(now == before.push(Seq::<u8>::empty()));
                assert(done.deep_view() =~= prev_done.push(prev_cur));
                assert(cur.deep_view() =~= Seq::<u8>::empty());
                assert(done.deep_view().push(cur.deep_view()) =~~= now);
            } else {
                assert(now == before.update(before.len() - 1, before.last().push(b)));
                assert(before.last() == prev_cur);
                assert(cur.deep_view() =~= prev_cur.push(b));
                assert(done.deep_view() == prev_done);
                assert(done.deep_view().push(cur.deep_view()) =~= now);
            }
        }
        i += 1;
    }
    let ghost prev_done = done.deep_view();
    let ghost prev_cur = cur.deep_view();
    done.push(cur);
    proof {
        assert(text@.take(text@.len() as int) =~= text@);
        assert(done.deep_view() =~= prev_done.push(prev_cur));
        lemma_lines_of_nonempty(text@);
    }
    done
}

/// Whether a line starts with three backticks.
fn fence_prefix(line: &[u8]) -> (r: bool)
    ensures
        r == has_fence_prefix(line@),
{
    line.len() >= 3 && line[0] == BACKTICK && line[1] == BACKTICK && line[2] == BACKTICK
}

/// Whether a line is a closing fence.
fn close_fence(line: &[u8]) -> (r: bool)
    ensures
        r == is_close_fence(line@),
{
    if !fence_prefix(line) {
        return false;
    }
    let mut j: usize = 3;
    while j < line.len()
        invariant
            3 <= j <= line@.len(),
            forall|k: int| 3 <= k < j ==> is_blank_byte(#[trigger] line@[k]),
        decreases line@.len() - j,
    {
        if !blank_byte(line[j]) {
            return false;
        }
        j += 1;
    }
    true
}

/// If the line is an opening fence, its raw tag; otherwise nothing.
fn open_fence_tag(line: &[u8]) -> (r: Option<Vec<u8>>)
    ensures
        r.is_some() == is_open_fence(line@),
        r.is_some() ==> r.unwrap()@ == raw_tag(line@),
{
    if !fence_prefix(line) {
        return None;
    }
    let mut j: usize = 3;
    while j < line.len() && word_byte(line[j])
        invariant
            3 <= j <= line@.len(),
            forall|k: int| 3 <= k < j ==> is_word_byte(#[trigger] line@[k]),
        decreases line@.len() - j,
    {
        j += 1;
    }
    proof {
        lemma_word_run_len(line@, 3, j as int);
        assert(word_run_len(line@, 3) == j - 3);
    }
    let mut m: usize = j;
    while m < line.len()
        invariant
            j <= m <= line@.len(),
            has_fence_prefix(line@),
            word_run_len(line@, 3) == j - 3,
            forall|k: int| j <= k < m ==> is_blank_byte(#[trigger] line@[k]),
        decreases line@.len() - m,
    {
        if !blank_byte(line[m]) {
            return None;
        }
        m += 1;
    }
    let tag = vstd::slice::slice_to_vec(vstd::slice::slice_subrange(line, 3, j));
    Some(tag)
}

/// Joins the lines `lines[start..end]` back into one body.
fn join_range(lines: &Vec<Vec<u8>>, start: usize, end: usize) -> (r: Vec<u8>)
    requires
        start <= end <= lines@.len(),
    ensures
        r@ == join_lines(lines.deep_view().subrange(start as int, end as int)),
{
    let ghost ldv = lines.deep_view();
    let mut r: Vec<u8> = Vec::new();
    let mut k: usize = start;
    proof {
        assert(ldv.subrange(start as int, start as int) =~= Seq::<Seq<u8>>::empty());
    }
    while k < end
        invariant
            start <= k <= end <= lines@.len(),
            ldv == lines.deep_view(),
            r@ == join_lines(ldv.subrange(start as int, k as int)),
        decreases end - k,
    {
        let ghost prev = r@;
        if k > start {
            r.push(LINE_FEED);
        }
        let mut b: usize = 0;
        let line = &lines[k];
        while b < line.len()
            invariant
                b <= line@.len(),
                line@ == lines@[k as int]@,
                k < lines@.len(),
                r@ == (if k > start {
                    prev.push(LINE_FEED)
                } else {
                    prev
                }) + line@.take(b as int),
            decreases line@.len() - b,
        {
            r.push(line[b]);
            proof {
                assert(line@.take(b + 1) =~= line@.take(b as int).push(line@[b as int]));
            }
            b += 1;
        }
        proof {
            assert(line@.take(line@.len() as int) =~= line@);
            assert(ldv[k as int] =~= lines@[k as int]@);
            let sub_next = ldv.subrange(start as int, k + 1);
            assert(sub_next.drop_last() =~= ldv.subrange(start as int, k as int));
            assert(sub_next.last() == ldv[k as int]);
            if k > start {
                assert(r@ =~= join_lines(sub_next.drop_last()) + seq![LINE_FEED] + sub_next.last());
            } else {
                assert(r@ =~= ldv[k as int]);
            }
        }
        k += 1;
    }
    r
}

/// How the extraction loop's plain state maps to the scan state.
pub open spec fn loop_state(in_block: bool, tag: Seq<u8>, start: int) -> ScanState {
    if in_block {
        ScanState::Inside { tag, start }
    } else {
        ScanState::Outside
    }
}

/// The sentinel tag "text" as a byte vector.
fn text_tag_vec() -> (r: Vec<u8>)
    ensures
        r@ == tag_text(),
{
    let mut v: Vec<u8> = Vec::new();
    v.push(116);
    v.push(101);
    v.push(120);
    v.push(116);
    proof {
        assert(v@ =~= tag_text());
    }
    v
}

/// Extracts the executable snippets of a text: the fenced blocks, in order of
/// appearance, whose tag resolves in the registry. Blocks with unregistered
/// or missing tags are dropped; an unterminated fence yields nothing.
pub fn extract_code_snippets(text: &[u8]) -> (r: Vec<CodeSnippet>)
    ensures
        r.deep_view() == spec_extract(text@),
{
    let lines = split_lines(text);
    let ghost ldv = lines.deep_view();
    let mut snippets: Vec<CodeSnippet> = Vec::new();
    let mut i: usize = 0;
    let mut in_block: bool = false;
    let mut tag: Vec<u8> = Vec::new();
    let mut start: usize = 0;
    proof {
        assert(snippets.deep_view() =~= Seq::<SnippetView>::empty());
    }
    while i < lines.len()
        invariant
            ldv == lines.deep_view(),
            ldv == lines_of(text@),
            ldv.len() == lines@.len(),
            i <= lines@.len(),
            in_block ==> start <= i,
            snippets.deep_view() + scan(ldv, i as int, loop_state(in_block, tag@, start as int))
                =~= spec_extract(text@),
        decreases lines@.len() - i,
    {
        proof {
            assert(ldv[i as int] =~= lines@[i as int]@);
        }
        if !in_block {
            match open_fence_tag(lines[i].as_slice()) {
                Some(t) => {
                    tag = if t.len() == 0 {
                        text_tag_vec()
                    } else {
                        t
                    };
                    in_block = true;
                    start = i + 1;
                    proof {
                        assert(tag@ == effective_tag(raw_tag(ldv[i as int])));
                    }
                },
                None => {},
            }
        } else {
            if close_fence(lines[i].as_slice()) {
                if find_language(tag.as_slice()).is_some() {
                    let code = join_range(&lines, start, i);
                    let ghost prev_snips = snippets.deep_view();
                    let language = clone_bytes(&tag);
                    let snip = CodeSnippet { language, code };
                    let ghost snip_view = snip@;
                    snippets.push(snip);
                    proof {
                        assert(snippets.deep_view() =~= prev_snips.push(snip_view));
                        assert(prev_snips.push(snip_view) + scan(ldv, i + 1, ScanState::Outside)
                            =~= prev_snips + (seq![snip_view] + scan(ldv, i + 1, ScanState::Outside)));
                    }
                }
                in_block = false;
            }
        }
        i += 1;
    }
    proof {
        assert(snippets.deep_view() + Seq::<SnippetView>::empty() =~= snippets.deep_view());
    }
    snippets
}

/// Scanning outside a block walks over lines that open no fence.
pub proof fn lemma_scan_outside_skip(lines: Seq<Seq<u8>>, i: int, m: int)
    requires
        0 <= i <= m <= lines.len(),
        forall|k: int| i <= k < m ==> !is_open_fence(#[trigger] lines[k]),
    ensures
        scan(lines, i, ScanState::Outside) == scan(lines, m, ScanState::Outside),
    decreases m - i,
{
    if i < m {
        lemma_scan_outside_skip(lines, i + 1, m);
    }
}

/// Scanning inside a block walks over lines that close no fence, keeping its
/// state.
pub proof fn lemma_scan_inside_skip(lines: Seq<Seq<u8>>, i: int, m: int, tag: Seq<u8>, start: int)
    requires
        0 <= i <= m <= lines.len(),
        forall|k: int| i <= k < m ==> !is_close_fence(#[trigger] lines[k]),
    ensures
        scan(lines, i, ScanState::Inside { tag, start }) == scan(
            lines,
            m,
            ScanState::Inside { tag, start },
        ),
    decreases m - i,
{
    if i < m {
        lemma_scan_inside_skip(lines, i + 1, m, tag, start);
    }
}

/// Lines among which no opening fence stands yield no snippet.
pub proof fn lemma_scan_no_open(lines: Seq<Seq<u8>>, i: int)
    requires
        0 <= i <= lines.len(),
        forall|k: int| i <= k < lines.len() ==> !is_open_fence(#[trigger] lines[k]),
    ensures
        scan(lines, i, ScanState::Outside) == Seq::<SnippetView>::empty(),
{
    lemma_scan_outside_skip(lines, i, lines.len() as int);
}

/// A text without a single opening fence line yields no snippet at all.
pub proof fn lemma_no_fences_no_snippets(text: Seq<u8>)
    requires
        forall|k: int|
            0 <= k < lines_of(text).len() ==> !is_open_fence(#[trigger] lines_of(text)[k]),
    ensures
        spec_extract(text) == Seq::<SnippetView>::empty(),
{
    lemma_scan_no_open(lines_of(text), 0);
}

/// An opening fence with no closing fence anywhere after it — an unterminated
/// block — yields no snippet, neither for its region nor beyond it.
pub proof fn lemma_unterminated_fence(lines: Seq<Seq<u8>>, i: int)
    requires
        0 <= i < lines.len(),
        is_open_fence(lines[i]),
        forall|k: int| i < k < lines.len() ==> !is_close_fence(#[trigger] lines[k]),
    ensures
        scan(lines, i, ScanState::Outside) == Seq::<SnippetView>::empty(),
{
    let tag = effective_tag(raw_tag(lines[i]));
    lemma_scan_inside_skip(lines, i + 1, lines.len() as int, tag, i + 1);
}

/// Every snippet the scan yields has a tag that resolves in the registry.
pub proof fn lemma_scan_only_executable(lines: Seq<Seq<u8>>, i: int, st: ScanState)
    ensures
        forall|k: int|
            0 <= k < scan(lines, i, st).len() ==> spec_find_language(
                #[trigger] scan(lines, i, st)[k].language,
            ).is_some(),
    decreases lines.len() - i,
{
    if 0 <= i < lines.len() {
        match st {
            ScanState::Outside => {
                if is_open_fence(lines[i]) {
                    lemma_scan_only_executable(
                        lines,
                        i + 1,
                        ScanState::Inside { tag: effective_tag(raw_tag(lines[i])), start: i + 1 },
                    );
                } else {
                    lemma_scan_only_executable(lines, i + 1, ScanState::Outside);
                }
            },
            ScanState::Inside { tag, start } => {
                if is_close_fence(lines[i]) {
                    lemma_scan_only_executable(lines, i + 1, ScanState::Outside);
                } else {
                    lemma_scan_only_executable(lines, i + 1, st);
                }
            },
        }
    }
}

/// Extraction keeps only executable snippets: every extracted snippet's tag
/// resolves in the registry, whatever else the text holds.
pub proof fn lemma_extracted_are_executable(text: Seq<u8>)
    ensures
        forall|k: int|
            0 <= k < spec_extract(text).len() ==> spec_find_language(
                #[trigger] spec_extract(text)[k].language,
            ).is_some(),
{
    lemma_scan_only_executable(lines_of(text), 0, ScanState::Outside);
}

/// A text whose lines form exactly one fenced block — lines opening no fence,
/// the opening fence, body lines closing no fence, the closing fence, then
/// lines opening no fence — yields exactly that block's snippet, with the body
/// joined newline-for-newline, when its tag resolves; and nothing when it does
/// not.
pub proof fn lemma_single_block(
    text: Seq<u8>,
    pre: Seq<Seq<u8>>,
    open_line: Seq<u8>,
    body: Seq<Seq<u8>>,
    close_line: Seq<u8>,
    post: Seq<Seq<u8>>,
)
    requires
        lines_of(text) == pre + seq![open_line] + body + seq![close_line] + post,
        forall|k: int| 0 <= k < pre.len() ==> !is_open_fence(#[trigger] pre[k]),
        is_open_fence(open_line),
        forall|k: int| 0 <= k < body.len() ==> !is_close_fence(#[trigger] body[k]),
        is_close_fence(close_line),
        forall|k: int| 0 <= k < post.len() ==> !is_open_fence(#[trigger] post[k]),
    ensures
        spec_extract(text) == if spec_find_language(effective_tag(raw_tag(open_line))).is_some() {
            seq![
                SnippetView {
                    language: effective_tag(raw_tag(open_line)),
                    code: join_lines(body),
                },
            ]
        } else {
            Seq::<SnippetView>::empty()
        },
{
    let lines = lines_of(text);
    let n0 = pre.len() as int;
    let n1 = n0 + 1;
    let n2 = n1 + body.len() as int;
    let n3 = n2 + 1;
    let tag = effective_tag(raw_tag(open_line));
    assert(lines.len() == n3 + post.len());
    assert(lines[n0] == open_line);
    assert(lines[n2] == close_line);
    assert forall|k: int| 0 <= k < n0 implies !is_open_fence(#[trigger] lines[k]) by {
        assert(lines[k] == pre[k]);
    }
    lemma_scan_outside_skip(lines, 0, n0);
    assert forall|k: int| n1 <= k < n2 implies !is_close_fence(#[trigger] lines[k]) by {
        assert(lines[k] == body[k - n1]);
    }
    lemma_scan_inside_skip(lines, n1, n2, tag, n1);
    assert forall|k: int| n3 <= k < lines.len() implies !is_open_fence(#[trigger] lines[k]) by {
        assert(lines[k] == post[k - n3]);
    }
    lemma_scan_no_open(lines, n3);
    assert(lines.subrange(n1, n2) =~= body);
    assert(scan(lines, n2, ScanState::Inside { tag, start: n1 }) == if spec_find_language(
        tag,
    ).is_some() {
        seq![SnippetView { language: tag, code: join_lines(body) }]
    } else {
        Seq::<SnippetView>::empty()
    });
}

} // verus!
