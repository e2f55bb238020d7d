use ppq_assistant::extract::extract_code_snippets;

#[test]
fn no_fences_yields_empty_list() {
    let text = b"Just some prose.\nNothing fenced here.\n";
    let snippets = extract_code_snippets(text);
    assert!(snippets.is_empty());
}

#[test]
fn empty_text_yields_empty_list() {
    let snippets = extract_code_snippets(b"");
    assert!(snippets.is_empty());
}

#[test]
fn single_registered_block_is_extracted_exactly() {
    let text = b"Intro.\n```bash\necho hi\nls -l\n```\nOutro.\n";
    let snippets = extract_code_snippets(text);
    assert_eq!(snippets.len(), 1);
    assert_eq!(snippets[0].language, b"bash".to_vec());
    assert_eq!(snippets[0].code, b"echo hi\nls -l".to_vec());
}

#[test]
fn body_kept_newline_for_newline() {
    let text = b"```python\n\nx = 1\n\n```\n";
    let snippets = extract_code_snippets(text);
    assert_eq!(snippets.len(), 1);
    assert_eq!(snippets[0].code, b"\nx = 1\n".to_vec());
}

#[test]
fn unregistered_tag_is_excluded() {
    let text = b"```rust\nfn main() {}\n```\n";
    let snippets = extract_code_snippets(text);
    assert!(snippets.is_empty());
}

#[test]
fn untagged_block_is_excluded() {
    let text = b"```\nplain text body\n```\n";
    let snippets = extract_code_snippets(text);
    assert!(snippets.is_empty());
}

#[test]
fn unterminated_fence_yields_no_snippet() {
    let text = b"```bash\necho hi\n";
    let snippets = extract_code_snippets(text);
    assert!(snippets.is_empty());
}

#[test]
fn empty_body_is_retained() {
    let text = b"```sh\n```\n";
    let snippets = extract_code_snippets(text);
    assert_eq!(snippets.len(), 1);
    assert_eq!(snippets[0].language, b"sh".to_vec());
    assert_eq!(snippets[0].code, b"".to_vec());
}

#[test]
fn blocks_come_in_order_of_appearance() {
    let text = b"```bash\nfirst\n```\nmiddle\n```rust\nskipped\n```\n```php\nsecond\n```\n";
    let snippets = extract_code_snippets(text);
    assert_eq!(snippets.len(), 2);
    assert_eq!(snippets[0].language, b"bash".to_vec());
    assert_eq!(snippets[0].code, b"first".to_vec());
    assert_eq!(snippets[1].language, b"php".to_vec());
    assert_eq!(snippets[1].code, b"second".to_vec());
}

#[test]
fn closing_fence_may_carry_trailing_blanks() {
    let text = b"```js\n1 + 1\n``` \t\n";
    let snippets = extract_code_snippets(text);
    assert_eq!(snippets.len(), 1);
    assert_eq!(snippets[0].code, b"1 + 1".to_vec());
}

#[test]
fn opening_fence_tag_may_carry_trailing_blanks() {
    let text = b"```ruby \nputs 1\n```\n";
    let snippets = extract_code_snippets(text);
    assert_eq!(snippets.len(), 1);
    assert_eq!(snippets[0].language, b"ruby".to_vec());
}

#[test]
fn fence_with_words_after_tag_opens_nothing() {
    let text = b"```bash extra words\necho hi\n```\n";
    let snippets = extract_code_snippets(text);
    // The first line is no fence; the bare fence below opens an untagged,
    // unterminated block.
    assert!(snippets.is_empty());
}

#[test]
fn tagged_line_inside_body_does_not_close() {
    let text = b"```sh\n```rust\n```\n";
    let snippets = extract_code_snippets(text);
    assert_eq!(snippets.len(), 1);
    assert_eq!(snippets[0].language, b"sh".to_vec());
    assert_eq!(snippets[0].code, b"```rust".to_vec());
}

#[test]
fn text_without_trailing_newline_still_closes() {
    let text = b"```perl\nprint 1;\n```";
    let snippets = extract_code_snippets(text);
    assert_eq!(snippets.len(), 1);
    assert_eq!(snippets[0].language, b"perl".to_vec());
    assert_eq!(snippets[0].code, b"print 1;".to_vec());
}
