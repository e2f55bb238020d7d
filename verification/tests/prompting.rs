use ppq_assistant::prompt::assemble_prompt;

fn tokens(parts: &[&str]) -> Vec<Vec<u8>> {
    parts.iter().map(|p| p.as_bytes().to_vec()).collect()
}

#[test]
fn tokens_are_joined_with_single_spaces() {
    let prompt = assemble_prompt(&tokens(&["hello", "wide", "world"]));
    assert_eq!(prompt, b"hello wide world".to_vec());
}

#[test]
fn no_tokens_give_an_empty_prompt() {
    let prompt = assemble_prompt(&tokens(&[]));
    assert_eq!(prompt, b"".to_vec());
}

#[test]
fn flag_shaped_tokens_are_dropped_before_the_delimiter() {
    let prompt = assemble_prompt(&tokens(&["--model", "explain", "--verbose", "this"]));
    assert_eq!(prompt, b"explain this".to_vec());
}

#[test]
fn delimiter_makes_everything_after_it_literal() {
    let prompt = assemble_prompt(&tokens(&["--", "--model", "x"]));
    assert_eq!(prompt, b"--model x".to_vec());
}

#[test]
fn only_the_first_delimiter_is_swallowed() {
    let prompt = assemble_prompt(&tokens(&["a", "--", "--", "b"]));
    assert_eq!(prompt, b"a -- b".to_vec());
}

#[test]
fn single_dash_and_short_flags_are_kept() {
    let prompt = assemble_prompt(&tokens(&["-v", "keep", "-"]));
    assert_eq!(prompt, b"-v keep -".to_vec());
}
