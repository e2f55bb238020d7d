use ppq_assistant::executor::{build_invocation, outcome_from_exit, reported_code, ExecError};
use ppq_assistant::snippet::CodeSnippet;

fn snippet(language: &[u8], code: &[u8]) -> CodeSnippet {
    CodeSnippet { language: language.to_vec(), code: code.to_vec() }
}

#[test]
fn php_runs_through_php_dash_r_with_code_last() {
    let inv = build_invocation(&snippet(b"php", b"echo 1;")).unwrap();
    assert_eq!(inv.program, b"php".to_vec());
    assert_eq!(inv.args, vec![b"-r".to_vec(), b"echo 1;".to_vec()]);
}

#[test]
fn bash_and_sh_run_through_bash_dash_c() {
    let inv = build_invocation(&snippet(b"bash", b"ls")).unwrap();
    assert_eq!(inv.program, b"bash".to_vec());
    assert_eq!(inv.args, vec![b"-c".to_vec(), b"ls".to_vec()]);
    let inv = build_invocation(&snippet(b"sh", b"pwd")).unwrap();
    assert_eq!(inv.program, b"bash".to_vec());
    assert_eq!(inv.args, vec![b"-c".to_vec(), b"pwd".to_vec()]);
}

#[test]
fn python_tags_run_through_python3_dash_c() {
    for tag in [b"python".as_slice(), b"python3".as_slice()] {
        let inv = build_invocation(&snippet(tag, b"print(1)")).unwrap();
        assert_eq!(inv.program, b"python3".to_vec());
        assert_eq!(inv.args, vec![b"-c".to_vec(), b"print(1)".to_vec()]);
    }
}

#[test]
fn javascript_tags_run_through_node_dash_e() {
    for tag in [b"js".as_slice(), b"javascript".as_slice(), b"node".as_slice()] {
        let inv = build_invocation(&snippet(tag, b"console.log(1)")).unwrap();
        assert_eq!(inv.program, b"node".to_vec());
        assert_eq!(inv.args, vec![b"-e".to_vec(), b"console.log(1)".to_vec()]);
    }
}

#[test]
fn ruby_and_perl_take_dash_e() {
    let inv = build_invocation(&snippet(b"ruby", b"puts 1")).unwrap();
    assert_eq!(inv.program, b"ruby".to_vec());
    assert_eq!(inv.args, vec![b"-e".to_vec(), b"puts 1".to_vec()]);
    let inv = build_invocation(&snippet(b"perl", b"print 1;")).unwrap();
    assert_eq!(inv.program, b"perl".to_vec());
    assert_eq!(inv.args, vec![b"-e".to_vec(), b"print 1;".to_vec()]);
}

#[test]
fn unresolved_tag_is_unsupported() {
    let r = build_invocation(&snippet(b"rust", b"fn main() {}"));
    assert_eq!(r.unwrap_err(), ExecError::UnsupportedLanguage);
    let r = build_invocation(&snippet(b"text", b"hello"));
    assert_eq!(r.unwrap_err(), ExecError::UnsupportedLanguage);
}

#[test]
fn exit_code_zero_is_success() {
    let o = outcome_from_exit(Some(0));
    assert!(o.success);
    assert_eq!(o.exit_code, Some(0));
    assert_eq!(reported_code(&o), 0);
}

#[test]
fn nonzero_exit_code_is_failure() {
    let o = outcome_from_exit(Some(3));
    assert!(!o.success);
    assert_eq!(o.exit_code, Some(3));
    assert_eq!(reported_code(&o), 3);
}

#[test]
fn missing_exit_code_is_failure_reported_as_minus_one() {
    let o = outcome_from_exit(None);
    assert!(!o.success);
    assert_eq!(o.exit_code, None);
    assert_eq!(reported_code(&o), -1);
}
