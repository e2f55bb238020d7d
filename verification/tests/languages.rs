use ppq_assistant::registry::{find_language, is_executable, Language};

#[test]
fn every_registered_tag_resolves() {
    assert_eq!(find_language(b"bash"), Some(Language::Bash));
    assert_eq!(find_language(b"sh"), Some(Language::Bash));
    assert_eq!(find_language(b"python"), Some(Language::Python));
    assert_eq!(find_language(b"python3"), Some(Language::Python));
    assert_eq!(find_language(b"js"), Some(Language::JavaScript));
    assert_eq!(find_language(b"javascript"), Some(Language::JavaScript));
    assert_eq!(find_language(b"node"), Some(Language::JavaScript));
    assert_eq!(find_language(b"ruby"), Some(Language::Ruby));
    assert_eq!(find_language(b"perl"), Some(Language::Perl));
    assert_eq!(find_language(b"php"), Some(Language::Php));
}

#[test]
fn resolution_is_case_sensitive_and_exact() {
    assert_eq!(find_language(b"Bash"), None);
    assert_eq!(find_language(b"PYTHON"), None);
    assert_eq!(find_language(b"bash "), None);
    assert_eq!(find_language(b""), None);
    assert_eq!(find_language(b"rust"), None);
    assert_eq!(find_language(b"text"), None);
}

#[test]
fn executability_follows_resolution() {
    assert!(is_executable(b"bash"));
    assert!(is_executable(b"php"));
    assert!(!is_executable(b"rust"));
    assert!(!is_executable(b"text"));
}

#[test]
fn display_names_are_canonical() {
    assert_eq!(Language::Bash.name(), "Bash");
    assert_eq!(Language::Python.name(), "Python");
    assert_eq!(Language::JavaScript.name(), "JavaScript");
    assert_eq!(Language::Ruby.name(), "Ruby");
    assert_eq!(Language::Perl.name(), "Perl");
    assert_eq!(Language::Php.name(), "PHP");
}
