use octobuild::utils::{expand_response_files, split_whitespace_tokens, ExpandError};

fn toks(line: &str) -> Vec<String> {
    line.split(' ').map(|x| x.to_string()).collect()
}

#[test]
fn expansion_splices_file_tokens() {
    let tokens = toks("x @r y");
    let files = vec![("r".to_string(), toks("a b"))];
    assert_eq!(expand_response_files(&tokens, &files).unwrap(), toks("x a b y"));
}

#[test]
fn expansion_is_recursive() {
    let tokens = toks("@r");
    let files = vec![("r".to_string(), toks("@s z")), ("s".to_string(), toks("q"))];
    assert_eq!(expand_response_files(&tokens, &files).unwrap(), toks("q z"));
}

#[test]
fn expansion_without_responses_is_identity() {
    let tokens = toks("/TP /c sample.cpp");
    let files: Vec<(String, Vec<String>)> = Vec::new();
    assert_eq!(expand_response_files(&tokens, &files).unwrap(), tokens);
}

#[test]
fn missing_response_file_is_reported() {
    let tokens = toks("@r");
    let files: Vec<(String, Vec<String>)> = Vec::new();
    match expand_response_files(&tokens, &files) {
        Err(ExpandError::Missing(name)) => assert_eq!(name, "r"),
        other => panic!("expected a missing response file, got {:?}", other),
    }
}

#[test]
fn self_cycle_is_detected() {
    let tokens = toks("@a");
    let files = vec![("a".to_string(), toks("@a"))];
    match expand_response_files(&tokens, &files) {
        Err(ExpandError::Cycle(name)) => assert_eq!(name, "a"),
        other => panic!("expected a cycle, got {:?}", other),
    }
}

#[test]
fn mutual_cycle_is_detected() {
    let tokens = toks("@a");
    let files = vec![("a".to_string(), toks("@b")), ("b".to_string(), toks("@a"))];
    match expand_response_files(&tokens, &files) {
        Err(ExpandError::Cycle(name)) => assert_eq!(name, "a"),
        other => panic!("expected a cycle, got {:?}", other),
    }
}

#[test]
fn same_file_twice_is_no_cycle() {
    // the same response file spliced twice in sequence is allowed;
    // only a reference back into an expansion still under way is a cycle
    let tokens = toks("@r @r");
    let files = vec![("r".to_string(), toks("a"))];
    assert_eq!(expand_response_files(&tokens, &files).unwrap(), toks("a a"));
}

#[test]
fn split_on_whitespace() {
    let r = split_whitespace_tokens("  one\ttwo\r\nthree  ");
    assert_eq!(r, vec!["one".to_string(), "two".to_string(), "three".to_string()]);
}

#[test]
fn split_of_blank_text_is_empty() {
    assert_eq!(split_whitespace_tokens(" \t\n"), Vec::<String>::new());
    assert_eq!(split_whitespace_tokens(""), Vec::<String>::new());
}
