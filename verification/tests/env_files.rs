use enact_core::env_files::{
    parse_env_file_content, parse_github_file_content, parse_github_path_content,
};

#[test]
fn test_simple_key_value() {
    let content = "KEY=value\nFOO=bar\n";
    let result = parse_github_file_content(content);
    assert_eq!(result.get("KEY").unwrap(), "value");
    assert_eq!(result.get("FOO").unwrap(), "bar");
}

#[test]
fn test_heredoc_multiline() {
    let content = "RESULT<<EOF\nline 1\nline 2\nline 3\nEOF\n";
    let result = parse_github_file_content(content);
    assert_eq!(result.get("RESULT").unwrap(), "line 1\nline 2\nline 3");
}

#[test]
fn test_mixed() {
    let content = "SIMPLE=hello\nMULTI<<DELIM\nfirst\nsecond\nDELIM\nANOTHER=world\n";
    let result = parse_github_file_content(content);
    assert_eq!(result.get("SIMPLE").unwrap(), "hello");
    assert_eq!(result.get("MULTI").unwrap(), "first\nsecond");
    assert_eq!(result.get("ANOTHER").unwrap(), "world");
}

#[test]
fn test_empty_content() {
    let result = parse_github_file_content("");
    assert!(result.is_empty());
}

#[test]
fn test_heredoc_with_equals_in_value() {
    let content = "DATA<<EOF\nkey=value\nanother=thing\nEOF\n";
    let result = parse_github_file_content(content);
    assert_eq!(result.get("DATA").unwrap(), "key=value\nanother=thing");
}

#[test]
fn heredoc_without_closing_delimiter_takes_the_rest() {
    let result = parse_github_file_content("A<<END\none\ntwo");
    assert_eq!(result.get("A").unwrap(), "one\ntwo");
    assert_eq!(result.len(), 1);
}

#[test]
fn heredoc_with_empty_delimiter_is_read_as_assignment() {
    let result = parse_github_file_content("<<=v\nX<<\n");
    assert_eq!(result.get("<<").unwrap(), "v");
    assert!(result.get("X").is_none());
    assert_eq!(result.len(), 1);
}

#[test]
fn later_entry_replaces_earlier_one_and_trailing_space_is_dropped() {
    let result = parse_github_file_content("K=1   \r\nK=2\n\n  \nnoequals\n");
    assert_eq!(result.get("K").unwrap(), "2");
    assert_eq!(result.len(), 1);
}

#[test]
fn value_keeps_everything_after_first_equals() {
    let result = parse_github_file_content("URL=a=b=c\n");
    assert_eq!(result.get("URL").unwrap(), "a=b=c");
}

#[test]
fn path_file_lines_are_trimmed_and_empty_ones_dropped() {
    let paths = parse_github_path_content("  /usr/bin  \n\n/opt/tool\n   \n");
    assert_eq!(paths, vec!["/usr/bin".to_string(), "/opt/tool".to_string()]);
}

#[test]
fn env_file_skips_comments_and_trims() {
    let vars = parse_env_file_content("# comment\n A = 1 \nB=two words\n\nnoeq\n  #x=y\n");
    assert_eq!(vars.get("A").unwrap(), "1");
    assert_eq!(vars.get("B").unwrap(), "two words");
    assert!(vars.get("#x").is_none());
    assert_eq!(vars.len(), 2);
}
