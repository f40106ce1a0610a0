use backup_manager::copy_directions::{from_string_list, split_line, trim, FileParseError};
use backup_manager::file_ops::precheck;
use backup_manager::pattern::Pattern;
use backup_manager::test_utils::TestConfig;

#[test]
fn config_simple() {
    let pre = "/home/user/pre";
    let post = "/home/user/post";
    let copy_directions = vec![format!("{}:{}", pre, post)];
    let parsed = from_string_list(copy_directions).unwrap();
    assert_eq!(parsed.len(), 1);
    assert_eq!(parsed[0].from.as_str(), pre);
    assert_eq!(parsed[0].to.as_str(), post);
    assert!(parsed[0].skips.is_empty());
}

#[test]
fn with_args() {
    let pre = "/home/user/pre";
    let post = "/home/user/post";
    let args = ".txt,.aln, .ttt";
    let copy_directions = vec![format!("{}:{}:{}", pre, post, args)];
    let parsed = from_string_list(copy_directions).unwrap();
    assert_eq!(parsed.len(), 1);
    assert_eq!(parsed[0].from.as_str(), pre);
    assert_eq!(parsed[0].to.as_str(), post);
    let texts: Vec<&str> = parsed[0].skips.iter().map(|p| p.text()).collect();
    assert_eq!(texts, vec![".txt", ".aln", " .ttt"]);
}

#[test]
fn copy_directions_simple() {
    let src = "src";
    let dest = "destca";
    let copy_directions = vec![format!("{}:{}", src, dest)];
    let parsed = from_string_list(copy_directions).unwrap();
    assert_eq!(parsed.len(), 1);
    assert_eq!(parsed[0].from.as_str(), src);
    assert_eq!(parsed[0].to.as_str(), dest);
    assert!(parsed[0].skips.is_empty());
}

#[test]
fn invalid_from_path() {
    let c = TestConfig::new("destcb", Some("asfdasdf"));
    let lines = vec![format!("{}:{}", c.get_src(), c.get_dest())];
    let parsed = from_string_list(lines).unwrap();
    assert!(precheck(&parsed[0], false, false).is_err());
}

#[test]
fn missing_to_path() {
    let err = from_string_list(vec!["justonepath".to_string()]).unwrap_err();
    match err {
        FileParseError::MissingToPath { line } => assert_eq!(line, 0),
        other => panic!("unexpected error: {:?}", line_of(&other)),
    }
}

#[test]
fn duplicate_to_path() {
    let lines = vec!["a:b".to_string(), "c:d".to_string(), "e:b".to_string()];
    let err = from_string_list(lines).unwrap_err();
    match err {
        FileParseError::DuplicateToPath { line } => assert_eq!(line, 2),
        other => panic!("unexpected error: {:?}", line_of(&other)),
    }
}

#[test]
fn invalid_skip_pattern() {
    let lines = vec!["a:b:ok,(".to_string()];
    let err = from_string_list(lines).unwrap_err();
    match err {
        FileParseError::InvalidSkipPattern { line, pattern } => {
            assert_eq!(line, 0);
            assert_eq!(pattern.as_str(), "(");
        },
        other => panic!("unexpected error: {:?}", line_of(&other)),
    }
}

#[test]
fn error_reports_first_faulty_line() {
    let lines = vec!["a:b".to_string(), "nocolon".to_string(), "c:b".to_string()];
    let err = from_string_list(lines).unwrap_err();
    match err {
        FileParseError::MissingToPath { line } => assert_eq!(line, 1),
        other => panic!("unexpected error: {:?}", line_of(&other)),
    }
}

#[test]
fn empty_skip_pieces_are_dropped() {
    let lines = vec!["a:b:,x,,y,".to_string()];
    let parsed = from_string_list(lines).unwrap();
    let texts: Vec<&str> = parsed[0].skips.iter().map(|p| p.text()).collect();
    assert_eq!(texts, vec!["x", "y"]);
}

#[test]
fn pieces_past_the_third_are_ignored() {
    let lines = vec!["a:b:x:whatever:more".to_string()];
    let parsed = from_string_list(lines).unwrap();
    assert_eq!(parsed[0].from.as_str(), "a");
    assert_eq!(parsed[0].to.as_str(), "b");
    let texts: Vec<&str> = parsed[0].skips.iter().map(|p| p.text()).collect();
    assert_eq!(texts, vec!["x"]);
}

#[test]
fn split_line_keeps_empty_pieces() {
    let pieces = split_line("a:b:c", ':');
    assert_eq!(pieces, vec!["a".to_string(), "b".to_string(), "c".to_string()]);
    let pieces = split_line("", ':');
    assert_eq!(pieces, vec!["".to_string()]);
    let pieces = split_line(":x:", ':');
    assert_eq!(pieces, vec!["".to_string(), "x".to_string(), "".to_string()]);
}

#[test]
fn trim_drops_only_empty() {
    assert_eq!(trim(""), None);
    assert_eq!(trim(" .ttt"), Some(" .ttt".to_string()));
    assert_eq!(trim("x"), Some("x".to_string()));
}

#[test]
fn pattern_compilation() {
    assert!(Pattern::new("(".to_string()).is_none());
    let p = Pattern::new("\\.log$".to_string()).unwrap();
    assert_eq!(p.text(), "\\.log$");
    assert!(p.is_match("sub/b.log"));
    assert!(!p.is_match("sub/b.txt"));
}

fn line_of(e: &FileParseError) -> usize {
    match e {
        FileParseError::MissingToPath { line } => *line,
        FileParseError::DuplicateToPath { line } => *line,
        FileParseError::InvalidSkipPattern { line, .. } => *line,
    }
}
