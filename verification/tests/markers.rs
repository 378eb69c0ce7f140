//! Marker extraction, rule-name parsing, and the source-line containers.

use rust_covfix::common::SourceCode;
use rust_covfix::marker::extract_marker;
use rust_covfix::marker::parse_marker;
use rust_covfix::marker::unknown_marker_key;
use rust_covfix::marker::CommentMarker;
use rust_covfix::rule::from_str;
use rust_covfix::rule::marker_warnings;

fn add_two(a: i32) -> i32 {
    a + 2
}

#[test]
fn it_works() {
    assert_eq!(4, add_two(2));
}

#[test]
fn foo() {
    println!("foo");
}

#[test]
fn extract_marker_cases() {
    assert_eq!(extract_marker("ccov:ignore"), None);
    assert_eq!(extract_marker("cov:ignore-linee"), None);
    assert_eq!(extract_marker("cov:ignore--branch"), None);
    assert_eq!(extract_marker("cov:ignore"), Some(CommentMarker::IgnoreBoth));
    assert_eq!(extract_marker("cov:ignore-line-begin"), None);
    assert_eq!(extract_marker("cov:ignore-end"), None);
    assert_eq!(extract_marker("//\tcov:ignore-line"), Some(CommentMarker::IgnoreLine));
    assert_eq!(extract_marker("// cov:ignore_branch"), Some(CommentMarker::IgnoreBranch));
    assert_eq!(extract_marker("cov:ignore-branch"), Some(CommentMarker::IgnoreBranch));
    assert_eq!(extract_marker("cov:begin-ignore"), Some(CommentMarker::BeginIgnoreBoth));
    assert_eq!(extract_marker("cov: begin-ignore-line"), Some(CommentMarker::BeginIgnoreLine));
    assert_eq!(extract_marker("cov: \tbegin-ignore-branch"), Some(CommentMarker::BeginIgnoreBranch));
    assert_eq!(extract_marker("cov:\t end_ignore-line"), Some(CommentMarker::EndIgnoreLine));
    assert_eq!(extract_marker("cov:end-ignore_branch\t"), Some(CommentMarker::EndIgnoreBranch));
    assert_eq!(extract_marker("cov:end-ignore "), Some(CommentMarker::EndIgnoreBoth));
}

#[test]
fn parse_marker_cases() {
    assert_eq!(parse_marker("ignore"), Some(CommentMarker::IgnoreBoth));
    assert_eq!(parse_marker("ignore-"), Some(CommentMarker::IgnoreBoth));
    assert_eq!(parse_marker("begin-ignore-line"), Some(CommentMarker::BeginIgnoreLine));
    assert_eq!(parse_marker("end_ignore"), Some(CommentMarker::EndIgnoreBoth));
    assert_eq!(parse_marker("resume"), None);
    assert_eq!(parse_marker(""), None);
}

#[test]
fn unknown_marker_keys() {
    assert_eq!(unknown_marker_key("// cov:resume"), Some(String::from("resume")));
    assert_eq!(unknown_marker_key("// cov:ignore-line"), None);
    assert_eq!(unknown_marker_key("no marker here at all"), None);
}

#[test]
fn marker_warnings_collects_keys() {
    let src = SourceCode::new("let a = 1; // cov:resume\nlet b = 2;\n// cov:ignore\n// cov:stop-here");
    assert_eq!(marker_warnings(&src), vec![String::from("resume"), String::from("stop-here")]);
}

#[test]
fn from_str_names() {
    assert!(from_str("close").is_ok());
    assert!(from_str("test").is_ok());
    assert!(from_str("loop").is_ok());
    assert!(from_str("derive").is_ok());
    assert!(from_str("comment").is_ok());
    assert!(from_str("").is_err());
    assert!(from_str("derives").is_err());
    assert!(from_str("forloop").is_err());
}

#[test]
fn invalid_rule_name_message() {
    let e = from_str("derives").unwrap_err();
    assert_eq!(e, rust_covfix::error::Error::InvalidRuleName(String::from("derives")));
    assert_eq!(e.message(), "Invalid rule name: derives");
}

#[test]
fn source_code_tests() {
    let s = SourceCode::new("apple\nbanana");
    let mut it = s.lines().clone();
    assert_eq!(it.next(), Some("apple"));
    assert_eq!(it.next(), Some("banana"));
    assert_eq!(it.next(), None);
}

#[test]
fn source_code_lines() {
    let s = SourceCode::new("a\n\nb\n");
    assert_eq!(s.total_lines(), 3);
    assert_eq!(s.get_line(0), Some("a"));
    assert_eq!(s.get_line(1), Some(""));
    assert_eq!(s.get_line(2), Some("b"));
    assert_eq!(s.get_line(3), None);
    let empty = SourceCode::new("");
    assert_eq!(empty.total_lines(), 0);
}
