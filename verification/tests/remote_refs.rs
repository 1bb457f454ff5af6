//! Tests of remote-reference detection and parsing.

use scaffold::remote::{is_git_url, parse_git_url};

#[test]
fn test_is_git_url() {
    assert!(is_git_url(&b"https://github.com/org/repo.git".to_vec()));
    assert!(is_git_url(&b"http://github.com/org/repo.git".to_vec()));
    assert!(is_git_url(&b"git@github.com:org/repo.git".to_vec()));
    assert!(is_git_url(&b"git://github.com/org/repo.git".to_vec()));
    assert!(is_git_url(&b"github:org/repo".to_vec()));
    assert!(!is_git_url(&b"./local/path".to_vec()));
    assert!(!is_git_url(&b"/absolute/path".to_vec()));
    assert!(!is_git_url(&b"relative/path".to_vec()));
}

#[test]
fn test_parse_git_url_https() {
    let parsed = parse_git_url(&b"https://github.com/org/repo.git".to_vec());
    assert_eq!(parsed.repo_url, b"https://github.com/org/repo.git".to_vec());
    assert!(parsed.subpath.is_none());
}

#[test]
fn test_parse_git_url_with_subpath() {
    let parsed = parse_git_url(&b"https://github.com/org/repo.git#templates/api".to_vec());
    assert_eq!(parsed.repo_url, b"https://github.com/org/repo.git".to_vec());
    assert_eq!(parsed.subpath, Some(b"templates/api".to_vec()));
}

#[test]
fn test_parse_git_url_github_shorthand() {
    let parsed = parse_git_url(&b"github:org/repo".to_vec());
    assert_eq!(parsed.repo_url, b"https://github.com/org/repo.git".to_vec());
    assert!(parsed.subpath.is_none());
}

#[test]
fn test_parse_git_url_github_shorthand_with_subpath() {
    let parsed = parse_git_url(&b"github:org/repo#templates/api".to_vec());
    assert_eq!(parsed.repo_url, b"https://github.com/org/repo.git".to_vec());
    assert_eq!(parsed.subpath, Some(b"templates/api".to_vec()));
}

#[test]
fn test_parse_git_url_splits_at_first_hash() {
    let parsed = parse_git_url(&b"https://host/r.git#a#b".to_vec());
    assert_eq!(parsed.repo_url, b"https://host/r.git".to_vec());
    assert_eq!(parsed.subpath, Some(b"a#b".to_vec()));
}
