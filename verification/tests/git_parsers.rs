//! Tests for the parsers of `git` query output.

use restack::git::parse_rebase_head;
use restack::git::parse_show_ref_line;
use restack::git::parse_show_ref_output;
use restack::git::interpret_comment_string;
use restack::git::resolve_git_dir;
use restack::git::CommentStringError;
use restack::git::Shell;

#[test]
fn show_ref_line_branch() {
    let b = parse_show_ref_line("a1b2c3 refs/heads/main").expect("a branch");
    assert_eq!("main", b.name);
    assert_eq!("a1b2c3", b.shorthash);
}

#[test]
fn show_ref_line_nested_name() {
    let b = parse_show_ref_line("deadbeef refs/heads/feature/wip").expect("a branch");
    assert_eq!("feature/wip", b.name);
    assert_eq!("deadbeef", b.shorthash);
}

#[test]
fn show_ref_line_not_a_head() {
    assert!(parse_show_ref_line("a1b2c3 refs/tags/v1.0").is_none());
    assert!(parse_show_ref_line("a1b2c3").is_none());
    assert!(parse_show_ref_line("").is_none());
}

#[test]
fn show_ref_output_many() {
    let lines: Vec<String> = vec![
        "1111 refs/heads/bar".to_string(),
        "2222 refs/tags/skip-me".to_string(),
        "3333 refs/heads/foo".to_string(),
    ];
    let branches = parse_show_ref_output(&lines);
    assert_eq!(2, branches.len());
    assert_eq!("bar", branches[0].name);
    assert_eq!("1111", branches[0].shorthash);
    assert_eq!("foo", branches[1].name);
    assert_eq!("3333", branches[1].shorthash);
}

#[test]
fn rebase_head_strips_prefix() {
    assert_eq!("feature2", parse_rebase_head("refs/heads/feature2\n"));
}

#[test]
fn rebase_head_bare_name() {
    assert_eq!("feature2", parse_rebase_head("  feature2  "));
}

#[test]
fn rebase_head_keeps_inner_text() {
    assert_eq!("refs/tags/x", parse_rebase_head("refs/tags/x\n"));
}

#[test]
fn git_dir_absolute_output() {
    assert_eq!("/repo/.git", resolve_git_dir("/work", "/repo/.git\n"));
}

#[test]
fn git_dir_relative_output() {
    assert_eq!("/work/.git", resolve_git_dir("/work", ".git\n"));
}

#[test]
fn git_dir_relative_output_trailing_slash() {
    assert_eq!("/work/.git", resolve_git_dir("/work/", ".git"));
}

#[test]
fn comment_char_default() {
    assert_eq!("#", interpret_comment_string("").expect("a marker"));
}

#[test]
fn comment_char() {
    assert_eq!(";", interpret_comment_string(";").expect("a marker"));
}

#[test]
fn comment_string() {
    assert_eq!("#:", interpret_comment_string("#:").expect("a marker"));
}

#[test]
fn comment_char_auto() {
    assert!(matches!(
        interpret_comment_string("auto"),
        Err(CommentStringError::AutoUnsupported)
    ));
}

#[test]
fn shell_builds() {
    let _shell = Shell::new();
}
