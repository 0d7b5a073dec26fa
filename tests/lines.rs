use file_input::line::strip_line_terminator;
use file_input::resolve::extract_file_args;
use file_input::resolve::resolve_sources;
use file_input::resolve::Source;

fn args(items: &[&str]) -> Vec<String> {
    items.iter().map(|s| s.to_string()).collect()
}

fn paths(sources: &[Source]) -> Vec<Option<String>> {
    sources
        .iter()
        .map(|s| match s {
            Source::FilePath(p) => Some(p.clone()),
            Source::StandardInput => None,
        })
        .collect()
}

#[test]
fn strip_removes_newline() {
    assert_eq!(strip_line_terminator("hello\n"), "hello");
}

#[test]
fn strip_removes_crlf() {
    assert_eq!(strip_line_terminator("hello\r\n"), "hello");
}

#[test]
fn strip_removes_only_one_terminator() {
    assert_eq!(strip_line_terminator("a\n\n"), "a\n");
    assert_eq!(strip_line_terminator("a  \n"), "a  ");
}

#[test]
fn strip_keeps_unterminated_line() {
    assert_eq!(strip_line_terminator("last"), "last");
    assert_eq!(strip_line_terminator("x\r"), "x\r");
    assert_eq!(strip_line_terminator(""), "");
}

#[test]
fn extract_collects_after_flag() {
    let a = args(&["--files", "a.txt", "b.txt"]);
    assert_eq!(extract_file_args("files", &a), args(&["a.txt", "b.txt"]));
}

#[test]
fn extract_ignores_arguments_before_flag() {
    let a = args(&["-v", "out.txt", "--files", "a.txt"]);
    assert_eq!(extract_file_args("files", &a), args(&["a.txt"]));
}

#[test]
fn extract_stops_at_next_flag() {
    let a = args(&["--files", "a.txt", "-n", "b.txt"]);
    assert_eq!(extract_file_args("files", &a), args(&["a.txt"]));
}

#[test]
fn extract_repeated_flag_ends_collection() {
    let a = args(&["--files", "a.txt", "--files", "b.txt"]);
    assert_eq!(extract_file_args("files", &a), args(&["a.txt"]));
}

#[test]
fn extract_flag_followed_by_flag_is_empty() {
    let a = args(&["--files", "--files", "a.txt"]);
    assert!(extract_file_args("files", &a).is_empty());
    let s = resolve_sources("files", &a);
    assert_eq!(paths(&s), vec![None]);
}

#[test]
fn extract_uses_the_given_flag_name() {
    let a = args(&["--files", "a.txt", "--input", "b.txt"]);
    assert_eq!(extract_file_args("input", &a), args(&["b.txt"]));
}

#[test]
fn extract_without_flag_is_empty() {
    let a = args(&["a.txt", "b.txt"]);
    assert!(extract_file_args("files", &a).is_empty());
    assert!(extract_file_args("files", &[]).is_empty());
}

#[test]
fn resolve_names_files_in_order() {
    let a = args(&["--files", "a.txt", "b.txt"]);
    let s = resolve_sources("files", &a);
    assert_eq!(paths(&s), vec![Some("a.txt".to_string()), Some("b.txt".to_string())]);
}

#[test]
fn resolve_falls_back_to_stdin_without_flag() {
    let s = resolve_sources("files", &args(&["x", "y"]));
    assert_eq!(paths(&s), vec![None]);
}

#[test]
fn resolve_falls_back_to_stdin_with_empty_flag() {
    let s = resolve_sources("files", &args(&["--files", "--other"]));
    assert_eq!(paths(&s), vec![None]);
    let s = resolve_sources("files", &args(&["--files"]));
    assert_eq!(paths(&s), vec![None]);
}
