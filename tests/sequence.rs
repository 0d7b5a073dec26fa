use file_input::input;
use file_input::reader::Action;
use file_input::reader::Event;
use file_input::reader::FileInput;
use file_input::resolve::Source;

/// Plays the caller's part against in-memory contents: `files` gives each
/// path's text, or `None` where opening it fails; `stdin` is standard
/// input. Makes `pulls` pulls and records each element and every opening.
fn drive(
    reader: &mut FileInput,
    files: &[(&str, Option<&str>)],
    stdin: &str,
    pulls: usize,
) -> (Vec<Option<Result<String, ()>>>, Vec<String>) {
    let mut out = Vec::new();
    let mut opened = Vec::new();
    let mut lines: Vec<String> = Vec::new();
    let mut pos = 0;
    for _ in 0..pulls {
        let mut action = reader.step(Event::Pull);
        let element = loop {
            match action {
                Action::Open(i) => {
                    let text = match reader.source(i) {
                        Some(Source::FilePath(p)) => {
                            opened.push(p.clone());
                            files.iter().find(|(n, _)| n == p).and_then(|(_, t)| *t)
                        }
                        Some(Source::StandardInput) => {
                            opened.push("<stdin>".to_string());
                            Some(stdin)
                        }
                        None => None,
                    };
                    action = match text {
                        Some(t) => {
                            lines = t.split_inclusive('\n').map(|l| l.to_string()).collect();
                            pos = 0;
                            reader.step(Event::Opened)
                        }
                        None => reader.step(Event::OpenFailed),
                    };
                }
                Action::ReadLine => {
                    action = if pos < lines.len() {
                        pos += 1;
                        reader.step(Event::LineRead(lines[pos - 1].clone()))
                    } else {
                        reader.step(Event::EndOfStream)
                    };
                }
                Action::Emit(line) => break Some(Ok(line)),
                Action::Fail => break Some(Err(())),
                Action::Finish => break None,
            }
        };
        out.push(element);
    }
    (out, opened)
}

fn args(items: &[&str]) -> Vec<String> {
    items.iter().map(|s| s.to_string()).collect()
}

fn line(s: &str) -> Option<Result<String, ()>> {
    Some(Ok(s.to_string()))
}

#[test]
fn two_files_yield_their_lines_in_order() {
    let mut r = input(&args(&["--files", "a.txt", "b.txt"]));
    let files = [("a.txt", Some("hello\n")), ("b.txt", Some("world\n"))];
    let (out, _) = drive(&mut r, &files, "", 3);
    assert_eq!(out, vec![line("hello"), line("world"), None]);
}

#[test]
fn missing_file_fails_then_ends() {
    let mut r = input(&args(&["--files", "missing.txt"]));
    let (out, _) = drive(&mut r, &[("missing.txt", None)], "", 2);
    assert_eq!(out, vec![Some(Err(())), None]);
}

#[test]
fn no_arguments_read_stdin() {
    let mut r = input(&[]);
    let (out, opened) = drive(&mut r, &[("a.txt", Some("file\n"))], "one\ntwo\n", 3);
    assert_eq!(out, vec![line("one"), line("two"), None]);
    assert_eq!(opened, vec!["<stdin>".to_string()]);
}

#[test]
fn flag_without_paths_reads_stdin() {
    let mut r = input(&args(&["--files", "-v"]));
    let (out, opened) = drive(&mut r, &[], "only\n", 2);
    assert_eq!(out, vec![line("only"), None]);
    assert_eq!(opened, vec!["<stdin>".to_string()]);
}

#[test]
fn empty_source_is_skipped() {
    let sources = vec![Source::FilePath("A".to_string()), Source::FilePath("B".to_string())];
    let mut r = FileInput::from_sources(sources);
    let (out, _) = drive(&mut r, &[("A", Some("")), ("B", Some("x\ny\n"))], "", 3);
    assert_eq!(out, vec![line("x"), line("y"), None]);
}

#[test]
fn several_files_concatenate() {
    let mut r = input(&args(&["-q", "--files", "a", "b", "c", "--verbose"]));
    let files = [("a", Some("1\r\n2\n")), ("b", Some("")), ("c", Some("3\n4"))];
    let (out, _) = drive(&mut r, &files, "stdin\n", 5);
    assert_eq!(out, vec![line("1"), line("2"), line("3"), line("4"), None]);
}

#[test]
fn end_is_repeated() {
    let mut r = input(&args(&["--files", "a.txt"]));
    let (out, _) = drive(&mut r, &[("a.txt", Some("z\n"))], "", 6);
    assert_eq!(out, vec![line("z"), None, None, None, None, None]);
    assert!(r.is_exhausted());
    assert!(matches!(r.step(Event::Pull), Action::Finish));
}

#[test]
fn later_file_is_not_opened_early() {
    let mut r = input(&args(&["--files", "good.txt", "missing.txt"]));
    let files = [("good.txt", Some("a\nb\n")), ("missing.txt", None)];
    let (out, opened) = drive(&mut r, &files, "", 2);
    assert_eq!(out, vec![line("a"), line("b")]);
    assert_eq!(opened, vec!["good.txt".to_string()]);
}

#[test]
fn nothing_opened_before_first_pull() {
    let mut r = input(&args(&["--files", "missing.txt"]));
    let (out, opened) = drive(&mut r, &[], "", 0);
    assert!(out.is_empty());
    assert!(opened.is_empty());
    assert!(!r.is_exhausted());
}

#[test]
fn failing_source_is_skipped() {
    let mut r = input(&args(&["--files", "missing.txt", "b.txt"]));
    let files = [("missing.txt", None), ("b.txt", Some("after\n"))];
    let (out, opened) = drive(&mut r, &files, "", 3);
    assert_eq!(out, vec![Some(Err(())), line("after"), None]);
    assert_eq!(opened, vec!["missing.txt".to_string(), "b.txt".to_string()]);
}

#[test]
fn read_failure_is_reported_and_reading_goes_on() {
    let mut r = FileInput::from_sources(vec![Source::StandardInput]);
    assert!(matches!(r.step(Event::Pull), Action::Open(0)));
    assert!(matches!(r.step(Event::Opened), Action::ReadLine));
    assert!(matches!(r.step(Event::ReadFailed), Action::Fail));
    assert!(matches!(r.step(Event::Pull), Action::ReadLine));
    match r.step(Event::LineRead("next\r\n".to_string())) {
        Action::Emit(l) => assert_eq!(l, "next"),
        _ => panic!("expected a line"),
    }
    assert!(matches!(r.step(Event::Pull), Action::ReadLine));
    assert!(matches!(r.step(Event::EndOfStream), Action::Finish));
    assert!(r.is_exhausted());
}

#[test]
fn empty_source_list_is_exhausted() {
    let mut r = FileInput::from_sources(Vec::new());
    assert!(r.is_exhausted());
    assert!(matches!(r.step(Event::Pull), Action::Finish));
    assert!(r.source(0).is_none());
}
