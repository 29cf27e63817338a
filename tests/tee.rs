use line_tools::tee::{
    content_of_line, is_append_flag, parse_args, setup_failure, sinks_in_order, Action, Copier,
    Event, OpenMode, Phase, Sink, TeeError,
};

fn strings(v: &[&str]) -> Vec<String> {
    v.iter().map(|s| s.to_string()).collect()
}

/// Runs a copier without failures and gathers what each sink receives.
fn run(input: &str, n_files: usize) -> Vec<String> {
    let mut out = vec![String::new(); n_files + 1];
    let mut copier = Copier::new(n_files);
    for raw in input.split_inclusive('\n') {
        match copier.step(Event::Line(raw.to_string())) {
            Action::Write { sinks, text } => {
                for s in sinks {
                    let i = match s {
                        Sink::Console => 0,
                        Sink::File(k) => k + 1,
                    };
                    out[i].push_str(&text);
                }
            }
            _ => panic!("a line must lead to a write"),
        }
    }
    match copier.step(Event::InputEnd) {
        Action::Flush { sinks } => assert_eq!(sinks, sinks_in_order(n_files)),
        _ => panic!("the end of input must lead to a flush"),
    }
    assert!(matches!(copier.step(Event::Flushed), Action::Finish));
    assert_eq!(copier.phase, Phase::Done);
    out
}

#[test]
fn flag_recognition() {
    assert!(is_append_flag("-a"));
    assert!(is_append_flag("--append"));
    assert!(!is_append_flag("-A"));
    assert!(!is_append_flag("--app"));
    assert!(!is_append_flag("a"));
}

#[test]
fn parse_args_flags_anywhere() {
    let c = parse_args(&strings(&["x.txt", "-a", "y.txt", "--append", "-a"]));
    assert!(c.append);
    assert_eq!(c.destination_paths, strings(&["x.txt", "y.txt"]));
    let c = parse_args(&strings(&[]));
    assert!(!c.append);
    assert!(c.destination_paths.is_empty());
}

#[test]
fn open_mode_follows_flag() {
    let m = parse_args(&strings(&["-a", "f"])).open_mode();
    assert_eq!(m, OpenMode { create: true, write: true, append: true, truncate: false });
    let m = parse_args(&strings(&["f"])).open_mode();
    assert_eq!(m, OpenMode { create: true, write: true, append: false, truncate: true });
}

#[test]
fn sink_order_console_first() {
    assert_eq!(sinks_in_order(0), vec![Sink::Console]);
    assert_eq!(sinks_in_order(2), vec![Sink::Console, Sink::File(0), Sink::File(1)]);
}

#[test]
fn line_content_strips_newline_and_cr() {
    assert_eq!(content_of_line("abc\n"), "abc");
    assert_eq!(content_of_line("abc\r\n"), "abc\r");
    assert_eq!(content_of_line("abc\r"), "abc\r");
    assert_eq!(content_of_line("abc"), "abc");
    assert_eq!(content_of_line("\n"), "");
}

#[test]
fn every_sink_gets_every_line() {
    let out = run("one\ntwo\n\nthree\n", 3);
    for o in &out {
        assert_eq!(o, "one\ntwo\n\nthree\n");
        assert_eq!(o.matches('\n').count(), 4);
    }
}

#[test]
fn truncating_twice_keeps_last_run() {
    let mode = parse_args(&strings(&["out.txt"])).open_mode();
    let first = mode.content_after("old\n", &run("r1\n", 1)[1]);
    let second = mode.content_after(&first, &run("r2\n", 1)[1]);
    assert_eq!(second, "r2\n");
}

#[test]
fn appending_twice_concatenates() {
    let mode = parse_args(&strings(&["-a", "out.txt", "-a"])).open_mode();
    let first = mode.content_after("", &run("r1\n", 1)[1]);
    let second = mode.content_after(&first, &run("r2a\nr2b\n", 1)[1]);
    assert_eq!(second, "r1\nr2a\nr2b\n");
}

#[test]
fn no_files_is_passthrough() {
    let out = run("a\nb\n", 0);
    assert_eq!(out, vec!["a\nb\n".to_string()]);
}

#[test]
fn empty_input_writes_nothing_but_truncates() {
    let out = run("", 2);
    assert!(out.iter().all(|o| o.is_empty()));
    let mode = parse_args(&strings(&["f"])).open_mode();
    assert_eq!(mode.content_after("old\n", &out[1]), "");
}

#[test]
fn unterminated_last_line_gets_newline() {
    let out = run("a\nlast", 1);
    assert_eq!(out[0], "a\nlast\n");
    assert_eq!(out[1], "a\nlast\n");
}

#[test]
fn scenario_console_only() {
    let c = parse_args(&strings(&[]));
    assert!(c.destination_paths.is_empty());
    let out = run("a\nb\n", c.destination_paths.len());
    assert_eq!(out[0], "a\nb\n");
    assert_eq!(out.len(), 1);
}

#[test]
fn scenario_append_to_existing() {
    let c = parse_args(&strings(&["-a", "out.txt"]));
    assert_eq!(c.destination_paths, strings(&["out.txt"]));
    let out = run("x\n", 1);
    assert_eq!(c.open_mode().content_after("old\n", &out[1]), "old\nx\n");
}

#[test]
fn scenario_truncate_existing() {
    let c = parse_args(&strings(&["out.txt"]));
    let out = run("y\n", 1);
    assert_eq!(c.open_mode().content_after("old\n", &out[1]), "y\n");
}

#[test]
fn failures_abort_with_their_error() {
    let mut c = Copier::new(1);
    assert!(matches!(c.step(Event::InputFailed), Action::Abort(TeeError::InputRead)));
    assert_eq!(c.phase, Phase::Failed);

    let mut c = Copier::new(2);
    let _ = c.step(Event::Line("a\n".to_string()));
    assert!(matches!(
        c.step(Event::WriteFailed(Sink::File(1))),
        Action::Abort(TeeError::SinkWrite(Sink::File(1)))
    ));
    assert_eq!(c.phase, Phase::Failed);

    let mut c = Copier::new(0);
    let _ = c.step(Event::InputEnd);
    assert_eq!(c.phase, Phase::Draining);
    assert!(matches!(
        c.step(Event::FlushFailed(Sink::Console)),
        Action::Abort(TeeError::SinkWrite(Sink::Console))
    ));
    assert_eq!(c.phase, Phase::Failed);
    assert_ne!(TeeError::DestinationOpen(0), TeeError::InputRead);
}

#[test]
fn carriage_returns_pass_through() {
    let out = run("a\r\nb\r\n", 1);
    assert_eq!(out[0], "a\r\nb\r\n");
    assert_eq!(out[1], "a\r\nb\r\n");
    assert_eq!(run("a\r\nlast", 0)[0], "a\r\nlast\n");
}

#[test]
fn setup_stops_at_first_failed_open() {
    assert_eq!(setup_failure(&vec![]), None);
    assert_eq!(setup_failure(&vec![true, true]), None);
    assert_eq!(setup_failure(&vec![true, false]), Some(TeeError::DestinationOpen(1)));
    assert_eq!(setup_failure(&vec![false, true, false]), Some(TeeError::DestinationOpen(0)));
}
