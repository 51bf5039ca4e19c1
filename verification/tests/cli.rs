use catr::config::is_stdin;
use catr::args::{configure, usage};
use catr::emit::{open_failure, target_text, write_lines};
use catr::{get_args, run, Action, Config, Event, LineEmitter, Numbering, Source, Transcript};

fn strings(words: &[&str]) -> Vec<String> {
    words.iter().map(|w| w.to_string()).collect()
}

fn sample() -> Vec<String> {
    strings(&["foo", "", "bar"])
}

const BUSTLE: [&str; 9] = [
    "The bustle in a house",
    "The morning after death",
    "Is solemnest of industries",
    "Enacted upon earth,—",
    "",
    "The sweeping up the heart,",
    "And putting love away",
    "We shall not want to use again",
    "Until eternity.",
];

#[test]
fn skips_bad_file() {
    let bad = "gX4kQ9z";
    let config = Config::new(strings(&[bad]), false, false);
    let sources = vec![Source::Unopened("No such file or directory (os error 2)".to_string())];
    let transcript = run(config, sources);
    assert!(transcript.result.is_ok());
    assert_eq!(transcript.stdout, "");
    assert!(transcript.stderr.starts_with(&format!("{}: ", bad)));
    assert!(transcript.stderr.ends_with(" (os error 2)\n"));
    assert_eq!(transcript.stderr, "gX4kQ9z: No such file or directory (os error 2)\n");
}

#[test]
fn plain_output_is_the_input() {
    assert_eq!(target_text(Numbering::Off, &sample()), "foo\n\nbar\n");
}

#[test]
fn every_line_is_numbered() {
    assert_eq!(target_text(Numbering::All, &sample()), "     1\tfoo\n     2\t\n     3\tbar\n");
}

#[test]
fn nonblank_lines_are_numbered() {
    assert_eq!(target_text(Numbering::NonBlank, &sample()), "     1\tfoo\n\n     2\tbar\n");
}

#[test]
fn empty_target_writes_nothing() {
    let none: Vec<String> = Vec::new();
    assert_eq!(target_text(Numbering::Off, &none), "");
    assert_eq!(target_text(Numbering::All, &none), "");
    assert_eq!(target_text(Numbering::NonBlank, &none), "");
    let transcript = run(Config::new(strings(&["empty.txt"]), true, true), vec![Source::Lines(Vec::new())]);
    assert_eq!(transcript.stdout, "");
    assert_eq!(transcript.stderr, "");
    assert!(transcript.result.is_ok());
}

#[test]
fn bustle_plain() {
    let lines = strings(&BUSTLE);
    let expected: String = BUSTLE.iter().map(|l| format!("{}\n", l)).collect();
    let transcript = run(Config::new(strings(&["the-bustle.txt"]), false, false), vec![Source::Lines(lines)]);
    assert_eq!(transcript.stdout, expected);
    assert!(transcript.result.is_ok());
}

#[test]
fn bustle_numbered() {
    let lines = strings(&BUSTLE);
    let transcript = run(Config::new(strings(&["the-bustle.txt"]), true, false), vec![Source::Lines(lines)]);
    let expected = "     1\tThe bustle in a house\n     2\tThe morning after death\n     3\tIs solemnest of industries\n     4\tEnacted upon earth,—\n     5\t\n     6\tThe sweeping up the heart,\n     7\tAnd putting love away\n     8\tWe shall not want to use again\n     9\tUntil eternity.\n";
    assert_eq!(transcript.stdout, expected);
}

#[test]
fn bustle_nonblank() {
    let lines = strings(&BUSTLE);
    let transcript = run(Config::new(strings(&["the-bustle.txt"]), false, true), vec![Source::Lines(lines)]);
    let expected = "     1\tThe bustle in a house\n     2\tThe morning after death\n     3\tIs solemnest of industries\n     4\tEnacted upon earth,—\n\n     5\tThe sweeping up the heart,\n     6\tAnd putting love away\n     7\tWe shall not want to use again\n     8\tUntil eternity.\n";
    assert_eq!(transcript.stdout, expected);
}

#[test]
fn stdin_is_treated_as_a_file() {
    let from_file = run(Config::new(strings(&["the-bustle.txt"]), false, true), vec![Source::Lines(strings(&BUSTLE))]);
    let from_stdin = run(Config::new(strings(&["-"]), false, true), vec![Source::Lines(strings(&BUSTLE))]);
    assert_eq!(from_file.stdout, from_stdin.stdout);
    assert_eq!(from_file.stderr, from_stdin.stderr);
    assert!(from_stdin.result.is_ok());
}

#[test]
fn numbering_every_line_wins_over_nonblank() {
    let config = Config::new(strings(&["a"]), true, true);
    assert_eq!(config.numbering(), Numbering::All);
    let transcript = run(config, vec![Source::Lines(sample())]);
    assert_eq!(transcript.stdout, "     1\tfoo\n     2\t\n     3\tbar\n");
    assert_eq!(Config::new(Vec::new(), false, true).numbering(), Numbering::NonBlank);
    assert_eq!(Config::new(Vec::new(), false, false).numbering(), Numbering::Off);
}

#[test]
fn numbering_restarts_with_each_target() {
    let config = Config::new(strings(&["a", "b"]), true, false);
    let transcript = run(config, vec![Source::Lines(sample()), Source::Lines(strings(&["x", "y"]))]);
    assert_eq!(transcript.stdout, "     1\tfoo\n     2\t\n     3\tbar\n     1\tx\n     2\ty\n");
    let config = Config::new(strings(&["a", "b"]), false, true);
    let transcript = run(config, vec![Source::Lines(sample()), Source::Lines(strings(&["", "y"]))]);
    assert_eq!(transcript.stdout, "     1\tfoo\n\n     2\tbar\n\n     1\ty\n");
}

#[test]
fn missing_second_target_is_reported_and_skipped() {
    let config = Config::new(strings(&["here.txt", "gone.txt", "there.txt"]), false, false);
    let sources = vec![
        Source::Lines(sample()),
        Source::Unopened("No such file or directory (os error 2)".to_string()),
        Source::Lines(strings(&["end"])),
    ];
    let transcript = run(config, sources);
    assert_eq!(transcript.stdout, "foo\n\nbar\nend\n");
    assert_eq!(transcript.stderr, "gone.txt: No such file or directory (os error 2)\n");
    assert!(transcript.result.is_ok());
}

#[test]
fn failed_read_ends_the_run() {
    let config = Config::new(strings(&["a", "b", "c", "d"]), true, false);
    let sources = vec![
        Source::Unopened("Permission denied (os error 13)".to_string()),
        Source::Lines(strings(&["one"])),
        Source::Broken(strings(&["two", "three"]), "stream did not contain valid UTF-8".to_string()),
        Source::Lines(strings(&["never"])),
    ];
    let transcript = run(config, sources);
    assert_eq!(transcript.stdout, "     1\tone\n     1\ttwo\n     2\tthree\n");
    assert_eq!(transcript.stderr, "a: Permission denied (os error 13)\n");
    match transcript.result {
        Err(e) => assert_eq!(e.message, "stream did not contain valid UTF-8"),
        Ok(()) => panic!("the run should have failed"),
    }
}

#[test]
fn targets_without_a_source_are_left_alone() {
    let config = Config::new(strings(&["a", "b"]), false, false);
    let transcript = run(config, vec![Source::Lines(strings(&["only"]))]);
    assert_eq!(transcript.stdout, "only\n");
    assert_eq!(transcript.stderr, "");
    assert!(transcript.result.is_ok());
    let config = Config::new(strings(&["a"]), false, false);
    let transcript = run(
        config,
        vec![Source::Lines(strings(&["only"])), Source::Unopened("spare".to_string())],
    );
    assert_eq!(transcript.stdout, "only\n");
    assert_eq!(transcript.stderr, "");
}

#[test]
fn open_failure_names_the_target() {
    assert_eq!(open_failure("x.txt", "No such file or directory (os error 2)"), "x.txt: No such file or directory (os error 2)\n");
    assert_eq!(open_failure("", ""), ": \n");
}

#[test]
fn emitter_counts_within_a_target() {
    let mut emitter = LineEmitter::new(Numbering::NonBlank);
    assert_eq!(emitter.numbering(), Numbering::NonBlank);
    assert_eq!(emitter.last_num(), 0);
    assert_eq!(emitter.emit(""), "\n");
    assert_eq!(emitter.last_num(), 0);
    assert_eq!(emitter.emit("a"), "     1\ta\n");
    assert_eq!(emitter.emit(" "), "     2\t \n");
    assert_eq!(emitter.last_num(), 2);
    emitter.begin_target();
    assert_eq!(emitter.last_num(), 0);
    assert_eq!(emitter.numbering(), Numbering::NonBlank);
    assert_eq!(emitter.emit("b"), "     1\tb\n");
}

#[test]
fn emitter_without_numbering_does_not_count() {
    let mut emitter = LineEmitter::new(Numbering::Off);
    assert_eq!(emitter.emit("a\tb"), "a\tb\n");
    assert_eq!(emitter.emit(""), "\n");
    assert_eq!(emitter.last_num(), 0);
    let mut all = LineEmitter::new(Numbering::All);
    assert_eq!(all.emit(""), "     1\t\n");
    assert_eq!(all.emit("später"), "     2\tspäter\n");
    assert_eq!(all.last_num(), 2);
}

#[test]
fn stdin_is_the_single_hyphen() {
    assert!(is_stdin("-"));
    assert!(!is_stdin(""));
    assert!(!is_stdin("--"));
    assert!(!is_stdin("a"));
    assert!(!is_stdin("-a"));
    assert!(!is_stdin("–"));
    assert_eq!(catr::config::STDIN, "-");
}

#[test]
fn config_defaults_to_stdin() {
    let config = Config::new(Vec::new(), false, false);
    assert_eq!(config.files(), &strings(&["-"]));
    assert!(!config.number_lines());
    assert!(!config.number_nonblank_lines());
    let config = Config::new(strings(&["a", "-", "b"]), true, false);
    assert_eq!(config.files(), &strings(&["a", "-", "b"]));
    assert!(config.number_lines());
    assert!(!config.number_nonblank_lines());
    let config = Config::new(strings(&["a"]), false, true);
    assert!(!config.number_lines());
    assert!(config.number_nonblank_lines());
}

#[test]
fn args_without_targets_read_stdin() {
    let config = get_args(strings(&["catr"])).unwrap();
    assert_eq!(config.files(), &strings(&["-"]));
    assert!(!config.number_lines());
    assert!(!config.number_nonblank_lines());
    let config = get_args(Vec::new()).unwrap();
    assert_eq!(config.files(), &strings(&["-"]));
}

#[test]
fn args_name_targets_in_order() {
    let config = get_args(strings(&["catr", "b.txt", "-", "a.txt"])).unwrap();
    assert_eq!(config.files(), &strings(&["b.txt", "-", "a.txt"]));
    assert!(!config.number_lines());
    assert!(!config.number_nonblank_lines());
}

#[test]
fn args_number_flag() {
    for flag in ["-n", "--number"] {
        let config = get_args(strings(&["catr", flag, "foo"])).unwrap();
        assert_eq!(config.files(), &strings(&["foo"]));
        assert!(config.number_lines());
        assert!(!config.number_nonblank_lines());
        assert_eq!(config.numbering(), Numbering::All);
    }
    let config = get_args(strings(&["catr", "foo", "-n"])).unwrap();
    assert_eq!(config.files(), &strings(&["foo"]));
    assert!(config.number_lines());
}

#[test]
fn args_nonblank_flag() {
    for flag in ["-b", "--number-nonblank"] {
        let config = get_args(strings(&["catr", flag])).unwrap();
        assert_eq!(config.files(), &strings(&["-"]));
        assert!(!config.number_lines());
        assert!(config.number_nonblank_lines());
        assert_eq!(config.numbering(), Numbering::NonBlank);
    }
}

#[test]
fn args_with_both_flags_are_refused() {
    let error = get_args(strings(&["catr", "-n", "-b", "foo"])).unwrap_err();
    assert!(error.malformed);
    assert!(!error.message.is_empty());
    let error = get_args(strings(&["catr", "--number-nonblank", "--number"])).unwrap_err();
    assert!(error.malformed);
}

#[test]
fn args_with_an_unknown_flag_are_refused() {
    let error = get_args(strings(&["catr", "-x"])).unwrap_err();
    assert!(error.malformed);
    assert!(!error.message.is_empty());
    let error = get_args(strings(&["catr", "--numbers", "foo"])).unwrap_err();
    assert!(error.malformed);
}

#[test]
fn args_asking_for_help_are_not_malformed() {
    let error = get_args(strings(&["catr", "--help"])).unwrap_err();
    assert!(!error.malformed);
    assert!(error.message.contains("--number-nonblank"));
    assert!(error.message.contains("FILES"));
    let error = get_args(strings(&["catr", "-h"])).unwrap_err();
    assert!(!error.malformed);
    assert!(error.message.contains("catr"));
}

#[test]
fn args_asking_for_the_version_get_the_version_line() {
    for flag in ["--version", "-V"] {
        let error = get_args(strings(&["catr", flag])).unwrap_err();
        assert!(!error.malformed);
        assert_eq!(error.message, "catr 0.1.0");
    }
    let error = get_args(strings(&["/usr/local/bin/other", "-n", "foo", "--version"])).unwrap_err();
    assert!(!error.malformed);
    assert_eq!(error.message, "catr 0.1.0");
}

#[test]
fn args_asking_for_help_name_every_switch() {
    let error = get_args(strings(&["catr", "--help"])).unwrap_err();
    assert!(!error.malformed);
    for word in ["-n", "--number", "-b", "--number-nonblank", "-V", "--version", "-h", "--help", "0.1.0"] {
        assert!(error.message.contains(word), "the help text lacks {}", word);
    }
}

#[test]
fn args_behind_a_double_hyphen_are_targets() {
    let config = get_args(strings(&["catr", "--", "-n", "--number", "--version"])).unwrap();
    assert_eq!(config.files(), &strings(&["-n", "--number", "--version"]));
    assert!(!config.number_lines());
    assert!(!config.number_nonblank_lines());
}

#[test]
fn configure_without_values_reads_stdin() {
    let config = configure(None, false, true, false).unwrap();
    assert_eq!(config.files(), &strings(&["-"]));
    assert!(!config.number_lines());
    assert!(config.number_nonblank_lines());
    let config = configure(Some(Vec::new()), true, false, false).unwrap();
    assert_eq!(config.files(), &strings(&["-"]));
    assert!(config.number_lines());
    assert!(!config.number_nonblank_lines());
}

#[test]
fn configure_keeps_the_values_found() {
    let config = configure(Some(strings(&["b", "-", "a"])), false, false, false).unwrap();
    assert_eq!(config.files(), &strings(&["b", "-", "a"]));
    assert!(!config.number_lines());
    assert!(!config.number_nonblank_lines());
}

#[test]
fn configure_answers_a_request_for_the_version() {
    let error = configure(Some(strings(&["a"])), true, false, true).unwrap_err();
    assert!(!error.malformed);
    assert_eq!(error.message, "catr 0.1.0");
    let error = configure(None, false, false, true).unwrap_err();
    assert!(!error.malformed);
    assert_eq!(error.message, "catr 0.1.0");
}

#[test]
fn usage_is_this_programs_layout() {
    let usage = usage();
    assert_eq!(usage.program, "catr");
    assert_eq!(usage.version, "0.1.0");
    assert_eq!(usage.fallback, "-");
    assert_eq!((usage.number_short, usage.number_long), ("n", "number"));
    assert_eq!((usage.nonblank_short, usage.nonblank_long), ("b", "number-nonblank"));
    assert_eq!((usage.show_version_short, usage.show_version_long), ("V", "version"));
}

#[test]
fn args_then_run() {
    let config = get_args(strings(&["catr", "-b", "poem.txt", "missing.txt"])).unwrap();
    let sources = vec![
        Source::Lines(sample()),
        Source::Unopened("No such file or directory (os error 2)".to_string()),
    ];
    let transcript = run(config, sources);
    assert_eq!(transcript.stdout, "     1\tfoo\n\n     2\tbar\n");
    assert_eq!(transcript.stderr, "missing.txt: No such file or directory (os error 2)\n");
    assert!(transcript.result.is_ok());
}

#[test]
fn handle_opened_starts_counting_again() {
    let mut emitter = LineEmitter::new(Numbering::All);
    assert!(matches!(emitter.handle(Event::Line("a")), Action::Stdout(text) if text == "     1\ta\n"));
    assert!(matches!(emitter.handle(Event::Line("b")), Action::Stdout(text) if text == "     2\tb\n"));
    assert!(matches!(emitter.handle(Event::Opened), Action::Nothing));
    assert_eq!(emitter.last_num(), 0);
    assert!(matches!(emitter.handle(Event::Line("c")), Action::Stdout(text) if text == "     1\tc\n"));
}

#[test]
fn handle_unopened_reports_and_keeps_the_count() {
    let mut emitter = LineEmitter::new(Numbering::All);
    emitter.handle(Event::Line("a"));
    let action = emitter.handle(Event::Unopened("nope", "No such file or directory (os error 2)"));
    assert!(matches!(action, Action::Stderr(text) if text == "nope: No such file or directory (os error 2)\n"));
    assert_eq!(emitter.last_num(), 1);
}

#[test]
fn handle_failed_read_stops() {
    let mut emitter = LineEmitter::new(Numbering::Off);
    let action = emitter.handle(Event::ReadFailed("stream did not contain valid UTF-8"));
    assert!(matches!(action, Action::Stop(error) if error.message == "stream did not contain valid UTF-8"));
    assert_eq!(emitter.last_num(), 0);
}

#[test]
fn handle_line_follows_the_numbering() {
    let mut off = LineEmitter::new(Numbering::Off);
    assert!(matches!(off.handle(Event::Line("x")), Action::Stdout(text) if text == "x\n"));
    let mut nonblank = LineEmitter::new(Numbering::NonBlank);
    assert!(matches!(nonblank.handle(Event::Line("")), Action::Stdout(text) if text == "\n"));
    assert!(matches!(nonblank.handle(Event::Line("x")), Action::Stdout(text) if text == "     1\tx\n"));
}

#[test]
fn transcript_records_actions_until_the_run_fails() {
    let mut transcript = Transcript::new();
    assert_eq!(transcript.stdout, "");
    assert_eq!(transcript.stderr, "");
    assert!(transcript.result.is_ok());
    transcript.record(Action::Stdout("a\n".to_string()));
    transcript.record(Action::Nothing);
    transcript.record(Action::Stderr("x: gone\n".to_string()));
    transcript.record(Action::Stdout("b\n".to_string()));
    assert_eq!(transcript.stdout, "a\nb\n");
    assert_eq!(transcript.stderr, "x: gone\n");
    assert!(transcript.result.is_ok());
    let mut emitter = LineEmitter::new(Numbering::Off);
    transcript.record(emitter.handle(Event::ReadFailed("broken pipe")));
    transcript.record(Action::Stdout("c\n".to_string()));
    transcript.record(Action::Stderr("y: gone\n".to_string()));
    transcript.record(emitter.handle(Event::ReadFailed("again")));
    assert_eq!(transcript.stdout, "a\nb\n");
    assert_eq!(transcript.stderr, "x: gone\n");
    assert_eq!(transcript.result.unwrap_err().message, "broken pipe");
}

#[test]
fn write_lines_appends_to_what_is_there() {
    let mut emitter = LineEmitter::new(Numbering::NonBlank);
    let mut out = "before\n".to_string();
    write_lines(&mut emitter, &sample(), &mut out);
    assert_eq!(out, "before\n     1\tfoo\n\n     2\tbar\n");
    assert_eq!(emitter.last_num(), 2);
}

#[test]
fn long_numbers_push_the_text_to_the_right() {
    let mut lines: Vec<String> = Vec::new();
    let mut i = 0;
    while i < 1000001 {
        lines.push(String::new());
        i += 1;
    }
    let out = target_text(Numbering::All, &lines);
    assert!(out.starts_with("     1\t\n     2\t\n"));
    assert!(out.ends_with("999999\t\n1000000\t\n1000001\t\n"));
}

#[test]
fn odd_words_are_accepted_or_refused() {
    let words = [
        "", "-", "--", "---", "-n", "-b", "-nb", "-bn", "-nn", "-V", "-h", "-x", "-n=1", "--number",
        "--number=1", "--number-nonblank", "--num", "--version", "--help", "=", "a b", "ä", "{n}", "\n",
    ];
    for first in words {
        for second in words {
            for args in [strings(&["catr", first, second]), strings(&[first, second]), strings(&[first])] {
                let expect_files = args.len() > 1 && args[1..].iter().all(|w| !w.starts_with('-') || w == "-");
                let named: Vec<String> = args[1..].to_vec();
                match get_args(args) {
                    Ok(config) => {
                        assert!(!config.files().is_empty());
                        assert!(!(config.number_lines() && config.number_nonblank_lines()));
                        if expect_files {
                            assert_eq!(config.files(), &named);
                        }
                    }
                    Err(error) => {
                        assert!(!expect_files);
                        assert!(!error.message.is_empty());
                    }
                }
            }
        }
    }
}
