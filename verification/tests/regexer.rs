use regexer::{LineError, RegexCommand, RegexCommands};

#[test]
fn capture_substitution() {
    let c = RegexCommand::new("hi(.)".to_string(), "bye$1$1".to_string()).unwrap();
    assert_eq!(
        c.transmorgify("hi!!! (I am staring at a highland cow)"),
        "bye!!!! (I am staring at a byegghland cow)"
    );
}

#[test]
fn prose_round_trip() {
    let c = RegexCommand::new("hi(.)".to_string(), "bye$1$1".to_string()).unwrap();
    let variants = [
        r#""hi(.)" -> "bye$1$1""#,
        r#"comments can be left here "hi(.)" -> "bye$1$1""#,
        r#""hi(.)" -> "bye$1$1" here, too   "#,
        r#"   also on "hi(.)" -> "bye$1$1" both sides!  "#,
    ];
    for line in variants {
        let other = RegexCommand::from_line(line).unwrap();
        assert!(other == c);
    }
}

#[test]
fn arrow_without_spaces() {
    let c = RegexCommand::from_line("\"a\"->\"b\"").unwrap();
    assert_eq!(c.transmorgify("a"), "b");
}

#[test]
fn tabs_and_spaces_around_arrow() {
    let c = RegexCommand::from_line("\"a\"\t ->\t\"b\"").unwrap();
    assert_eq!(c.transmorgify("a"), "b");
}

#[test]
fn prose_may_contain_an_arrow() {
    let c = RegexCommand::from_line("maps a -> b here: \"a\" -> \"b\"").unwrap();
    let direct = RegexCommand::new("a".to_string(), "b".to_string()).unwrap();
    assert!(c == direct);
}

#[test]
fn escape_backslash_resolved_after_newline() {
    // Template source a\\nb (backslash, backslash, n) must stay a literal
    // backslash followed by an n - never become a newline.
    let parsed = RegexCommand::from_line("\"x\" -> \"a\\\\nb\"").unwrap();
    let direct = RegexCommand::new("x".to_string(), "a\\nb".to_string()).unwrap();
    assert!(parsed == direct);
    assert_eq!(parsed.transmorgify("x"), "a\\nb");
}

#[test]
fn escape_newline() {
    let parsed = RegexCommand::from_line("\"x\" -> \"x\\ny\"").unwrap();
    assert_eq!(parsed.transmorgify("x"), "x\ny");
}

#[test]
fn escape_carriage_return() {
    let parsed = RegexCommand::from_line("\"x\" -> \"a\\rb\"").unwrap();
    assert_eq!(parsed.transmorgify("x"), "a\rb");
}

#[test]
fn ordering_cascades() {
    let cmds = RegexCommands::from_str("\"a\" -> \"b\"\n\"b\" -> \"c\"").unwrap();
    assert_eq!(cmds.transmorgify(&"a".to_string()), "c");
}

#[test]
fn global_replacement() {
    let cmds = RegexCommands::from_str("\"a\" -> \"b\"").unwrap();
    assert_eq!(cmds.transmorgify(&"aaa".to_string()), "bbb");
}

#[test]
fn final_normalization() {
    let cmds = RegexCommands::from_str("").unwrap();
    assert_eq!(cmds.transmorgify(&"a\r\nb\u{00A0}c".to_string()), "a\nb c");
}

#[test]
fn normalization_collapses_carriage_return_runs() {
    let cmds = RegexCommands::from_str("").unwrap();
    assert_eq!(cmds.transmorgify(&"a\r\r\nb".to_string()), "a\nb");
    let once = cmds.transmorgify(&"\r\r\n\n".to_string());
    assert_eq!(once, "\n\n");
    assert_eq!(cmds.transmorgify(&once), once);
}

#[test]
fn lone_carriage_returns_are_kept() {
    let cmds = RegexCommands::from_str("").unwrap();
    assert_eq!(cmds.transmorgify(&"a\rb\r".to_string()), "a\rb\r");
}

#[test]
fn script_accepts_carriage_return_runs_before_newline() {
    let cmds = RegexCommands::from_str("\"a\" -> \"b\"\r\r\n\"b\" -> \"c\"").unwrap();
    assert_eq!(cmds.transmorgify(&"a".to_string()), "c");
}

#[test]
fn unicode_whitespace_around_arrow() {
    let c = RegexCommand::from_line("\"a\"\u{00A0}->\u{2002}\"b\"").unwrap();
    assert_eq!(c.transmorgify("a"), "b");
}

#[test]
fn normalization_idempotent_on_concrete_text() {
    let cmds = RegexCommands::from_str("//nothing").unwrap();
    let once = cmds.transmorgify(&"x\r\ny\u{00A0}z\rq".to_string());
    let twice = cmds.transmorgify(&once);
    assert_eq!(once, twice);
}

#[test]
fn comment_and_blank_lines_skipped() {
    let script = "// a comment\n\n// another\n";
    let cmds = RegexCommands::from_str(script).unwrap();
    assert_eq!(cmds.transmorgify(&"anything stays".to_string()), "anything stays");
}

#[test]
fn script_accepts_crlf_line_endings() {
    let cmds = RegexCommands::from_str("\"a\" -> \"b\"\r\n\"b\" -> \"c\"").unwrap();
    assert_eq!(cmds.transmorgify(&"a".to_string()), "c");
}

#[test]
fn fail_fast_on_malformed_line() {
    let script = "\"a\" -> \"b\"\njust some prose";
    match RegexCommands::from_str(script) {
        Ok(_) => panic!("malformed script accepted"),
        Err(e) => {
            assert_eq!(e.line, 2);
            assert!(matches!(e.cause, LineError::LineFormatError));
        }
    }
}

#[test]
fn error_on_first_line_is_line_one() {
    match RegexCommands::from_str("nope") {
        Ok(_) => panic!("plain prose accepted as a script"),
        Err(e) => {
            assert_eq!(e.line, 1);
            assert!(matches!(e.cause, LineError::LineFormatError));
        }
    }
}

#[test]
fn pattern_error_reports_line() {
    let script = "\"good\" -> \"fine\"\n\"(\" -> \"x\"\n\"more\" -> \"later\"";
    match RegexCommands::from_str(script) {
        Ok(_) => panic!("invalid pattern accepted"),
        Err(e) => {
            assert_eq!(e.line, 2);
            match e.cause {
                LineError::PatternError { message } => assert!(!message.is_empty()),
                LineError::LineFormatError => panic!("wrong cause"),
            }
        }
    }
}

#[test]
fn from_line_rejects_missing_arrow() {
    match RegexCommand::from_line("\"a\" \"b\"") {
        Ok(_) => panic!("line without arrow accepted"),
        Err(e) => assert!(matches!(e, LineError::LineFormatError)),
    }
}

#[test]
fn from_line_rejects_bad_pattern() {
    match RegexCommand::from_line("\"[\" -> \"x\"") {
        Ok(_) => panic!("bad pattern accepted"),
        Err(e) => assert!(matches!(e, LineError::PatternError { .. })),
    }
}

#[test]
fn new_rejects_bad_pattern() {
    match RegexCommand::new("(".to_string(), "x".to_string()) {
        Ok(_) => panic!("unbalanced group accepted"),
        Err(e) => assert!(matches!(e, LineError::PatternError { .. })),
    }
}

#[test]
fn equality_is_pattern_and_template() {
    let a = RegexCommand::new("x".to_string(), "y".to_string()).unwrap();
    let b = RegexCommand::new("x".to_string(), "y".to_string()).unwrap();
    let c = RegexCommand::new("x".to_string(), "z".to_string()).unwrap();
    let d = RegexCommand::new("w".to_string(), "y".to_string()).unwrap();
    assert!(a == b);
    assert!(a != c);
    assert!(a != d);
}

#[test]
fn description_quotes_pattern_and_template() {
    let c = RegexCommand::new("hi(.)".to_string(), "bye$1$1".to_string()).unwrap();
    assert_eq!(
        c.description(),
        "RegexCommand { find: \"hi(.)\", replace: \"bye$1$1\" }"
    );
}

#[test]
fn default_is_empty_pipeline() {
    let cmds = RegexCommands::default();
    assert_eq!(cmds.transmorgify(&"unchanged".to_string()), "unchanged");
}
