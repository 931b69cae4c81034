use yarn_codegen::expr::{ExprError, HostExpr, Literal, YarnExpr};
use yarn_codegen::speech::{
    build_args, build_speech, lex_line, line_id_in, part_tags, refuse, tags_in, CharState,
    LexError, LexErrorKind, Lexer, Mode, RawSpeaker, RawSpeech, Refusal, Speaker, Speech,
    SpeechError, StepResult,
};

fn own(text: &str) -> String {
    text.to_string()
}

fn own_vec(texts: &[&str]) -> Vec<String> {
    texts.iter().map(|t| t.to_string()).collect()
}

fn var(name: &str) -> HostExpr {
    HostExpr::Var(own(name))
}

#[test]
fn speaker_and_text() {
    let raw = lex_line("Houtamelo: This is the first line").unwrap();
    assert_eq!(
        raw,
        RawSpeech {
            speaker: Some(RawSpeaker::Literal(own("Houtamelo"))),
            literal: own(" This is the first line"),
            args: vec![],
            metadata: None,
        }
    );
    let speech = build_speech(raw, 1, None, vec![]).unwrap();
    assert_eq!(
        speech,
        Speech {
            line_number: 1,
            line_id: None,
            speaker: Some(Speaker::Literal(own("Houtamelo"))),
            text: (own("This is the first line"), vec![]),
            tags: vec![],
        }
    );
}

#[test]
fn text_with_one_argument() {
    let raw = lex_line("Houtamelo: Hello there, {$player_name}!").unwrap();
    assert_eq!(raw.literal, " Hello there, {}!");
    assert_eq!(raw.args, own_vec(&["$player_name"]));
    let speech = build_speech(raw, 2, None, vec![var("player_name")]).unwrap();
    assert_eq!(speech.speaker, Some(Speaker::Literal(own("Houtamelo"))));
    assert_eq!(
        speech.text,
        (own("Hello there, {}!"), vec![YarnExpr::GetVar(own("player_name"))])
    );
    assert_eq!(speech.line_number, 2);
}

#[test]
fn tags_without_line_id() {
    let raw = lex_line("This is a line #houtamelo:happy #narrator:sad").unwrap();
    assert_eq!(raw.speaker, None);
    assert_eq!(raw.metadata, Some(own("#houtamelo:happy #narrator:sad")));
    let speech = build_speech(raw, 3, None, vec![]).unwrap();
    assert_eq!(speech.tags, own_vec(&["houtamelo:happy", "narrator:sad"]));
    assert_eq!(speech.line_id, None);
    assert_eq!(speech.text.0, "This is a line");
}

#[test]
fn line_id_is_taken_out_of_the_tags() {
    let raw = lex_line("Some text #line:042 #mood:calm").unwrap();
    let speech = build_speech(raw, 4, None, vec![]).unwrap();
    assert_eq!(speech.line_id, Some(own("042")));
    assert_eq!(speech.tags, own_vec(&["mood:calm"]));
    assert_eq!(speech.text.0, "Some text");
}

#[test]
fn two_line_ids_are_refused() {
    let raw = lex_line("Some text #line:1 #mood:calm #line : 2").unwrap();
    let err = build_speech(raw, 4, None, vec![]).unwrap_err();
    assert_eq!(
        err,
        SpeechError::DuplicateLineId { ids: own_vec(&["1", "2"]), tags: own_vec(&["mood:calm"]) }
    );
    let raw = lex_line("x #line:1 #line:1").unwrap();
    assert!(matches!(
        build_speech(raw, 0, None, vec![]),
        Err(SpeechError::DuplicateLineId { .. })
    ));
}

#[test]
fn line_id_tags_are_case_sensitive() {
    assert_eq!(line_id_in("line:042"), Some(own("042")));
    assert_eq!(line_id_in("line :  a b "), Some(own("a b")));
    assert_eq!(line_id_in("line:"), Some(own("")));
    assert_eq!(line_id_in("Line:042"), None);
    assert_eq!(line_id_in("lines:042"), None);
    assert_eq!(line_id_in("line"), None);
    assert_eq!(line_id_in("lin"), None);
    assert_eq!(tags_in("# a ## b#"), own_vec(&["a", "b"]));
    assert_eq!(tags_in("#"), Vec::<String>::new());
    assert_eq!(
        part_tags(own_vec(&["x", "line:7", "y:z"])),
        (own_vec(&["7"]), own_vec(&["x", "y:z"]))
    );
}

#[test]
fn unescaped_closing_brace_is_refused() {
    let err = lex_line("abc } def").unwrap_err();
    assert_eq!(
        err,
        LexError {
            kind: LexErrorKind::UnexpectedClosingBrace,
            position: 4,
            speaker: None,
            literal: own("abc "),
            args: vec![],
            argument: own(""),
            nesting: vec![],
        }
    );
    let err = lex_line("{a} }").unwrap_err();
    assert_eq!(err.kind, LexErrorKind::UnexpectedClosingBrace);
    assert_eq!(err.position, 4);
    assert_eq!(err.literal, "{} ");
    assert_eq!(err.args, own_vec(&["a"]));
}

#[test]
fn escaped_braces_are_literal() {
    let raw = lex_line("a \\{x\\} b \\# c \\: d \\\\").unwrap();
    assert_eq!(raw.literal, "a {x} b # c : d \\");
    assert_eq!(raw.args, Vec::<String>::new());
    assert_eq!(raw.metadata, None);
    assert_eq!(raw.speaker, None);
}

#[test]
fn speaker_by_variable() {
    let raw = lex_line("{$name}: Hi").unwrap();
    assert_eq!(raw.speaker, Some(RawSpeaker::Variable(own("$name"))));
    assert_eq!(raw.literal, " Hi");
    assert_eq!(raw.args, Vec::<String>::new());
    let speech = build_speech(raw.clone(), 9, Some(var("name")), vec![]).unwrap();
    assert_eq!(speech.speaker, Some(Speaker::Variable(own("name"))));
    assert_eq!(speech.text, (own("Hi"), vec![]));

    assert_eq!(
        build_speech(raw.clone(), 9, None, vec![]).unwrap_err(),
        SpeechError::MissingSpeakerExpression { source: own("$name") }
    );
    assert_eq!(
        build_speech(raw.clone(), 9, Some(HostExpr::Lit(Literal::Bool(true))), vec![]).unwrap_err(),
        SpeechError::InvalidSpeakerVariable {
            source: own("$name"),
            found: YarnExpr::Literal(Literal::Bool(true)),
        }
    );
    assert_eq!(
        build_speech(raw, 9, Some(HostExpr::Other(own("a as b"))), vec![]).unwrap_err(),
        SpeechError::SpeakerNotTranslated {
            source: own("$name"),
            error: ExprError::Unsupported { snippet: own("a as b") },
        }
    );
}

#[test]
fn colon_is_text_when_it_names_no_speaker() {
    let raw = lex_line("Two words: text").unwrap();
    assert_eq!(raw.speaker, None);
    assert_eq!(raw.literal, "Two words: text");

    let raw = lex_line("A: b: c").unwrap();
    assert_eq!(raw.speaker, Some(RawSpeaker::Literal(own("A"))));
    assert_eq!(raw.literal, " b: c");

    let raw = lex_line(": x").unwrap();
    assert_eq!(raw.speaker, None);
    assert_eq!(raw.literal, ": x");

    let raw = lex_line("Bob : hi").unwrap();
    assert_eq!(raw.speaker, Some(RawSpeaker::Literal(own("Bob"))));

    let raw = lex_line("{$a} and {$b}: x").unwrap();
    assert_eq!(raw.speaker, None);
    assert_eq!(raw.literal, "{} and {}: x");
    assert_eq!(raw.args, own_vec(&["$a", "$b"]));
}

#[test]
fn arguments_nest_and_quote() {
    let raw = lex_line("Value: {f(a, [1, 2], \"}\")} end").unwrap();
    assert_eq!(raw.speaker, Some(RawSpeaker::Literal(own("Value"))));
    assert_eq!(raw.literal, " {} end");
    assert_eq!(raw.args, own_vec(&["f(a, [1, 2], \"}\")"]));

    let raw = lex_line("{ {x} }{\"a\\\"b\"}").unwrap();
    assert_eq!(raw.literal, "{}{}");
    assert_eq!(raw.args, own_vec(&[" {x} ", "\"a\"b\""]));

    let raw = lex_line("{a # b : c}").unwrap();
    assert_eq!(raw.args, own_vec(&["a # b : c"]));
    assert_eq!(raw.metadata, None);
}

#[test]
fn bad_delimiters_are_refused() {
    let err = lex_line("x{(]}").unwrap_err();
    assert_eq!(err.kind, LexErrorKind::MismatchedDelimiter { open: '(', close: ']' });
    assert_eq!(err.position, 3);
    assert_eq!(err.argument, "(");
    assert_eq!(err.nesting, vec!['(']);
    assert_eq!(err.literal, "x{}");

    let err = lex_line("{a)}").unwrap_err();
    assert_eq!(err.kind, LexErrorKind::UnexpectedDelimiter { close: ')' });
    assert_eq!(err.position, 2);
    assert_eq!(err.argument, "a");
}

#[test]
fn unterminated_lines_are_refused() {
    let err = lex_line("text {ab(c").unwrap_err();
    assert_eq!(err.kind, LexErrorKind::UnterminatedArgument);
    assert_eq!(err.position, 10);
    assert_eq!(err.argument, "ab(c");
    assert_eq!(err.nesting, vec!['(']);
    assert_eq!(err.literal, "text {}");

    let err = lex_line("{\"}").unwrap_err();
    assert_eq!(err.kind, LexErrorKind::UnterminatedArgument);

    let err = lex_line("abc\\").unwrap_err();
    assert_eq!(err.kind, LexErrorKind::TrailingEscape);
    assert_eq!(err.position, 4);
    assert_eq!(err.literal, "abc");
}

#[test]
fn empty_lines_are_refused() {
    let raw = lex_line("   ").unwrap();
    assert_eq!(build_speech(raw, 0, None, vec![]).unwrap_err(), SpeechError::EmptyLine);
    let raw = lex_line("").unwrap();
    assert_eq!(build_speech(raw, 0, None, vec![]).unwrap_err(), SpeechError::EmptyLine);
    let raw = lex_line(" #tag").unwrap();
    assert_eq!(build_speech(raw, 0, None, vec![]).unwrap_err(), SpeechError::EmptyLine);
    let raw = lex_line("{$x}").unwrap();
    let speech = build_speech(raw, 0, None, vec![var("x")]).unwrap();
    assert_eq!(speech.text, (own("{}"), vec![YarnExpr::GetVar(own("x"))]));
}

#[test]
fn arguments_must_match_and_translate() {
    let raw = lex_line("a {x} b {y}").unwrap();
    assert_eq!(
        build_speech(raw.clone(), 0, None, vec![var("x")]).unwrap_err(),
        SpeechError::ArgumentCount { expected: 2, found: 1 }
    );
    assert_eq!(
        build_speech(raw, 0, None, vec![var("x"), HostExpr::Other(own("y?"))]).unwrap_err(),
        SpeechError::InvalidArgument {
            index: 1,
            error: ExprError::Unsupported { snippet: own("y?") },
        }
    );
    assert_eq!(
        build_args(vec![var("a"), HostExpr::Other(own("1")), HostExpr::Other(own("2"))]),
        Err((1, ExprError::Unsupported { snippet: own("1") }))
    );
    assert_eq!(
        build_args(vec![var("a"), var("b")]),
        Ok(vec![YarnExpr::GetVar(own("a")), YarnExpr::GetVar(own("b"))])
    );
}

#[test]
fn argument_failure_comes_before_duplicate_line_id() {
    let raw = lex_line("{x} #line:1 #line:2").unwrap();
    assert!(matches!(
        build_speech(raw, 0, None, vec![HostExpr::Other(own("x"))]),
        Err(SpeechError::InvalidArgument { index: 0, .. })
    ));
}

#[test]
fn failures_keep_the_speaker_found_before() {
    let err = lex_line("{$who}: hello }").unwrap_err();
    assert_eq!(err.kind, LexErrorKind::UnexpectedClosingBrace);
    assert_eq!(err.speaker, Some(RawSpeaker::Variable(own("$who"))));
    assert_eq!(err.literal, " hello ");
    let err = lex_line("Ann: {").unwrap_err();
    assert_eq!(err.kind, LexErrorKind::UnterminatedArgument);
    assert_eq!(err.speaker, Some(RawSpeaker::Literal(own("Ann"))));
}

#[test]
fn a_bad_speaker_comes_before_a_later_failure() {
    let err = lex_line("{1 + 2}: hello }").unwrap_err();
    let sum = HostExpr::Binary(
        Box::new(HostExpr::Lit(Literal::Number(own("1")))),
        yarn_codegen::ops::SynBinOp::Add,
        Box::new(HostExpr::Lit(Literal::Number(own("2")))),
    );
    assert!(matches!(
        refuse(err.clone(), Some(sum)),
        Refusal::Speech(SpeechError::InvalidSpeakerVariable { .. })
    ));
    assert_eq!(refuse(err.clone(), Some(var("who"))), Refusal::Lex(err));
    let err = lex_line("Ann: }").unwrap_err();
    assert_eq!(refuse(err.clone(), None), Refusal::Lex(err));
}

#[test]
fn failures_know_what_was_not_read() {
    let line = "abc } def";
    assert_eq!(lex_line(line).unwrap_err().remaining(line), " def");
    let line = "abc\\";
    assert_eq!(lex_line(line).unwrap_err().remaining(line), "");
    let line = "{(]} rest";
    assert_eq!(lex_line(line).unwrap_err().remaining(line), "} rest");
}

#[test]
fn reserved_lines_are_declined() {
    assert_eq!(Speech::parse_raw_yarn("<<jump Start>>"), None);
    assert_eq!(Speech::parse_raw_yarn("  -> An option"), None);
    assert_eq!(Speech::parse_raw_yarn("<- back  "), None);
    let raw = Speech::parse_raw_yarn("  hello <3 ").unwrap().unwrap();
    assert_eq!(raw.literal, "hello <3");
    assert_eq!(raw.speaker, None);
    assert!(matches!(Speech::parse_raw_yarn(" } "), Some(Err(_))));
    assert!(Speech::parse_raw_yarn("<").is_some());
}

#[test]
fn lexer_steps_one_character_at_a_time() {
    let mut lexer = Lexer::new();
    assert_eq!(lexer.step('a'), StepResult::Continue);
    assert_eq!(lexer.step('\\'), StepResult::Continue);
    assert_eq!(lexer.mode, Mode::Lit { ignore_next: true });
    assert_eq!(lexer.step('}'), StepResult::Continue);
    assert_eq!(lexer.literal, "a}");
    assert_eq!(lexer.step('}'), StepResult::Fail(LexErrorKind::UnexpectedClosingBrace));
    assert_eq!(lexer.literal, "a}");
    assert_eq!(lexer.step('#'), StepResult::Metadata);
    assert_eq!(lexer.step('{'), StepResult::Continue);
    assert_eq!(lexer.mode, Mode::Arg { char_state: CharState::Std });
    assert_eq!(lexer.step('"'), StepResult::Continue);
    assert_eq!(lexer.mode, Mode::Arg { char_state: CharState::StringLiteral });
    assert_eq!(lexer.step('\\'), StepResult::Continue);
    assert_eq!(lexer.mode, Mode::Arg { char_state: CharState::StringLiteralIgnoreNext });
    assert_eq!(lexer.step('"'), StepResult::Continue);
    assert_eq!(lexer.step('"'), StepResult::Continue);
    assert_eq!(lexer.step('}'), StepResult::Continue);
    assert_eq!(lexer.mode, Mode::Lit { ignore_next: false });
    assert_eq!(lexer.args, own_vec(&["\"\"\""]));
    assert_eq!(lexer.literal, "a}{}");
    let raw = lexer.finish(9).unwrap();
    assert_eq!(raw.literal, "a}{}");
}
