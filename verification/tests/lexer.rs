use template_lexer::lang::lexeme::Lexeme;
use template_lexer::lang::lexer::{Lexer, ScanError, Token};
use template_lexer::lang::position::Position;

fn at(line: usize, column: usize, offset: usize) -> Position {
    Position { line, column, offset }
}

fn text(s: &str) -> Lexeme {
    Lexeme::String(String::from(s))
}

/// Every token up to the end of the input; panics where a call fails.
fn scan(input: &[u8]) -> Vec<Token> {
    let mut lexer = Lexer::from(input.to_vec());
    let mut tokens = Vec::new();
    loop {
        match lexer.next_token() {
            Ok(Some(token)) => tokens.push(token),
            Ok(None) => return tokens,
            Err(error) => panic!("the input is not well-formed: {:?}", error),
        }
    }
}

fn lexemes(tokens: &[Token]) -> Vec<Lexeme> {
    tokens.iter().map(|token| token.lexeme.clone()).collect()
}

fn spans(tokens: &[Token]) -> Vec<(Position, Position)> {
    tokens.iter().map(|token| token.positions.unwrap()).collect()
}

fn source_of(lexeme: &Lexeme) -> String {
    match lexeme {
        Lexeme::GroupBegin => String::from("{"),
        Lexeme::GroupEnd => String::from("}"),
        Lexeme::FunctionBegin => String::from("["),
        Lexeme::FunctionEnd => String::from("]"),
        Lexeme::Variable => String::from("%"),
        Lexeme::String(run) => run.clone(),
        Lexeme::Indent => String::from("\t"),
        Lexeme::Newline => String::from("\n"),
    }
}

fn restored(tokens: &[Token]) -> String {
    let mut source = String::new();
    for token in tokens {
        source.push_str(&source_of(&token.lexeme));
    }
    source
}

#[test]
fn empty_input_ends_at_once() {
    let mut lexer = Lexer::from(Vec::new());
    assert!(matches!(lexer.next_token(), Ok(None)));
}

#[test]
fn the_end_is_reported_again_and_again() {
    let mut lexer = Lexer::from(b"a".to_vec());
    assert!(matches!(lexer.next_token(), Ok(Some(_))));
    assert!(matches!(lexer.next_token(), Ok(None)));
    assert!(matches!(lexer.next_token(), Ok(None)));
}

#[test]
fn variable_in_a_group() {
    let tokens = scan(b"{%name%}");
    assert_eq!(
        lexemes(&tokens),
        vec![
            Lexeme::GroupBegin,
            Lexeme::Variable,
            text("name"),
            Lexeme::Variable,
            Lexeme::GroupEnd,
        ]
    );
    assert_eq!(
        spans(&tokens),
        vec![
            (at(0, 0, 0), at(0, 1, 1)),
            (at(0, 1, 1), at(0, 2, 2)),
            (at(0, 2, 2), at(0, 6, 6)),
            (at(0, 6, 6), at(0, 7, 7)),
            (at(0, 7, 7), at(0, 8, 8)),
        ]
    );
}

#[test]
fn variable_in_a_group_has_contiguous_spans() {
    let tokens = scan(b"{%name%}");
    assert_eq!(tokens.len(), 5);
    let spans = spans(&tokens);
    assert_eq!(spans[0].0.offset, 0);
    for i in 1..spans.len() {
        assert_eq!(spans[i].0, spans[i - 1].1);
        assert_eq!(spans[i].0.offset, spans[i - 1].1.offset);
    }
    assert_eq!(spans[4].1.offset, 8);
}

#[test]
fn text_on_two_lines() {
    let tokens = scan(b"abc\ndef");
    assert_eq!(lexemes(&tokens), vec![text("abc"), Lexeme::Newline, text("def")]);
    let spans = spans(&tokens);
    assert_eq!(spans[0], (at(0, 0, 0), at(0, 3, 3)));
    assert_eq!(spans[1], (at(0, 3, 3), at(1, 0, 4)));
    assert_eq!(spans[1].1.line, 1);
    assert_eq!(spans[1].1.column, 0);
    assert_eq!(spans[2].0.line, 1);
    assert_eq!(spans[2].0.column, 0);
    assert_eq!(spans[2], (at(1, 0, 4), at(1, 3, 7)));
}

#[test]
fn every_mark_is_a_token_of_its_own() {
    let tokens = scan(b"{}[]%\n\t");
    assert_eq!(
        lexemes(&tokens),
        vec![
            Lexeme::GroupBegin,
            Lexeme::GroupEnd,
            Lexeme::FunctionBegin,
            Lexeme::FunctionEnd,
            Lexeme::Variable,
            Lexeme::Newline,
            Lexeme::Indent,
        ]
    );
    assert_eq!(spans(&tokens)[5], (at(0, 5, 5), at(1, 0, 6)));
    assert_eq!(spans(&tokens)[6], (at(1, 0, 6), at(1, 1, 7)));
}

#[test]
fn two_variable_marks_in_a_row() {
    let tokens = scan(b"%%");
    assert_eq!(lexemes(&tokens), vec![Lexeme::Variable, Lexeme::Variable]);
    assert_eq!(spans(&tokens), vec![(at(0, 0, 0), at(0, 1, 1)), (at(0, 1, 1), at(0, 2, 2))]);
}

#[test]
fn marks_are_not_nested_or_balanced() {
    let tokens = scan(b"}{]");
    assert_eq!(
        lexemes(&tokens),
        vec![Lexeme::GroupEnd, Lexeme::GroupBegin, Lexeme::FunctionEnd]
    );
}

#[test]
fn a_text_run_is_taken_whole() {
    let tokens = scan(b"hello world, again");
    assert_eq!(lexemes(&tokens), vec![text("hello world, again")]);
    assert_eq!(spans(&tokens), vec![(at(0, 0, 0), at(0, 18, 18))]);
}

#[test]
fn no_two_text_tokens_follow_each_other() {
    let tokens = scan(b"ab{cd ef}\n\tgh%i%[j k]l");
    let lexemes = lexemes(&tokens);
    for i in 1..lexemes.len() {
        let both = matches!(lexemes[i - 1], Lexeme::String(_))
            && matches!(lexemes[i], Lexeme::String(_));
        assert!(!both);
    }
    assert_eq!(lexemes[0], text("ab"));
    assert_eq!(lexemes[2], text("cd ef"));
}

#[test]
fn carriage_return_and_space_are_ordinary_text() {
    let tokens = scan(b"a \r\nb");
    assert_eq!(lexemes(&tokens), vec![text("a \r"), Lexeme::Newline, text("b")]);
    assert_eq!(
        spans(&tokens),
        vec![
            (at(0, 0, 0), at(0, 3, 3)),
            (at(0, 3, 3), at(1, 0, 4)),
            (at(1, 0, 4), at(1, 1, 5)),
        ]
    );
}

#[test]
fn a_newline_resets_the_column_and_adds_a_line() {
    let mut lexer = Lexer::from(b"\t\n\n".to_vec());
    let indent = lexer.next_token().unwrap().unwrap();
    assert_eq!(indent.positions, Some((at(0, 0, 0), at(0, 1, 1))));
    let first = lexer.next_token().unwrap().unwrap();
    assert_eq!(first.lexeme, Lexeme::Newline);
    assert_eq!(first.positions, Some((at(0, 1, 1), at(1, 0, 2))));
    let second = lexer.next_token().unwrap().unwrap();
    assert_eq!(second.positions, Some((at(1, 0, 2), at(2, 0, 3))));
}

#[test]
fn other_tokens_move_the_column_by_their_length() {
    let tokens = scan(b"\n{four}\tab");
    for token in &tokens {
        let (start, end) = token.positions.unwrap();
        let length = source_of(&token.lexeme).chars().count();
        assert_eq!(end.offset - start.offset, length);
        if token.lexeme == Lexeme::Newline {
            assert_eq!(end.line, start.line + 1);
            assert_eq!(end.column, 0);
        } else {
            assert_eq!(end.line, start.line);
            assert_eq!(end.column, start.column + length);
        }
    }
    assert_eq!(spans(&tokens)[2], (at(1, 1, 2), at(1, 5, 6)));
}

#[test]
fn spans_add_up_to_the_length_of_the_input() {
    let input = "{%name%}\n\tsome text [call] and more\n";
    let tokens = scan(input.as_bytes());
    let mut total = 0;
    for (start, end) in spans(&tokens) {
        total += end.offset - start.offset;
    }
    assert_eq!(total, input.chars().count());
    assert_eq!(total, 36);
}

#[test]
fn spans_count_characters_not_bytes() {
    let input = "h\u{e9}llo{w\u{f6}rld}\u{20ac}\u{1f600}";
    assert_eq!(input.len(), 21);
    let tokens = scan(input.as_bytes());
    assert_eq!(
        lexemes(&tokens),
        vec![
            text("h\u{e9}llo"),
            Lexeme::GroupBegin,
            text("w\u{f6}rld"),
            Lexeme::GroupEnd,
            text("\u{20ac}\u{1f600}"),
        ]
    );
    assert_eq!(
        spans(&tokens),
        vec![
            (at(0, 0, 0), at(0, 5, 5)),
            (at(0, 5, 5), at(0, 6, 6)),
            (at(0, 6, 6), at(0, 11, 11)),
            (at(0, 11, 11), at(0, 12, 12)),
            (at(0, 12, 12), at(0, 14, 14)),
        ]
    );
    let mut total = 0;
    for (start, end) in spans(&tokens) {
        total += end.offset - start.offset;
    }
    assert_eq!(total, input.chars().count());
    assert_eq!(total, 14);
}

#[test]
fn a_token_may_start_with_a_character_of_several_bytes() {
    let tokens = scan("\u{e9}".as_bytes());
    assert_eq!(lexemes(&tokens), vec![text("\u{e9}")]);
    assert_eq!(spans(&tokens), vec![(at(0, 0, 0), at(0, 1, 1))]);
}

#[test]
fn the_texts_of_the_tokens_restore_the_input() {
    let inputs = [
        "",
        "{%name%}",
        "abc\ndef",
        "%%",
        "\n\n\t\t",
        "plain",
        "a{b}c[d]e%f%g\nh\ti",
        "h\u{e9}llo{w\u{f6}rld}\u{20ac}\u{1f600}\n",
    ];
    for input in inputs {
        let tokens = scan(input.as_bytes());
        assert_eq!(restored(&tokens), input);
        assert_eq!(restored(&tokens).as_bytes(), input.as_bytes());
    }
}

#[test]
fn scanning_again_gives_the_same_tokens() {
    let input = b"{%name%}\n\tabc[def]";
    let first = scan(input);
    let second = scan(input);
    assert_eq!(lexemes(&first), lexemes(&second));
    assert_eq!(spans(&first), spans(&second));
    assert_eq!(first.len(), 11);
}

#[test]
fn tokens_outlive_the_calls_that_follow() {
    let mut lexer = Lexer::from(b"ab{".to_vec());
    let first = lexer.next_token().unwrap().unwrap();
    let second = lexer.next_token().unwrap().unwrap();
    assert_eq!(first.lexeme, text("ab"));
    assert_eq!(first.positions, Some((at(0, 0, 0), at(0, 2, 2))));
    assert_eq!(second.lexeme, Lexeme::GroupBegin);
    assert_eq!(second.positions, Some((at(0, 2, 2), at(0, 3, 3))));
    let copy = first.clone();
    assert_eq!(copy.lexeme, first.lexeme);
    assert_eq!(copy.positions, first.positions);
}

#[test]
fn a_byte_that_starts_no_character_fails_the_call() {
    let mut lexer = Lexer::from(vec![0xff]);
    assert!(matches!(
        lexer.next_token(),
        Err(ScanError::Decode { position }) if position == at(0, 0, 0)
    ));
}

#[test]
fn a_failed_call_drops_one_byte() {
    let mut lexer = Lexer::from(vec![0xff, b'{']);
    assert!(matches!(lexer.next_token(), Err(ScanError::Decode { .. })));
    let token = lexer.next_token().unwrap().unwrap();
    assert_eq!(token.lexeme, Lexeme::GroupBegin);
    assert_eq!(token.positions, Some((at(0, 0, 0), at(0, 1, 1))));
    assert!(matches!(lexer.next_token(), Ok(None)));
}

#[test]
fn a_character_cut_short_fails_byte_by_byte() {
    let mut lexer = Lexer::from(vec![0xe2, 0x82]);
    assert!(matches!(lexer.next_token(), Err(ScanError::Decode { .. })));
    assert!(matches!(lexer.next_token(), Err(ScanError::Decode { .. })));
    assert!(matches!(lexer.next_token(), Ok(None)));
}

#[test]
fn a_broken_text_run_fails_behind_the_run() {
    let mut lexer = Lexer::from(vec![b'a', b'b', 0xff, b'c', b'd']);
    assert!(matches!(
        lexer.next_token(),
        Err(ScanError::Decode { position }) if position == at(0, 2, 2)
    ));
    assert!(matches!(
        lexer.next_token(),
        Err(ScanError::Decode { position }) if position == at(0, 2, 2)
    ));
    let token = lexer.next_token().unwrap().unwrap();
    assert_eq!(token.lexeme, text("cd"));
    assert_eq!(token.positions, Some((at(0, 2, 2), at(0, 4, 4))));
    assert!(matches!(lexer.next_token(), Ok(None)));
}

#[test]
fn a_mark_in_front_of_broken_input_is_still_a_token() {
    let mut lexer = Lexer::from(vec![b'%', 0xc0, 0x80]);
    let token = lexer.next_token().unwrap().unwrap();
    assert_eq!(token.lexeme, Lexeme::Variable);
    assert!(matches!(
        lexer.next_token(),
        Err(ScanError::Decode { position }) if position == at(0, 1, 1)
    ));
}

#[test]
fn errors_compare_by_position() {
    let here = ScanError::Decode { position: at(1, 2, 3) };
    assert_eq!(here, ScanError::Decode { position: at(1, 2, 3) });
    assert_ne!(here, ScanError::Decode { position: at(1, 2, 4) });
}
