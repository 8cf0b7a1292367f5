use calc::grammar::CharClass;
use calc::lexer::{tokenise, Lexer};
use calc::token::{LexError, Token};

fn int_value(token: &Token) -> u64 {
    match token {
        Token::INT(text, _) => text.parse::<u64>().unwrap(),
        other => panic!("not an INT: {:?}", other),
    }
}

fn float_value(token: &Token) -> f64 {
    match token {
        Token::FLOAT(text, _) => text.parse::<f64>().unwrap(),
        other => panic!("not a FLOAT: {:?}", other),
    }
}

#[test]
fn tokenise_valid_operators() {
    assert_eq!(tokenise("+"), Ok(vec![Token::PLUS(0), Token::EOF(1)]));
    assert_eq!(tokenise("-"), Ok(vec![Token::MINUS(0), Token::EOF(1)]));
    assert_eq!(tokenise("*"), Ok(vec![Token::MUL(0), Token::EOF(1)]));
    assert_eq!(tokenise("/"), Ok(vec![Token::DIV(0), Token::EOF(1)]));
    assert_eq!(tokenise("%"), Ok(vec![Token::MOD(0), Token::EOF(1)]));
    assert_eq!(tokenise("^"), Ok(vec![Token::POW(0), Token::EOF(1)]));
}

#[test]
fn tokenise_valid_delimiters() {
    assert_eq!(tokenise("("), Ok(vec![Token::LPAREN(0), Token::EOF(1)]));
    assert_eq!(tokenise(")"), Ok(vec![Token::RPAREN(0), Token::EOF(1)]));
    assert_eq!(tokenise(","), Ok(vec![Token::COMMA(0), Token::EOF(1)]));
}

#[test]
fn tokenise_valid_integer() {
    assert_eq!(tokenise("23"), Ok(vec![Token::INT("23", 0), Token::EOF(2)]));
    assert_eq!(tokenise("0023"), Ok(vec![Token::INT("0023", 0), Token::EOF(4)]));
    assert_eq!(tokenise("0230"), Ok(vec![Token::INT("0230", 0), Token::EOF(4)]));

    assert_eq!(int_value(&tokenise("23").unwrap()[0]), 23);
    assert_eq!(int_value(&tokenise("0023").unwrap()[0]), 23);
    assert_eq!(int_value(&tokenise("0230").unwrap()[0]), 230);
}

#[test]
fn tokenise_valid_float() {
    assert_eq!(tokenise("23.5"), Ok(vec![Token::FLOAT("23.5", 0), Token::EOF(4)]));
    assert_eq!(tokenise("23.500"), Ok(vec![Token::FLOAT("23.500", 0), Token::EOF(6)]));
    assert_eq!(tokenise("0.05"), Ok(vec![Token::FLOAT("0.05", 0), Token::EOF(4)]));

    assert_eq!(float_value(&tokenise("23.5").unwrap()[0]), 23.5 as f64);
    assert_eq!(float_value(&tokenise("23.500").unwrap()[0]), 23.500 as f64);
    assert_eq!(float_value(&tokenise("0.05").unwrap()[0]), 0.05 as f64);
}

#[test]
fn tokenise_valid_scientific_format() {
    assert_eq!(tokenise("5e10"), Ok(vec![Token::FLOAT("5e10", 0), Token::EOF(4)]));
    assert_eq!(tokenise("20.0E3"), Ok(vec![Token::FLOAT("20.0E3", 0), Token::EOF(6)]));
    assert_eq!(tokenise("5e+1"), Ok(vec![Token::FLOAT("5e+1", 0), Token::EOF(4)]));
    assert_eq!(tokenise("5e-10"), Ok(vec![Token::FLOAT("5e-10", 0), Token::EOF(5)]));

    assert_eq!(float_value(&tokenise("5e10").unwrap()[0]), 5e10 as f64);
    assert_eq!(float_value(&tokenise("20.0E3").unwrap()[0]), 20.0E3 as f64);
    assert_eq!(float_value(&tokenise("5e+1").unwrap()[0]), 5e+1 as f64);
    assert_eq!(float_value(&tokenise("5e-10").unwrap()[0]), 5e-10 as f64);
}

#[test]
fn tokenise_expression_with_offsets() {
    assert_eq!(
        tokenise("1+2-3*4/55%666^0"),
        Ok(vec![
            Token::INT("1", 0),
            Token::PLUS(1),
            Token::INT("2", 2),
            Token::MINUS(3),
            Token::INT("3", 4),
            Token::MUL(5),
            Token::INT("4", 6),
            Token::DIV(7),
            Token::INT("55", 8),
            Token::MOD(10),
            Token::INT("666", 11),
            Token::POW(14),
            Token::INT("0", 15),
            Token::EOF(16),
        ])
    );
}

#[test]
fn tokenise_call_with_names_and_delimiters() {
    assert_eq!(
        tokenise("max(a, 2.5)"),
        Ok(vec![
            Token::NAME("max", 0),
            Token::LPAREN(3),
            Token::NAME("a", 4),
            Token::COMMA(5),
            Token::FLOAT("2.5", 7),
            Token::RPAREN(10),
            Token::EOF(11),
        ])
    );
}

#[test]
fn tokenise_empty_input() {
    assert_eq!(tokenise(""), Ok(vec![Token::EOF(0)]));
}

#[test]
fn tokenise_spaces_only() {
    assert_eq!(tokenise("   "), Ok(vec![Token::EOF(3)]));
}

#[test]
fn tokenise_skips_spaces_around_tokens() {
    assert_eq!(
        tokenise("  12   +  x "),
        Ok(vec![Token::INT("12", 2), Token::PLUS(7), Token::NAME("x", 10), Token::EOF(12)])
    );
}

#[test]
fn spaces_change_offsets_only() {
    let tight = tokenise("7*(y-1)").unwrap();
    let loose = tokenise(" 7 * ( y - 1 ) ").unwrap();
    assert_eq!(tight.len(), loose.len());
    for (a, b) in tight.iter().zip(loose.iter()) {
        match (a, b) {
            (Token::INT(s, _), Token::INT(t, _)) => assert_eq!(s, t),
            (Token::NAME(s, _), Token::NAME(t, _)) => assert_eq!(s, t),
            (Token::MUL(_), Token::MUL(_)) => {}
            (Token::MINUS(_), Token::MINUS(_)) => {}
            (Token::LPAREN(_), Token::LPAREN(_)) => {}
            (Token::RPAREN(_), Token::RPAREN(_)) => {}
            (Token::EOF(_), Token::EOF(_)) => {}
            other => panic!("tokens differ: {:?}", other),
        }
    }
    assert_eq!(loose[0], Token::INT("7", 1));
    assert_eq!(loose[7], Token::EOF(15));
}

#[test]
fn no_token_text_holds_a_space() {
    for token in tokenise(" ab 12 3.5e-2 ( c ) ").unwrap() {
        match token {
            Token::INT(text, _) | Token::FLOAT(text, _) | Token::NAME(text, _) => {
                assert!(!text.is_empty());
                assert!(!text.contains(' '));
            }
            _ => {}
        }
    }
}

#[test]
fn tab_and_newline_are_not_white_space() {
    assert_eq!(tokenise("1\t2"), Err(LexError { ch: '\t', pos: 1 }));
    assert_eq!(tokenise("1\n"), Err(LexError { ch: '\n', pos: 1 }));
}

#[test]
fn name_keeps_its_case() {
    assert_eq!(tokenise("SiN"), Ok(vec![Token::NAME("SiN", 0), Token::EOF(3)]));
}

#[test]
fn digit_behind_letters_starts_a_new_token() {
    assert_eq!(
        tokenise("abc123"),
        Ok(vec![Token::NAME("abc", 0), Token::INT("123", 3), Token::EOF(6)])
    );
}

#[test]
fn letters_behind_digits_start_a_name() {
    assert_eq!(
        tokenise("12ab"),
        Ok(vec![Token::INT("12", 0), Token::NAME("ab", 2), Token::EOF(4)])
    );
}

#[test]
fn underscore_is_no_name_character() {
    let mut lexer = Lexer::new("a_b");
    assert_eq!(lexer.next_token(), Ok(Token::NAME("a", 0)));
    assert_eq!(lexer.next_token(), Err(LexError { ch: '_', pos: 1 }));
}

#[test]
fn float_with_empty_fraction() {
    assert_eq!(tokenise("5."), Ok(vec![Token::FLOAT("5.", 0), Token::EOF(2)]));
}

#[test]
fn float_with_fraction_and_exponent() {
    assert_eq!(tokenise("1.25e-3"), Ok(vec![Token::FLOAT("1.25e-3", 0), Token::EOF(7)]));
    assert_eq!(tokenise("5.e3"), Ok(vec![Token::FLOAT("5.e3", 0), Token::EOF(4)]));
}

#[test]
fn exponent_without_digits_is_kept_as_text() {
    assert_eq!(tokenise("5e"), Ok(vec![Token::FLOAT("5e", 0), Token::EOF(2)]));
    assert_eq!(tokenise("5e+"), Ok(vec![Token::FLOAT("5e+", 0), Token::EOF(3)]));
    assert_eq!(
        tokenise("5e+x"),
        Ok(vec![Token::FLOAT("5e+", 0), Token::NAME("x", 3), Token::EOF(4)])
    );
}

#[test]
fn exponent_takes_one_sign_only() {
    assert_eq!(
        tokenise("5e+-1"),
        Ok(vec![Token::FLOAT("5e+", 0), Token::MINUS(3), Token::INT("1", 4), Token::EOF(5)])
    );
}

#[test]
fn second_dot_is_an_error() {
    let mut lexer = Lexer::new("1.2.3");
    assert_eq!(lexer.next_token(), Ok(Token::FLOAT("1.2", 0)));
    assert_eq!(lexer.next_token(), Err(LexError { ch: '.', pos: 3 }));
}

#[test]
fn leading_dot_is_an_error() {
    assert_eq!(tokenise(".5"), Err(LexError { ch: '.', pos: 0 }));
}

#[test]
fn minus_before_a_number_is_its_own_token() {
    assert_eq!(tokenise("-4"), Ok(vec![Token::MINUS(0), Token::INT("4", 1), Token::EOF(2)]));
}

#[test]
fn long_digit_run_is_kept_whole() {
    let text = "123456789012345678901234567890";
    assert_eq!(tokenise(text), Ok(vec![Token::INT(text, 0), Token::EOF(30)]));
}

#[test]
fn unknown_character_is_an_error() {
    assert_eq!(tokenise("@"), Err(LexError { ch: '@', pos: 0 }));
    let mut lexer = Lexer::new("@");
    assert_eq!(lexer.next_token(), Err(LexError { ch: '@', pos: 0 }));
}

#[test]
fn error_reports_offset_behind_spaces_and_tokens() {
    assert_eq!(tokenise("12 + $x"), Err(LexError { ch: '$', pos: 5 }));
}

#[test]
fn error_leaves_the_cursor_on_the_character() {
    let mut lexer = Lexer::new("1 #");
    assert_eq!(lexer.next_token(), Ok(Token::INT("1", 0)));
    assert_eq!(lexer.next_token(), Err(LexError { ch: '#', pos: 2 }));
    assert_eq!(lexer.cursor(), 2);
    assert_eq!(lexer.next_token(), Err(LexError { ch: '#', pos: 2 }));
}

#[test]
fn non_ascii_character_is_an_error() {
    assert_eq!(tokenise("é"), Err(LexError { ch: 'é', pos: 0 }));
    assert_eq!(tokenise("ab€"), Err(LexError { ch: '€', pos: 2 }));
    assert_eq!(tokenise("1 + 𝛑"), Err(LexError { ch: '𝛑', pos: 4 }));
}

#[test]
fn non_ascii_character_behind_a_token_is_reported_whole() {
    let mut lexer = Lexer::new("xÿz");
    assert_eq!(lexer.next_token(), Ok(Token::NAME("x", 0)));
    assert_eq!(lexer.next_token(), Err(LexError { ch: 'ÿ', pos: 1 }));
}

#[test]
fn nul_character_reads_as_end_of_input() {
    assert_eq!(tokenise("1\0+"), Ok(vec![Token::INT("1", 0), Token::EOF(1)]));
}

#[test]
fn next_token_walks_the_source() {
    let mut lexer = Lexer::new("a+1");
    assert_eq!(lexer.cursor(), 0);
    assert_eq!(lexer.next_token(), Ok(Token::NAME("a", 0)));
    assert_eq!(lexer.cursor(), 1);
    assert_eq!(lexer.next_token(), Ok(Token::PLUS(1)));
    assert_eq!(lexer.cursor(), 2);
    assert_eq!(lexer.next_token(), Ok(Token::INT("1", 2)));
    assert_eq!(lexer.cursor(), 3);
    assert_eq!(lexer.next_token(), Ok(Token::EOF(3)));
    assert_eq!(lexer.cursor(), 3);
}

#[test]
fn next_token_repeats_eof() {
    let mut lexer = Lexer::new("7  ");
    assert_eq!(lexer.next_token(), Ok(Token::INT("7", 0)));
    assert_eq!(lexer.next_token(), Ok(Token::EOF(3)));
    assert_eq!(lexer.cursor(), 3);
    assert_eq!(lexer.next_token(), Ok(Token::EOF(3)));
    assert_eq!(lexer.next_token(), Ok(Token::EOF(3)));
    assert_eq!(lexer.cursor(), 3);
}

#[test]
fn cursor_never_moves_back() {
    let mut lexer = Lexer::new(" 1 + (2.5e3 * x) ");
    let mut last = lexer.cursor();
    loop {
        let token = lexer.next_token().unwrap();
        assert!(lexer.cursor() >= last);
        assert!(token.position() >= last);
        last = lexer.cursor();
        if token.is_eof() {
            break;
        }
    }
    assert_eq!(last, 17);
}

#[test]
fn lexer_tokenise_goes_on_from_the_cursor() {
    let mut lexer = Lexer::new("1 + 2");
    assert_eq!(lexer.next_token(), Ok(Token::INT("1", 0)));
    assert_eq!(lexer.tokenise(), Ok(vec![Token::PLUS(2), Token::INT("2", 4), Token::EOF(5)]));
    assert_eq!(lexer.cursor(), 5);
    assert_eq!(lexer.tokenise(), Ok(vec![Token::EOF(5)]));
}

#[test]
fn lexer_tokenise_stops_at_the_first_error() {
    let mut lexer = Lexer::new("1 ? 2 !");
    assert_eq!(lexer.tokenise(), Err(LexError { ch: '?', pos: 2 }));
    assert_eq!(lexer.cursor(), 2);
}

#[test]
fn lexer_keeps_its_text() {
    let text = String::from("2^10");
    let mut lexer = Lexer::new(&text);
    assert_eq!(lexer.expr(), "2^10");
    lexer.tokenise().unwrap();
    assert_eq!(lexer.expr(), "2^10");
}

#[test]
fn token_text_borrows_from_the_source() {
    let text = String::from("  alpha ");
    let tokens = tokenise(&text).unwrap();
    match tokens[0] {
        Token::NAME(name, at) => {
            assert_eq!(name.as_ptr(), text[at..].as_ptr());
            assert_eq!(name, &text[at..at + name.len()]);
        }
        other => panic!("not a NAME: {:?}", other),
    }
}

#[test]
fn offsets_are_byte_offsets() {
    let text = "12+ab *3.5 ñ";
    let mut lexer = Lexer::new(text);
    loop {
        match lexer.next_token() {
            Ok(Token::EOF(_)) => panic!("the last character starts no token"),
            Ok(Token::INT(t, at)) | Ok(Token::FLOAT(t, at)) | Ok(Token::NAME(t, at)) => {
                assert_eq!(&text[at..at + t.len()], t);
            }
            Ok(token) => {
                assert_eq!(text[token.position()..].chars().count(), text.chars().count() - token.position());
            }
            Err(error) => {
                assert_eq!(error, LexError { ch: 'ñ', pos: 11 });
                assert_eq!(text[error.pos..].chars().next(), Some('ñ'));
                break;
            }
        }
    }
}

#[test]
fn token_position_and_is_eof() {
    assert_eq!(Token::INT("1", 4).position(), 4);
    assert_eq!(Token::FLOAT("1.5", 5).position(), 5);
    assert_eq!(Token::NAME("x", 6).position(), 6);
    assert_eq!(Token::COMMA(7).position(), 7);
    assert_eq!(Token::EOF(9).position(), 9);
    assert!(Token::EOF(9).is_eof());
    assert!(!Token::PLUS(9).is_eof());
    assert!(!Token::NAME("eof", 0).is_eof());
}

#[test]
fn char_classes() {
    assert!(CharClass::Space.contains(' '));
    assert!(!CharClass::Space.contains('\t'));
    assert!(CharClass::Digit.contains('0'));
    assert!(CharClass::Digit.contains('9'));
    assert!(!CharClass::Digit.contains('a'));
    assert!(!CharClass::Digit.contains('٣'));
    assert!(CharClass::Letter.contains('a'));
    assert!(CharClass::Letter.contains('Z'));
    assert!(!CharClass::Letter.contains('_'));
    assert!(!CharClass::Letter.contains('é'));
}

#[test]
fn lexer_shows_its_state() {
    let mut lexer = Lexer::new("1+");
    lexer.next_token().unwrap();
    let shown = format!("{:?}", lexer);
    assert!(shown.contains("1+"));
    assert!(shown.contains("cursor: 1"));
}
