use lox_interpreter::lexer::cursor::Cursor;
use lox_interpreter::lexer::scan_tokens;
use lox_interpreter::lexer::token::{Literal, Number, Token, TokenKind};

fn kinds(tokens: &[Token]) -> Vec<TokenKind> {
    tokens.iter().map(|t| t.kind).collect()
}

fn number_value(token: &Token) -> f64 {
    match &token.literal {
        Some(Literal::Num { val }) => val.as_str().parse::<f64>().unwrap(),
        _ => panic!("a number carries a numeric literal"),
    }
}

#[test]
fn trailing_dot_is_not_part_of_the_number() {
    let tokens = scan_tokens("1.");
    assert_eq!(kinds(&tokens), vec![TokenKind::Number, TokenKind::Dot, TokenKind::EOF]);
    assert_eq!(tokens[0].lexeme, "1");
    assert_eq!(number_value(&tokens[0]), 1.0);
    assert_eq!(tokens[1].lexeme, ".");
}

#[test]
fn fraction_is_part_of_the_number() {
    let tokens = scan_tokens("45.67");
    assert_eq!(kinds(&tokens), vec![TokenKind::Number, TokenKind::EOF]);
    assert_eq!(tokens[0].lexeme, "45.67");
    assert_eq!(number_value(&tokens[0]), 45.67);
}

#[test]
fn one_digit_fraction_is_part_of_the_number() {
    let tokens = scan_tokens("1.5");
    assert_eq!(kinds(&tokens), vec![TokenKind::Number, TokenKind::EOF]);
    assert_eq!(tokens[0].lexeme, "1.5");
    assert_eq!(number_value(&tokens[0]), 1.5);
}

#[test]
fn second_point_ends_the_number() {
    let tokens = scan_tokens("1.2.3");
    assert_eq!(
        kinds(&tokens),
        vec![TokenKind::Number, TokenKind::Dot, TokenKind::Number, TokenKind::EOF]
    );
    assert_eq!(tokens[0].lexeme, "1.2");
    assert_eq!(tokens[2].lexeme, "3");
}

#[test]
fn number_literal_is_in_shortest_form() {
    let tokens = scan_tokens("007.500");
    assert_eq!(tokens[0].lexeme, "007.500");
    match &tokens[0].literal {
        Some(Literal::Num { val }) => assert_eq!(val.as_str(), "7.5"),
        _ => panic!("a number carries a numeric literal"),
    }
    let tokens = scan_tokens("10.0");
    match &tokens[0].literal {
        Some(Literal::Num { val }) => assert_eq!(val.as_str(), "10"),
        _ => panic!("a number carries a numeric literal"),
    }
    let tokens = scan_tokens("000");
    match &tokens[0].literal {
        Some(Literal::Num { val }) => assert_eq!(val.as_str(), "0"),
        _ => panic!("a number carries a numeric literal"),
    }
}

#[test]
fn number_from_text_accepts_decimals_only() {
    assert_eq!(Number::from_text("12").unwrap().as_str(), "12");
    assert_eq!(Number::from_text("0012.3400").unwrap().as_str(), "12.34");
    assert_eq!(Number::from_text("0.0").unwrap().as_str(), "0");
    assert_eq!(Number::from_text("0.05").unwrap().to_string(), "0.05");
    assert!(Number::from_text("").is_none());
    assert!(Number::from_text(".5").is_none());
    assert!(Number::from_text("5.").is_none());
    assert!(Number::from_text("1.2.3").is_none());
    assert!(Number::from_text("-1").is_none());
    assert!(Number::from_text("1e5").is_none());
    assert!(Number::from_text("12a").is_none());
}

#[test]
fn unterminated_string_is_marked() {
    let tokens = scan_tokens("\"abc");
    assert_eq!(kinds(&tokens), vec![TokenKind::String, TokenKind::EOF]);
    assert_eq!(tokens[0].lexeme, "\"abc");
    assert_eq!(tokens[0].line, 1);
    match &tokens[0].literal {
        Some(Literal::Str { val, terminated }) => {
            assert_eq!(val, "abc");
            assert!(!*terminated);
        }
        _ => panic!("a string carries a text literal"),
    }
}

#[test]
fn terminated_string_keeps_its_text() {
    let tokens = scan_tokens("\"abc\" 1");
    assert_eq!(kinds(&tokens), vec![TokenKind::String, TokenKind::Number, TokenKind::EOF]);
    assert_eq!(tokens[0].lexeme, "\"abc\"");
    match &tokens[0].literal {
        Some(Literal::Str { val, terminated }) => {
            assert_eq!(val, "abc");
            assert!(*terminated);
        }
        _ => panic!("a string carries a text literal"),
    }
}

#[test]
fn string_line_is_the_line_of_its_end() {
    let tokens = scan_tokens("\"a\nb\nc\" x");
    assert_eq!(kinds(&tokens), vec![TokenKind::String, TokenKind::Identifier, TokenKind::EOF]);
    assert_eq!(tokens[0].line, 3);
    assert_eq!(tokens[1].line, 3);
    assert_eq!(tokens[2].line, 3);
    let tokens = scan_tokens("\n\"a\nb");
    assert_eq!(kinds(&tokens), vec![TokenKind::String, TokenKind::EOF]);
    assert_eq!(tokens[0].line, 3);
    assert_eq!(tokens[1].line, 3);
}

#[test]
fn block_comment_advances_the_line() {
    let tokens = scan_tokens("/* a \n b */ 7");
    assert_eq!(kinds(&tokens), vec![TokenKind::Number, TokenKind::EOF]);
    assert_eq!(tokens[0].line, 2);
    let tokens = scan_tokens("1 /* a \n\n b */\n 2");
    assert_eq!(kinds(&tokens), vec![TokenKind::Number, TokenKind::Number, TokenKind::EOF]);
    assert_eq!(tokens[0].line, 1);
    assert_eq!(tokens[1].line, 4);
}

#[test]
fn unterminated_block_comment_is_marked() {
    let tokens = scan_tokens("1 /* a \n b");
    assert_eq!(kinds(&tokens), vec![TokenKind::Number, TokenKind::BlockComment, TokenKind::EOF]);
    assert_eq!(tokens[1].lexeme, "/* a \n b");
    assert_eq!(tokens[1].line, 1);
    match &tokens[1].literal {
        Some(Literal::Str { val, terminated }) => {
            assert_eq!(val, "/* a \n b");
            assert!(!*terminated);
        }
        _ => panic!("a block comment carries a text literal"),
    }
    assert_eq!(tokens[2].line, 2);
}

#[test]
fn slash_star_slash_closes_nothing() {
    let tokens = scan_tokens("/*/ 1");
    assert_eq!(kinds(&tokens), vec![TokenKind::BlockComment, TokenKind::EOF]);
    let tokens = scan_tokens("/**/ 1");
    assert_eq!(kinds(&tokens), vec![TokenKind::Number, TokenKind::EOF]);
    let tokens = scan_tokens("/* * / */1");
    assert_eq!(kinds(&tokens), vec![TokenKind::Number, TokenKind::EOF]);
}

#[test]
fn line_comment_runs_to_the_end_of_the_line() {
    let tokens = scan_tokens("1 // two three\n4 // five");
    assert_eq!(kinds(&tokens), vec![TokenKind::Number, TokenKind::Number, TokenKind::EOF]);
    assert_eq!(tokens[0].line, 1);
    assert_eq!(tokens[1].line, 2);
    assert_eq!(tokens[1].lexeme, "4");
    assert_eq!(tokens[2].line, 2);
}

#[test]
fn punctuation_and_operators() {
    let tokens = scan_tokens("(){},.-+;/* */*! != = == > >= < <=");
    assert_eq!(
        kinds(&tokens),
        vec![
            TokenKind::LeftParen,
            TokenKind::RightParen,
            TokenKind::LeftBrace,
            TokenKind::RightBrace,
            TokenKind::Comma,
            TokenKind::Dot,
            TokenKind::Minus,
            TokenKind::Plus,
            TokenKind::Semicolon,
            TokenKind::Star,
            TokenKind::Bang,
            TokenKind::BangEqual,
            TokenKind::Equal,
            TokenKind::EqualEqual,
            TokenKind::Greater,
            TokenKind::GreaterEqual,
            TokenKind::Less,
            TokenKind::LessEqual,
            TokenKind::EOF,
        ]
    );
    let lexemes: Vec<&str> = tokens.iter().map(|t| t.lexeme.as_str()).collect();
    assert_eq!(
        lexemes,
        vec![
            "(", ")", "{", "}", ",", ".", "-", "+", ";", "*", "!", "!=", "=", "==", ">", ">=",
            "<", "<=", ""
        ]
    );
    assert!(tokens.iter().all(|t| t.literal.is_none()));
}

#[test]
fn slash_alone_is_a_token() {
    let tokens = scan_tokens("8 / 2");
    assert_eq!(kinds(&tokens), vec![TokenKind::Number, TokenKind::Slash, TokenKind::Number, TokenKind::EOF]);
    assert_eq!(tokens[1].lexeme, "/");
}

#[test]
fn keywords_and_identifiers() {
    let tokens = scan_tokens(
        "and class else false for fun if nil or print return super this true var while \
         falsey _x x1 For",
    );
    assert_eq!(
        kinds(&tokens),
        vec![
            TokenKind::And,
            TokenKind::Class,
            TokenKind::Else,
            TokenKind::False,
            TokenKind::For,
            TokenKind::Fun,
            TokenKind::If,
            TokenKind::Nil,
            TokenKind::Or,
            TokenKind::Print,
            TokenKind::Return,
            TokenKind::Super,
            TokenKind::This,
            TokenKind::True,
            TokenKind::Var,
            TokenKind::While,
            TokenKind::Identifier,
            TokenKind::Identifier,
            TokenKind::Identifier,
            TokenKind::Identifier,
            TokenKind::EOF,
        ]
    );
    assert_eq!(tokens[3].lexeme, "false");
    assert_eq!(tokens[16].lexeme, "falsey");
    assert_eq!(tokens[17].lexeme, "_x");
    assert_eq!(tokens[18].lexeme, "x1");
}

#[test]
fn unknown_characters_do_not_stop_the_scan() {
    let tokens = scan_tokens("1 @ 2 # \u{e9}");
    assert_eq!(
        kinds(&tokens),
        vec![
            TokenKind::Number,
            TokenKind::Unknown,
            TokenKind::Number,
            TokenKind::Unknown,
            TokenKind::Unknown,
            TokenKind::EOF
        ]
    );
    assert_eq!(tokens[1].lexeme, "@");
    assert_eq!(tokens[3].lexeme, "#");
    assert_eq!(tokens[4].lexeme, "\u{e9}");
}

#[test]
fn empty_input_is_one_eof() {
    let tokens = scan_tokens("");
    assert_eq!(kinds(&tokens), vec![TokenKind::EOF]);
    assert_eq!(tokens[0].lexeme, "");
    assert_eq!(tokens[0].line, 1);
}

#[test]
fn eof_follows_trailing_blank_space() {
    let tokens = scan_tokens("1 \n");
    assert_eq!(kinds(&tokens), vec![TokenKind::Number, TokenKind::EOF]);
    assert_eq!(tokens[1].line, 2);
    let tokens = scan_tokens(" \t\r\n\n// done");
    assert_eq!(kinds(&tokens), vec![TokenKind::EOF]);
    assert_eq!(tokens[0].line, 3);
}

#[test]
fn token_after_newline_is_on_the_new_line() {
    let tokens = scan_tokens("a\nb\n\nc");
    let lines: Vec<u32> = tokens.iter().map(|t| t.line).collect();
    assert_eq!(lines, vec![1, 2, 4, 4]);
}

#[test]
fn rescanning_a_lexeme_gives_the_same_token() {
    let source = "var x1 = (12.50 + 3) * \"hi\nthere\" != nil; /*/ open";
    let tokens = scan_tokens(source);
    assert_eq!(tokens.len(), 15);
    for token in tokens.iter() {
        let again = scan_tokens(&token.lexeme);
        assert_eq!(again[0].kind, token.kind);
        assert_eq!(again[0].lexeme, token.lexeme);
        match (&again[0].literal, &token.literal) {
            (None, None) => {}
            (Some(Literal::Num { val: a }), Some(Literal::Num { val: b })) => {
                assert_eq!(a.as_str(), b.as_str())
            }
            (
                Some(Literal::Str { val: a, terminated: s }),
                Some(Literal::Str { val: b, terminated: t }),
            ) => {
                assert_eq!(a, b);
                assert_eq!(s, t);
            }
            _ => panic!("the literals differ in kind"),
        }
        if token.kind != TokenKind::EOF {
            assert_eq!(again.len(), 2);
        }
        assert_eq!(again[again.len() - 1].kind, TokenKind::EOF);
    }
}

#[test]
fn token_to_string_shows_kind_lexeme_and_literal() {
    let tokens = scan_tokens("x 1.50 \"a b\" \"c");
    assert_eq!(tokens[0].to_string(), "Identifier x ");
    assert_eq!(tokens[1].to_string(), "Number 1.50 1.5");
    assert_eq!(tokens[2].to_string(), "String \"a b\" terminated a b");
    assert_eq!(tokens[3].to_string(), "String \"c unterminated c");
    assert_eq!(tokens[4].to_string(), "EOF  ");
    assert_eq!(TokenKind::GreaterEqual.to_string(), "GreaterEqual");
}

#[test]
fn token_builders_and_clone() {
    let token = Token::new(TokenKind::String, "\"a\"".to_string(), 7)
        .literal(Literal::Str { val: "a".to_string(), terminated: true });
    let copy = token.clone();
    assert_eq!(copy.kind, TokenKind::String);
    assert_eq!(copy.lexeme, "\"a\"");
    assert_eq!(copy.line, 7);
    match copy.literal {
        Some(Literal::Str { val, terminated }) => {
            assert_eq!(val, "a");
            assert!(terminated);
        }
        _ => panic!("the literal is lost"),
    }
    let plain = Token::new(TokenKind::Plus, "+".to_string(), 1);
    assert!(plain.literal.is_none());
}

#[test]
fn cursor_looks_ahead_without_consuming() {
    let mut cursor = Cursor::new("ab");
    assert_eq!(cursor.line, 1);
    assert_eq!(cursor.prev(), '\0');
    assert_eq!(cursor.first(), 'a');
    assert_eq!(cursor.second(), 'b');
    assert!(!cursor.is_eof());
    assert_eq!(cursor.advance(), Some('a'));
    assert_eq!(cursor.prev(), 'a');
    assert_eq!(cursor.first(), 'b');
    assert_eq!(cursor.second(), '\0');
    assert_eq!(cursor.advance(), Some('b'));
    assert!(cursor.is_eof());
    assert_eq!(cursor.first(), '\0');
    assert_eq!(cursor.advance(), None);
    assert_eq!(cursor.prev(), 'b');
}

#[test]
fn cursor_counts_bytes_since_the_last_reset() {
    let mut cursor = Cursor::new("a\u{e9}\u{20ac}\u{1f600}z");
    assert_eq!(cursor.len_consumed(), 0);
    cursor.advance();
    assert_eq!(cursor.len_consumed(), 1);
    cursor.advance();
    assert_eq!(cursor.len_consumed(), 3);
    cursor.reset_len_consumed();
    assert_eq!(cursor.len_consumed(), 0);
    cursor.advance();
    assert_eq!(cursor.len_consumed(), 3);
    cursor.advance();
    assert_eq!(cursor.len_consumed(), 7);
    cursor.advance();
    assert_eq!(cursor.len_consumed(), 8);
    cursor.advance();
    assert_eq!(cursor.len_consumed(), 8);
}

#[test]
fn cursor_eats_while_the_predicate_holds() {
    let mut cursor = Cursor::new("aaab\nc");
    cursor.eat_while(|c| c == 'a');
    assert_eq!(cursor.first(), 'b');
    cursor.eat_while(|c| c != '\n');
    assert_eq!(cursor.first(), '\n');
    cursor.eat_while(|_| true);
    assert!(cursor.is_eof());
    assert_eq!(cursor.line, 1);
}

#[test]
fn cursor_scans_pieces_on_request() {
    let mut cursor = Cursor::new("bc\" 23.5x rest*/ tail");
    let string = cursor.string();
    assert_eq!(string.lexeme, "\"bc\"");
    assert!(cursor.advance_if_next(' '));
    assert!(!cursor.advance_if_next(' '));
    let number = cursor.number("1".to_string());
    assert_eq!(number.lexeme, "123.5");
    let word = cursor.identifer_or_keyword("_".to_string());
    assert_eq!(word.lexeme, "_x");
    assert_eq!(word.kind, TokenKind::Identifier);
    let comment = cursor.block_comment("/*".to_string());
    assert_eq!(comment.kind, TokenKind::BlockComment);
    assert_eq!(comment.lexeme, "/* rest*/");
    match comment.literal {
        Some(Literal::Str { terminated, .. }) => assert!(terminated),
        _ => panic!("a block comment carries a text literal"),
    }
    let next = cursor.scan_token();
    assert!(next.is_none());
    let next = cursor.scan_token().unwrap();
    assert_eq!(next.lexeme, "tail");
    assert!(cursor.is_eof());
}

#[test]
fn short_decimals_read_as_floats_do() {
    for whole in [0u32, 1, 7, 10, 42, 100, 999, 1000, 65536, 123456] {
        for thousandths in [0u32, 1, 5, 10, 50, 100, 125, 500, 670, 999] {
            let text = format!("{}.{:03}", whole, thousandths);
            let number = Number::from_text(&text).unwrap();
            let float = text.parse::<f64>().unwrap();
            assert_eq!(number.as_str(), float.to_string());
            assert_eq!(number.as_str().parse::<f64>().unwrap(), float);
        }
        let text = format!("00{}", whole);
        let number = Number::from_text(&text).unwrap();
        assert_eq!(number.as_str(), text.parse::<f64>().unwrap().to_string());
    }
}

#[test]
fn a_longer_program_scans_in_order() {
    let source = "// greet\nfun greet(name) {\n  print \"hi, \" + name; /* twice\n  over */\n  return nil;\n}\nvar n = 10.50 >= 3 != !true;\n";
    let tokens = scan_tokens(source);
    let shown: Vec<(TokenKind, &str, u32)> =
        tokens.iter().map(|t| (t.kind, t.lexeme.as_str(), t.line)).collect();
    assert_eq!(
        shown,
        vec![
            (TokenKind::Fun, "fun", 2),
            (TokenKind::Identifier, "greet", 2),
            (TokenKind::LeftParen, "(", 2),
            (TokenKind::Identifier, "name", 2),
            (TokenKind::RightParen, ")", 2),
            (TokenKind::LeftBrace, "{", 2),
            (TokenKind::Print, "print", 3),
            (TokenKind::String, "\"hi, \"", 3),
            (TokenKind::Plus, "+", 3),
            (TokenKind::Identifier, "name", 3),
            (TokenKind::Semicolon, ";", 3),
            (TokenKind::Return, "return", 5),
            (TokenKind::Nil, "nil", 5),
            (TokenKind::Semicolon, ";", 5),
            (TokenKind::RightBrace, "}", 6),
            (TokenKind::Var, "var", 7),
            (TokenKind::Identifier, "n", 7),
            (TokenKind::Equal, "=", 7),
            (TokenKind::Number, "10.50", 7),
            (TokenKind::GreaterEqual, ">=", 7),
            (TokenKind::Number, "3", 7),
            (TokenKind::BangEqual, "!=", 7),
            (TokenKind::Bang, "!", 7),
            (TokenKind::True, "true", 7),
            (TokenKind::Semicolon, ";", 7),
            (TokenKind::EOF, "", 8),
        ]
    );
}

#[test]
fn every_line_is_one_more_than_the_line_feeds_before_it() {
    let source = "a\n\"x\ny\" b /* c\n\n */ d\n// e\nf \"g\nh";
    let tokens = scan_tokens(source);
    let lines: Vec<u32> = tokens.iter().map(|t| t.line).collect();
    assert_eq!(lines, vec![1, 3, 3, 5, 7, 8, 8]);
    let feeds = source.chars().filter(|c| *c == '\n').count();
    assert_eq!(tokens[tokens.len() - 1].line, 1 + feeds as u32);
}
