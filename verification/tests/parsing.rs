use lox_interpreter::lexer::scan_tokens;
use lox_interpreter::lexer::token::{Literal, Number, Token, TokenKind};
use lox_interpreter::parser::parser::{Parser, ParserError};
use lox_interpreter::syntax::expr::{
    AstPrinter, BinaryExpr, Expr, GroupingExpr, LiteralExpr, ReversePolishPrinter, UnaryExpr,
};

fn parse(source: &str) -> Result<Expr, ParserError> {
    Parser::new(scan_tokens(source)).parse()
}

fn ast(source: &str) -> String {
    match parse(source) {
        Ok(expr) => AstPrinter.print(&expr),
        Err(error) => panic!("{}", error.to_string()),
    }
}

fn rpn(source: &str) -> String {
    match parse(source) {
        Ok(expr) => (ReversePolishPrinter {}).print(&expr),
        Err(error) => panic!("{}", error.to_string()),
    }
}

fn number(text: &str) -> Box<Expr> {
    Box::new(Expr::Literal(LiteralExpr { value: Literal::Num { val: Number::from_text(text).unwrap() } }))
}

#[test]
fn multiplication_binds_tighter_than_addition() {
    assert_eq!(ast("1 + 2 * 3"), "(+ 1 (* 2 3))");
    assert_eq!(rpn("1 + 2 * 3"), "1 2 3 * +");
    assert_eq!(ast("1 * 2 + 3"), "(+ (* 1 2) 3)");
    assert_eq!(ast("8 / 4 - 2"), "(- (/ 8 4) 2)");
}

#[test]
fn unary_minus_and_grouping() {
    assert_eq!(ast("-123 * (45.67)"), "(* (- 123) (group 45.67))");
    assert_eq!(rpn("-123 * (45.67)"), "123 - 45.67 *");
}

#[test]
fn operators_of_one_level_lean_to_the_left() {
    assert_eq!(ast("1 - 2 - 3"), "(- (- 1 2) 3)");
    assert_eq!(ast("1 - 2 + 3 - 4"), "(- (+ (- 1 2) 3) 4)");
    assert_eq!(ast("8 / 2 * 3"), "(* (/ 8 2) 3)");
    assert_eq!(ast("1 == 2 != 3"), "(!= (== 1 2) 3)");
    assert_eq!(ast("1 < 2 >= 3"), "(>= (< 1 2) 3)");
}

#[test]
fn unary_operators_nest_to_the_right() {
    assert_eq!(ast("!!true"), "(! (! true))");
    assert_eq!(ast("--1"), "(- (- 1))");
    assert_eq!(ast("-!-1"), "(- (! (- 1)))");
    assert_eq!(ast("1 - -2"), "(- 1 (- 2))");
}

#[test]
fn comparison_binds_looser_than_arithmetic_and_equality_loosest() {
    assert_eq!(ast("1 + 2 < 3 * 4"), "(< (+ 1 2) (* 3 4))");
    assert_eq!(ast("1 < 2 == 3 > 4"), "(== (< 1 2) (> 3 4))");
    assert_eq!(ast("1 + 2 == 3"), "(== (+ 1 2) 3)");
    assert_eq!(ast("1 == 2 + 3 * 4 <= 5"), "(== 1 (<= (+ 2 (* 3 4)) 5))");
}

#[test]
fn grouping_overrides_precedence() {
    assert_eq!(ast("(1 + 2) * 3"), "(* (group (+ 1 2)) 3)");
    assert_eq!(rpn("(1 + 2) * (4 - 3)"), "1 2 + 4 3 - *");
    assert_eq!(ast("((1))"), "(group (group 1))");
}

#[test]
fn keywords_and_strings_are_literals() {
    assert_eq!(ast("true"), "true");
    assert_eq!(ast("false"), "false");
    assert_eq!(ast("nil"), "null");
    assert_eq!(ast("\"a b\""), "a b");
    assert_eq!(ast("\"a\" == nil"), "(== a null)");
    assert_eq!(ast("1.50"), "1.5");
}

#[test]
fn missing_closing_paren_is_one_error() {
    match parse("(1 + 2") {
        Err(ParserError::UnexpectedToken(expected, found)) => {
            assert_eq!(expected, "RightParen");
            assert_eq!(found.kind, TokenKind::EOF);
            assert_eq!(found.line, 1);
        }
        _ => panic!("a missing parenthesis is an error"),
    }
    match parse("(1 +\n 2\n") {
        Err(ParserError::UnexpectedToken(expected, found)) => {
            assert_eq!(expected, "RightParen");
            assert_eq!(found.kind, TokenKind::EOF);
            assert_eq!(found.line, 3);
        }
        _ => panic!("a missing parenthesis is an error"),
    }
}

#[test]
fn wrong_token_in_place_of_closing_paren() {
    match parse("(1 2)") {
        Err(ParserError::UnexpectedToken(expected, found)) => {
            assert_eq!(expected, "RightParen");
            assert_eq!(found.kind, TokenKind::Number);
            assert_eq!(found.lexeme, "2");
        }
        _ => panic!("a missing parenthesis is an error"),
    }
}

#[test]
fn no_primary_is_an_error() {
    match parse("") {
        Err(ParserError::UnexpectedToken(expected, found)) => {
            assert_eq!(expected, "`false`, `true`, `nil`, `NUMBER`, `STRING`, or `(`");
            assert_eq!(found.kind, TokenKind::EOF);
        }
        _ => panic!("an empty input is no expression"),
    }
    match parse("1 + * 2") {
        Err(ParserError::UnexpectedToken(_, found)) => {
            assert_eq!(found.kind, TokenKind::Star);
        }
        _ => panic!("an operator is no operand"),
    }
    match parse("1 +\n\n") {
        Err(ParserError::UnexpectedToken(_, found)) => {
            assert_eq!(found.kind, TokenKind::EOF);
            assert_eq!(found.line, 3);
        }
        _ => panic!("an operand is missing"),
    }
    match parse("x") {
        Err(ParserError::UnexpectedToken(_, found)) => {
            assert_eq!(found.kind, TokenKind::Identifier);
        }
        _ => panic!("an identifier is no primary"),
    }
    match parse("@") {
        Err(ParserError::UnexpectedToken(_, found)) => {
            assert_eq!(found.kind, TokenKind::Unknown);
        }
        _ => panic!("an unknown character is no primary"),
    }
}

#[test]
fn parser_error_to_string() {
    match parse("(1 + 2") {
        Err(error) => assert_eq!(error.to_string(), "Expected RightParen at line=1, got: EOF  "),
        _ => panic!("a missing parenthesis is an error"),
    }
    assert_eq!(ParserError::Test.to_string(), "Test");
}

#[test]
fn parser_stops_behind_the_expression() {
    let mut parser = Parser::new(scan_tokens("1 + 2 3"));
    let expr = parser.parse();
    assert!(expr.is_ok());
    assert_eq!(parser.current, 3);
    assert_eq!(parser.peek().lexeme, "3");
    assert!(!parser.is_at_end());
    let mut parser = Parser::new(scan_tokens("(1 + 2"));
    assert!(parser.parse().is_err());
    assert_eq!(parser.current, 4);
    assert!(parser.is_at_end());
}

#[test]
fn parser_helpers() {
    let mut parser = Parser::new(scan_tokens("+ 1"));
    assert!(parser.check(TokenKind::Plus));
    assert!(!parser.check(TokenKind::Minus));
    assert!(!parser.match_any(&[TokenKind::Minus, TokenKind::Star]));
    assert_eq!(parser.current, 0);
    assert!(parser.match_any(&[TokenKind::Minus, TokenKind::Plus]));
    assert_eq!(parser.current, 1);
    assert_eq!(parser.prev().kind, TokenKind::Plus);
    assert_eq!(parser.peek().kind, TokenKind::Number);
    assert_eq!(parser.advance().kind, TokenKind::Number);
    assert!(parser.is_at_end());
    assert_eq!(parser.advance().kind, TokenKind::Number);
    assert_eq!(parser.current, 2);
    assert!(!parser.check(TokenKind::EOF));
    assert!(!parser.match_any(&[TokenKind::EOF]));
    let found = parser.peek().clone();
    assert!(parser.consume(found, TokenKind::RightParen).is_err());
    let found = parser.peek().clone();
    match parser.unexpected_token_with_expected_types(found, "something".to_string()) {
        ParserError::UnexpectedToken(expected, found) => {
            assert_eq!(expected, "something");
            assert_eq!(found.kind, TokenKind::EOF);
        }
        _ => panic!("the error names the token"),
    }
}

#[test]
fn each_rule_can_be_entered() {
    let mut parser = Parser::new(scan_tokens("1 * 2 + 3"));
    let factor = parser.factor().ok().unwrap();
    assert_eq!(AstPrinter.print(&factor), "(* 1 2)");
    assert_eq!(parser.current, 3);
    let mut parser = Parser::new(scan_tokens("1 + 2 < 3"));
    let term = parser.term().ok().unwrap();
    assert_eq!(AstPrinter.print(&term), "(+ 1 2)");
    let mut parser = Parser::new(scan_tokens("1 < 2 == 3"));
    let comparison = parser.comparison().ok().unwrap();
    assert_eq!(AstPrinter.print(&comparison), "(< 1 2)");
    let mut parser = Parser::new(scan_tokens("1 == 2"));
    let equality = parser.equality().ok().unwrap();
    assert_eq!(AstPrinter.print(&equality), "(== 1 2)");
    let mut parser = Parser::new(scan_tokens("-1 * 2"));
    let unary = parser.unary().ok().unwrap();
    assert_eq!(AstPrinter.print(&unary), "(- 1)");
    let mut parser = Parser::new(scan_tokens("(1) * 2"));
    let primary = parser.primary().ok().unwrap();
    assert_eq!(AstPrinter.print(&primary), "(group 1)");
    let mut parser = Parser::new(scan_tokens("1 == 2"));
    let expression = parser.expression().ok().unwrap();
    assert_eq!(AstPrinter.print(&expression), "(== 1 2)");
}

#[test]
fn printers_on_trees_built_by_hand() {
    let expr = Expr::Binary(BinaryExpr {
        left: Box::new(Expr::Unary(UnaryExpr {
            operator: Token::new(TokenKind::Minus, "-".to_string(), 1),
            right: number("123"),
        })),
        operator: Token::new(TokenKind::Star, "*".to_string(), 1),
        right: Box::new(Expr::Grouping(GroupingExpr { expression: number("45.67") })),
    });
    let printer = AstPrinter {};
    assert_eq!(printer.print(&expr), "(* (- 123) (group 45.67))");

    let expr_2 = Expr::Binary(BinaryExpr::new(
        Box::new(Expr::Binary(BinaryExpr::new(
            number("1"),
            Token::new(TokenKind::Plus, "+".to_string(), 1),
            number("2"),
        ))),
        Token::new(TokenKind::Star, "*".to_string(), 1),
        Box::new(Expr::Binary(BinaryExpr::new(
            number("4"),
            Token::new(TokenKind::Minus, "-".to_string(), 1),
            number("3"),
        ))),
    ));
    let rp_printer = ReversePolishPrinter {};
    assert_eq!(rp_printer.print(&expr_2), "1 2 + 4 3 - *");
    assert_eq!(printer.print(&expr_2), "(* (+ 1 2) (- 4 3))");
}

#[test]
fn parenthesize_and_walks() {
    let printer = AstPrinter;
    let one = number("1");
    let two = number("2");
    assert_eq!(printer.parenthesize(&"f".to_string(), &[&one, &two]), "(f 1 2)");
    assert_eq!(printer.parenthesize(&"f".to_string(), &[]), "(f)");
    let binary = BinaryExpr::new(one, Token::new(TokenKind::Plus, "+".to_string(), 1), two);
    assert_eq!(binary.walk_binary_expr(&printer), "(+ 1 2)");
    let polish = ReversePolishPrinter {};
    assert_eq!(polish.infix_to_polish(&binary), "1 2 +");
    assert_eq!(binary.walk_binary_expr(&polish), "1 2 +");
    let grouping = GroupingExpr::new(Box::new(Expr::Binary(binary)));
    assert_eq!(grouping.walk_grouping_expr(&printer), "(group (+ 1 2))");
    assert_eq!(grouping.walk_grouping_expr(&polish), "1 2 +");
    let unary = UnaryExpr::new(
        Token::new(TokenKind::Bang, "!".to_string(), 1),
        Box::new(Expr::Grouping(grouping)),
    );
    assert_eq!(unary.walk_unary_expr(&printer), "(! (group (+ 1 2)))");
    assert_eq!(unary.walk_unary_expr(&polish), "1 2 + !");
    let literal = LiteralExpr::new(Literal::Str { val: "text".to_string(), terminated: true });
    assert_eq!(literal.walk_literal_expr(&printer), "text");
    assert_eq!(Expr::Unary(unary).walk_expr(&printer), "(! (group (+ 1 2)))");
}

#[test]
fn well_formed_parsers() {
    assert!(Parser::new(scan_tokens("1 + 2")).well_formed());
    assert!(Parser::new(scan_tokens("")).well_formed());
    assert!(!Parser::new(vec![]).well_formed());
    assert!(!Parser::new(vec![Token::new(TokenKind::Plus, "+".to_string(), 1)]).well_formed());
    assert!(!Parser::new(vec![
        Token::new(TokenKind::Number, "1".to_string(), 1),
        Token::new(TokenKind::EOF, "".to_string(), 1),
    ])
    .well_formed());
    let mut parser = Parser::new(scan_tokens("1"));
    parser.current = 2;
    assert!(!parser.well_formed());
}

#[test]
fn parenthesized_rendering_has_one_pair_for_each_operation() {
    let text = ast("-(1 + 2) * !(3 / 4 - 5) == 6");
    assert_eq!(text, "(== (* (- (group (+ 1 2))) (! (group (- (/ 3 4) 5)))) 6)");
    let opens = text.chars().filter(|c| *c == '(').count();
    let closes = text.chars().filter(|c| *c == ')').count();
    assert_eq!(opens, 9);
    assert_eq!(closes, 9);
    let mut depth: i32 = 0;
    for c in text.chars() {
        if c == '(' {
            depth += 1;
        }
        if c == ')' {
            depth -= 1;
        }
        assert!(depth >= 0);
    }
    assert_eq!(depth, 0);
}
