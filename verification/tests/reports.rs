use lox_interpreter::error_handling::{
    display, report_error_str, CLArgsError, Error, IOError, LexError,
};
use lox_interpreter::lexer::scan_tokens;
use lox_interpreter::run::{line_step, prompt_step, examine, run, PromptStep};
use lox_interpreter::text::{chars_of, str_eq, string_of, u32_to_string};

#[test]
fn unterminated_string_is_one_error() {
    let report = run("\"abc");
    assert_eq!(report.errors.len(), 1);
    assert_eq!(report.errors[0].line, 1);
    assert_eq!(report.errors[0].message, "Unterminated string");
    assert_eq!(report.tokens, vec!["EOF  ".to_string()]);
    let report = run("1\n\"abc\ndef");
    assert_eq!(report.errors.len(), 1);
    assert_eq!(report.errors[0].line, 3);
    assert_eq!(report.errors[0].to_string(), "[Line 3] Error: Unterminated string\n");
}

#[test]
fn all_lexical_errors_are_collected() {
    let report = run("1 @\n# 2 /* open\n");
    assert_eq!(report.tokens, vec!["Number 1 1", "Number 2 2", "EOF  "]);
    let errors: Vec<(u32, &str)> =
        report.errors.iter().map(|e| (e.line, e.message.as_str())).collect();
    assert_eq!(
        errors,
        vec![(1, "Unknown token"), (2, "Unknown token"), (2, "Unterminated block comment")]
    );
}

#[test]
fn input_without_errors_shows_every_token() {
    let report = run("print \"hi\";");
    assert!(report.errors.is_empty());
    assert_eq!(
        report.tokens,
        vec!["Print print ", "String \"hi\" terminated hi", "Semicolon ; ", "EOF  "]
    );
    let tokens = scan_tokens("print \"hi\";");
    let again = examine(&tokens);
    assert_eq!(again.tokens, report.tokens);
}

#[test]
fn report_line_format() {
    assert_eq!(report_error_str(12, "Unknown token".to_string()), "[Line 12] Error: Unknown token\n");
    assert_eq!(report_error_str(0, "".to_string()), "[Line 0] Error: \n");
    assert_eq!(
        report_error_str(4294967295, "x".to_string()),
        "[Line 4294967295] Error: x\n"
    );
}

#[test]
fn errors_say_their_line_and_message() {
    let lex = LexError::new("Unknown token".to_string(), 3);
    assert_eq!(lex.line(), 3);
    assert_eq!(lex.message(), "Unknown token");
    assert_eq!(lex.to_string(), "[Line 3] Error: Unknown token\n");
    assert_eq!(display(&lex), "[line 3] Error: Unknown token");
    let args = CLArgsError::new(0, "Incorrect commandline args".to_string());
    assert_eq!(args.line(), 0);
    assert_eq!(args.message(), "Incorrect commandline args");
    assert_eq!(args.to_string(), "[Line 0] Error: Incorrect commandline args\n");
    assert_eq!(display(&args), "[line 0] Error: Incorrect commandline args");
    let io = IOError::new(7, std::io::Error::new(std::io::ErrorKind::Other, "disk on fire"));
    assert_eq!(io.line(), 7);
    assert_eq!(io.message(), "disk on fire");
    assert_eq!(io.to_string(), "[Line 7] Error: disk on fire\n");
    let io = IOError::with_message(8, "gone".to_string());
    assert_eq!(display(&io), "[line 8] Error: gone");
}

#[test]
fn text_helpers() {
    assert_eq!(u32_to_string(0), "0");
    assert_eq!(u32_to_string(9), "9");
    assert_eq!(u32_to_string(10), "10");
    assert_eq!(u32_to_string(1234567890), "1234567890");
    assert_eq!(chars_of("a\u{e9}z"), vec!['a', '\u{e9}', 'z']);
    let chars = chars_of("hello");
    assert_eq!(string_of(&chars, 1, 4), "ell");
    assert_eq!(string_of(&chars, 2, 2), "");
    assert!(str_eq("abc", "abc"));
    assert!(!str_eq("abc", "abd"));
    assert!(!str_eq("abc", "ab"));
    assert!(str_eq("", ""));
}

#[test]
fn lines_fit_for_ordinary_inputs() {
    assert!(lox_interpreter::lexer::lines_fit(""));
    assert!(lox_interpreter::lexer::lines_fit("a\nb\n\n"));
}

#[test]
fn parse_source_goes_from_text_to_tree() {
    match lox_interpreter::run::parse_source("1 + 2 * 3") {
        Ok(expr) => {
            assert_eq!(lox_interpreter::syntax::expr::AstPrinter.print(&expr), "(+ 1 (* 2 3))")
        }
        Err(_) => panic!("the input is an expression"),
    }
    assert!(lox_interpreter::run::parse_source("1 +").is_err());
}

#[test]
fn prompt_stops_at_an_empty_line() {
    assert!(matches!(prompt_step(1, Ok("\n".to_string())), PromptStep::Stop));
    assert!(matches!(prompt_step(1, Ok("  \t\r\n".to_string())), PromptStep::Stop));
    assert!(matches!(prompt_step(1, Ok("".to_string())), PromptStep::Stop));
    match prompt_step(2, Ok("  1 + 2 \n".to_string())) {
        PromptStep::Run(input) => assert_eq!(input, "  1 + 2"),
        _ => panic!("a line with text is run"),
    }
    match prompt_step(3, Err(std::io::Error::new(std::io::ErrorKind::Other, "closed"))) {
        PromptStep::Fail(error) => {
            assert_eq!(error.line, 3);
            assert_eq!(error.message, "closed");
        }
        _ => panic!("a failed read ends the prompt"),
    }
    assert!(matches!(line_step(""), PromptStep::Stop));
    match line_step(" ") {
        PromptStep::Run(input) => assert_eq!(input, " "),
        _ => panic!("a blank is run"),
    }
}
