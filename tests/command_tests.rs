use sdb::lexer::keyword_of;
use sdb::{App, Command, CommandError, Lexer, Reply, Token, ValidationError};

fn tokens(line: &str) -> Vec<Token> {
    let mut lexer = Lexer::new(line.to_string());
    let mut out = Vec::new();
    while let Some(t) = lexer.next() {
        out.push(t);
    }
    out
}

#[test]
fn tokenizes_insert_line() {
    let t = tokens("insert 1 john doe");
    assert_eq!(t.len(), 4);
    assert!(matches!(t[0], Token::Command(Command::INSERT)));
    assert!(matches!(t[1], Token::Number(1)));
    assert!(matches!(&t[2], Token::AlphaNumeric(s) if s == "john"));
    assert!(matches!(&t[3], Token::AlphaNumeric(s) if s == "doe"));
}

#[test]
fn tokenizes_exit_line() {
    let t = tokens(".exit");
    assert_eq!(t.len(), 2);
    assert!(matches!(t[0], Token::SpecialChar('.')));
    assert!(matches!(t[1], Token::Command(Command::EXIT)));
}

#[test]
fn keywords_ignore_case() {
    let t = tokens("SeLeCt InSeRt\n");
    assert_eq!(t.len(), 2);
    assert!(matches!(t[0], Token::Command(Command::SELECT)));
    assert!(matches!(t[1], Token::Command(Command::INSERT)));
}

#[test]
fn keyword_of_upper_words() {
    assert_eq!(keyword_of("INSERT"), Some(Command::INSERT));
    assert_eq!(keyword_of("SELECT"), Some(Command::SELECT));
    assert_eq!(keyword_of("EXIT"), Some(Command::EXIT));
    assert_eq!(keyword_of("insert"), None);
    assert_eq!(keyword_of("INSERTS"), None);
    assert_eq!(keyword_of(""), None);
}

#[test]
fn empty_and_blank_lines_have_no_tokens() {
    assert!(tokens("").is_empty());
    assert!(tokens("  \t \n").is_empty());
}

#[test]
fn overflowing_number_becomes_zero() {
    let t = tokens("18446744073709551616 18446744073709551615");
    assert!(matches!(t[0], Token::Number(0)));
    assert!(matches!(t[1], Token::Number(u64::MAX)));
}

#[test]
fn word_runs_over_letters_and_digits() {
    let t = tokens("abc123 42x ,");
    assert_eq!(t.len(), 4);
    assert!(matches!(&t[0], Token::AlphaNumeric(s) if s == "abc123"));
    assert!(matches!(t[1], Token::Number(42)));
    assert!(matches!(&t[2], Token::AlphaNumeric(s) if s == "x"));
    assert!(matches!(t[3], Token::SpecialChar(',')));
}

#[test]
fn lexer_cursor_after_whitespace() {
    let mut lexer = Lexer::new("  ab".to_string());
    let chars: Vec<char> = "  ab".chars().collect();
    lexer.trim_leading_spaces(&chars);
    assert!(matches!(lexer.next(), Some(Token::AlphaNumeric(s)) if s == "ab"));
    assert!(lexer.next().is_none());
}

#[test]
fn insert_missing_description_is_rejected() {
    let mut app = App::new();
    let r = app.evaluate_input("insert 1 john".to_string());
    assert_eq!(r.unwrap_err(), CommandError::InvalidEntity);
    assert_eq!(app.len(), 0);
}

#[test]
fn insert_zero_id_is_rejected() {
    let mut app = App::new();
    let r = app.evaluate_input("insert 0 john doe".to_string());
    assert_eq!(r.unwrap_err(), CommandError::Rejected(ValidationError::ZeroId));
    assert_eq!(app.len(), 0);
}

#[test]
fn insert_then_select() {
    let mut app = App::new();
    assert!(matches!(app.evaluate_input("insert 1 john doe\n".to_string()), Ok(Reply::Inserted)));
    assert!(matches!(app.evaluate_input("INSERT 2 jane roe\n".to_string()), Ok(Reply::Inserted)));
    assert_eq!(app.len(), 2);
    match app.evaluate_input("select\n".to_string()) {
        Ok(Reply::Rows(rows)) => {
            assert_eq!(rows.len(), 2);
            assert_eq!(rows[0].id(), 1);
            assert_eq!(rows[0].user_name(), "john");
            assert_eq!(rows[0].description(), "doe");
            assert_eq!(rows[1].id(), 2);
            assert_eq!(rows[1].user_name(), "jane");
        }
        _ => panic!("select gave no rows"),
    }
}

#[test]
fn wrong_token_kinds_are_rejected() {
    let mut app = App::new();
    let r = app.evaluate_input("insert john 1 doe".to_string());
    assert_eq!(r.unwrap_err(), CommandError::InvalidEntity);
    let r = app.evaluate_input("insert 1 john 2".to_string());
    assert_eq!(r.unwrap_err(), CommandError::InvalidEntity);
    assert_eq!(app.len(), 0);
}

#[test]
fn unknown_and_empty_lines_are_invalid_commands() {
    let mut app = App::new();
    assert_eq!(app.evaluate_input("".to_string()).unwrap_err(), CommandError::InvalidCommand);
    assert_eq!(app.evaluate_input("hello".to_string()).unwrap_err(), CommandError::InvalidCommand);
    assert_eq!(app.evaluate_input("exit".to_string()).unwrap_err(), CommandError::InvalidCommand);
    assert_eq!(app.evaluate_input("7".to_string()).unwrap_err(), CommandError::InvalidCommand);
    assert_eq!(app.len(), 0);
}

#[test]
fn dot_exit_asks_to_end() {
    let mut app = App::new();
    assert!(matches!(app.evaluate_input(".exit\n".to_string()), Ok(Reply::Exit)));
    assert!(matches!(app.evaluate_input(".EXIT".to_string()), Ok(Reply::Exit)));
    assert_eq!(app.evaluate_input(".quit".to_string()).unwrap_err(), CommandError::InvalidCommand);
    assert_eq!(app.evaluate_input(".".to_string()).unwrap_err(), CommandError::InvalidCommand);
}

#[test]
fn insert_with_extra_token_is_rejected() {
    let mut app = App::new();
    let r = app.evaluate_input("insert 1 john doe extra\n".to_string());
    assert_eq!(r.unwrap_err(), CommandError::InvalidEntity);
    let r = app.evaluate_input("insert 1 john doe .".to_string());
    assert_eq!(r.unwrap_err(), CommandError::InvalidEntity);
    assert_eq!(app.len(), 0);
}

#[test]
fn select_ignores_trailing_tokens() {
    let mut app = App::new();
    assert!(matches!(app.evaluate_input("insert 1 john doe".to_string()), Ok(Reply::Inserted)));
    match app.evaluate_input("select everything now".to_string()) {
        Ok(Reply::Rows(rows)) => assert_eq!(rows.len(), 1),
        _ => panic!("select gave no rows"),
    }
}

#[test]
fn unparsed_number_is_reported() {
    let mut app = App::new();
    let r = app.evaluate_input("insert 99999999999999999999 john doe".to_string());
    assert_eq!(r.unwrap_err(), CommandError::Rejected(ValidationError::ZeroId));
    assert!(app.last_line_number_failed());
    assert!(matches!(app.evaluate_input("insert 5 john doe".to_string()), Ok(Reply::Inserted)));
    assert!(!app.last_line_number_failed());
    assert_eq!(app.len(), 1);
}

#[test]
fn lexer_flags_unparsed_number() {
    let mut lexer = Lexer::new("18446744073709551616 7".to_string());
    assert!(matches!(lexer.next(), Some(Token::Number(0))));
    assert!(lexer.last_number_failed());
    assert!(matches!(lexer.next(), Some(Token::Number(7))));
    assert!(!lexer.last_number_failed());
}
