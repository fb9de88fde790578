use txgen::codegen::is_output_statement;
use txgen::invoke::parse_invocation;
use txgen::invoke::ArgToken;
use txgen::invoke::InvokeError;

fn lit(text: &str) -> ArgToken {
    ArgToken::Literal { text: String::from(text) }
}

fn ident(text: &str) -> ArgToken {
    ArgToken::Ident { text: String::from(text) }
}

fn comma() -> ArgToken {
    ArgToken::Punct { ch: ',' }
}

#[test]
fn test_output_classification() {
    assert!(is_output_statement("INSERT INTO t (a) VALUES (1) RETURNING id"));
    assert!(is_output_statement("insert into t (a) values (1) returning id"));
    assert!(is_output_statement("INSERT INTO t (a) VALUES (1) ReTuRnInG id"));
    assert!(!is_output_statement("INSERT INTO t (a) VALUES (1)"));
    assert!(!is_output_statement("SELECT * FROM users"));
}

#[test]
fn test_parse_invocation_ok() {
    let tokens = vec![lit("\"queries.sql\""), comma(), ident("value"), comma(), ident("other")];
    let inv = parse_invocation(&tokens).unwrap();
    assert_eq!(inv.filename, "queries.sql");
    assert_eq!(inv.bindings, vec!["value".to_string(), "other".to_string()]);
}

#[test]
fn test_parse_invocation_no_bindings() {
    let tokens = vec![lit("\"q.sql\"")];
    let inv = parse_invocation(&tokens).unwrap();
    assert_eq!(inv.filename, "q.sql");
    assert!(inv.bindings.is_empty());
}

#[test]
fn test_parse_invocation_trailing_comma() {
    // A dangling trailing comma, with nothing meaningful after it, is a
    // syntax error: every comma must be followed by an identifier.
    let tokens = vec![lit("\"q.sql\""), comma(), ident("x"), comma()];
    let err = parse_invocation(&tokens).unwrap_err();
    assert_eq!(err, InvokeError::NotIdent);
    assert_eq!(err.message(), "Bindings must be identifiers");
}

#[test]
fn test_parse_invocation_missing_filename() {
    let err = parse_invocation(&Vec::new()).unwrap_err();
    assert_eq!(err, InvokeError::MissingFilename);
    assert_eq!(err.message(), "Expected a filename argument");
}

#[test]
fn test_parse_invocation_filename_not_literal() {
    let err = parse_invocation(&vec![ident("file")]).unwrap_err();
    assert_eq!(err, InvokeError::FilenameNotLiteral);
    assert_eq!(err.message(), "The filename argument must be a string literal");

    // A literal that is not a quoted string is refused too.
    let err = parse_invocation(&vec![lit("42")]).unwrap_err();
    assert_eq!(err, InvokeError::FilenameNotLiteral);
}

#[test]
fn test_parse_invocation_not_comma() {
    let err = parse_invocation(&vec![lit("\"q.sql\""), ident("x")]).unwrap_err();
    assert_eq!(err, InvokeError::NotComma);
    assert_eq!(err.message(), "Arguments must be separated by commas");
}

#[test]
fn test_parse_invocation_not_ident() {
    let err = parse_invocation(&vec![lit("\"q.sql\""), comma(), comma()]).unwrap_err();
    assert_eq!(err, InvokeError::NotIdent);
    assert_eq!(err.message(), "Bindings must be identifiers");

    let err = parse_invocation(&vec![lit("\"q.sql\""), comma(), ArgToken::Group]).unwrap_err();
    assert_eq!(err, InvokeError::NotIdent);
}
