use devconsole::{split_commands, tokenize, tokenize_string, TokenizeError};

#[test]
fn test_tokenize_simple() {
    let result = tokenize("echo hello world").unwrap();
    assert_eq!(result.command, "echo");
    assert_eq!(result.args, vec!["hello", "world"]);
}

#[test]
fn test_tokenize_no_args() {
    let result = tokenize("quit").unwrap();
    assert_eq!(result.command, "quit");
    assert!(result.args.is_empty());
}

#[test]
fn test_tokenize_double_quotes() {
    let result = tokenize(r#"say "hello world""#).unwrap();
    assert_eq!(result.command, "say");
    assert_eq!(result.args, vec!["hello world"]);
}

#[test]
fn test_tokenize_single_quotes() {
    let result = tokenize("say 'hello world'").unwrap();
    assert_eq!(result.command, "say");
    assert_eq!(result.args, vec!["hello world"]);
}

#[test]
fn test_tokenize_mixed_quotes() {
    let result = tokenize(r#"bind F1 "toggle sv_cheats""#).unwrap();
    assert_eq!(result.command, "bind");
    assert_eq!(result.args, vec!["F1", "toggle sv_cheats"]);
}

#[test]
fn test_tokenize_empty() {
    assert!(matches!(tokenize(""), Err(TokenizeError::EmptyInput)));
    assert!(matches!(tokenize("   "), Err(TokenizeError::EmptyInput)));
}

#[test]
fn test_tokenize_unterminated_string() {
    let result = tokenize(r#"echo "hello"#);
    assert!(matches!(result, Err(TokenizeError::UnterminatedString { .. })));
}

#[test]
fn test_tokenize_comment() {
    let result = tokenize("echo hello // this is a comment").unwrap();
    assert_eq!(result.command, "echo");
    assert_eq!(result.args, vec!["hello"]);
}

#[test]
fn test_tokenize_extra_whitespace() {
    let result = tokenize("  echo   hello    world  ").unwrap();
    assert_eq!(result.command, "echo");
    assert_eq!(result.args, vec!["hello", "world"]);
}

#[test]
fn test_tokenize_numbers() {
    let result = tokenize("sv_gravity 800.5").unwrap();
    assert_eq!(result.command, "sv_gravity");
    assert_eq!(result.args, vec!["800.5"]);
}

#[test]
fn test_tokenize_escaped_quote_in_string() {
    let result = tokenize(r#"echo "hello\"world""#).unwrap();
    assert_eq!(result.command, "echo");
    assert_eq!(result.args, vec![r#"hello\"world"#]);
}

#[test]
fn test_tokenize_escaped_backslash_in_string() {
    let result = tokenize(r#"echo "path\\to\\file""#).unwrap();
    assert_eq!(result.command, "echo");
    assert_eq!(result.args, vec![r#"path\\to\\file"#]);
}

#[test]
fn test_tokenize_string_empty() {
    let result = tokenize_string("").unwrap();
    assert!(result.is_empty());
}

#[test]
fn test_tokenize_string_whitespace_only() {
    let result = tokenize_string("   \t\n  ").unwrap();
    assert!(result.is_empty());
}

#[test]
fn test_split_commands_simple() {
    let commands = split_commands("sv_cheats 1; noclip; god");
    assert_eq!(commands, vec!["sv_cheats 1", "noclip", "god"]);
}

#[test]
fn test_split_commands_quoted() {
    let commands = split_commands(r#"echo "hello; world"; quit"#);
    assert_eq!(commands, vec![r#"echo "hello; world""#, "quit"]);
}

#[test]
fn test_split_commands_single() {
    let commands = split_commands("quit");
    assert_eq!(commands, vec!["quit"]);
}

#[test]
fn test_split_commands_empty() {
    let commands = split_commands("");
    assert!(commands.is_empty());
}

#[test]
fn test_split_commands_semicolon_only() {
    let commands = split_commands(";;;");
    assert!(commands.is_empty());
}

#[test]
fn test_split_commands_escaped_backslash_before_quote() {
    let commands = split_commands(r#"echo "test\\"; quit"#);
    assert_eq!(commands, vec![r#"echo "test\\""#, "quit"]);
}

#[test]
fn test_split_commands_escaped_quote() {
    let commands = split_commands(r#"echo "test\"inside"; quit"#);
    assert_eq!(commands, vec![r#"echo "test\"inside""#, "quit"]);
}

#[test]
fn test_split_commands_multiple_backslashes() {
    let commands = split_commands(r#"echo "test\\\\"; quit"#);
    assert_eq!(commands, vec![r#"echo "test\\\\""#, "quit"]);

    let commands = split_commands(r#"echo "test\\\"inside"; quit"#);
    assert_eq!(commands, vec![r#"echo "test\\\"inside""#, "quit"]);
}

#[test]
fn unterminated_string_reports_opening_offset() {
    let result = tokenize(r#"echo "unterminated"#);
    assert_eq!(result, Err(TokenizeError::UnterminatedString { position: 5 }));
}

#[test]
fn unterminated_offset_counts_bytes() {
    // "é" takes two bytes, so the quote opens at byte 3.
    let result = tokenize_string("é '");
    assert_eq!(result, Err(TokenizeError::UnterminatedString { position: 3 }));
}

#[test]
fn say_quoted_is_one_argument() {
    let result = tokenize(r#"say "hello world""#).unwrap();
    assert_eq!(result.args, vec!["hello world"]);
    assert_eq!(result.raw, r#"say "hello world""#);
}

#[test]
fn comment_only_line_is_empty() {
    assert_eq!(tokenize("   // nothing here"), Err(TokenizeError::EmptyInput));
}

#[test]
fn quote_directly_after_word_starts_new_token() {
    let result = tokenize_string(r#"a"b c"d"#).unwrap();
    assert_eq!(result, vec!["a", "b c", "d"]);
}

#[test]
fn trailing_backslash_in_quote_is_unterminated() {
    let result = tokenize_string(r#"x "abc\"#);
    assert_eq!(result, Err(TokenizeError::UnterminatedString { position: 2 }));
}

#[test]
fn split_keeps_semicolon_in_single_quotes() {
    let commands = split_commands("echo 'a;b'; quit");
    assert_eq!(commands, vec!["echo 'a;b'", "quit"]);
}

#[test]
fn tokenize_error_messages() {
    assert_eq!(TokenizeError::EmptyInput.message(), "empty input");
    assert_eq!(
        TokenizeError::UnterminatedString { position: 12 }.message(),
        "unterminated string at position 12"
    );
}

#[test]
fn comment_marker_inside_quotes_is_text() {
    let result = tokenize(r#"echo "a//b""#).unwrap();
    assert_eq!(result.command, "echo");
    assert_eq!(result.args, vec!["a//b"]);
    let result = tokenize(r#"say 'x // y' // gone"#).unwrap();
    assert_eq!(result.args, vec!["x // y"]);
}
