use hamster_wheel::Token;
use hamster_wheel::Tokenizer;

#[test]
fn peek_checks_next_token() {
    let mut tokenizer = Tokenizer::new("thing as something else");
    assert_eq!(tokenizer.info().token, Token::Variable);
    assert_eq!(tokenizer.peek().token, Token::As);
}

#[test]
fn peek_preserves_current_info() {
    let mut tokenizer = Tokenizer::new("thing as something else");
    assert_eq!(tokenizer.peek().token, Token::As);
    assert_eq!(tokenizer.info().token, Token::Variable);
}

#[test]
fn multiple_peeks() {
    let mut tokenizer = Tokenizer::new("thing as loop end");
    assert_eq!(tokenizer.peek().token, Token::As);
    assert_eq!(tokenizer.peek().token, Token::Loop);
    assert_eq!(tokenizer.peek().token, Token::End);
}

#[test]
fn peek_after_advance() {
    let mut tokenizer = Tokenizer::new("thing as loop end");
    assert_eq!(tokenizer.peek().token, Token::As);
    tokenizer.advance();
    assert_eq!(tokenizer.peek().token, Token::Loop);
}

#[test]
fn two_peeks_after_advance() {
    let mut tokenizer = Tokenizer::new("thing as loop end");
    assert_eq!(tokenizer.peek().token, Token::As);
    assert_eq!(tokenizer.peek().token, Token::Loop);
    tokenizer.advance();
    assert_eq!(tokenizer.peek().token, Token::Loop);
}

#[test]
fn peeks_and_advances() {
    let mut tokenizer = Tokenizer::new("thing as loop end {{ }}");
    assert_eq!(tokenizer.info().token, Token::Variable);
    assert_eq!(tokenizer.peek().token, Token::As);
    assert_eq!(tokenizer.peek().token, Token::Loop);
    assert_eq!(tokenizer.peek().token, Token::End);
    assert_eq!(tokenizer.peek().token, Token::LeftMustache);
    assert_eq!(tokenizer.peek().token, Token::RightMustache);
    tokenizer.advance();
    assert_eq!(tokenizer.info().token, Token::As);
    assert_eq!(tokenizer.peek().token, Token::Loop);
    assert_eq!(tokenizer.peek().token, Token::End);
    assert_eq!(tokenizer.peek().token, Token::LeftMustache);
    assert_eq!(tokenizer.peek().token, Token::RightMustache);
    tokenizer.advance();
    assert_eq!(tokenizer.info().token, Token::Loop);
    assert_eq!(tokenizer.peek().token, Token::End);
    assert_eq!(tokenizer.peek().token, Token::LeftMustache);
    assert_eq!(tokenizer.peek().token, Token::RightMustache);
    tokenizer.advance();
    assert_eq!(tokenizer.info().token, Token::End);
    assert_eq!(tokenizer.peek().token, Token::LeftMustache);
    assert_eq!(tokenizer.peek().token, Token::RightMustache);
    tokenizer.advance();
    assert_eq!(tokenizer.info().token, Token::LeftMustache);
    assert_eq!(tokenizer.peek().token, Token::RightMustache);
}

#[test]
fn eof_peek() {
    let mut tokenizer = Tokenizer::new("thing");
    assert_eq!(tokenizer.peek().token, Token::EOF);
    assert_eq!(tokenizer.peek().token, Token::EOF);
    assert_eq!(tokenizer.peek().token, Token::EOF);
    tokenizer.advance();
    assert_eq!(tokenizer.info().token, Token::EOF);
    assert_eq!(tokenizer.peek().token, Token::EOF);
}

#[test]
fn keywords_ignore_case() {
    let mut tokenizer = Tokenizer::new("LOOP Output imPORT End AS");
    assert_eq!(tokenizer.info().token, Token::Loop);
    assert_eq!(tokenizer.peek().token, Token::Output);
    assert_eq!(tokenizer.peek().token, Token::Import);
    assert_eq!(tokenizer.peek().token, Token::End);
    assert_eq!(tokenizer.peek().token, Token::As);
}

#[test]
fn keyword_prefix_stays_one_variable() {
    let mut tokenizer = Tokenizer::new("endgame loops");
    assert_eq!(tokenizer.info().token, Token::Variable);
    assert_eq!(tokenizer.info().slice, "endgame");
    assert_eq!(tokenizer.peek().token, Token::Variable);
    assert_eq!(tokenizer.peek().token, Token::EOF);
}

#[test]
fn punctuation_and_numbers() {
    let mut tokenizer = Tokenizer::new("[12,..].x:;(9)");
    assert_eq!(tokenizer.info().token, Token::LeftBracket);
    assert_eq!(tokenizer.peek().token, Token::Number);
    assert_eq!(tokenizer.peek().token, Token::Comma);
    assert_eq!(tokenizer.peek().token, Token::DoubleDot);
    assert_eq!(tokenizer.peek().token, Token::RightBracket);
    assert_eq!(tokenizer.peek().token, Token::Dot);
    assert_eq!(tokenizer.peek().token, Token::Variable);
    assert_eq!(tokenizer.peek().token, Token::Colon);
    assert_eq!(tokenizer.peek().token, Token::SemiColon);
    assert_eq!(tokenizer.peek().token, Token::LeftParentheses);
    assert_eq!(tokenizer.peek().token, Token::Number);
    assert_eq!(tokenizer.peek().token, Token::RightParentheses);
}

#[test]
fn token_spans_are_source_offsets() {
    let mut tokenizer = Tokenizer::new("  ab 12");
    let first = tokenizer.info().clone();
    assert_eq!(first.token, Token::Variable);
    assert_eq!(first.slice, "ab");
    assert_eq!(first.start, 2);
    assert_eq!(first.end, 4);
    let second = tokenizer.peek();
    assert_eq!(second.token, Token::Number);
    assert_eq!(second.slice, "12");
    assert_eq!(second.start, 5);
    assert_eq!(second.end, 7);
}
