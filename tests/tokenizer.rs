use jas::common::{Token, TokenType};
use jas::tokenizer::tokenize;

#[test]
fn test_empty_string() {
    let tokens = tokenize("").unwrap();
    assert!(tokens.is_empty());
}

#[test]
fn test_const_reference() {
    let tokens = tokenize("foobar").unwrap();
    assert_eq!(tokens.len(), 1);
    assert_eq!(tokens[0].t, Some(TokenType::ConstantReference));
}

fn verify_ret(tokens: &Vec<Token>) {
    assert_eq!(tokens.len(), 1);
    assert_eq!(tokens[0].t, Some(TokenType::Return));
}

#[test]
fn tokenizer_test_ret() {
    let tokens = tokenize("↩").unwrap();
    verify_ret(&tokens);
}

fn verify_add(tokens: &Vec<Token>) {
    assert_eq!(tokens.len(), 3);
    assert_eq!(tokens[0].t, Some(TokenType::Register));
    assert_eq!(tokens[0].value, "⚪");

    assert_eq!(tokens[1].t, Some(TokenType::Add));

    assert_eq!(tokens[2].t, Some(TokenType::Value));
    assert_eq!(tokens[2].value, "5");
}

#[test]
fn test_add() {
    let tokens = tokenize("⚪ ⬆ $5").unwrap();
    verify_add(&tokens);
}

#[test]
fn test_subtract() {
    let tokens = tokenize("⚪ ➖ $5").unwrap();
    assert_eq!(tokens.len(), 3);
    assert_eq!(tokens[0].t, Some(TokenType::Register));
    assert_eq!(tokens[0].value, "⚪");

    assert_eq!(tokens[1].t, Some(TokenType::Subtract));

    assert_eq!(tokens[2].t, Some(TokenType::Value));
    assert_eq!(tokens[2].value, "5");
}

#[test]
fn test_multiply() {
    let tokens = tokenize("⚪ ✖ $5").unwrap();

    assert_eq!(tokens.len(), 3);
    assert_eq!(tokens[0].t, Some(TokenType::Register));
    assert_eq!(tokens[0].value, "⚪");

    assert_eq!(tokens[1].t, Some(TokenType::Multiply));

    assert_eq!(tokens[2].t, Some(TokenType::Value));
    assert_eq!(tokens[2].value, "5");
}

#[test]
fn test_memory() {
    let tokens = tokenize("321").unwrap();
    assert_eq!(tokens.len(), 1);
    assert_eq!(tokens[0].t, Some(TokenType::Memory));
    assert_eq!(tokens[0].value, "321");
}

#[test]
fn test_label() {
    let tokens = tokenize("📪my_label:").unwrap();
    assert_eq!(tokens.len(), 1);
    assert_eq!(tokens[0].t, Some(TokenType::Label));
    assert_eq!(tokens[0].value, "my_label");
}

#[test]
fn tokenizer_test_jump() {
    let tokens = tokenize("🦘 123").unwrap();
    assert_eq!(tokens.len(), 2);
    assert_eq!(tokens[0].t, Some(TokenType::Jump));
    assert_eq!(tokens[1].t, Some(TokenType::Memory));
    assert_eq!(tokens[1].value, "123");
}

#[test]
fn test_jump_if_condition() {
    let tokens = tokenize("🦘≠ 123").unwrap();
    assert_eq!(tokens.len(), 2);
    assert_eq!(tokens[0].t, Some(TokenType::JumpIfNotEqual));
    assert_eq!(tokens[0].value, "🦘≠");
    assert_eq!(tokens[1].t, Some(TokenType::Memory));
    assert_eq!(tokens[1].value, "123");
}

#[test]
fn tokenizer_test_call() {
    let tokens = tokenize("📞 123").unwrap();
    assert_eq!(tokens.len(), 2);
    assert_eq!(tokens[0].t, Some(TokenType::Call));
    assert_eq!(tokens[1].t, Some(TokenType::Memory));
    assert_eq!(tokens[1].value, "123");
}

#[test]
fn test_return() {
    let tokens = tokenize("🏠").unwrap();
    assert_eq!(tokens.len(), 1);
    assert_eq!(tokens[0].t, Some(TokenType::Return));
}

#[test]
fn test_compare_registers() {
    let tokens = tokenize("⚖ ⚪ ⚫").unwrap();
    assert_eq!(tokens.len(), 3);
    assert_eq!(tokens[0].t, Some(TokenType::Compare));
    assert_eq!(tokens[1].t, Some(TokenType::Register));
    assert_eq!(tokens[2].t, Some(TokenType::Register));
}

#[test]
fn test_whitespace1() {
    let tokens = tokenize("↩        ").unwrap();
    verify_ret(&tokens);
}

#[test]
fn test_whitespace2() {
    let tokens = tokenize("    ↩        ").unwrap();
    verify_ret(&tokens);
}

#[test]
fn test_whitespace3() {
    let tokens = tokenize("⚪ 	⬆ $5").unwrap();
    //                        ^ TAB
    verify_add(&tokens);
}

#[test]
fn test_comment() {
    let tokens = tokenize("↩ # some comment").unwrap();
    verify_ret(&tokens);
}

#[test]
fn test_invalid_value() {
    let tokens = tokenize("⚪ ⬅ $SYS_EXIT");
    assert!(tokens.is_err());
}

#[test]
fn test_full_line_comment() {
    let tokens = tokenize("# ↩ some comment").unwrap();
    assert_eq!(tokens.len(), 0);
}

#[test]
fn test_constant_offset() {
    let tokens = tokenize("📥 offset~⬇").unwrap();
    assert_eq!(tokens.len(), 3);
    assert_eq!(tokens[0].t, Some(TokenType::Push));
    assert_eq!(tokens[1].t, Some(TokenType::ConstantReference));
    assert_eq!(tokens[2].t, Some(TokenType::Register));
}
