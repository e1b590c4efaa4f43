use blocks::token::{build_tokens, Token};
use blocks::utils::Register;

fn ident(s: &str) -> Token {
    Token::Identifier(s.to_string())
}

#[test]
fn lexes_a_literal_assignment() {
    assert_eq!(
        build_tokens("set 0 = 1;".to_string()),
        vec![
            Token::Null,
            Token::Assign,
            Token::Number(0),
            Token::AssignSymbol,
            Token::Number(1),
            Token::LineEnd,
            Token::Null,
        ]
    );
}

#[test]
fn empty_text_is_a_single_null() {
    assert_eq!(build_tokens(String::new()), vec![Token::Null]);
}

#[test]
fn tokens_are_bracketed_by_null() {
    let samples = [
        "", " ", "`", "``", "`open", "//", "// c", "/", "=", "==", ">=", "<", "é", "\t", "set",
        "set x", "set x = 1;", "}{", "? a", "raw `1 2`", "a\u{2028}b", "語 = 1;", "$accum",
        "/ / x", ">>==", "symbol S { return } call S;",
    ];
    for s in samples.iter() {
        let tokens = build_tokens(s.to_string());
        assert!(tokens.len() >= 1);
        assert_eq!(tokens[0], Token::Null, "input {:?}", s);
        assert_eq!(tokens[tokens.len() - 1], Token::Null, "input {:?}", s);
        if !s.is_empty() {
            assert!(tokens.len() >= 2, "input {:?}", s);
        }
        assert!(tokens.len() <= s.chars().count() + 2, "input {:?}", s);
    }
}

#[test]
fn a_word_at_the_very_end_is_not_read() {
    assert_eq!(build_tokens("return".to_string()), vec![Token::Null, Token::Null]);
    assert_eq!(
        build_tokens("return ".to_string()),
        vec![Token::Null, Token::Return, Token::Null]
    );
}

#[test]
fn two_character_operators_need_adjacency() {
    assert_eq!(
        build_tokens("cmp >= a b;".to_string()),
        vec![
            Token::Null,
            Token::Compare,
            Token::GreaterEqual,
            ident("a"),
            ident("b"),
            Token::LineEnd,
            Token::Null,
        ]
    );
    assert_eq!(
        build_tokens("cmp <= a b;".to_string()),
        vec![
            Token::Null,
            Token::Compare,
            Token::LessEqual,
            ident("a"),
            ident("b"),
            Token::LineEnd,
            Token::Null,
        ]
    );
    assert_eq!(
        build_tokens("cmp == a b;".to_string()),
        vec![
            Token::Null,
            Token::Compare,
            Token::Equals,
            ident("a"),
            ident("b"),
            Token::LineEnd,
            Token::Null,
        ]
    );
    assert_eq!(
        build_tokens("cmp > = a b;".to_string()),
        vec![
            Token::Null,
            Token::Compare,
            Token::Greater,
            Token::AssignSymbol,
            ident("a"),
            ident("b"),
            Token::LineEnd,
            Token::Null,
        ]
    );
}

#[test]
fn single_character_operators() {
    assert_eq!(
        build_tokens("; # @ * + ~ ! & | ^ > < { } ? / = ".to_string()),
        vec![
            Token::Null,
            Token::LineEnd,
            Token::Dereference,
            Token::Address,
            Token::Multiply,
            Token::Add,
            Token::Subtract,
            Token::Not,
            Token::And,
            Token::Or,
            Token::Xor,
            Token::Greater,
            Token::Less,
            Token::OpenBrace,
            Token::CloseBrace,
            Token::Tag,
            Token::Divide,
            Token::AssignSymbol,
            Token::Null,
        ]
    );
}

#[test]
fn reserved_words() {
    assert_eq!(
        build_tokens("set ; cmp ; symbol ; goto ; ifgoto ; call ; return ; raw ;".to_string()),
        vec![
            Token::Null,
            Token::Assign,
            Token::LineEnd,
            Token::Compare,
            Token::LineEnd,
            Token::Symbol,
            Token::LineEnd,
            Token::Goto,
            Token::LineEnd,
            Token::IfGoto,
            Token::LineEnd,
            Token::Call,
            Token::LineEnd,
            Token::Return,
            Token::LineEnd,
            Token::Raw,
            Token::LineEnd,
            Token::Null,
        ]
    );
}

#[test]
fn comments_run_to_the_end_of_the_line() {
    assert_eq!(
        build_tokens("set x = 1; // note ` set\nset y = 2;".to_string()),
        vec![
            Token::Null,
            Token::Assign,
            ident("x"),
            Token::AssignSymbol,
            Token::Number(1),
            Token::LineEnd,
            Token::Assign,
            ident("y"),
            Token::AssignSymbol,
            Token::Number(2),
            Token::LineEnd,
            Token::Null,
        ]
    );
    assert_eq!(
        build_tokens("// only a comment".to_string()),
        vec![Token::Null, Token::Null]
    );
}

#[test]
fn slashes_apart_are_two_divisions() {
    assert_eq!(
        build_tokens("/ / ".to_string()),
        vec![Token::Null, Token::Divide, Token::Divide, Token::Null]
    );
}

#[test]
fn backticks_keep_text_as_it_is() {
    assert_eq!(
        build_tokens("raw `10 7 0 10 8 0 29 -1`;".to_string()),
        vec![
            Token::Null,
            Token::Raw,
            ident("10 7 0 10 8 0 29 -1"),
            Token::LineEnd,
            Token::Null,
        ]
    );
    assert_eq!(
        build_tokens("raw `a // b; = c`;".to_string()),
        vec![Token::Null, Token::Raw, ident("a // b; = c"), Token::LineEnd, Token::Null]
    );
}

#[test]
fn numbers_and_registers_are_recognized() {
    assert_eq!(
        build_tokens("set $accum = $int1;".to_string()),
        vec![
            Token::Null,
            Token::Assign,
            Token::Register(Register::Accum),
            Token::AssignSymbol,
            Token::Register(Register::Int1),
            Token::LineEnd,
            Token::Null,
        ]
    );
    let names = [
        ("$int1", Register::Int1),
        ("$int2", Register::Int2),
        ("$int3", Register::Int3),
        ("$int4", Register::Int4),
        ("$flag", Register::Flag),
        ("$accum", Register::Accum),
        ("$error", Register::Error),
        ("$flowsegment", Register::FlowSegment),
        ("$datasegment", Register::DataSegment),
        ("$segment", Register::DataSegment),
        ("$pcounter", Register::PCounter),
    ];
    for (name, register) in names.iter() {
        assert_eq!(
            build_tokens(format!("goto {};", name)),
            vec![
                Token::Null,
                Token::Goto,
                Token::Register(*register),
                Token::LineEnd,
                Token::Null,
            ]
        );
    }
    assert_eq!(
        build_tokens("goto -12; goto 007; goto $other;".to_string()),
        vec![
            Token::Null,
            Token::Goto,
            Token::Number(-12),
            Token::LineEnd,
            Token::Goto,
            Token::Number(7),
            Token::LineEnd,
            Token::Goto,
            ident("$other"),
            Token::LineEnd,
            Token::Null,
        ]
    );
}

#[test]
fn a_tag_takes_two_operands() {
    assert_eq!(
        build_tokens("? var_addr 100; set x = 1;".to_string()),
        vec![
            Token::Null,
            Token::Tag,
            ident("var_addr"),
            Token::Number(100),
            Token::LineEnd,
            Token::Assign,
            ident("x"),
            Token::AssignSymbol,
            Token::Number(1),
            Token::LineEnd,
            Token::Null,
        ]
    );
}

#[test]
fn a_word_after_an_identifier_is_dropped() {
    assert_eq!(
        build_tokens("goto a b;".to_string()),
        vec![Token::Null, Token::Goto, ident("a"), Token::LineEnd, Token::Null]
    );
}

#[test]
fn every_whitespace_separates_words() {
    assert_eq!(
        build_tokens("set\tx\r\n=\u{a0}1;".to_string()),
        vec![
            Token::Null,
            Token::Assign,
            ident("x"),
            Token::AssignSymbol,
            Token::Number(1),
            Token::LineEnd,
            Token::Null,
        ]
    );
}

#[test]
fn prefix_arithmetic() {
    assert_eq!(
        build_tokens("set x = + x 128;".to_string()),
        vec![
            Token::Null,
            Token::Assign,
            ident("x"),
            Token::AssignSymbol,
            Token::Add,
            ident("x"),
            Token::Number(128),
            Token::LineEnd,
            Token::Null,
        ]
    );
}

#[test]
fn token_same_compares_by_value() {
    assert!(ident("a").same(&ident("a")));
    assert!(!ident("a").same(&ident("b")));
    assert!(!ident("a").same(&Token::Other("a".to_string())));
    assert!(Token::Number(3).same(&Token::Number(3)));
    assert!(!Token::Number(3).same(&Token::Number(4)));
    assert!(Token::Null.same(&Token::Null));
    assert!(!Token::Null.same(&Token::LineEnd));
    assert!(Token::Register(Register::Flag).same(&Token::Register(Register::Flag)));
    assert!(!Token::Register(Register::Flag).same(&Token::Register(Register::Accum)));
    assert_eq!(ident("a").clone(), ident("a"));
}
