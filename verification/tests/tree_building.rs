use blocks::error::ErrorKind;
use blocks::token::Token;
use blocks::tree::{
    build_token_tree, build_tree, get_input_count, has_subtree, is_element_token, Stack,
    TokenWrapper, Tree,
};
use blocks::utils::{is_element, Register};

fn ident(s: &str) -> TokenWrapper {
    TokenWrapper::Token(Token::Identifier(s.to_string()))
}

fn number(n: i32) -> TokenWrapper {
    TokenWrapper::Token(Token::Number(n))
}

fn tree(t: Tree) -> TokenWrapper {
    TokenWrapper::Tree(t)
}

#[test]
fn builds_an_assignment() {
    assert_eq!(
        build_token_tree("set 0 = 1;".to_string()).unwrap(),
        Tree::Block(vec![tree(Tree::Assign(Box::new(number(0)), Box::new(number(1))))])
    );
}

#[test]
fn statements_keep_source_order() {
    assert_eq!(
        build_token_tree("set x = 1; goto x; return;".to_string()).unwrap(),
        Tree::Block(vec![
            tree(Tree::Assign(Box::new(ident("x")), Box::new(number(1)))),
            tree(Tree::Goto(Box::new(ident("x")))),
            tree(Tree::Return),
        ])
    );
}

#[test]
fn operands_nest() {
    assert_eq!(
        build_token_tree("set x = + * a b ~ c 1;".to_string()).unwrap(),
        Tree::Block(vec![tree(Tree::Assign(
            Box::new(ident("x")),
            Box::new(tree(Tree::Add(
                Box::new(tree(Tree::Multiply(Box::new(ident("a")), Box::new(ident("b"))))),
                Box::new(tree(Tree::Subtract(Box::new(ident("c")), Box::new(number(1))))),
            ))),
        ))])
    );
}

#[test]
fn every_operator_builds_its_node() {
    let a = || Box::new(ident("a"));
    let b = || Box::new(ident("b"));
    let cases: Vec<(&str, Tree)> = vec![
        ("* a b;", Tree::Multiply(a(), b())),
        ("/ a b;", Tree::Divide(a(), b())),
        ("+ a b;", Tree::Add(a(), b())),
        ("~ a b;", Tree::Subtract(a(), b())),
        ("& a b;", Tree::And(a(), b())),
        ("| a b;", Tree::Or(a(), b())),
        ("^ a b;", Tree::Xor(a(), b())),
        ("> a b;", Tree::Greater(a(), b())),
        ("< a b;", Tree::Less(a(), b())),
        (">= a b;", Tree::GreaterEqual(a(), b())),
        ("<= a b;", Tree::LessEqual(a(), b())),
        ("== a b;", Tree::Equals(a(), b())),
        ("! a;", Tree::Not(a())),
        ("# a;", Tree::Dereference(a())),
        ("@ a;", Tree::Address(a())),
        ("goto a;", Tree::Goto(a())),
        ("ifgoto a;", Tree::IfGoto(a())),
        ("call a;", Tree::Call(a())),
        ("cmp > a b;", Tree::Compare(Box::new(tree(Tree::Greater(a(), b()))))),
        ("return;", Tree::Return),
        ("raw `1 2 3`;", Tree::Raw(vec![1, 2, 3])),
        ("? a b;", Tree::Tag("a".to_string(), "b".to_string())),
        ("? a 12;", Tree::Tag("a".to_string(), "12".to_string())),
    ];
    for (source, expected) in cases {
        assert_eq!(
            build_token_tree(source.to_string()).unwrap(),
            Tree::Block(vec![tree(expected)]),
            "source {:?}",
            source
        );
    }
}

#[test]
fn a_symbol_has_a_block_for_its_body() {
    assert_eq!(
        build_token_tree("symbol S { set x = 1; return } call S;".to_string()).unwrap(),
        Tree::Block(vec![
            tree(Tree::Symbol(
                "S".to_string(),
                Box::new(tree(Tree::Block(vec![
                    tree(Tree::Assign(Box::new(ident("x")), Box::new(number(1)))),
                    tree(Tree::Return),
                ]))),
            )),
            tree(Tree::Call(Box::new(ident("S")))),
        ])
    );
}

#[test]
fn too_few_operands() {
    let e = build_token_tree("set x;".to_string()).unwrap_err();
    assert_eq!(e.kind, ErrorKind::NotEnoughArgs);
    assert_eq!(e.extra, Token::Assign);
    let e = build_token_tree("goto ;".to_string()).unwrap_err();
    assert_eq!(e.kind, ErrorKind::NotEnoughArgs);
    assert_eq!(e.extra, Token::Goto);
}

#[test]
fn braces_must_match() {
    let e = build_token_tree("{ ".to_string()).unwrap_err();
    assert_eq!(e.kind, ErrorKind::UnmatchedToken);
    assert_eq!(e.extra, Token::OpenBrace);
    let e = build_token_tree("} } ".to_string()).unwrap_err();
    assert_eq!(e.kind, ErrorKind::UnmatchedToken);
    assert_eq!(e.extra, Token::CloseBrace);
}

#[test]
fn raw_must_hold_numbers() {
    let e = build_token_tree("raw `1 two 3`;".to_string()).unwrap_err();
    assert_eq!(e.kind, ErrorKind::InvalidRaw);
    assert_eq!(e.extra, Token::Identifier("1 two 3".to_string()));
    let e = build_token_tree("raw + a b;".to_string()).unwrap_err();
    assert_eq!(e.kind, ErrorKind::InvalidRaw);
    assert_eq!(e.extra, Token::Null);
    let e = build_token_tree("raw `5`;".to_string()).unwrap_err();
    assert_eq!(e.kind, ErrorKind::InvalidRaw);
    assert_eq!(e.extra, Token::Null);
}

#[test]
fn tag_operands_must_be_words() {
    let e = build_token_tree("? + a b c;".to_string()).unwrap_err();
    assert_eq!(e.kind, ErrorKind::TagNameType);
    assert_eq!(e.extra, Token::Null);
    let e = build_token_tree("? a + b c;".to_string()).unwrap_err();
    assert_eq!(e.kind, ErrorKind::TagValueType);
    assert_eq!(e.extra, Token::Null);
    let e = build_token_tree("? $accum x;".to_string()).unwrap_err();
    assert_eq!(e.kind, ErrorKind::TagNameType);
    assert_eq!(e.extra, Token::Register(Register::Accum));
    let e = build_token_tree("? x $accum;".to_string()).unwrap_err();
    assert_eq!(e.kind, ErrorKind::TagValueType);
    assert_eq!(e.extra, Token::Register(Register::Accum));
}

#[test]
fn symbol_name_must_be_an_identifier() {
    let e = build_token_tree("symbol 5 { } ".to_string()).unwrap_err();
    assert_eq!(e.kind, ErrorKind::SymbolNameType);
    assert_eq!(e.extra, Token::Number(5));
    let e = build_token_tree("symbol + a b { } ".to_string()).unwrap_err();
    assert_eq!(e.kind, ErrorKind::SymbolNameType);
    assert_eq!(e.extra, Token::Null);
}

#[test]
fn build_tree_takes_tokens() {
    let tokens = vec![
        Token::Null,
        Token::Goto,
        Token::Number(4),
        Token::LineEnd,
        Token::Null,
    ];
    assert_eq!(
        build_tree(tokens).unwrap(),
        Tree::Block(vec![tree(Tree::Goto(Box::new(number(4))))])
    );
    let e = build_tree(vec![Token::Add, Token::Other("x".to_string())]).unwrap_err();
    assert_eq!(e.kind, ErrorKind::NotEnoughArgs);
    assert_eq!(e.extra, Token::Add);
    assert_eq!(build_tree(vec![]).unwrap(), Tree::Block(vec![]));
}

#[test]
fn stack_is_last_in_first_out() {
    let mut stack = Stack::new();
    assert!(stack.data.is_empty());
    stack.push(number(1));
    stack.push(number(2));
    stack.push(number(3));
    assert_eq!(stack.pop(0), Some(vec![]));
    assert_eq!(stack.pop(2), Some(vec![number(3), number(2)]));
    assert_eq!(stack.data, vec![number(1)]);
    stack.push(number(4));
    assert_eq!(stack.pop(3), None);
    assert!(stack.data.is_empty());
    assert_eq!(stack.pop(1), None);
}

#[test]
fn input_counts() {
    assert_eq!(get_input_count(&Token::Assign), 3);
    assert_eq!(get_input_count(&Token::Symbol), 3);
    assert_eq!(get_input_count(&Token::Tag), 3);
    assert_eq!(get_input_count(&Token::Add), 3);
    assert_eq!(get_input_count(&Token::And), 3);
    assert_eq!(get_input_count(&Token::LessEqual), 3);
    assert_eq!(get_input_count(&Token::Goto), 2);
    assert_eq!(get_input_count(&Token::Not), 2);
    assert_eq!(get_input_count(&Token::Raw), 2);
    assert_eq!(get_input_count(&Token::Compare), 2);
    assert_eq!(get_input_count(&Token::Return), 1);
    assert_eq!(get_input_count(&Token::Identifier("x".to_string())), 0);
    assert_eq!(get_input_count(&Token::Number(3)), 0);
    assert_eq!(get_input_count(&Token::OpenBrace), 0);
    assert_eq!(get_input_count(&Token::AssignSymbol), 0);
    assert_eq!(get_input_count(&Token::Other("x".to_string())), 0);
    assert_eq!(get_input_count(&Token::Null), 0);
}

#[test]
fn any_identifier_counts_as_any_other() {
    let list = [Token::Identifier("b".to_string()), Token::LineEnd];
    assert!(is_element_token(&Token::Identifier("a".to_string()), &list));
    assert!(is_element_token(&Token::LineEnd, &list));
    assert!(!is_element_token(&Token::Null, &list));
    assert!(!is_element_token(&Token::Number(1), &[Token::Number(2)]));
    assert!(is_element_token(&Token::Number(2), &[Token::Number(2)]));
    assert!(!is_element_token(&Token::Null, &[]));
}

#[test]
fn is_element_finds_equal_items() {
    assert!(is_element(&3, &[1, 2, 3]));
    assert!(!is_element(&4, &[1, 2, 3]));
    assert!(!is_element(&4, &[] as &[i32]));
    assert!(is_element(&'+', &['>', '+']));
    assert!(is_element(&"set".to_string(), &["set", "cmp"]));
}

#[test]
fn operators_that_compute_are_subtrees() {
    let a = || Box::new(ident("a"));
    let b = || Box::new(ident("b"));
    assert!(has_subtree(&tree(Tree::Add(a(), b()))));
    assert!(has_subtree(&tree(Tree::Subtract(a(), b()))));
    assert!(has_subtree(&tree(Tree::Multiply(a(), b()))));
    assert!(has_subtree(&tree(Tree::Divide(a(), b()))));
    assert!(has_subtree(&tree(Tree::Xor(a(), b()))));
    assert!(has_subtree(&tree(Tree::And(a(), b()))));
    assert!(has_subtree(&tree(Tree::Or(a(), b()))));
    assert!(has_subtree(&tree(Tree::Less(a(), b()))));
    assert!(has_subtree(&tree(Tree::Equals(a(), b()))));
    assert!(has_subtree(&tree(Tree::Not(a()))));
    assert!(!has_subtree(&tree(Tree::Assign(a(), b()))));
    assert!(!has_subtree(&tree(Tree::Dereference(a()))));
    assert!(!has_subtree(&tree(Tree::Return)));
    assert!(!has_subtree(&ident("a")));
    assert!(!has_subtree(&number(1)));
}

#[test]
fn trees_are_cloned_whole() {
    let t = build_token_tree("symbol S { set x = + a 1; raw `1 2`; ? k v; } ".to_string()).unwrap();
    assert_eq!(t.clone(), t);
}
