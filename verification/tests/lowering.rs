use blocks::ir::{build_ir, Ir};
use blocks::optimizer::remove_dead_code;
use blocks::tree::{build_token_tree, TokenWrapper};
use blocks::utils::Address;

#[test]
fn test_write() {
    let prog = "
            set 0 = 1;
        ";

    let tree = build_token_tree(prog.to_string()).unwrap();

    let mut ir = build_ir(TokenWrapper::Tree(tree), 0).unwrap().ir;

    remove_dead_code(&mut ir);

    let expected = [
        Ir::Write(Address::Variable("__temp_0__".to_string()), Address::Static(0)),
        Ir::Write(Address::Variable("__temp_1__".to_string()), Address::Static(1)),
        Ir::Copy(Address::Static(0), Address::Variable("__temp_1__".to_string())),
    ];

    assert_eq!(&expected, &ir as &[_]);
}

use blocks::error::ErrorKind;
use blocks::ir::{insert_operator, is_assigned_to, register_store};
use blocks::token::Token;
use blocks::tree::Tree;
use blocks::utils::{get_temp_id, Register};

fn var(name: &str) -> Address {
    Address::Variable(name.to_string())
}

fn temp(n: i32) -> Address {
    Address::Variable(format!("__temp_{}__", n))
}

fn lower(source: &str) -> Vec<Ir> {
    let tree = build_token_tree(source.to_string()).unwrap();
    build_ir(TokenWrapper::Tree(tree), 0).unwrap().ir
}

fn lower_error(source: &str) -> (ErrorKind, Token) {
    let tree = build_token_tree(source.to_string()).unwrap();
    let e = build_ir(TokenWrapper::Tree(tree), 0).unwrap_err();
    (e.kind, e.extra)
}

#[test]
fn temporaries_are_named_by_number() {
    assert_eq!(Address::new_temp(0), temp(0));
    assert_eq!(Address::new_temp(1), var("__temp_1__"));
    assert_eq!(Address::new_temp(12), var("__temp_12__"));
    assert_eq!(Address::new_temp(-1), var("__temp_-1__"));
    assert_eq!(Address::new_var("x"), var("x"));
    assert_ne!(Address::new_temp(get_temp_id(-1)), Address::new_temp(get_temp_id(-2)));
}

#[test]
fn temp_requests_resolve() {
    assert_eq!(get_temp_id(-1), 0);
    assert_eq!(get_temp_id(-2), 1);
    assert_eq!(get_temp_id(0), 0);
    assert_eq!(get_temp_id(5), 5);
    assert_eq!(get_temp_id(-3), -3);
}

#[test]
fn addresses_compare_by_value() {
    assert!(var("x").same(&var("x")));
    assert!(!var("x").same(&var("y")));
    assert!(Address::Static(1).same(&Address::Static(1)));
    assert!(!Address::Static(1).same(&Address::Static(2)));
    assert!(!Address::Static(1).same(&var("1")));
    assert_eq!(var("x").clone(), var("x"));
}

#[test]
fn assignment_through_a_pointer() {
    assert_eq!(
        lower("set #0 = 322;"),
        vec![
            Ir::Write(temp(0), Address::Static(0)),
            Ir::IndirCopy3(temp(0), Address::Static(0)),
            Ir::Write(temp(1), Address::Static(322)),
            Ir::IndirCopy(temp(0), temp(1)),
        ]
    );
}

#[test]
fn double_indirection() {
    assert_eq!(
        lower("set x = ##p;"),
        vec![
            Ir::IndirCopy3(temp(1), var("p")),
            Ir::IndirCopy(temp(1), temp(1)),
            Ir::Copy(var("x"), temp(1)),
        ]
    );
}

#[test]
fn arithmetic_on_leaves() {
    assert_eq!(
        lower("set x = + x 128;"),
        vec![
            Ir::RegCopy(Register::Int1, var("x")),
            Ir::Write(temp(1), Address::Static(128)),
            Ir::RegCopy(Register::Int2, temp(1)),
            Ir::Add,
            Ir::RegMem(Register::Accum, temp(1)),
            Ir::Copy(var("x"), temp(1)),
        ]
    );
}

#[test]
fn every_operator_has_its_instruction() {
    let cases = [
        ("+", Ir::Add),
        ("~", Ir::Sub),
        ("*", Ir::Mul),
        ("/", Ir::Div),
        ("^", Ir::Xor),
        ("&", Ir::And),
        ("|", Ir::Or),
    ];
    for (symbol, instruction) in cases {
        assert_eq!(
            lower(&format!("set x = {} a b;", symbol)),
            vec![
                Ir::RegCopy(Register::Int1, var("a")),
                Ir::RegCopy(Register::Int2, var("b")),
                instruction,
                Ir::RegMem(Register::Accum, temp(1)),
                Ir::Copy(var("x"), temp(1)),
            ]
        );
    }
    let comparisons = [
        (">", Ir::Greater),
        ("<", Ir::Less),
        (">=", Ir::GreaterEqual),
        ("<=", Ir::LessEqual),
        ("==", Ir::Equals),
    ];
    for (symbol, instruction) in comparisons {
        assert_eq!(
            lower(&format!("cmp {} a b;", symbol)),
            vec![
                Ir::RegCopy(Register::Int1, var("a")),
                Ir::RegCopy(Register::Int2, var("b")),
                instruction,
            ]
        );
    }
}

#[test]
fn only_the_right_operand_computes() {
    assert_eq!(
        lower("set x = + a * b c;"),
        vec![
            Ir::RegCopy(Register::Int1, var("b")),
            Ir::RegCopy(Register::Int2, var("c")),
            Ir::Mul,
            Ir::RegMem(Register::Accum, temp(1)),
            Ir::RegCopy(Register::Int2, temp(1)),
            Ir::RegCopy(Register::Int1, var("a")),
            Ir::Add,
            Ir::RegMem(Register::Accum, temp(1)),
            Ir::Copy(var("x"), temp(1)),
        ]
    );
}

#[test]
fn only_the_left_operand_computes() {
    assert_eq!(
        lower("set x = + * b c a;"),
        vec![
            Ir::RegCopy(Register::Int2, var("a")),
            Ir::RegCopy(Register::Int1, var("b")),
            Ir::RegCopy(Register::Int2, var("c")),
            Ir::Mul,
            Ir::RegMem(Register::Accum, temp(1)),
            Ir::RegCopy(Register::Int1, temp(1)),
            Ir::Add,
            Ir::RegMem(Register::Accum, temp(1)),
            Ir::Copy(var("x"), temp(1)),
        ]
    );
}

#[test]
fn both_operands_compute() {
    assert_eq!(
        lower("set x = + * a b ~ c d;"),
        vec![
            Ir::RegCopy(Register::Int1, var("a")),
            Ir::RegCopy(Register::Int2, var("b")),
            Ir::Mul,
            Ir::RegMem(Register::Accum, temp(2)),
            Ir::RegCopy(Register::Int1, var("c")),
            Ir::RegCopy(Register::Int2, var("d")),
            Ir::Sub,
            Ir::RegMem(Register::Accum, temp(3)),
            Ir::RegCopy(Register::Int1, temp(3)),
            Ir::RegCopy(Register::Int2, temp(2)),
            Ir::Add,
            Ir::RegMem(Register::Accum, temp(1)),
            Ir::Copy(var("x"), temp(1)),
        ]
    );
}

#[test]
fn negation() {
    assert_eq!(
        lower("set x = ! a;"),
        vec![
            Ir::RegCopy(Register::Int1, var("a")),
            Ir::Not,
            Ir::RegMem(Register::Accum, temp(1)),
            Ir::Copy(var("x"), temp(1)),
        ]
    );
}

#[test]
fn registers_on_either_side() {
    assert_eq!(
        lower("set x = $accum;"),
        vec![Ir::RegMem(Register::Accum, temp(1)), Ir::Copy(var("x"), temp(1))]
    );
    assert_eq!(
        lower("set $int1 = 5;"),
        vec![Ir::Write(temp(1), Address::Static(5)), Ir::RegCopy(Register::Int1, temp(1))]
    );
    assert_eq!(
        lower("set x = + $flag 1;"),
        vec![
            Ir::RegMem(Register::Flag, temp(1)),
            Ir::RegCopy(Register::Int1, temp(1)),
            Ir::Write(temp(1), Address::Static(1)),
            Ir::RegCopy(Register::Int2, temp(1)),
            Ir::Add,
            Ir::RegMem(Register::Accum, temp(1)),
            Ir::Copy(var("x"), temp(1)),
        ]
    );
}

#[test]
fn taking_an_address() {
    assert_eq!(
        lower("set p = @x;"),
        vec![Ir::Write(temp(1), var("x")), Ir::Copy(var("p"), temp(1))]
    );
}

#[test]
fn jumps_and_calls() {
    assert_eq!(lower("goto L;"), vec![Ir::Branch(var("L"))]);
    assert_eq!(
        lower("goto 7;"),
        vec![Ir::Write(temp(0), Address::Static(7)), Ir::Branch(Address::Static(7))]
    );
    assert_eq!(
        lower("goto #p;"),
        vec![Ir::IndirCopy3(temp(0), var("p")), Ir::IndirBranch(temp(0))]
    );
    assert_eq!(
        lower("goto + a b;"),
        vec![
            Ir::RegCopy(Register::Int1, var("a")),
            Ir::RegCopy(Register::Int2, var("b")),
            Ir::Add,
            Ir::RegMem(Register::Accum, temp(0)),
            Ir::IndirBranch(temp(0)),
        ]
    );
    assert_eq!(lower("ifgoto L;"), vec![Ir::CondBranch(var("L"))]);
    assert_eq!(lower("ifgoto 3;"), vec![Ir::CondBranch(Address::Static(3))]);
    assert_eq!(lower("call L;"), vec![Ir::Call(var("L"))]);
    assert_eq!(lower("call 9;"), vec![Ir::Call(Address::Static(9))]);
    assert_eq!(lower("return;"), vec![Ir::Return]);
}

#[test]
fn raw_and_tags_pass_through() {
    assert_eq!(lower("raw `10 7 0`;"), vec![Ir::Raw(vec![10, 7, 0])]);
    assert_eq!(
        lower("? var_addr 100;"),
        vec![Ir::Tag("var_addr".to_string(), "100".to_string())]
    );
}

#[test]
fn symbols_are_kept_apart() {
    let tree = build_token_tree(
        "symbol A { return } set x = 1; symbol B { goto A; } symbol A { call B; } ".to_string(),
    )
    .unwrap();
    let result = build_ir(TokenWrapper::Tree(tree), 0).unwrap();
    assert_eq!(
        result.ir,
        vec![Ir::Write(temp(1), Address::Static(1)), Ir::Copy(var("x"), temp(1))]
    );
    assert_eq!(
        result.blocks,
        vec![
            ("A".to_string(), vec![Ir::Call(var("B"))]),
            ("B".to_string(), vec![Ir::Branch(var("A"))]),
        ]
    );
    assert_eq!(result.address, Address::Static(-1));
    assert_eq!(result.var_addr, Address::Static(-1));
    assert_eq!(result.register, None);
    assert!(!result.deref);
    assert!(!result.math);
}

#[test]
fn leaves_report_where_they_are() {
    let r = build_ir(TokenWrapper::Token(Token::Identifier("x".to_string())), 4).unwrap();
    assert_eq!(r.ir, vec![]);
    assert_eq!(r.address, var("x"));
    assert_eq!(r.var_addr, var("x"));
    let r = build_ir(TokenWrapper::Token(Token::Number(9)), -2).unwrap();
    assert_eq!(r.ir, vec![Ir::Write(temp(1), Address::Static(9))]);
    assert_eq!(r.address, Address::Static(9));
    assert_eq!(r.var_addr, Address::Static(9));
    let r = build_ir(TokenWrapper::Token(Token::Register(Register::Error)), 3).unwrap();
    assert_eq!(r.ir, vec![]);
    assert_eq!(r.address, temp(3));
    assert_eq!(r.register, Some(Register::Error));
    let r = build_ir(
        TokenWrapper::Tree(Tree::Add(
            Box::new(TokenWrapper::Token(Token::Identifier("a".to_string()))),
            Box::new(TokenWrapper::Token(Token::Identifier("b".to_string()))),
        )),
        6,
    )
    .unwrap();
    assert_eq!(r.address, temp(6));
    assert!(r.math);
    assert!(!r.deref);
    let r = build_ir(
        TokenWrapper::Tree(Tree::Dereference(Box::new(TokenWrapper::Token(Token::Identifier(
            "p".to_string(),
        ))))),
        -1,
    )
    .unwrap();
    assert_eq!(r.address, temp(0));
    assert_eq!(r.var_addr, var("p"));
    assert!(r.deref);
}

#[test]
fn lowering_errors() {
    assert_eq!(lower_error("set x = @5;"), (ErrorKind::AddressNameType, Token::Null));
    assert_eq!(lower_error("ifgoto + a b;"), (ErrorKind::IfGotoAddressType, Token::Null));
    assert_eq!(lower_error("call + a b;"), (ErrorKind::CallAddressType, Token::Null));
    assert_eq!(
        lower_error("set -5 = 1;"),
        (ErrorKind::InvalidAddress, Token::Other("-5".to_string()))
    );
    let e = build_ir(
        TokenWrapper::Tree(Tree::Assign(
            Box::new(TokenWrapper::Token(Token::Identifier("x".to_string()))),
            Box::new(TokenWrapper::Tree(Tree::Return)),
        )),
        0,
    )
    .unwrap_err();
    assert_eq!(e.kind, ErrorKind::InvalidAddress);
    assert_eq!(e.extra, Token::Other("-1".to_string()));
    let e = build_ir(TokenWrapper::Token(Token::Assign), 0).unwrap_err();
    assert_eq!(e.kind, ErrorKind::Other);
    assert_eq!(e.extra, Token::Other("this shouldn't happen".to_string()));
}

#[test]
fn temporaries_run_out_at_the_last_number() {
    let leaf = |s: &str| Box::new(TokenWrapper::Token(Token::Identifier(s.to_string())));
    let both = Tree::Add(
        Box::new(TokenWrapper::Tree(Tree::Add(leaf("a"), leaf("b")))),
        Box::new(TokenWrapper::Tree(Tree::Add(leaf("c"), leaf("d")))),
    );
    let e = build_ir(TokenWrapper::Tree(both.clone()), i32::MAX - 1).unwrap_err();
    assert_eq!(e.kind, ErrorKind::Other);
    assert_eq!(e.extra, Token::Other("temporary number out of range".to_string()));
    assert!(build_ir(TokenWrapper::Tree(both), i32::MAX - 2).is_ok());
}

#[test]
fn stores_to_a_variable_are_found() {
    let ir = vec![
        Ir::Write(var("a"), Address::Static(1)),
        Ir::Copy(var("b"), var("a")),
        Ir::IndirCopy3(var("c"), var("c")),
        Ir::RegMem(Register::Accum, var("d")),
        Ir::IndirCopy(var("e"), var("a")),
        Ir::RegCopy(Register::Int1, var("f")),
    ];
    assert!(is_assigned_to("a", &ir));
    assert!(is_assigned_to("b", &ir));
    assert!(!is_assigned_to("c", &ir));
    assert!(is_assigned_to("d", &ir));
    assert!(!is_assigned_to("e", &ir));
    assert!(!is_assigned_to("f", &ir));
    assert!(!is_assigned_to("a", &[]));
}

#[test]
fn register_store_appends() {
    let mut out = vec![Ir::Return];
    register_store(
        TokenWrapper::Token(Token::Identifier("x".to_string())),
        Register::Int2,
        &mut out,
        4,
    )
    .unwrap();
    assert_eq!(out, vec![Ir::Return, Ir::RegCopy(Register::Int2, var("x"))]);
    let mut out = vec![];
    register_store(TokenWrapper::Token(Token::Register(Register::Flag)), Register::Int1, &mut out, 4)
        .unwrap();
    assert_eq!(
        out,
        vec![Ir::RegMem(Register::Flag, temp(4)), Ir::RegCopy(Register::Int1, temp(4))]
    );
    let mut out = vec![];
    register_store(TokenWrapper::Token(Token::Number(8)), Register::Int1, &mut out, 1).unwrap();
    assert_eq!(
        out,
        vec![Ir::Write(temp(1), Address::Static(8)), Ir::RegCopy(Register::Int1, temp(1))]
    );
    let mut out = vec![];
    register_store(TokenWrapper::Token(Token::Number(8)), Register::Int1, &mut out, 2).unwrap();
    assert_eq!(
        out,
        vec![Ir::Write(temp(2), Address::Static(8)), Ir::RegCopy(Register::Int1, Address::Static(8))]
    );
    let mut out = vec![Ir::Return];
    let e = register_store(TokenWrapper::Token(Token::LineEnd), Register::Int1, &mut out, 1)
        .unwrap_err();
    assert_eq!(e.kind, ErrorKind::Other);
    assert_eq!(out, vec![Ir::Return]);
}

#[test]
fn insert_operator_loads_the_right_operand_first_when_the_left_computes() {
    let leaf = |s: &str| TokenWrapper::Token(Token::Identifier(s.to_string()));
    let product = TokenWrapper::Tree(Tree::Multiply(Box::new(leaf("b")), Box::new(leaf("c"))));
    let mut out = vec![];
    insert_operator(product, leaf("a"), &mut out, Ir::Less, 0).unwrap();
    assert_eq!(
        out,
        vec![
            Ir::RegCopy(Register::Int2, var("a")),
            Ir::RegCopy(Register::Int1, var("b")),
            Ir::RegCopy(Register::Int2, var("c")),
            Ir::Mul,
            Ir::RegMem(Register::Accum, temp(1)),
            Ir::RegCopy(Register::Int1, temp(1)),
            Ir::Less,
        ]
    );
}

#[test]
fn insert_operator_appends() {
    let leaf = |s: &str| TokenWrapper::Token(Token::Identifier(s.to_string()));
    let mut out = vec![Ir::Return];
    insert_operator(leaf("a"), leaf("b"), &mut out, Ir::Less, 0).unwrap();
    assert_eq!(
        out,
        vec![
            Ir::Return,
            Ir::RegCopy(Register::Int1, var("a")),
            Ir::RegCopy(Register::Int2, var("b")),
            Ir::Less,
        ]
    );
    let mut out = vec![Ir::Return];
    let e = insert_operator(leaf("a"), TokenWrapper::Token(Token::LineEnd), &mut out, Ir::Less, 0)
        .unwrap_err();
    assert_eq!(e.kind, ErrorKind::Other);
    assert_eq!(out, vec![Ir::Return]);
}
