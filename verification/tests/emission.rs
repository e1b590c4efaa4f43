use blocks::compile::{assemble, compile, compile_ir, emit_list, lower_source};
use blocks::compile_utils::{get_addr, get_code_size, get_static_addr, get_var_or_new, new_vars};
use blocks::error::ErrorKind;
use blocks::ir::{Ir, IrResult};
use blocks::optimizer::{opt_0, remove_dead_code};
use blocks::token::Token;
use blocks::utils::{Address, Register};

fn var(name: &str) -> Address {
    Address::Variable(name.to_string())
}

fn setup(data: i32, symbols: i32) -> Vec<i32> {
    vec![
        12, 8, 9, 10, 0, 23, 16, 8, 0, 12, 8, 5, 10, 0, data, 16, 8, 0, 12, 7, 5, 29, symbols,
    ]
}

fn cleanup() -> Vec<i32> {
    vec![10, 7, 0, 10, 8, 0, 35]
}

fn program(data: usize, symbols: i32, words: &[i32]) -> Vec<i32> {
    let mut out = setup(data as i32, symbols);
    out.extend(std::iter::repeat(0).take(data));
    out.extend_from_slice(words);
    out.extend(cleanup());
    out
}

fn result_of(ir: Vec<Ir>, blocks: Vec<(String, Vec<Ir>)>) -> IrResult {
    IrResult {
        ir,
        blocks,
        address: Address::Static(-1),
        var_addr: Address::Static(-1),
        register: None,
        deref: false,
        math: false,
    }
}

const LOOP: &str = "symbol Loop { set x = + x 128; set i = ~ i 1; cmp > i 0; ifgoto Loop; return } set x = 0; set i = 3; call Loop;";

#[test]
fn literal_assignment() {
    assert_eq!(
        compile("set 0 = 1;").unwrap(),
        program(2, 0, &[0, 0, 0, 0, 1, 1, 1, 0, 1])
    );
}

#[test]
fn raw_passthrough() {
    assert_eq!(
        compile("raw `10 7 0 10 8 0 29 -1`;").unwrap(),
        program(0, 0, &[10, 7, 0, 10, 8, 0, 29, -1])
    );
}

#[test]
fn the_sample_program() {
    let out = compile(
        "
        set #0 = 322;

        raw `10 7 0 10 8 0 29 -1`;
    ",
    )
    .unwrap();
    assert_eq!(
        out,
        program(2, 0, &[0, 0, 0, 5, 0, 0, 0, 1, 322, 3, 0, 1, 10, 7, 0, 10, 8, 0, 29, -1])
    );
}

#[test]
fn symbol_with_loop() {
    let body = vec![
        11, 0, 0, 0, 1, 128, 11, 1, 1, 16, 0, 1, 13, 1, 5, 1, 0, 1, 11, 0, 2, 0, 1, 1, 11, 1, 1, 17,
        0, 1, 13, 1, 5, 1, 2, 1, 11, 0, 2, 0, 1, 0, 11, 1, 1, 22, 0, 1, 30, 0, 35,
    ];
    let main = vec![0, 1, 0, 1, 0, 1, 0, 1, 3, 1, 2, 1, 33, 0];
    let ir = lower_source(LOOP).unwrap();
    assert_eq!(ir.blocks.len(), 1);
    assert_eq!(ir.blocks[0].0, "Loop");
    let mut vars = new_vars();
    let mut var_addr = 0;
    let mut symbol_addr = 0;
    let (words, data_size, symbol_size) =
        compile_ir(ir, &mut vars, &mut var_addr, &mut symbol_addr).unwrap();
    assert_eq!(vars.get("Loop"), Some(&0));
    assert_eq!(vars.get("x"), Some(&0));
    assert_eq!(vars.get("__temp_1__"), Some(&1));
    assert_eq!(vars.get("i"), Some(&2));
    assert_eq!(vars.len(), 4);
    assert_eq!(data_size, 3);
    assert_eq!(symbol_size, 51);
    assert_eq!(symbol_addr, 51);
    assert_eq!(var_addr, 3);
    assert_eq!(&words[..51], &body[..]);
    assert_eq!(&words[51..], &main[..]);
    assert_eq!(&words[words.len() - 2..], &[33, 0]);

    let mut all = body.clone();
    all.extend(main);
    assert_eq!(compile(LOOP).unwrap(), program(3, 51, &all));
}

#[test]
fn program_length_is_the_sum_of_its_parts() {
    let ir = lower_source(LOOP).unwrap();
    let symbols = get_code_size(&ir.blocks[0].1);
    let main = get_code_size(&ir.ir);
    assert_eq!(symbols, 51);
    assert_eq!(main, 14);
    let out = compile(LOOP).unwrap();
    assert_eq!(out.len(), 23 + 3 + symbols + main + 7);
    assert_eq!(compile("").unwrap().len(), 23 + 7);
    assert_eq!(compile("").unwrap(), program(0, 0, &[]));
}

#[test]
fn symbols_stand_where_their_names_say() {
    let source = "symbol A { return } symbol B { call A; return } symbol C { goto B; } call C;";
    let ir = lower_source(source).unwrap();
    let names: Vec<String> = ir.blocks.iter().map(|b| b.0.clone()).collect();
    let sizes: Vec<usize> = ir.blocks.iter().map(|b| get_code_size(&b.1)).collect();
    assert_eq!(names, vec!["A", "B", "C"]);
    assert_eq!(sizes, vec![1, 3, 2]);
    let mut vars = new_vars();
    let mut var_addr = 0;
    let mut symbol_addr = 0;
    let (words, data_size, symbol_size) =
        compile_ir(ir, &mut vars, &mut var_addr, &mut symbol_addr).unwrap();
    assert_eq!(vars.get("A"), Some(&0));
    assert_eq!(vars.get("B"), Some(&1));
    assert_eq!(vars.get("C"), Some(&4));
    assert_eq!(words, vec![35, 33, 0, 35, 29, 1, 33, 4]);
    assert_eq!(data_size, 0);
    assert_eq!(symbol_size, 6);
    let out = compile(source).unwrap();
    assert_eq!(out[23 + 0], 35);
    assert_eq!(&out[23 + 1..23 + 4], &[33, 0, 35]);
    assert_eq!(&out[23 + 4..23 + 6], &[29, 1]);
}

#[test]
fn symbols_start_at_the_given_address() {
    let ir = result_of(
        vec![Ir::Call(var("S"))],
        vec![("S".to_string(), vec![Ir::Return]), ("T".to_string(), vec![Ir::Not])],
    );
    let mut vars = new_vars();
    vars.insert("old".to_string(), 77);
    let mut var_addr = 5;
    let mut symbol_addr = 40;
    let (words, data_size, symbol_size) =
        compile_ir(ir, &mut vars, &mut var_addr, &mut symbol_addr).unwrap();
    assert_eq!(words, vec![35, 27, 0, 33, 40]);
    assert_eq!(vars.get("S"), Some(&40));
    assert_eq!(vars.get("T"), Some(&41));
    assert_eq!(vars.get("old"), Some(&77));
    assert_eq!(data_size, 1);
    assert_eq!(symbol_size, 43);
    assert_eq!(symbol_addr, 43);
    assert_eq!(var_addr, 5);
}

#[test]
fn unknown_variable() {
    let e = compile("goto Nope;").unwrap_err();
    assert_eq!(e.kind, ErrorKind::UndeclaredVar);
    assert_eq!(e.extra, Token::Other("Nope".to_string()));
    let e = compile("set x = y;").unwrap_err();
    assert_eq!(e.kind, ErrorKind::UndeclaredVar);
    assert_eq!(e.extra, Token::Other("y".to_string()));
}

#[test]
fn malformed_raw() {
    let e = compile("raw `1 two 3`;").unwrap_err();
    assert_eq!(e.kind, ErrorKind::InvalidRaw);
}

#[test]
fn var_addr_tag_moves_the_data_cursor() {
    let ir = lower_source("? var_addr 100; set x = 1;").unwrap();
    let mut vars = new_vars();
    let mut var_addr = 0;
    let mut symbol_addr = 0;
    let (words, data_size, _) = compile_ir(ir, &mut vars, &mut var_addr, &mut symbol_addr).unwrap();
    assert_eq!(vars.get("__temp_1__"), Some(&100));
    assert_eq!(vars.get("x"), Some(&101));
    assert_eq!(var_addr, 102);
    assert_eq!(words, vec![0, 100, 1, 1, 101, 100]);
    assert_eq!(data_size, 2);
    assert_eq!(
        compile("? var_addr 100; set x = 1;").unwrap(),
        program(2, 0, &[0, 100, 1, 1, 101, 100])
    );

    let ir = lower_source("? var_addr 100; set x = + x 1;").unwrap();
    let mut vars = new_vars();
    let mut var_addr = 0;
    let mut symbol_addr = 0;
    compile_ir(ir, &mut vars, &mut var_addr, &mut symbol_addr).unwrap();
    assert_eq!(vars.get("x"), Some(&100));
}

#[test]
fn tags_must_be_known() {
    let e = compile("? foo 1;").unwrap_err();
    assert_eq!(e.kind, ErrorKind::UnknownTag);
    assert_eq!(e.extra, Token::Other("foo".to_string()));
    let e = compile("? var_addr abc;").unwrap_err();
    assert_eq!(e.kind, ErrorKind::TagError);
    assert_eq!(e.extra, Token::Other("var_addr must be a number (found `abc`)".to_string()));
    assert_eq!(
        e.to_string(),
        "Error (code 13):\nTag error: var_addr must be a number (found `abc`)"
    );
}

#[test]
fn errors_of_every_stage_reach_the_caller() {
    assert_eq!(compile("set x;").unwrap_err().kind, ErrorKind::NotEnoughArgs);
    assert_eq!(compile("{ ").unwrap_err().kind, ErrorKind::UnmatchedToken);
    assert_eq!(compile("symbol 1 { } ").unwrap_err().kind, ErrorKind::SymbolNameType);
    assert_eq!(compile("? $flag x;").unwrap_err().kind, ErrorKind::TagNameType);
    assert_eq!(compile("? x $flag;").unwrap_err().kind, ErrorKind::TagValueType);
    assert_eq!(compile("set x = @1;").unwrap_err().kind, ErrorKind::AddressNameType);
    assert_eq!(compile("set -1 = 1;").unwrap_err().kind, ErrorKind::InvalidAddress);
    assert_eq!(compile("call # x;").unwrap_err().kind, ErrorKind::CallAddressType);
    assert_eq!(compile("ifgoto # x;").unwrap_err().kind, ErrorKind::IfGotoAddressType);
}

#[test]
fn the_two_temporaries_of_an_assignment_differ() {
    let ir = lower_source("set 0 = 1;").unwrap();
    let mut vars = new_vars();
    let mut var_addr = 0;
    let mut symbol_addr = 0;
    compile_ir(ir, &mut vars, &mut var_addr, &mut symbol_addr).unwrap();
    let left = *vars.get("__temp_0__").unwrap();
    let right = *vars.get("__temp_1__").unwrap();
    assert_eq!((left, right), (0, 1));
    assert_ne!(left, right);

    let ir = lower_source("set a = 1; set #5 = + b 2; set c = #a;").unwrap();
    let mut vars = new_vars();
    let mut var_addr = 0;
    let mut symbol_addr = 0;
    compile_ir(ir, &mut vars, &mut var_addr, &mut symbol_addr).unwrap();
    let mut places: Vec<i32> = ["a", "b", "c", "__temp_0__", "__temp_1__"]
        .iter()
        .map(|n| *vars.get(n).unwrap())
        .collect();
    places.sort();
    places.dedup();
    assert_eq!(places.len(), 5);
}

#[test]
fn a_tag_can_make_temporaries_share_a_place() {
    let ir = lower_source("goto 5; ? var_addr 0; set x = 1;").unwrap();
    let mut vars = new_vars();
    let mut var_addr = 0;
    let mut symbol_addr = 0;
    compile_ir(ir, &mut vars, &mut var_addr, &mut symbol_addr).unwrap();
    assert_eq!(vars.get("__temp_0__"), Some(&0));
    assert_eq!(vars.get("__temp_1__"), Some(&0));
}

#[test]
fn emitting_again_gives_the_same_words() {
    let ir = lower_source("set a = 1; set b = + a 2; cmp > b a; raw `7 8`; goto a;").unwrap().ir;
    let mut once = ir.clone();
    remove_dead_code(&mut once);
    assert_eq!(once, ir);
    let mut twice = once.clone();
    remove_dead_code(&mut twice);
    opt_0(&mut twice);
    assert_eq!(twice, once);

    let mut vars = new_vars();
    let mut var_addr = 0;
    let mut first = vec![];
    emit_list(&once, &mut first, &mut vars, &mut var_addr).unwrap();
    let names = vars.len();
    let cursor = var_addr;
    let mut second = vec![];
    emit_list(&twice, &mut second, &mut vars, &mut var_addr).unwrap();
    assert_eq!(second, first);
    assert_eq!(vars.len(), names);
    assert_eq!(var_addr, cursor);
    assert_eq!(first.len(), get_code_size(&once));
}

#[test]
fn every_instruction_has_its_words() {
    let cases: Vec<(Ir, Vec<i32>)> = vec![
        (Ir::Write(var("a"), Address::Static(9)), vec![0, 0, 9]),
        (Ir::Write(var("c"), var("d")), vec![0, 2, 3]),
        (Ir::Copy(var("a"), var("b")), vec![1, 0, 1]),
        (Ir::IndirWrite(var("a"), Address::Static(9)), vec![2, 0, 9]),
        (Ir::IndirCopy(var("a"), var("b")), vec![3, 0, 1]),
        (Ir::IndirCopy3(Address::Static(4), var("b")), vec![5, 4, 1]),
        (Ir::RegWrite(Register::Flag, Address::Static(9)), vec![10, 4, 9]),
        (Ir::RegCopy(Register::Int2, var("b")), vec![11, 1, 1]),
        (Ir::RegMem(Register::Accum, var("a")), vec![13, 0, 5]),
        (Ir::Add, vec![16, 0, 1]),
        (Ir::Sub, vec![17, 0, 1]),
        (Ir::Mul, vec![18, 0, 1]),
        (Ir::Div, vec![19, 0, 1]),
        (Ir::Equals, vec![20, 0, 1]),
        (Ir::Less, vec![21, 0, 1]),
        (Ir::Greater, vec![22, 0, 1]),
        (Ir::LessEqual, vec![23, 0, 1]),
        (Ir::GreaterEqual, vec![24, 0, 1]),
        (Ir::Or, vec![25, 0, 1]),
        (Ir::And, vec![26, 0, 1]),
        (Ir::Not, vec![27, 0]),
        (Ir::Xor, vec![28, 0, 1]),
        (Ir::Branch(var("a")), vec![29, 0]),
        (Ir::CondBranch(var("b")), vec![30, 1]),
        (Ir::IndirBranch(Address::Static(6)), vec![32, 6]),
        (Ir::Call(var("a")), vec![33, 0]),
        (Ir::Return, vec![35]),
        (Ir::Raw(vec![4, -5, 6, 7]), vec![4, -5, 6, 7]),
        (Ir::Raw(vec![]), vec![]),
        (Ir::Tag("var_addr".to_string(), "50".to_string()), vec![]),
    ];
    for (instruction, expected) in cases {
        let mut vars = new_vars();
        vars.insert("a".to_string(), 0);
        vars.insert("b".to_string(), 1);
        let mut var_addr = 2;
        let mut words = vec![99];
        let list = vec![instruction];
        emit_list(&list, &mut words, &mut vars, &mut var_addr).unwrap();
        assert_eq!(&words[1..], &expected[..], "instruction {:?}", list[0]);
        assert_eq!(get_code_size(&list), expected.len(), "instruction {:?}", list[0]);
    }
}

#[test]
fn variables_run_out_at_the_last_address() {
    let mut vars = new_vars();
    let mut var_addr = i32::MAX;
    let mut words = vec![];
    let e = emit_list(
        &vec![Ir::RegMem(Register::Accum, var("a"))],
        &mut words,
        &mut vars,
        &mut var_addr,
    )
    .unwrap_err();
    assert_eq!(e.kind, ErrorKind::Other);
    assert_eq!(e.extra, Token::Other("variable address out of range".to_string()));

    let mut vars = new_vars();
    let mut var_addr = i32::MAX - 1;
    let mut words = vec![];
    emit_list(&vec![Ir::RegMem(Register::Accum, var("a"))], &mut words, &mut vars, &mut var_addr)
        .unwrap();
    assert_eq!(words, vec![13, i32::MAX - 1, 5]);
    assert_eq!(var_addr, i32::MAX);
}

#[test]
fn symbols_run_out_at_the_last_address() {
    let ir = result_of(vec![], vec![("S".to_string(), vec![Ir::Return, Ir::Return])]);
    let mut vars = new_vars();
    let mut var_addr = 0;
    let mut symbol_addr = i32::MAX - 1;
    let e = compile_ir(ir, &mut vars, &mut var_addr, &mut symbol_addr).unwrap_err();
    assert_eq!(e.kind, ErrorKind::Other);
    assert_eq!(e.extra, Token::Other("symbol address out of range".to_string()));
}

#[test]
fn assemble_wraps_the_words() {
    assert_eq!(assemble(vec![1, 2], 3, 4).unwrap(), program(3, 4, &[1, 2]));
    assert_eq!(assemble(vec![], 0, 0).unwrap(), program(0, 0, &[]));
}

#[test]
fn get_var_or_new_places_new_names() {
    let mut vars = new_vars();
    let mut var_addr = 10;
    assert_eq!(get_var_or_new(Address::Static(7), &mut vars, &mut var_addr), 7);
    assert_eq!(var_addr, 10);
    assert_eq!(vars.len(), 0);
    assert_eq!(get_var_or_new(var("a"), &mut vars, &mut var_addr), 10);
    assert_eq!(var_addr, 11);
    assert_eq!(get_var_or_new(var("b"), &mut vars, &mut var_addr), 11);
    assert_eq!(var_addr, 12);
    assert_eq!(get_var_or_new(var("a"), &mut vars, &mut var_addr), 10);
    assert_eq!(var_addr, 12);
    assert_eq!(vars.len(), 2);
    assert_eq!(vars.get("a"), Some(&10));
    assert_eq!(vars.get("b"), Some(&11));
}

#[test]
fn get_addr_reads_known_names() {
    let mut vars = new_vars();
    vars.insert("a".to_string(), 3);
    assert_eq!(get_addr(Address::Static(-4), &vars).unwrap(), -4);
    assert_eq!(get_addr(var("a"), &vars).unwrap(), 3);
    let e = get_addr(var("b"), &vars).unwrap_err();
    assert_eq!(e.kind, ErrorKind::UndeclaredVar);
    assert_eq!(e.extra, Token::Other("b".to_string()));
    assert_eq!(e.to_string(), "Error (code 5):\nUse of undeclared variable: b");
}

#[test]
fn get_static_addr_reads_the_number() {
    assert_eq!(get_static_addr(Address::Static(12)), 12);
    assert_eq!(get_static_addr(Address::Static(-1)), -1);
}

#[test]
fn code_size_counts_words() {
    assert_eq!(get_code_size(&[]), 0);
    assert_eq!(
        get_code_size(&[
            Ir::Return,
            Ir::Not,
            Ir::Add,
            Ir::Raw(vec![1, 2, 3, 4, 5]),
            Ir::Tag("a".to_string(), "b".to_string()),
            Ir::Call(var("x")),
            Ir::Copy(var("x"), var("y")),
        ]),
        1 + 2 + 3 + 5 + 0 + 2 + 3
    );
}

#[test]
fn every_named_variable_has_a_place() {
    let ir = lower_source(LOOP).unwrap();
    let mut names: Vec<String> = vec![];
    let mut lists: Vec<Vec<Ir>> = vec![ir.ir.clone()];
    for b in ir.blocks.iter() {
        names.push(b.0.clone());
        lists.push(b.1.clone());
    }
    for list in lists {
        for i in list {
            let addresses = match i {
                Ir::Write(a, b)
                | Ir::Copy(a, b)
                | Ir::IndirWrite(a, b)
                | Ir::IndirCopy(a, b)
                | Ir::IndirCopy3(a, b) => vec![a, b],
                Ir::RegWrite(_, a) | Ir::RegCopy(_, a) | Ir::RegMem(_, a) => vec![a],
                Ir::Branch(a) | Ir::CondBranch(a) | Ir::IndirBranch(a) | Ir::Call(a) => vec![a],
                _ => vec![],
            };
            for a in addresses {
                if let Address::Variable(name) = a {
                    names.push(name);
                }
            }
        }
    }
    let mut vars = new_vars();
    let mut var_addr = 0;
    let mut symbol_addr = 0;
    compile_ir(ir, &mut vars, &mut var_addr, &mut symbol_addr).unwrap();
    assert!(names.len() > 10);
    for name in names {
        assert!(vars.contains_key(&name), "name {:?}", name);
    }
}

#[test]
fn a_failure_leaves_the_state_where_it_came() {
    let ir = result_of(vec![Ir::Branch(var("Nope"))], vec![]);
    let mut vars = new_vars();
    let mut var_addr = 0;
    let mut symbol_addr = 0;
    let e = compile_ir(ir, &mut vars, &mut var_addr, &mut symbol_addr).unwrap_err();
    assert_eq!(e.kind, ErrorKind::UndeclaredVar);
    assert_eq!(e.extra, Token::Other("Nope".to_string()));
    assert!(!vars.contains_key("Nope"));
    assert_eq!(vars.len(), 0);
    assert_eq!((var_addr, symbol_addr), (0, 0));

    let ir = result_of(vec![Ir::Tag("foo".to_string(), "1".to_string())], vec![]);
    let mut vars = new_vars();
    let mut var_addr = 0;
    let mut symbol_addr = 0;
    let e = compile_ir(ir, &mut vars, &mut var_addr, &mut symbol_addr).unwrap_err();
    assert_eq!(e.kind, ErrorKind::UnknownTag);
    assert_eq!(var_addr, 0);

    let ir = result_of(vec![Ir::Tag("var_addr".to_string(), "abc".to_string())], vec![]);
    let mut vars = new_vars();
    let mut var_addr = 7;
    let mut symbol_addr = 0;
    let e = compile_ir(ir, &mut vars, &mut var_addr, &mut symbol_addr).unwrap_err();
    assert_eq!(e.kind, ErrorKind::TagError);
    assert_eq!(var_addr, 7);
}

#[test]
fn a_failing_copy_has_placed_its_target() {
    let mut vars = new_vars();
    let mut var_addr = 4;
    let mut words = vec![9];
    let list = vec![
        Ir::RegMem(Register::Accum, var("a")),
        Ir::Copy(var("x"), var("y")),
        Ir::RegMem(Register::Accum, var("b")),
    ];
    let e = emit_list(&list, &mut words, &mut vars, &mut var_addr).unwrap_err();
    assert_eq!(e.kind, ErrorKind::UndeclaredVar);
    assert_eq!(e.extra, Token::Other("y".to_string()));
    assert_eq!(words, vec![9, 13, 4, 5]);
    assert_eq!(vars.get("a"), Some(&4));
    assert_eq!(vars.get("x"), Some(&5));
    assert!(!vars.contains_key("y"));
    assert!(!vars.contains_key("b"));
    assert_eq!(var_addr, 6);
}

#[test]
fn a_failing_symbol_leaves_the_symbol_cursor() {
    let ir = result_of(
        vec![Ir::Return],
        vec![
            ("A".to_string(), vec![Ir::Return, Ir::Not]),
            ("B".to_string(), vec![Ir::RegMem(Register::Flag, var("v")), Ir::Call(var("C"))]),
            ("C".to_string(), vec![Ir::Return]),
        ],
    );
    let mut vars = new_vars();
    let mut var_addr = 2;
    let mut symbol_addr = 10;
    let e = compile_ir(ir, &mut vars, &mut var_addr, &mut symbol_addr).unwrap_err();
    assert_eq!(e.kind, ErrorKind::UndeclaredVar);
    assert_eq!(e.extra, Token::Other("C".to_string()));
    assert_eq!(vars.get("A"), Some(&10));
    assert_eq!(vars.get("B"), Some(&13));
    assert_eq!(vars.get("v"), Some(&2));
    assert!(!vars.contains_key("C"));
    assert_eq!(vars.len(), 3);
    assert_eq!(var_addr, 3);
    assert_eq!(symbol_addr, 13);
}

#[test]
fn operands_are_emitted_as_their_final_addresses() {
    let ir = lower_source(LOOP).unwrap();
    let lists: Vec<Vec<Ir>> = vec![ir.blocks[0].1.clone(), ir.ir.clone()];
    let mut vars = new_vars();
    let mut var_addr = 0;
    let mut symbol_addr = 0;
    let (words, _, _) = compile_ir(ir, &mut vars, &mut var_addr, &mut symbol_addr).unwrap();
    let value = |a: &Address| match a {
        Address::Static(n) => *n,
        Address::Variable(name) => *vars.get(name).unwrap(),
    };
    let mut expected: Vec<i32> = vec![];
    for list in lists.iter() {
        for i in list.iter() {
            match i {
                Ir::Write(a, b) => expected.extend([0, value(a), value(b)]),
                Ir::Copy(a, b) => expected.extend([1, value(a), value(b)]),
                Ir::RegCopy(r, a) => expected.extend([11, r.id(), value(a)]),
                Ir::RegMem(r, a) => expected.extend([13, value(a), r.id()]),
                Ir::Add => expected.extend([16, 0, 1]),
                Ir::Sub => expected.extend([17, 0, 1]),
                Ir::Greater => expected.extend([22, 0, 1]),
                Ir::CondBranch(a) => expected.extend([30, value(a)]),
                Ir::Call(a) => expected.extend([33, value(a)]),
                Ir::Return => expected.push(35),
                other => panic!("unexpected instruction {:?}", other),
            }
        }
    }
    assert_eq!(words, expected);
}
