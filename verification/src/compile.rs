//! The fourth stage: instructions become machine words.
//!
//! Emission also lays the program out. Every symbol is placed in the symbol
//! section, one body after the other, and every variable gets the next free
//! place of the data section when it is first met. The program that comes
//! out is a setup sequence, the data section, the symbol section, the main
//! code and a cleanup sequence.

use vstd::prelude::*;
use vstd::hash_map::StringHashMap;
use crate::compile_utils::{
    code_size, cursor_after, get_addr, get_static_addr, get_var_or_new, is_new_variable,
    resolved, slot_of, vars_after, word_count,
};
use crate::error::{BlocksError, ErrorKind, ErrorView};
use crate::ir::{
    block_views, build_ir, distinct_names, ir_views, lower, BlockView, Ir, IrResult,
    IrResultView, IrView,
};
use crate::optimizer::{remove_dead_code, without_dead_code};
use crate::text::{parse_int, parse_int_spec, push_text, same_text};
use crate::token::{lex, TokenView};
use crate::tree::{build_token_tree, failure, parse, NodeView, TokenWrapper};
use crate::utils::{register_id, Address, AddressView};

verus! {

/// What emission has produced and recorded so far.
pub struct EmitState {
    /// The machine words emitted.
    pub words: Seq<i32>,
    /// The address of every name that has been placed.
    pub vars: Map<Seq<char>, i32>,
    /// The next free place in the data section.
    pub var_addr: i32,
}

/// The error for a variable that would be placed beyond the last address.
pub open spec fn variable_out_of_range<T>() -> Result<T, ErrorView> {
    failure(ErrorKind::Other, TokenView::Other("variable address out of range"@))
}

/// The number that `addr` stands for where a variable may be placed, or the
/// error where a new variable no longer has a place.
pub open spec fn placed(addr: AddressView, s: EmitState) -> Result<i32, ErrorView> {
    if is_new_variable(addr, s.vars) && s.var_addr == i32::MAX {
        variable_out_of_range()
    } else {
        Ok(slot_of(addr, s.vars, s.var_addr))
    }
}

/// The state once `addr` has been given a place.
pub open spec fn after_placing(addr: AddressView, s: EmitState) -> EmitState {
    EmitState {
        vars: vars_after(addr, s.vars, s.var_addr),
        var_addr: cursor_after(addr, s.vars, s.var_addr) as i32,
        ..s
    }
}

/// The state with more words emitted.
pub open spec fn with_words(s: EmitState, words: Seq<i32>) -> EmitState {
    EmitState { words: s.words + words, ..s }
}

/// An instruction with a target and a value that is written there: both
/// may name a variable, which is placed if it is new.
pub open spec fn write_step(s: EmitState, code: i32, a: AddressView, d: AddressView) -> Result<
    EmitState,
    ErrorView,
> {
    match placed(a, s) {
        Err(e) => Err(e),
        Ok(x) => match placed(d, after_placing(a, s)) {
            Err(e) => Err(e),
            Ok(y) => Ok(with_words(after_placing(d, after_placing(a, s)), seq![code, x, y])),
        },
    }
}

/// An instruction with a target and a source: the source must be known.
pub open spec fn copy_step(s: EmitState, code: i32, a: AddressView, b: AddressView) -> Result<
    EmitState,
    ErrorView,
> {
    match placed(a, s) {
        Err(e) => Err(e),
        Ok(x) => match resolved(b, after_placing(a, s).vars) {
            Err(e) => Err(e),
            Ok(y) => Ok(with_words(after_placing(a, s), seq![code, x, y])),
        },
    }
}

/// An instruction that jumps: the address must be known.
pub open spec fn jump_step(s: EmitState, code: i32, a: AddressView) -> Result<
    EmitState,
    ErrorView,
> {
    match resolved(a, s.vars) {
        Err(e) => Err(e),
        Ok(x) => Ok(with_words(s, seq![code, x])),
    }
}

/// The error for a `var_addr` tag whose value is no number.
pub open spec fn tag_error<T>(value: Seq<char>) -> Result<T, ErrorView> {
    failure(
        ErrorKind::TagError,
        TokenView::Other("var_addr must be a number (found `"@ + value + "`)"@),
    )
}

/// A tag: `var_addr` moves the next free place of the data section, and no
/// other tag is known.
pub open spec fn tag_step(s: EmitState, name: Seq<char>, value: Seq<char>) -> Result<
    EmitState,
    ErrorView,
> {
    if name == "var_addr"@ {
        match parse_int_spec(value) {
            Some(v) => Ok(EmitState { var_addr: v, ..s }),
            None => tag_error(value),
        }
    } else {
        failure(ErrorKind::UnknownTag, TokenView::Other(name))
    }
}

/// The code of an instruction without operands.
pub open spec fn operation_code(i: IrView) -> i32 {
    match i {
        IrView::Add => 16,
        IrView::Sub => 17,
        IrView::Mul => 18,
        IrView::Div => 19,
        IrView::Equals => 20,
        IrView::Less => 21,
        IrView::Greater => 22,
        IrView::LessEqual => 23,
        IrView::GreaterEqual => 24,
        IrView::Or => 25,
        IrView::And => 26,
        IrView::Not => 27,
        IrView::Xor => 28,
        _ => 35,
    }
}

/// The state after one instruction has been emitted, or the error that the
/// instruction causes.
pub open spec fn emit_step(s: EmitState, i: IrView) -> Result<EmitState, ErrorView> {
    match i {
        IrView::Write(a, d) => write_step(s, 0, a, d),
        IrView::Copy(a, b) => copy_step(s, 1, a, b),
        IrView::IndirWrite(a, d) => write_step(s, 2, a, d),
        IrView::IndirCopy(a, b) => copy_step(s, 3, a, b),
        IrView::IndirCopy3(a, b) => copy_step(s, 5, a, b),
        IrView::RegWrite(r, d) => match placed(d, s) {
            Err(e) => Err(e),
            Ok(y) => Ok(with_words(after_placing(d, s), seq![10, register_id(r) as i32, y])),
        },
        IrView::RegCopy(r, a) => match placed(a, s) {
            Err(e) => Err(e),
            Ok(x) => Ok(with_words(after_placing(a, s), seq![11, register_id(r) as i32, x])),
        },
        IrView::RegMem(r, a) => match placed(a, s) {
            Err(e) => Err(e),
            Ok(x) => Ok(with_words(after_placing(a, s), seq![13, x, register_id(r) as i32])),
        },
        IrView::Not => Ok(with_words(s, seq![27, 0])),
        IrView::Branch(a) => jump_step(s, 29, a),
        IrView::CondBranch(a) => jump_step(s, 30, a),
        IrView::IndirBranch(a) => jump_step(s, 32, a),
        IrView::Call(a) => jump_step(s, 33, a),
        IrView::Return => Ok(with_words(s, seq![35])),
        IrView::Raw(words) => Ok(with_words(s, words)),
        IrView::Tag(name, value) => tag_step(s, name, value),
        _ => Ok(with_words(s, seq![operation_code(i), 0, 1])),
    }
}

/// The state after a list of instructions has been emitted, one after the
/// other, or the error of the first instruction that fails.
pub open spec fn emit(ir: Seq<IrView>, s: EmitState) -> Result<EmitState, ErrorView>
    decreases ir.len(),
{
    if ir.len() == 0 {
        Ok(s)
    } else {
        match emit(ir.drop_last(), s) {
            Err(e) => Err(e),
            Ok(s1) => emit_step(s1, ir.last()),
        }
    }
}

/// An error in an instruction is the error of the list.
pub proof fn lemma_emit_error_stays(ir: Seq<IrView>, s: EmitState, k: int)
    requires
        0 <= k <= ir.len(),
        emit(ir.take(k), s) is Err,
    ensures
        emit(ir, s) == emit(ir.take(k), s),
    decreases ir.len() - k,
{
    if k < ir.len() {
        assert(ir.take(k + 1).drop_last() =~= ir.take(k));
        lemma_emit_error_stays(ir, s, k + 1);
    } else {
        assert(ir.take(k) =~= ir);
    }
}

/// The state once `addr` has been given a place, and the state as it is
/// where `addr` cannot be given one.
pub open spec fn placed_if_possible(addr: AddressView, s: EmitState) -> EmitState {
    if placed(addr, s) is Ok {
        after_placing(addr, s)
    } else {
        s
    }
}

/// The state in which emitting one instruction ends. Where the instruction
/// fails, no word has been emitted for it; its target has been given a
/// place if it is the source that is at fault.
pub open spec fn step_end(s: EmitState, i: IrView) -> EmitState {
    match emit_step(s, i) {
        Ok(after) => after,
        Err(_) => match i {
            IrView::Write(a, _)
            | IrView::Copy(a, _)
            | IrView::IndirWrite(a, _)
            | IrView::IndirCopy(a, _)
            | IrView::IndirCopy3(a, _) => placed_if_possible(a, s),
            _ => s,
        },
    }
}

/// The state in which emitting a list of instructions ends: after the last
/// instruction, or where the first failing instruction left it.
pub open spec fn emit_end(ir: Seq<IrView>, s: EmitState) -> EmitState
    decreases ir.len(),
{
    if ir.len() == 0 {
        s
    } else {
        match emit(ir.drop_last(), s) {
            Err(_) => emit_end(ir.drop_last(), s),
            Ok(s1) => step_end(s1, ir.last()),
        }
    }
}

/// Where emitting succeeds, it ends in the state that it gives.
pub proof fn lemma_emit_end_of_success(ir: Seq<IrView>, s: EmitState)
    requires
        emit(ir, s) is Ok,
    ensures
        emit_end(ir, s) == emit(ir, s)->Ok_0,
{
}

/// Emission ends where its first failing instruction left it, whatever
/// follows that instruction.
pub proof fn lemma_emit_end_stays(ir: Seq<IrView>, s: EmitState, k: int)
    requires
        0 <= k <= ir.len(),
        emit(ir.take(k), s) is Err,
    ensures
        emit_end(ir, s) == emit_end(ir.take(k), s),
    decreases ir.len() - k,
{
    if k < ir.len() {
        assert(ir.take(k + 1).drop_last() =~= ir.take(k));
        lemma_emit_error_stays(ir.take(k + 1), s, k);
        assert(ir.take(k + 1).take(k) =~= ir.take(k));
        lemma_emit_end_stays(ir, s, k + 1);
    } else {
        assert(ir.take(k) =~= ir);
    }
}

/// The state that the three parts make up.
pub open spec fn state_of(words: Seq<i32>, vars: Map<Seq<char>, i32>, var_addr: i32) -> EmitState {
    EmitState { words, vars, var_addr }
}

fn place(addr: Address, vars: &mut StringHashMap<i32>, var_addr: &mut i32, Ghost(words): Ghost<
    Seq<i32>,
>) -> (r: Result<i32, BlocksError>)
    ensures
        match r {
            Ok(x) => placed(addr@, state_of(words, old(vars)@, *old(var_addr))) == Ok::<
                i32,
                ErrorView,
            >(x) && state_of(words, final(vars)@, *final(var_addr)) == after_placing(
                addr@,
                state_of(words, old(vars)@, *old(var_addr)),
            ),
            Err(e) => placed(addr@, state_of(words, old(vars)@, *old(var_addr))) == Err::<
                i32,
                ErrorView,
            >(e@) && final(vars)@ == old(vars)@ && *final(var_addr) == *old(var_addr),
        },
{
    let is_new = match &addr {
        Address::Static(_) => false,
        Address::Variable(name) => !vars.contains_key(name.as_str()),
    };
    if is_new && *var_addr == i32::MAX {
        return Err(BlocksError::with_text(ErrorKind::Other, "variable address out of range"));
    }
    let x = match addr {
        Address::Static(n) => get_static_addr(Address::Static(n)),
        other => get_var_or_new(other, vars, var_addr),
    };
    Ok(x)
}

fn push3(words: &mut Vec<i32>, a: i32, b: i32, c: i32)
    ensures
        final(words)@ == old(words)@ + seq![a, b, c],
{
    words.push(a);
    words.push(b);
    words.push(c);
    assert(words@ =~= old(words)@ + seq![a, b, c]);
}

fn push2(words: &mut Vec<i32>, a: i32, b: i32)
    ensures
        final(words)@ == old(words)@ + seq![a, b],
{
    words.push(a);
    words.push(b);
    assert(words@ =~= old(words)@ + seq![a, b]);
}

fn push_all(words: &mut Vec<i32>, more: &Vec<i32>)
    ensures
        final(words)@ == old(words)@ + more@,
{
    let mut k: usize = 0;
    while k < more.len()
        invariant
            k <= more.len(),
            words@ == old(words)@ + more@.take(k as int),
        decreases more.len() - k,
    {
        words.push(more[k]);
        assert(words@ =~= old(words)@ + more@.take(k + 1));
        k += 1;
    }
    assert(more@.take(more@.len() as int) =~= more@);
}

fn emit_write(
    code: i32,
    a: &Address,
    d: &Address,
    words: &mut Vec<i32>,
    vars: &mut StringHashMap<i32>,
    var_addr: &mut i32,
) -> (r: Result<(), BlocksError>)
    ensures
        match r {
            Ok(()) => write_step(state_of(old(words)@, old(vars)@, *old(var_addr)), code, a@, d@)
                == Ok::<EmitState, ErrorView>(
                state_of(final(words)@, final(vars)@, *final(var_addr)),
            ),
            Err(e) => write_step(state_of(old(words)@, old(vars)@, *old(var_addr)), code, a@, d@)
                == Err::<EmitState, ErrorView>(e@) && state_of(
                final(words)@,
                final(vars)@,
                *final(var_addr),
            ) == placed_if_possible(a@, state_of(old(words)@, old(vars)@, *old(var_addr))),
        },
{
    match place(a.clone(), vars, var_addr, Ghost(words@)) {
        Err(e) => Err(e),
        Ok(x) => match place(d.clone(), vars, var_addr, Ghost(words@)) {
            Err(e) => Err(e),
            Ok(y) => {
                push3(words, code, x, y);
                Ok(())
            },
        },
    }
}

fn emit_copy(
    code: i32,
    a: &Address,
    b: &Address,
    words: &mut Vec<i32>,
    vars: &mut StringHashMap<i32>,
    var_addr: &mut i32,
) -> (r: Result<(), BlocksError>)
    ensures
        match r {
            Ok(()) => copy_step(state_of(old(words)@, old(vars)@, *old(var_addr)), code, a@, b@)
                == Ok::<EmitState, ErrorView>(
                state_of(final(words)@, final(vars)@, *final(var_addr)),
            ),
            Err(e) => copy_step(state_of(old(words)@, old(vars)@, *old(var_addr)), code, a@, b@)
                == Err::<EmitState, ErrorView>(e@) && state_of(
                final(words)@,
                final(vars)@,
                *final(var_addr),
            ) == placed_if_possible(a@, state_of(old(words)@, old(vars)@, *old(var_addr))),
        },
{
    match place(a.clone(), vars, var_addr, Ghost(words@)) {
        Err(e) => Err(e),
        Ok(x) => match get_addr(b.clone(), vars) {
            Err(e) => Err(e),
            Ok(y) => {
                push3(words, code, x, y);
                Ok(())
            },
        },
    }
}

fn emit_jump(code: i32, a: &Address, words: &mut Vec<i32>, vars: &StringHashMap<i32>, Ghost(
    var_addr,
): Ghost<i32>) -> (r: Result<(), BlocksError>)
    ensures
        match r {
            Ok(()) => jump_step(state_of(old(words)@, vars@, var_addr), code, a@) == Ok::<
                EmitState,
                ErrorView,
            >(state_of(final(words)@, vars@, var_addr)),
            Err(e) => jump_step(state_of(old(words)@, vars@, var_addr), code, a@) == Err::<
                EmitState,
                ErrorView,
            >(e@) && final(words)@ == old(words)@,
        },
{
    match get_addr(a.clone(), vars) {
        Err(e) => Err(e),
        Ok(x) => {
            push2(words, code, x);
            Ok(())
        },
    }
}

fn emit_tag(name: &String, value: &String, var_addr: &mut i32, Ghost(words): Ghost<Seq<i32>>, Ghost(
    vars,
): Ghost<Map<Seq<char>, i32>>) -> (r: Result<(), BlocksError>)
    ensures
        match r {
            Ok(()) => tag_step(state_of(words, vars, *old(var_addr)), name@, value@) == Ok::<
                EmitState,
                ErrorView,
            >(state_of(words, vars, *final(var_addr))),
            Err(e) => tag_step(state_of(words, vars, *old(var_addr)), name@, value@) == Err::<
                EmitState,
                ErrorView,
            >(e@) && *final(var_addr) == *old(var_addr),
        },
{
    if same_text(name, "var_addr") {
        match parse_int(value.as_str()) {
            Some(v) => {
                *var_addr = v;
                Ok(())
            },
            None => {
                let mut text = String::from_str("var_addr must be a number (found `");
                push_text(&mut text, value.as_str());
                push_text(&mut text, "`)");
                Err(BlocksError::with_text(ErrorKind::TagError, text.as_str()))
            },
        }
    } else {
        Err(BlocksError::with_text(ErrorKind::UnknownTag, name.as_str()))
    }
}

fn operation(i: &Ir) -> (code: i32)
    ensures
        code == operation_code(i@),
{
    match i {
        Ir::Add => 16,
        Ir::Sub => 17,
        Ir::Mul => 18,
        Ir::Div => 19,
        Ir::Equals => 20,
        Ir::Less => 21,
        Ir::Greater => 22,
        Ir::LessEqual => 23,
        Ir::GreaterEqual => 24,
        Ir::Or => 25,
        Ir::And => 26,
        Ir::Not => 27,
        Ir::Xor => 28,
        _ => 35,
    }
}

fn emit_one(i: &Ir, words: &mut Vec<i32>, vars: &mut StringHashMap<i32>, var_addr: &mut i32) -> (r:
    Result<(), BlocksError>)
    ensures
        match r {
            Ok(()) => emit_step(state_of(old(words)@, old(vars)@, *old(var_addr)), i@) == Ok::<
                EmitState,
                ErrorView,
            >(state_of(final(words)@, final(vars)@, *final(var_addr))),
            Err(e) => emit_step(state_of(old(words)@, old(vars)@, *old(var_addr)), i@) == Err::<
                EmitState,
                ErrorView,
            >(e@),
        },
        state_of(final(words)@, final(vars)@, *final(var_addr)) == step_end(
            state_of(old(words)@, old(vars)@, *old(var_addr)),
            i@,
        ),
{
    match i {
        Ir::Write(a, d) => emit_write(0, a, d, words, vars, var_addr),
        Ir::Copy(a, b) => emit_copy(1, a, b, words, vars, var_addr),
        Ir::IndirWrite(a, d) => emit_write(2, a, d, words, vars, var_addr),
        Ir::IndirCopy(a, b) => emit_copy(3, a, b, words, vars, var_addr),
        Ir::IndirCopy3(a, b) => emit_copy(5, a, b, words, vars, var_addr),
        Ir::RegWrite(r, d) => match place(d.clone(), vars, var_addr, Ghost(words@)) {
            Err(e) => Err(e),
            Ok(y) => {
                push3(words, 10, r.id(), y);
                Ok(())
            },
        },
        Ir::RegCopy(r, a) => match place(a.clone(), vars, var_addr, Ghost(words@)) {
            Err(e) => Err(e),
            Ok(x) => {
                push3(words, 11, r.id(), x);
                Ok(())
            },
        },
        Ir::RegMem(r, a) => match place(a.clone(), vars, var_addr, Ghost(words@)) {
            Err(e) => Err(e),
            Ok(x) => {
                push3(words, 13, x, r.id());
                Ok(())
            },
        },
        Ir::Not => {
            push2(words, 27, 0);
            Ok(())
        },
        Ir::Branch(a) => emit_jump(29, a, words, vars, Ghost(*var_addr)),
        Ir::CondBranch(a) => emit_jump(30, a, words, vars, Ghost(*var_addr)),
        Ir::IndirBranch(a) => emit_jump(32, a, words, vars, Ghost(*var_addr)),
        Ir::Call(a) => emit_jump(33, a, words, vars, Ghost(*var_addr)),
        Ir::Return => {
            words.push(35);
            assert(words@ =~= old(words)@ + seq![35i32]);
            Ok(())
        },
        Ir::Raw(raw) => {
            push_all(words, raw);
            Ok(())
        },
        Ir::Tag(name, value) => emit_tag(name, value, var_addr, Ghost(words@), Ghost(vars@)),
        other => {
            push3(words, operation(other), 0, 1);
            Ok(())
        },
    }
}

/// Emits a list of instructions: appends their machine words to `words`,
/// places the variables they name in `vars` and moves `var_addr` past them.
/// Fails with the error of the first instruction that cannot be emitted;
/// what the instructions before it emitted and placed then stays.
pub fn emit_list(
    ir: &Vec<Ir>,
    words: &mut Vec<i32>,
    vars: &mut StringHashMap<i32>,
    var_addr: &mut i32,
) -> (r: Result<(), BlocksError>)
    ensures
        match r {
            Ok(()) => emit(ir_views(ir@), state_of(old(words)@, old(vars)@, *old(var_addr)))
                == Ok::<EmitState, ErrorView>(
                state_of(final(words)@, final(vars)@, *final(var_addr)),
            ),
            Err(e) => emit(ir_views(ir@), state_of(old(words)@, old(vars)@, *old(var_addr)))
                == Err::<EmitState, ErrorView>(e@),
        },
        state_of(final(words)@, final(vars)@, *final(var_addr)) == emit_end(
            ir_views(ir@),
            state_of(old(words)@, old(vars)@, *old(var_addr)),
        ),
{
    let ghost views = ir_views(ir@);
    let ghost start = state_of(words@, vars@, *var_addr);
    let mut k: usize = 0;
    while k < ir.len()
        invariant
            k <= ir.len(),
            views == ir_views(ir@),
            start == state_of(old(words)@, old(vars)@, *old(var_addr)),
            emit(views.take(k as int), start) == Ok::<EmitState, ErrorView>(
                state_of(words@, vars@, *var_addr),
            ),
        decreases ir.len() - k,
    {
        proof {
            assert(views.take(k + 1).drop_last() =~= views.take(k as int));
            assert(views.take(k + 1).last() == ir@[k as int]@);
        }
        match emit_one(&ir[k], words, vars, var_addr) {
            Ok(()) => {},
            Err(e) => {
                proof {
                    lemma_emit_error_stays(views, start, k + 1);
                    lemma_emit_end_stays(views, start, k + 1);
                }
                return Err(e);
            },
        }
        k += 1;
    }
    assert(views.take(ir@.len() as int) =~= views);
    proof {
        lemma_emit_end_of_success(views, start);
    }
    Ok(())
}

/// Whether the instruction `i` names the variable `name`.
pub open spec fn mentions(i: IrView, name: Seq<char>) -> bool {
    let v = AddressView::Variable(name);
    match i {
        IrView::Write(a, b)
        | IrView::Copy(a, b)
        | IrView::IndirWrite(a, b)
        | IrView::IndirCopy(a, b)
        | IrView::IndirCopy3(a, b) => a == v || b == v,
        IrView::RegWrite(_, a) | IrView::RegCopy(_, a) | IrView::RegMem(_, a) => a == v,
        IrView::Branch(a) | IrView::CondBranch(a) | IrView::IndirBranch(a) | IrView::Call(a) => a
            == v,
        _ => false,
    }
}

/// Whether `later` holds every name of `earlier`, at the same address.
pub open spec fn extends(earlier: Map<Seq<char>, i32>, later: Map<Seq<char>, i32>) -> bool {
    forall|name: Seq<char>| #[trigger]
        earlier.contains_key(name) ==> later.contains_key(name) && later[name] == earlier[name]
}

/// What emitting one instruction does: it appends as many words as the
/// instruction counts for, it keeps every name where it was, it leaves the
/// names finite in number, and it has placed every variable that the
/// instruction names.
pub proof fn lemma_step_effects(s: EmitState, i: IrView)
    requires
        emit_step(s, i) is Ok,
    ensures
        emit_step(s, i)->Ok_0.words.len() == s.words.len() + word_count(i),
        emit_step(s, i)->Ok_0.words.take(s.words.len() as int) == s.words,
        extends(s.vars, emit_step(s, i)->Ok_0.vars),
        s.vars.dom().finite() ==> emit_step(s, i)->Ok_0.vars.dom().finite(),
        forall|name: Seq<char>|
            mentions(i, name) ==> #[trigger] emit_step(s, i)->Ok_0.vars.contains_key(name),
{
    let after = emit_step(s, i)->Ok_0;
    assert(after.words.take(s.words.len() as int) =~= s.words);
}

/// What emitting a list of instructions does: it appends as many words as
/// the instructions count for together, it keeps every name where it was,
/// it leaves the names finite in number, and it has placed every variable
/// that an instruction of the list names.
pub proof fn lemma_emit_effects(ir: Seq<IrView>, s: EmitState)
    requires
        emit(ir, s) is Ok,
    ensures
        emit(ir, s)->Ok_0.words.len() == s.words.len() + code_size(ir),
        emit(ir, s)->Ok_0.words.take(s.words.len() as int) == s.words,
        extends(s.vars, emit(ir, s)->Ok_0.vars),
        s.vars.dom().finite() ==> emit(ir, s)->Ok_0.vars.dom().finite(),
        forall|k: int, name: Seq<char>|
            0 <= k < ir.len() && mentions(#[trigger] ir[k], name) ==> #[trigger] emit(
                ir,
                s,
            )->Ok_0.vars.contains_key(name),
    decreases ir.len(),
{
    if ir.len() > 0 {
        let before = emit(ir.drop_last(), s)->Ok_0;
        let after = emit(ir, s)->Ok_0;
        lemma_emit_effects(ir.drop_last(), s);
        lemma_step_effects(before, ir.last());
        assert(after.words.take(s.words.len() as int) =~= s.words) by {
            assert(after.words.take(before.words.len() as int) == before.words);
            assert(before.words.take(s.words.len() as int) == s.words);
        }
        assert forall|k: int, name: Seq<char>|
            0 <= k < ir.len() && mentions(#[trigger] ir[k], name) implies #[trigger] after.vars.contains_key(
            name,
        ) by {
            if k < ir.len() - 1 {
                assert(ir.drop_last()[k] == ir[k]);
                assert(before.vars.contains_key(name));
            }
        }
    } else {
        assert(s.words.take(s.words.len() as int) =~= s.words);
    }
}

/// What the layout has produced and recorded so far.
pub struct Layout {
    /// The machine words emitted.
    pub words: Seq<i32>,
    /// The address of every name that has been placed.
    pub vars: Map<Seq<char>, i32>,
    /// The next free place in the data section.
    pub var_addr: i32,
    /// The next free place in the symbol section.
    pub symbol_addr: i32,
}

/// The error for a symbol that would end beyond the last address.
pub open spec fn symbol_out_of_range<T>() -> Result<T, ErrorView> {
    failure(ErrorKind::Other, TokenView::Other("symbol address out of range"@))
}

/// The words of the body of a symbol that is placed in the layout `s`, with
/// the names and the next free data place after it; or the error that the
/// body causes.
pub open spec fn body_emitted(s: Layout, block: BlockView) -> Result<EmitState, ErrorView> {
    emit(
        block.1,
        EmitState {
            words: Seq::empty(),
            vars: s.vars.insert(block.0, s.symbol_addr),
            var_addr: s.var_addr,
        },
    )
}

/// The layout after one more symbol: its name is recorded at the next free
/// place of the symbol section, its body is emitted there, and the next
/// free place moves past it.
pub open spec fn place_block(s: Layout, block: BlockView) -> Result<Layout, ErrorView> {
    match body_emitted(s, block) {
        Err(e) => Err(e),
        Ok(body) => if s.symbol_addr + body.words.len() > i32::MAX {
            symbol_out_of_range()
        } else {
            Ok(
                Layout {
                    words: s.words + body.words,
                    vars: body.vars,
                    var_addr: body.var_addr,
                    symbol_addr: (s.symbol_addr + body.words.len()) as i32,
                },
            )
        },
    }
}

/// The layout after the symbols `blocks` have been placed, one after the
/// other.
pub open spec fn place_blocks(blocks: Seq<BlockView>, s: Layout) -> Result<Layout, ErrorView>
    decreases blocks.len(),
{
    if blocks.len() == 0 {
        Ok(s)
    } else {
        match place_blocks(blocks.drop_last(), s) {
            Err(e) => Err(e),
            Ok(s1) => place_block(s1, blocks.last()),
        }
    }
}

/// The layout of a lowered program: the symbols first, then the main code.
pub open spec fn laid_out(r: IrResultView, start: Layout) -> Result<Layout, ErrorView> {
    match place_blocks(r.blocks, start) {
        Err(e) => Err(e),
        Ok(s) => match emit(r.ir, state_of(s.words, s.vars, s.var_addr)) {
            Err(e) => Err(e),
            Ok(e) => Ok(
                Layout {
                    words: e.words,
                    vars: e.vars,
                    var_addr: e.var_addr,
                    symbol_addr: s.symbol_addr,
                },
            ),
        },
    }
}

/// An error in a symbol is the error of the symbols.
pub proof fn lemma_blocks_error_stays(blocks: Seq<BlockView>, s: Layout, k: int)
    requires
        0 <= k <= blocks.len(),
        place_blocks(blocks.take(k), s) is Err,
    ensures
        place_blocks(blocks, s) == place_blocks(blocks.take(k), s),
    decreases blocks.len() - k,
{
    if k < blocks.len() {
        assert(blocks.take(k + 1).drop_last() =~= blocks.take(k));
        lemma_blocks_error_stays(blocks, s, k + 1);
    } else {
        assert(blocks.take(k) =~= blocks);
    }
}

/// What placing one symbol does to the names: the symbol's name is
/// recorded, every other name stays where it was, and the names stay finite
/// in number.
pub proof fn lemma_block_names(s: Layout, block: BlockView)
    requires
        place_block(s, block) is Ok,
    ensures
        place_block(s, block)->Ok_0.vars.contains_key(block.0),
        place_block(s, block)->Ok_0.vars[block.0] == s.symbol_addr,
        forall|name: Seq<char>| #[trigger]
            s.vars.contains_key(name) ==> place_block(s, block)->Ok_0.vars.contains_key(name)
                && (name != block.0 ==> place_block(s, block)->Ok_0.vars[name] == s.vars[name]),
        s.vars.dom().finite() ==> place_block(s, block)->Ok_0.vars.dom().finite(),
        s.symbol_addr >= 0 ==> place_block(s, block)->Ok_0.symbol_addr >= s.symbol_addr,
        place_block(s, block)->Ok_0.words.len() - s.words.len() == place_block(
            s,
            block,
        )->Ok_0.symbol_addr - s.symbol_addr,
        place_block(s, block)->Ok_0.words.len() == s.words.len() + code_size(block.1),
{
    let start = EmitState {
        words: Seq::empty(),
        vars: s.vars.insert(block.0, s.symbol_addr),
        var_addr: s.var_addr,
    };
    lemma_emit_effects(block.1, start);
    assert(start.vars.contains_key(block.0));
    assert forall|name: Seq<char>| #[trigger] s.vars.contains_key(name) implies place_block(
        s,
        block,
    )->Ok_0.vars.contains_key(name) && (name != block.0 ==> place_block(
        s,
        block,
    )->Ok_0.vars[name] == s.vars[name]) by {
        assert(start.vars.contains_key(name));
    }
}

/// As many names are recorded as there are symbols, at least.
pub proof fn lemma_names_counted(blocks: Seq<BlockView>, vars: Map<Seq<char>, i32>)
    requires
        distinct_names(blocks),
        vars.dom().finite(),
        forall|k: int| 0 <= k < blocks.len() ==> vars.contains_key((#[trigger] blocks[k]).0),
    ensures
        blocks.len() <= vars.len(),
{
    let names = blocks.map_values(|b: BlockView| b.0);
    assert(names.no_duplicates()) by {
        assert forall|i: int, j: int| 0 <= i < names.len() && 0 <= j < names.len() && i
            != j implies names[i] != names[j] by {
            if i < j {
                assert(blocks[i].0 != blocks[j].0);
            } else {
                assert(blocks[j].0 != blocks[i].0);
            }
        }
    }
    names.unique_seq_to_set();
    assert(names.to_set().subset_of(vars.dom())) by {
        assert forall|n: Seq<char>| names.to_set().contains(n) implies vars.dom().contains(n) by {
            let k = choose|k: int| 0 <= k < names.len() && names[k] == n;
            assert(vars.contains_key(blocks[k].0));
        }
    }
    vstd::set_lib::lemma_len_subset(names.to_set(), vars.dom());
}

/// The layout in which placing one symbol ends. Where that fails, the
/// symbol section and its next free place are as before, and the names and
/// the next free data place are where the body left them.
pub open spec fn block_end(s: Layout, block: BlockView) -> Layout {
    match place_block(s, block) {
        Ok(after) => after,
        Err(_) => {
            let body = emit_end(
                block.1,
                EmitState {
                    words: Seq::empty(),
                    vars: s.vars.insert(block.0, s.symbol_addr),
                    var_addr: s.var_addr,
                },
            );
            Layout { vars: body.vars, var_addr: body.var_addr, ..s }
        },
    }
}

/// The layout in which placing symbols ends: after the last symbol, or
/// where the first failing symbol left it.
pub open spec fn blocks_end(blocks: Seq<BlockView>, s: Layout) -> Layout
    decreases blocks.len(),
{
    if blocks.len() == 0 {
        s
    } else {
        match place_blocks(blocks.drop_last(), s) {
            Err(_) => blocks_end(blocks.drop_last(), s),
            Ok(s1) => block_end(s1, blocks.last()),
        }
    }
}

/// The layout in which laying out a lowered program ends, whether it
/// succeeds or fails.
pub open spec fn layout_end(r: IrResultView, start: Layout) -> Layout {
    match place_blocks(r.blocks, start) {
        Err(_) => blocks_end(r.blocks, start),
        Ok(s) => {
            let e = emit_end(r.ir, state_of(s.words, s.vars, s.var_addr));
            Layout { words: e.words, vars: e.vars, var_addr: e.var_addr, symbol_addr: s.symbol_addr }
        },
    }
}

/// Where laying out succeeds, it ends in the layout that it gives.
pub proof fn lemma_layout_end_of_success(r: IrResultView, start: Layout)
    requires
        laid_out(r, start) is Ok,
    ensures
        layout_end(r, start) == laid_out(r, start)->Ok_0,
{
    let s = place_blocks(r.blocks, start)->Ok_0;
    lemma_emit_end_of_success(r.ir, state_of(s.words, s.vars, s.var_addr));
}

/// Placing symbols ends where the first failing symbol left it, whatever
/// follows that symbol.
pub proof fn lemma_blocks_end_stays(blocks: Seq<BlockView>, s: Layout, k: int)
    requires
        0 <= k <= blocks.len(),
        place_blocks(blocks.take(k), s) is Err,
    ensures
        blocks_end(blocks, s) == blocks_end(blocks.take(k), s),
    decreases blocks.len() - k,
{
    if k < blocks.len() {
        assert(blocks.take(k + 1).drop_last() =~= blocks.take(k));
        assert(blocks.take(k + 1).take(k) =~= blocks.take(k));
        lemma_blocks_error_stays(blocks.take(k + 1), s, k);
        lemma_blocks_end_stays(blocks, s, k + 1);
    } else {
        assert(blocks.take(k) =~= blocks);
    }
}

/// The layout that the four parts make up.
pub open spec fn layout_of(
    words: Seq<i32>,
    vars: Map<Seq<char>, i32>,
    var_addr: i32,
    symbol_addr: i32,
) -> Layout {
    Layout { words, vars, var_addr, symbol_addr }
}

/// Emits a lowered program. The symbols come first: each name is recorded
/// in `vars` at `symbol_addr`, which then moves past the body. The main
/// code follows. Returns the machine words, the size of the data section
/// (the names in `vars` that are no symbols of this program) and the size
/// of the symbol section (where `symbol_addr` has arrived). On failure
/// `vars` and the two cursors stay where the failing instruction left
/// them.
pub fn compile_ir(
    ir: IrResult,
    vars: &mut StringHashMap<i32>,
    var_addr: &mut i32,
    symbol_addr: &mut i32,
) -> (r: Result<(Vec<i32>, usize, usize), BlocksError>)
    requires
        old(vars)@.dom().finite(),
        *old(symbol_addr) >= 0,
        distinct_names(ir@.blocks),
    ensures
        match r {
            Ok((words, data_size, symbol_size)) => {
                &&& final(vars)@.dom().finite()
                &&& laid_out(
                    ir@,
                    layout_of(Seq::empty(), old(vars)@, *old(var_addr), *old(symbol_addr)),
                ) == Ok::<Layout, ErrorView>(
                    layout_of(words@, final(vars)@, *final(var_addr), *final(symbol_addr)),
                )
                &&& data_size == final(vars)@.len() - ir@.blocks.len()
                &&& symbol_size == *final(symbol_addr)
            },
            Err(e) => laid_out(
                ir@,
                layout_of(Seq::empty(), old(vars)@, *old(var_addr), *old(symbol_addr)),
            ) == Err::<Layout, ErrorView>(e@),
        },
        final(vars)@ == layout_end(
            ir@,
            layout_of(Seq::empty(), old(vars)@, *old(var_addr), *old(symbol_addr)),
        ).vars,
        *final(var_addr) == layout_end(
            ir@,
            layout_of(Seq::empty(), old(vars)@, *old(var_addr), *old(symbol_addr)),
        ).var_addr,
        *final(symbol_addr) == layout_end(
            ir@,
            layout_of(Seq::empty(), old(vars)@, *old(var_addr), *old(symbol_addr)),
        ).symbol_addr,
{
    let ghost start = layout_of(Seq::empty(), vars@, *var_addr, *symbol_addr);
    let ghost views = ir@.blocks;
    let IrResult { ir: main, blocks, address: _, var_addr: _, register: _, deref: _, math: _ } = ir;
    let mut result: Vec<i32> = Vec::new();
    let mut k: usize = 0;
    while k < blocks.len()
        invariant
            k <= blocks.len(),
            views == block_views(blocks@),
            views == ir@.blocks,
            start == layout_of(Seq::empty(), old(vars)@, *old(var_addr), *old(symbol_addr)),
            place_blocks(views.take(k as int), start) == Ok::<Layout, ErrorView>(
                layout_of(result@, vars@, *var_addr, *symbol_addr),
            ),
            vars@.dom().finite(),
            *symbol_addr >= 0,
            forall|j: int| 0 <= j < k ==> vars@.contains_key((#[trigger] views[j]).0),
        decreases blocks.len() - k,
    {
        let ghost before = layout_of(result@, vars@, *var_addr, *symbol_addr);
        let ghost block = views[k as int];
        proof {
            assert(views.take(k + 1).drop_last() =~= views.take(k as int));
            assert(views.take(k + 1).last() == block);
            assert(block == (blocks@[k as int].0@, ir_views(blocks@[k as int].1@)));
        }
        vars.insert(blocks[k].0.clone(), *symbol_addr);
        let mut body: Vec<i32> = Vec::new();
        match emit_list(&blocks[k].1, &mut body, vars, var_addr) {
            Ok(()) => {},
            Err(e) => {
                proof {
                    assert(place_block(before, block) == Err::<Layout, ErrorView>(e@));
                    lemma_blocks_error_stays(views, start, k + 1);
                    lemma_blocks_end_stays(views, start, k + 1);
                }
                return Err(e);
            },
        }
        if body.len() > (i32::MAX - *symbol_addr) as usize {
            proof {
                assert(place_block(before, block) == symbol_out_of_range::<Layout>());
                lemma_blocks_error_stays(views, start, k + 1);
                lemma_blocks_end_stays(views, start, k + 1);
                lemma_emit_end_of_success(
                    block.1,
                    state_of(
                        Seq::empty(),
                        before.vars.insert(block.0, before.symbol_addr),
                        before.var_addr,
                    ),
                );
                lemma_emit_effects(
                    block.1,
                    state_of(
                        Seq::empty(),
                        before.vars.insert(block.0, before.symbol_addr),
                        before.var_addr,
                    ),
                );
            }
            return Err(BlocksError::with_text(ErrorKind::Other, "symbol address out of range"));
        }
        *symbol_addr = *symbol_addr + body.len() as i32;
        push_all(&mut result, &body);
        proof {
            lemma_block_names(before, block);
            assert forall|j: int| 0 <= j < k + 1 implies vars@.contains_key(
                (#[trigger] views[j]).0,
            ) by {
                if j < k {
                    assert(before.vars.contains_key(views[j].0));
                }
            }
        }
        k += 1;
    }
    assert(views.take(blocks@.len() as int) =~= views);
    let ghost placed = layout_of(result@, vars@, *var_addr, *symbol_addr);
    match emit_list(&main, &mut result, vars, var_addr) {
        Ok(()) => {},
        Err(e) => {
            return Err(e);
        },
    }
    proof {
        lemma_layout_end_of_success(ir@, start);
        lemma_emit_effects(ir_views(main@), state_of(placed.words, placed.vars, placed.var_addr));
        assert forall|j: int| 0 <= j < views.len() implies vars@.contains_key(
            (#[trigger] views[j]).0,
        ) by {
            assert(placed.vars.contains_key(views[j].0));
        }
        lemma_names_counted(views, vars@);
    }
    let data_size = vars.len() - blocks.len();
    let symbol_size = *symbol_addr as usize;
    Ok((result, data_size, symbol_size))
}

/// The number of words of the setup sequence.
pub const SETUP_SIZE: i32 = 23;

/// The setup sequence: it makes the data segment register point behind the
/// setup sequence, the flow segment register behind the data section, and
/// jumps over the symbol section to the main code.
pub open spec fn setup_words(data_size: i32, symbol_size: i32) -> Seq<i32> {
    seq![
        12,
        8,
        9,
        10,
        0,
        SETUP_SIZE,
        16,
        8,
        0,
        12,
        8,
        5,
        10,
        0,
        data_size,
        16,
        8,
        0,
        12,
        7,
        5,
        29,
        symbol_size,
    ]
}

/// The cleanup sequence: it clears the two segment registers and returns.
pub open spec fn cleanup_words() -> Seq<i32> {
    seq![10, 7, 0, 10, 8, 0, 35]
}

/// A data section of `n` words, all zero.
pub open spec fn zeros(n: nat) -> Seq<i32> {
    Seq::new(n, |i: int| 0i32)
}

/// The error for a data section whose size does not fit in a machine word.
pub open spec fn data_out_of_range<T>() -> Result<T, ErrorView> {
    failure(ErrorKind::Other, TokenView::Other("data section out of range"@))
}

/// The size of the data section of a layout with `symbols` symbols: one
/// word for every name that is no symbol.
pub open spec fn data_size(layout: Layout, symbols: nat) -> int {
    layout.vars.len() - symbols
}

/// The program of a layout: setup sequence, data section, symbol section
/// and main code, cleanup sequence.
pub open spec fn program(layout: Layout, symbols: nat) -> Result<Seq<i32>, ErrorView> {
    let data = data_size(layout, symbols);
    if data < 0 || data > i32::MAX {
        data_out_of_range()
    } else {
        Ok(
            setup_words(data as i32, layout.symbol_addr) + zeros(data as nat) + layout.words
                + cleanup_words(),
        )
    }
}

/// The layout before anything is placed.
pub open spec fn empty_layout() -> Layout {
    layout_of(Seq::empty(), Map::empty(), 0, 0)
}

/// The lowered program of a source text, after dead code has been removed.
pub open spec fn lowered(src: Seq<char>) -> Result<IrResultView, ErrorView> {
    match parse(lex(src)) {
        Err(e) => Err(e),
        Ok(tree) => match lower(NodeView::Tree(tree), 0) {
            Err(e) => Err(e),
            Ok(r) => Ok(IrResultView { ir: without_dead_code(r.ir), ..r }),
        },
    }
}

/// The machine words of a source text, or the first error that one of the
/// four stages finds in it.
pub open spec fn compiled(src: Seq<char>) -> Result<Seq<i32>, ErrorView> {
    match lowered(src) {
        Err(e) => Err(e),
        Ok(r) => match laid_out(r, empty_layout()) {
            Err(e) => Err(e),
            Ok(layout) => program(layout, r.blocks.len()),
        },
    }
}

fn setup(data_size: i32, symbol_size: i32) -> (words: Vec<i32>)
    ensures
        words@ == setup_words(data_size, symbol_size),
{
    let mut words: Vec<i32> = Vec::new();
    push3(&mut words, 12, 8, 9);
    push3(&mut words, 10, 0, SETUP_SIZE);
    push3(&mut words, 16, 8, 0);
    push3(&mut words, 12, 8, 5);
    push3(&mut words, 10, 0, data_size);
    push3(&mut words, 16, 8, 0);
    push3(&mut words, 12, 7, 5);
    push2(&mut words, 29, symbol_size);
    assert(words@ =~= setup_words(data_size, symbol_size));
    words
}

fn push_zeros(words: &mut Vec<i32>, n: usize)
    ensures
        final(words)@ == old(words)@ + zeros(n as nat),
{
    let mut k: usize = 0;
    assert(words@ =~= old(words)@ + zeros(0));
    while k < n
        invariant
            k <= n,
            words@ == old(words)@ + zeros(k as nat),
        decreases n - k,
    {
        words.push(0);
        k += 1;
        assert(words@ =~= old(words)@ + zeros(k as nat));
    }
}

/// Lowers a source text: builds its tree, lowers the tree and removes dead
/// code.
pub fn lower_source(prog: &str) -> (r: Result<IrResult, BlocksError>)
    ensures
        match r {
            Ok(ir) => lowered(prog@) == Ok::<IrResultView, ErrorView>(ir@) && distinct_names(
                ir@.blocks,
            ),
            Err(e) => lowered(prog@) == Err::<IrResultView, ErrorView>(e@),
        },
{
    match build_token_tree(String::from_str(prog)) {
        Err(e) => Err(e),
        Ok(tree) => match build_ir(TokenWrapper::Tree(tree), 0) {
            Err(e) => Err(e),
            Ok(ir) => {
                let IrResult { ir: main, blocks, address, var_addr, register, deref, math } = ir;
                let mut main = main;
                remove_dead_code(&mut main);
                Ok(IrResult { ir: main, blocks, address, var_addr, register, deref, math })
            },
        },
    }
}

/// Puts a program together from its layout: the setup sequence, a data
/// section of `data_size` zero words, the emitted words and the cleanup
/// sequence.
pub fn assemble(words: Vec<i32>, data_size: usize, symbol_size: i32) -> (r: Result<
    Vec<i32>,
    BlocksError,
>)
    ensures
        match r {
            Ok(out) => data_size <= i32::MAX && out@ == setup_words(data_size as i32, symbol_size)
                + zeros(data_size as nat) + words@ + cleanup_words(),
            Err(e) => data_size > i32::MAX && Err::<Seq<i32>, ErrorView>(e@) == data_out_of_range::<
                Seq<i32>,
            >(),
        },
{
    if data_size > i32::MAX as usize {
        return Err(BlocksError::with_text(ErrorKind::Other, "data section out of range"));
    }
    let mut out = setup(data_size as i32, symbol_size);
    push_zeros(&mut out, data_size);
    push_all(&mut out, &words);
    push3(&mut out, 10, 7, 0);
    push3(&mut out, 10, 8, 0);
    out.push(35);
    assert(out@ =~= setup_words(data_size as i32, symbol_size) + zeros(data_size as nat) + words@
        + cleanup_words());
    Ok(out)
}

/// Compiles a source text to machine words.
pub fn compile(prog: &str) -> (r: Result<Vec<i32>, BlocksError>)
    ensures
        match r {
            Ok(out) => compiled(prog@) == Ok::<Seq<i32>, ErrorView>(out@),
            Err(e) => compiled(prog@) == Err::<Seq<i32>, ErrorView>(e@),
        },
{
    match lower_source(prog) {
        Err(e) => Err(e),
        Ok(ir) => {
            let mut vars: StringHashMap<i32> = StringHashMap::new();
            let mut var_addr: i32 = 0;
            let mut symbol_addr: i32 = 0;
            match compile_ir(ir, &mut vars, &mut var_addr, &mut symbol_addr) {
                Err(e) => Err(e),
                Ok((words, data_size, symbol_size)) => assemble(words, data_size, symbol_addr),
            }
        },
    }
}

} // verus!
