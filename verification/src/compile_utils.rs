//! Addresses during emission: the place of a variable, and the size of
//! emitted code.

use vstd::prelude::*;
use vstd::hash_map::StringHashMap;
use crate::error::{BlocksError, ErrorKind, ErrorView};
use crate::ir::{ir_views, Ir, IrView};
use crate::token::{Token, TokenView};
use crate::tree::failure;
use crate::utils::{Address, AddressView};

verus! {

/// An empty table of variables.
pub fn new_vars() -> (vars: StringHashMap<i32>)
    ensures
        vars@ == Map::<Seq<char>, i32>::empty(),
{
    StringHashMap::new()
}

/// Whether `addr` names a variable that `vars` does not hold.
pub open spec fn is_new_variable(addr: AddressView, vars: Map<Seq<char>, i32>) -> bool {
    addr matches AddressView::Variable(name) && !vars.contains_key(name)
}

/// The number that `addr` stands for where a variable may be placed: a
/// static address is its own number, a variable that `vars` holds has the
/// address recorded there, and a new variable gets `cursor`.
pub open spec fn slot_of(addr: AddressView, vars: Map<Seq<char>, i32>, cursor: i32) -> i32 {
    match addr {
        AddressView::Static(n) => n,
        AddressView::Variable(name) => if vars.contains_key(name) {
            vars[name]
        } else {
            cursor
        },
    }
}

/// The variables once `addr` has been given a place.
pub open spec fn vars_after(addr: AddressView, vars: Map<Seq<char>, i32>, cursor: i32) -> Map<
    Seq<char>,
    i32,
> {
    match addr {
        AddressView::Variable(name) if !vars.contains_key(name) => vars.insert(name, cursor),
        _ => vars,
    }
}

/// The next free place once `addr` has been given one.
pub open spec fn cursor_after(addr: AddressView, vars: Map<Seq<char>, i32>, cursor: i32) -> int {
    if is_new_variable(addr, vars) {
        cursor + 1
    } else {
        cursor as int
    }
}

/// Resolves an address where a variable may be placed. A variable that is
/// not in `vars` yet is recorded there at `var_addr`, which then moves on by
/// one.
pub fn get_var_or_new(addr: Address, vars: &mut StringHashMap<i32>, var_addr: &mut i32) -> (r: i32)
    requires
        is_new_variable(addr@, old(vars)@) ==> *old(var_addr) < i32::MAX,
    ensures
        r == slot_of(addr@, old(vars)@, *old(var_addr)),
        final(vars)@ == vars_after(addr@, old(vars)@, *old(var_addr)),
        *final(var_addr) == cursor_after(addr@, old(vars)@, *old(var_addr)),
{
    match addr {
        Address::Static(num) => num,
        Address::Variable(ident) => {
            let known = match vars.get(ident.as_str()) {
                Some(v) => Some(*v),
                None => None,
            };
            match known {
                Some(v) => v,
                None => {
                    vars.insert(ident, *var_addr);
                    *var_addr += 1;
                    *var_addr - 1
                },
            }
        },
    }
}

/// The number that `addr` stands for where it is read: a static address is
/// its own number, and a variable must be in `vars`.
pub open spec fn resolved(addr: AddressView, vars: Map<Seq<char>, i32>) -> Result<i32, ErrorView> {
    match addr {
        AddressView::Static(n) => Ok(n),
        AddressView::Variable(name) => if vars.contains_key(name) {
            Ok(vars[name])
        } else {
            failure(ErrorKind::UndeclaredVar, TokenView::Other(name))
        },
    }
}

/// Resolves an address that is read. Fails with `UndeclaredVar` for a
/// variable that is not in `vars`.
pub fn get_addr(addr: Address, vars: &StringHashMap<i32>) -> (r: Result<i32, BlocksError>)
    ensures
        match r {
            Ok(n) => resolved(addr@, vars@) == Ok::<i32, ErrorView>(n),
            Err(e) => resolved(addr@, vars@) == Err::<i32, ErrorView>(e@),
        },
{
    match addr {
        Address::Static(num) => Ok(num),
        Address::Variable(ident) => {
            let known = match vars.get(ident.as_str()) {
                Some(v) => Some(*v),
                None => None,
            };
            match known {
                Some(v) => Ok(v),
                None => Err(BlocksError::new(ErrorKind::UndeclaredVar, Token::Other(ident))),
            }
        },
    }
}

/// The number of a static address.
pub fn get_static_addr(addr: Address) -> (r: i32)
    requires
        addr@ is Static,
    ensures
        addr@ == AddressView::Static(r),
{
    match addr {
        Address::Static(n) => n,
        Address::Variable(_) => 0,
    }
}

/// The number of machine words that an instruction is emitted as.
pub open spec fn word_count(i: IrView) -> nat {
    match i {
        IrView::Branch(_) | IrView::CondBranch(_) | IrView::IndirBranch(_) | IrView::Call(_) | IrView::Not => 2,
        IrView::Return => 1,
        IrView::Raw(words) => words.len(),
        IrView::Tag(_, _) => 0,
        _ => 3,
    }
}

/// The number of machine words that a list of instructions is emitted as.
pub open spec fn code_size(ir: Seq<IrView>) -> nat
    decreases ir.len(),
{
    if ir.len() == 0 {
        0
    } else {
        code_size(ir.drop_last()) + word_count(ir.last())
    }
}

/// The size of a list is at least the size of each of its beginnings.
pub proof fn lemma_code_size_grows(ir: Seq<IrView>, k: int)
    requires
        0 <= k <= ir.len(),
    ensures
        code_size(ir.take(k)) <= code_size(ir),
    decreases ir.len() - k,
{
    if k < ir.len() {
        assert(ir.take(k + 1).drop_last() =~= ir.take(k));
        lemma_code_size_grows(ir, k + 1);
    } else {
        assert(ir.take(k) =~= ir);
    }
}

/// The number of machine words that `ir` is emitted as.
pub fn get_code_size(ir: &[Ir]) -> (n: usize)
    requires
        code_size(ir_views(ir@)) <= usize::MAX,
    ensures
        n == code_size(ir_views(ir@)),
{
    let ghost views = ir_views(ir@);
    let mut n: usize = 0;
    let mut k: usize = 0;
    while k < ir.len()
        invariant
            k <= ir@.len(),
            views == ir_views(ir@),
            code_size(views) <= usize::MAX,
            n == code_size(views.take(k as int)),
        decreases ir@.len() - k,
    {
        proof {
            assert(views.take(k + 1).drop_last() =~= views.take(k as int));
            lemma_code_size_grows(views, k + 1);
        }
        let count: usize = match &ir[k] {
            Ir::Branch(_) | Ir::CondBranch(_) | Ir::IndirBranch(_) | Ir::Call(_) | Ir::Not => 2,
            Ir::Return => 1,
            Ir::Raw(words) => words.len(),
            Ir::Tag(_, _) => 0,
            _ => 3,
        };
        n = n + count;
        k += 1;
    }
    assert(views.take(ir@.len() as int) =~= views);
    n
}

} // verus!
