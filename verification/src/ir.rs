//! The third stage: the tree becomes a flat list of instructions.
//!
//! Nested expressions leave their values in temporaries, variables named
//! `__temp_N__`. The bodies of symbols are kept apart from the main list, each
//! under its name.

use vstd::prelude::*;
use crate::error::{BlocksError, ErrorKind, ErrorView};
use crate::text::{int_text, int_to_string};
use crate::token::{Token, TokenView};
use crate::tree::{
    copy_words, failure, has_subtree, lemma_block_view, node_views, uses_operand_registers,
    BinaryOp, NodeView,
    TokenWrapper, Tree, TreeView, UnaryOp,
};
use crate::utils::{
    get_temp_id, temp_address, temp_id_spec, temp_name, temp_text, Address, AddressView, Register,
};

verus! {

/// An instruction of the intermediate representation.
#[derive(Debug, PartialEq, Eq)]
pub enum Ir {
    Write(Address, Address),
    Copy(Address, Address),
    IndirWrite(Address, Address),
    IndirCopy(Address, Address),
    IndirCopy3(Address, Address),
    RegWrite(Register, Address),
    RegCopy(Register, Address),
    RegMem(Register, Address),
    Add,
    Sub,
    Mul,
    Div,
    Equals,
    Less,
    Greater,
    LessEqual,
    GreaterEqual,
    Or,
    And,
    Not,
    Xor,
    Branch(Address),
    CondBranch(Address),
    IndirBranch(Address),
    Call(Address),
    Tag(String, String),
    Return,
    Raw(Vec<i32>),
}

/// The mathematical value of an [`Ir`].
pub enum IrView {
    Write(AddressView, AddressView),
    Copy(AddressView, AddressView),
    IndirWrite(AddressView, AddressView),
    IndirCopy(AddressView, AddressView),
    IndirCopy3(AddressView, AddressView),
    RegWrite(Register, AddressView),
    RegCopy(Register, AddressView),
    RegMem(Register, AddressView),
    Add,
    Sub,
    Mul,
    Div,
    Equals,
    Less,
    Greater,
    LessEqual,
    GreaterEqual,
    Or,
    And,
    Not,
    Xor,
    Branch(AddressView),
    CondBranch(AddressView),
    IndirBranch(AddressView),
    Call(AddressView),
    Tag(Seq<char>, Seq<char>),
    Return,
    Raw(Seq<i32>),
}

impl View for Ir {
    type V = IrView;

    open spec fn view(&self) -> IrView {
        match self {
            Ir::Write(a, b) => IrView::Write(a@, b@),
            Ir::Copy(a, b) => IrView::Copy(a@, b@),
            Ir::IndirWrite(a, b) => IrView::IndirWrite(a@, b@),
            Ir::IndirCopy(a, b) => IrView::IndirCopy(a@, b@),
            Ir::IndirCopy3(a, b) => IrView::IndirCopy3(a@, b@),
            Ir::RegWrite(r, a) => IrView::RegWrite(*r, a@),
            Ir::RegCopy(r, a) => IrView::RegCopy(*r, a@),
            Ir::RegMem(r, a) => IrView::RegMem(*r, a@),
            Ir::Add => IrView::Add,
            Ir::Sub => IrView::Sub,
            Ir::Mul => IrView::Mul,
            Ir::Div => IrView::Div,
            Ir::Equals => IrView::Equals,
            Ir::Less => IrView::Less,
            Ir::Greater => IrView::Greater,
            Ir::LessEqual => IrView::LessEqual,
            Ir::GreaterEqual => IrView::GreaterEqual,
            Ir::Or => IrView::Or,
            Ir::And => IrView::And,
            Ir::Not => IrView::Not,
            Ir::Xor => IrView::Xor,
            Ir::Branch(a) => IrView::Branch(a@),
            Ir::CondBranch(a) => IrView::CondBranch(a@),
            Ir::IndirBranch(a) => IrView::IndirBranch(a@),
            Ir::Call(a) => IrView::Call(a@),
            Ir::Tag(k, v) => IrView::Tag(k@, v@),
            Ir::Return => IrView::Return,
            Ir::Raw(words) => IrView::Raw(words@),
        }
    }
}

impl Clone for Ir {
    fn clone(&self) -> (r: Self)
        ensures
            r@ == self@,
    {
        match self {
            Ir::Write(a, b) => Ir::Write(a.clone(), b.clone()),
            Ir::Copy(a, b) => Ir::Copy(a.clone(), b.clone()),
            Ir::IndirWrite(a, b) => Ir::IndirWrite(a.clone(), b.clone()),
            Ir::IndirCopy(a, b) => Ir::IndirCopy(a.clone(), b.clone()),
            Ir::IndirCopy3(a, b) => Ir::IndirCopy3(a.clone(), b.clone()),
            Ir::RegWrite(r, a) => Ir::RegWrite(*r, a.clone()),
            Ir::RegCopy(r, a) => Ir::RegCopy(*r, a.clone()),
            Ir::RegMem(r, a) => Ir::RegMem(*r, a.clone()),
            Ir::Add => Ir::Add,
            Ir::Sub => Ir::Sub,
            Ir::Mul => Ir::Mul,
            Ir::Div => Ir::Div,
            Ir::Equals => Ir::Equals,
            Ir::Less => Ir::Less,
            Ir::Greater => Ir::Greater,
            Ir::LessEqual => Ir::LessEqual,
            Ir::GreaterEqual => Ir::GreaterEqual,
            Ir::Or => Ir::Or,
            Ir::And => Ir::And,
            Ir::Not => Ir::Not,
            Ir::Xor => Ir::Xor,
            Ir::Branch(a) => Ir::Branch(a.clone()),
            Ir::CondBranch(a) => Ir::CondBranch(a.clone()),
            Ir::IndirBranch(a) => Ir::IndirBranch(a.clone()),
            Ir::Call(a) => Ir::Call(a.clone()),
            Ir::Tag(k, v) => Ir::Tag(k.clone(), v.clone()),
            Ir::Return => Ir::Return,
            Ir::Raw(words) => Ir::Raw(copy_words(words)),
        }
    }
}

/// The values of a list of instructions.
pub open spec fn ir_views(ir: Seq<Ir>) -> Seq<IrView> {
    ir.map_values(|i: Ir| i@)
}

/// A symbol: its name and the instructions of its body.
pub type Block = (String, Vec<Ir>);

/// The mathematical value of a [`Block`].
pub type BlockView = (Seq<char>, Seq<IrView>);

/// The values of a list of symbols.
pub open spec fn block_views(blocks: Seq<Block>) -> Seq<BlockView> {
    blocks.map_values(|b: Block| (b.0@, ir_views(b.1@)))
}

/// What lowering a node gives.
#[derive(Debug)]
pub struct IrResult {
    /// The instructions of the node.
    pub ir: Vec<Ir>,
    /// The symbols defined in the node, in the order in which their names
    /// first occur; no name occurs twice.
    pub blocks: Vec<Block>,
    /// Where the value of the node is.
    pub address: Address,
    /// Where the node is when it is assigned to.
    pub var_addr: Address,
    /// The register that the node names, if it is one.
    pub register: Option<Register>,
    /// Whether the node is an indirection.
    pub deref: bool,
    /// Whether the node is a computation, whose value comes from `Accum`.
    pub math: bool,
}

/// The mathematical value of an [`IrResult`].
pub struct IrResultView {
    pub ir: Seq<IrView>,
    pub blocks: Seq<BlockView>,
    pub address: AddressView,
    pub var_addr: AddressView,
    pub register: Option<Register>,
    pub deref: bool,
    pub math: bool,
}

impl View for IrResult {
    type V = IrResultView;

    open spec fn view(&self) -> IrResultView {
        IrResultView {
            ir: ir_views(self.ir@),
            blocks: block_views(self.blocks@),
            address: self.address@,
            var_addr: self.var_addr@,
            register: self.register,
            deref: self.deref,
            math: self.math,
        }
    }
}

/// Whether no two symbols of `blocks` have the same name.
pub open spec fn distinct_names(blocks: Seq<BlockView>) -> bool {
    forall|i: int, j: int|
        0 <= i < j < blocks.len() ==> (#[trigger] blocks[i]).0 != (#[trigger] blocks[j]).0
}

/// Whether `blocks` has a symbol called `name`.
pub open spec fn has_name(blocks: Seq<BlockView>, name: Seq<char>) -> bool {
    exists|i: int| 0 <= i < blocks.len() && (#[trigger] blocks[i]).0 == name
}

/// The symbols `blocks` with `name` bound to `ir`: a symbol of that name
/// keeps its place and gets the new body, a new name goes to the end.
pub open spec fn insert_block(blocks: Seq<BlockView>, name: Seq<char>, ir: Seq<IrView>) -> Seq<
    BlockView,
> {
    if has_name(blocks, name) {
        blocks.map_values(
            |b: BlockView|
                if b.0 == name {
                    (name, ir)
                } else {
                    b
                },
        )
    } else {
        blocks.push((name, ir))
    }
}

/// The symbols `blocks` with those of `more` bound one after the other.
pub open spec fn merge_blocks(blocks: Seq<BlockView>, more: Seq<BlockView>) -> Seq<BlockView>
    decreases more.len(),
{
    if more.len() == 0 {
        blocks
    } else {
        insert_block(merge_blocks(blocks, more.drop_last()), more.last().0, more.last().1)
    }
}

/// Binding a name keeps the names distinct.
pub proof fn lemma_insert_keeps_distinct(blocks: Seq<BlockView>, name: Seq<char>, ir: Seq<IrView>)
    requires
        distinct_names(blocks),
    ensures
        distinct_names(insert_block(blocks, name, ir)),
{
    let after = insert_block(blocks, name, ir);
    if has_name(blocks, name) {
        assert forall|i: int| 0 <= i < after.len() implies (#[trigger] after[i]).0 == blocks[i].0 by {}
        assert forall|i: int, j: int| 0 <= i < j < after.len() implies (#[trigger] after[i]).0 != (
        #[trigger] after[j]).0 by {
            assert(blocks[i].0 != blocks[j].0);
        }
    } else {
        assert forall|i: int, j: int| 0 <= i < j < after.len() implies (#[trigger] after[i]).0 != (
        #[trigger] after[j]).0 by {
            if j < blocks.len() {
                assert(blocks[i].0 != blocks[j].0);
            } else {
                assert(blocks[i].0 != name);
            }
        }
    }
}

/// Binding several names keeps the names distinct.
pub proof fn lemma_merge_keeps_distinct(blocks: Seq<BlockView>, more: Seq<BlockView>)
    requires
        distinct_names(blocks),
    ensures
        distinct_names(merge_blocks(blocks, more)),
    decreases more.len(),
{
    if more.len() > 0 {
        lemma_merge_keeps_distinct(blocks, more.drop_last());
        lemma_insert_keeps_distinct(
            merge_blocks(blocks, more.drop_last()),
            more.last().0,
            more.last().1,
        );
    }
}

/// Whether the instruction `i` stores to `addr`: it writes or copies
/// something else there, or saves a register there.
pub open spec fn stores_to(i: IrView, addr: AddressView) -> bool {
    match i {
        IrView::Write(a, b) => b != addr && a == addr,
        IrView::Copy(a, b) => b != addr && a == addr,
        IrView::IndirCopy3(a, b) => b != addr && a == addr,
        IrView::RegMem(_, a) => a == addr,
        _ => false,
    }
}

/// Whether some instruction of `ir` stores to the variable `name`.
pub open spec fn assigned(name: Seq<char>, ir: Seq<IrView>) -> bool {
    exists|k: int| 0 <= k < ir.len() && stores_to(#[trigger] ir[k], AddressView::Variable(name))
}

/// Whether some instruction of `ir` stores to the variable `var`.
pub fn is_assigned_to(var: &str, ir: &[Ir]) -> (r: bool)
    ensures
        r == assigned(var@, ir_views(ir@)),
{
    let addr = Address::new_var(var);
    let mut found = false;
    let mut k: usize = 0;
    while k < ir.len()
        invariant
            k <= ir@.len(),
            addr@ == AddressView::Variable(var@),
            found == exists|j: int| 0 <= j < k && stores_to(#[trigger] ir_views(ir@)[j], addr@),
        decreases ir@.len() - k,
    {
        let hit = match &ir[k] {
            Ir::Write(a, b) => !b.same(&addr) && a.same(&addr),
            Ir::Copy(a, b) => !b.same(&addr) && a.same(&addr),
            Ir::IndirCopy3(a, b) => !b.same(&addr) && a.same(&addr),
            Ir::RegMem(_, a) => a.same(&addr),
            _ => false,
        };
        assert(hit == stores_to(ir_views(ir@)[k as int], addr@));
        if hit {
            found = true;
        }
        k += 1;
    }
    found
}

/// The address that stands for "no address yet".
pub open spec fn no_address() -> AddressView {
    AddressView::Static(-1i32)
}

/// The result of a node that is a statement: instructions and nothing else.
pub open spec fn statement(ir: Seq<IrView>) -> IrResultView {
    IrResultView {
        ir,
        blocks: Seq::empty(),
        address: no_address(),
        var_addr: no_address(),
        register: None,
        deref: false,
        math: false,
    }
}

/// The result of a computation whose value has been saved in the temporary
/// numbered `t`.
pub open spec fn computed(ir: Seq<IrView>, t: int) -> IrResultView {
    IrResultView { address: temp_address(t), math: true, ..statement(ir) }
}

/// The instructions that bring the value of a lowered operand into the
/// register `reg`. A register operand is first saved to the temporary
/// numbered `temp_id`.
pub open spec fn stored(operand: IrResultView, reg: Register, temp_id: int) -> Seq<IrView> {
    match operand.register {
        Some(from) => seq![IrView::RegMem(from, temp_address(temp_id))] + operand.ir + seq![
            IrView::RegCopy(reg, temp_address(temp_id)),
        ],
        None => operand.ir + seq![
            IrView::RegCopy(
                reg,
                if assigned(temp_name(1), operand.ir) {
                    temp_address(temp_id)
                } else {
                    operand.address
                },
            ),
        ],
    }
}

/// The temporaries in which the two operands of an operator are lowered:
/// both in the first one, unless both compute with the operand registers.
pub open spec fn operand_ids(lhs_computes: bool, rhs_computes: bool, temp_id: int) -> (int, int) {
    if lhs_computes && rhs_computes {
        (temp_id + 1, temp_id + 2)
    } else {
        (1, 1)
    }
}

/// The error for a temporary whose number does not fit in 32 bits.
pub open spec fn temp_out_of_range<T>() -> Result<T, ErrorView> {
    failure(ErrorKind::Other, TokenView::Other("temporary number out of range"@))
}

/// The instructions of an operator, given its lowered operands. Where
/// neither operand computes with the operand registers, the left one is
/// loaded into `Int1` and then the right one into `Int2`. Where exactly one
/// of them computes, the right one is loaded into `Int2` first and then the
/// left one into `Int1`. Where both compute, the left one is lowered for
/// `Int2` and the right one for `Int1`, and the load of the left one is put
/// off until the right one has been loaded.
pub open spec fn operated(
    lhs_computes: bool,
    rhs_computes: bool,
    lhs: Result<IrResultView, ErrorView>,
    rhs: Result<IrResultView, ErrorView>,
    operator: IrView,
    temp_id: int,
) -> Result<Seq<IrView>, ErrorView> {
    if lhs_computes && rhs_computes && temp_id + 2 > i32::MAX {
        temp_out_of_range()
    } else if lhs_computes != rhs_computes {
        match rhs {
            Err(e) => Err(e),
            Ok(r) => match lhs {
                Err(e) => Err(e),
                Ok(l) => Ok(
                    stored(r, Register::Int2, 1) + stored(l, Register::Int1, 1) + seq![operator],
                ),
            },
        }
    } else {
        match lhs {
            Err(e) => Err(e),
            Ok(l) => match rhs {
                Err(e) => Err(e),
                Ok(r) => if rhs_computes {
                    let first = stored(l, Register::Int2, temp_id + 1);
                    Ok(
                        first.drop_last() + stored(r, Register::Int1, temp_id + 2) + seq![
                            first.last(),
                            operator,
                        ],
                    )
                } else {
                    Ok(
                        stored(l, Register::Int1, 1) + stored(r, Register::Int2, 1)
                            + seq![operator],
                    )
                },
            },
        }
    }
}

/// The error for an assignment to or from the negative address `i`.
pub open spec fn invalid_address<T>(i: i32) -> Result<T, ErrorView> {
    failure(ErrorKind::InvalidAddress, TokenView::Other(int_text(i as int)))
}

/// The result of an assignment, given its lowered sides.
pub open spec fn assigned_result(
    lhs: Result<IrResultView, ErrorView>,
    rhs: Result<IrResultView, ErrorView>,
) -> Result<IrResultView, ErrorView> {
    match lhs {
        Err(e) => Err(e),
        Ok(l) => match rhs {
            Err(e) => Err(e),
            Ok(r) => {
                let head = l.ir + r.ir + (match r.register {
                    Some(from) => seq![IrView::RegMem(from, temp_address(1))],
                    None => Seq::empty(),
                });
                let target = if l.address == temp_address(0) {
                    l.address
                } else {
                    l.var_addr
                };
                let source = if assigned(temp_name(1), r.ir) {
                    temp_address(1)
                } else {
                    r.address
                };
                match l.register {
                    Some(to) => Ok(statement(head + seq![IrView::RegCopy(to, temp_address(1))])),
                    None => match (target, source) {
                        (_, AddressView::Static(i)) if i < 0 => invalid_address(i),
                        (AddressView::Static(i), _) if i < 0 => invalid_address(i),
                        _ => Ok(
                            statement(
                                head + seq![
                                    if l.deref || l.math {
                                        IrView::IndirCopy(target, source)
                                    } else {
                                        IrView::Copy(target, source)
                                    },
                                ],
                            ),
                        ),
                    },
                }
            },
        }
    }
}

/// The instruction of an operator of arithmetic, logic or comparison.
pub open spec fn binary_ir(op: BinaryOp) -> IrView {
    match op {
        BinaryOp::Assign => IrView::Return,
        BinaryOp::Multiply => IrView::Mul,
        BinaryOp::Divide => IrView::Div,
        BinaryOp::Add => IrView::Add,
        BinaryOp::Subtract => IrView::Sub,
        BinaryOp::Greater => IrView::Greater,
        BinaryOp::Less => IrView::Less,
        BinaryOp::GreaterEqual => IrView::GreaterEqual,
        BinaryOp::LessEqual => IrView::LessEqual,
        BinaryOp::Equals => IrView::Equals,
        BinaryOp::And => IrView::And,
        BinaryOp::Or => IrView::Or,
        BinaryOp::Xor => IrView::Xor,
    }
}

/// Whether an operator compares: its result is the flag, not a value.
pub open spec fn is_comparison(op: BinaryOp) -> bool {
    op == BinaryOp::Greater || op == BinaryOp::Less || op == BinaryOp::GreaterEqual || op
        == BinaryOp::LessEqual || op == BinaryOp::Equals
}

/// The result of an operator of arithmetic, logic or comparison, given its
/// lowered operands. A comparison leaves its result in the flag; the others
/// save theirs from `Accum` to the temporary numbered `t`.
pub open spec fn operator_result(
    op: BinaryOp,
    lhs_computes: bool,
    rhs_computes: bool,
    lhs: Result<IrResultView, ErrorView>,
    rhs: Result<IrResultView, ErrorView>,
    t: int,
) -> Result<IrResultView, ErrorView> {
    match operated(lhs_computes, rhs_computes, lhs, rhs, binary_ir(op), t) {
        Err(e) => Err(e),
        Ok(ir) => if is_comparison(op) {
            Ok(statement(ir))
        } else {
            Ok(computed(ir + seq![IrView::RegMem(Register::Accum, temp_address(t))], t))
        },
    }
}

/// The address that a conditional jump or a call goes to: the operand must
/// be an identifier or a number.
pub open spec fn jump_target(n: NodeView) -> Option<AddressView> {
    match n {
        NodeView::Token(TokenView::Identifier(name)) => Some(AddressView::Variable(name)),
        NodeView::Token(TokenView::Number(v)) => Some(AddressView::Static(v)),
        _ => None,
    }
}

/// The result of an indirection through a lowered operand, into the
/// temporary numbered `t`.
pub open spec fn dereferenced(operand: IrResultView, t: int) -> IrResultView {
    IrResultView {
        ir: operand.ir + (match operand.register {
            Some(from) => seq![
                IrView::RegMem(from, temp_address(t)),
                IrView::IndirCopy3(temp_address(t), temp_address(t)),
            ],
            None => if operand.deref {
                seq![IrView::IndirCopy(temp_address(t), temp_address(t))]
            } else {
                seq![IrView::IndirCopy3(temp_address(t), operand.address)]
            },
        }),
        blocks: Seq::empty(),
        address: temp_address(t),
        var_addr: operand.var_addr,
        register: None,
        deref: true,
        math: false,
    }
}

/// The result of a jump to a lowered operand; `name` is the operand's name
/// where it is an identifier.
pub open spec fn jumped(operand: IrResultView, n: NodeView) -> IrResultView {
    let addr = match n {
        NodeView::Token(TokenView::Identifier(name)) => AddressView::Variable(name),
        _ => operand.address,
    };
    statement(
        operand.ir + seq![
            if operand.deref || operand.math {
                IrView::IndirBranch(addr)
            } else {
                IrView::Branch(addr)
            },
        ],
    )
}

/// The error for a node that has no lowering.
pub open spec fn not_lowered<T>() -> Result<T, ErrorView> {
    failure(ErrorKind::Other, TokenView::Other("this shouldn't happen"@))
}

/// The instructions and symbols of the items of a block, lowered one after
/// the other.
pub open spec fn lower_block(items: Seq<NodeView>) -> Result<
    (Seq<IrView>, Seq<BlockView>),
    ErrorView,
>
    decreases items,
{
    if items.len() == 0 {
        Ok((Seq::empty(), Seq::empty()))
    } else {
        match lower_block(items.drop_last()) {
            Err(e) => Err(e),
            Ok((ir, blocks)) => match lower(items.last(), 0) {
                Err(e) => Err(e),
                Ok(r) => Ok((ir + r.ir, merge_blocks(blocks, r.blocks))),
            },
        }
    }
}

/// The result of lowering the node `n`, or the error that it causes. The
/// request `temp_id` says which temporary the node's value goes to.
pub open spec fn lower(n: NodeView, temp_id: int) -> Result<IrResultView, ErrorView>
    decreases n,
{
    let t = temp_id_spec(temp_id);
    match n {
        NodeView::Token(TokenView::Identifier(name)) => Ok(
            IrResultView {
                address: AddressView::Variable(name),
                var_addr: AddressView::Variable(name),
                ..statement(Seq::empty())
            },
        ),
        NodeView::Token(TokenView::Number(v)) => Ok(
            IrResultView {
                address: AddressView::Static(v),
                var_addr: AddressView::Static(v),
                ..statement(seq![IrView::Write(temp_address(t), AddressView::Static(v))])
            },
        ),
        NodeView::Token(TokenView::Register(r)) => Ok(
            IrResultView {
                address: temp_address(t),
                var_addr: temp_address(t),
                register: Some(r),
                ..statement(Seq::empty())
            },
        ),
        NodeView::Token(_) => not_lowered(),
        NodeView::Tree(TreeView::Block(items)) => match lower_block(items) {
            Err(e) => Err(e),
            Ok((ir, blocks)) => Ok(IrResultView { blocks, ..statement(ir) }),
        },
        NodeView::Tree(TreeView::Binary(op, a, b)) => if op == BinaryOp::Assign {
            assigned_result(lower(*a, -1), lower(*b, -2))
        } else {
            let ids = operand_ids(uses_operand_registers(*a), uses_operand_registers(*b), t);
            operator_result(
                op,
                uses_operand_registers(*a),
                uses_operand_registers(*b),
                lower(*a, ids.0),
                lower(*b, ids.1),
                t,
            )
        },
        NodeView::Tree(TreeView::Unary(op, a)) => match op {
            UnaryOp::Dereference => match lower(*a, temp_id) {
                Err(e) => Err(e),
                Ok(r) => Ok(dereferenced(r, t)),
            },
            UnaryOp::Address => match *a {
                NodeView::Token(TokenView::Identifier(name)) => Ok(
                    IrResultView {
                        address: temp_address(t),
                        ..statement(
                            seq![IrView::Write(temp_address(t), AddressView::Variable(name))],
                        )
                    },
                ),
                _ => failure(ErrorKind::AddressNameType, TokenView::Null),
            },
            UnaryOp::Not => match lower(*a, t) {
                Err(e) => Err(e),
                Ok(r) => Ok(
                    computed(
                        stored(r, Register::Int1, t) + seq![
                            IrView::Not,
                            IrView::RegMem(Register::Accum, temp_address(t)),
                        ],
                        t,
                    ),
                ),
            },
            UnaryOp::Compare => match lower(*a, 0) {
                Err(e) => Err(e),
                Ok(r) => Ok(statement(r.ir)),
            },
            UnaryOp::Goto => match lower(*a, 0) {
                Err(e) => Err(e),
                Ok(r) => Ok(jumped(r, *a)),
            },
            UnaryOp::IfGoto => match jump_target(*a) {
                Some(addr) => Ok(statement(seq![IrView::CondBranch(addr)])),
                None => failure(ErrorKind::IfGotoAddressType, TokenView::Null),
            },
            UnaryOp::Call => match jump_target(*a) {
                Some(addr) => Ok(statement(seq![IrView::Call(addr)])),
                None => failure(ErrorKind::CallAddressType, TokenView::Null),
            },
        },
        NodeView::Tree(TreeView::Return) => Ok(statement(seq![IrView::Return])),
        NodeView::Tree(TreeView::Raw(words)) => Ok(statement(seq![IrView::Raw(words)])),
        NodeView::Tree(TreeView::Tag(name, value)) => Ok(
            statement(seq![IrView::Tag(name, value)]),
        ),
        NodeView::Tree(TreeView::Symbol(name, body)) => match lower(*body, 0) {
            Err(e) => Err(e),
            Ok(r) => Ok(IrResultView { blocks: seq![(name, r.ir)], ..statement(Seq::empty()) }),
        },
    }
}

/// The instructions that lower `n` and bring its value into the register
/// `reg`.
pub open spec fn store_ir(n: NodeView, reg: Register, temp_id: int) -> Result<
    Seq<IrView>,
    ErrorView,
> {
    match lower(n, temp_id) {
        Err(e) => Err(e),
        Ok(r) => Ok(stored(r, reg, temp_id)),
    }
}

/// The instructions of the operator `operator` applied to `lhs` and `rhs`.
pub open spec fn operator_ir(lhs: NodeView, rhs: NodeView, operator: IrView, temp_id: int) -> Result<
    Seq<IrView>,
    ErrorView,
> {
    let ids = operand_ids(uses_operand_registers(lhs), uses_operand_registers(rhs), temp_id);
    operated(
        uses_operand_registers(lhs),
        uses_operand_registers(rhs),
        lower(lhs, ids.0),
        lower(rhs, ids.1),
        operator,
        temp_id,
    )
}

/// The value of a lowering that may have failed.
pub open spec fn result_view(r: Result<IrResult, BlocksError>) -> Result<IrResultView, ErrorView> {
    match r {
        Ok(x) => Ok(x@),
        Err(e) => Err(e@),
    }
}

fn push_ir(out: &mut Vec<Ir>, i: Ir)
    ensures
        ir_views(final(out)@) == ir_views(old(out)@).push(i@),
{
    out.push(i);
    assert(ir_views(out@) =~= ir_views(old(out)@).push(i@));
}

fn append_ir(out: &mut Vec<Ir>, more: Vec<Ir>)
    ensures
        ir_views(final(out)@) == ir_views(old(out)@) + ir_views(more@),
{
    let ghost added = ir_views(more@);
    let mut more = more;
    out.append(&mut more);
    assert(ir_views(out@) =~= ir_views(old(out)@) + added);
}

fn insert_into(blocks: &mut Vec<Block>, name: String, ir: Vec<Ir>)
    requires
        distinct_names(block_views(old(blocks)@)),
    ensures
        block_views(final(blocks)@) == insert_block(
            block_views(old(blocks)@),
            name@,
            ir_views(ir@),
        ),
        distinct_names(block_views(final(blocks)@)),
{
    let ghost before = block_views(blocks@);
    let mut k: usize = 0;
    while k < blocks.len()
        invariant
            k <= blocks.len(),
            before == block_views(blocks@),
            before == block_views(old(blocks)@),
            distinct_names(before),
            forall|j: int| 0 <= j < k ==> (#[trigger] before[j]).0 != name@,
        decreases blocks.len() - k,
    {
        if blocks[k].0 == name {
            assert(before[k as int].0 == name@);
            blocks.set(k, (name, ir));
            proof {
                let after = insert_block(before, name@, ir_views(ir@));
                assert forall|j: int| 0 <= j < before.len() implies #[trigger] block_views(
                    blocks@,
                )[j] == after[j] by {
                    if j != k {
                        assert(before[j].0 != before[k as int].0);
                    }
                }
                assert(block_views(blocks@) =~= after);
                lemma_insert_keeps_distinct(before, name@, ir_views(ir@));
            }
            return ;
        }
        k += 1;
    }
    blocks.push((name, ir));
    proof {
        assert(!has_name(before, name@));
        assert(block_views(blocks@) =~= before.push((name@, ir_views(ir@))));
        lemma_insert_keeps_distinct(before, name@, ir_views(ir@));
    }
}

fn turned(blocks: Vec<Block>) -> (r: Vec<Block>)
    ensures
        r@.len() == blocks@.len(),
        forall|k: int|
            0 <= k < r@.len() ==> #[trigger] block_views(r@)[k] == block_views(blocks@)[blocks@.len()
                - 1 - k],
{
    let ghost all = block_views(blocks@);
    let ghost n = blocks@.len();
    let mut blocks = blocks;
    let mut r: Vec<Block> = Vec::new();
    while blocks.len() > 0
        invariant
            n == all.len(),
            r@.len() + blocks@.len() == n,
            block_views(blocks@) == all.take(blocks@.len() as int),
            forall|k: int| 0 <= k < r@.len() ==> #[trigger] block_views(r@)[k] == all[n - 1 - k],
        decreases blocks.len(),
    {
        let ghost held = block_views(blocks@);
        let ghost turned = block_views(r@);
        match blocks.pop() {
            Some(b) => {
                r.push(b);
                proof {
                    assert(block_views(blocks@) =~= all.take(blocks@.len() as int));
                    assert forall|k: int| 0 <= k < r@.len() implies #[trigger] block_views(r@)[k]
                        == all[n - 1 - k] by {
                        if k < r@.len() - 1 {
                            assert(block_views(r@)[k] == turned[k]);
                        } else {
                            assert(block_views(r@)[k] == held[held.len() - 1]);
                        }
                    }
                }
            },
            None => {},
        }
    }
    r
}

fn merge_into(blocks: &mut Vec<Block>, more: Vec<Block>)
    requires
        distinct_names(block_views(old(blocks)@)),
    ensures
        block_views(final(blocks)@) == merge_blocks(
            block_views(old(blocks)@),
            block_views(more@),
        ),
        distinct_names(block_views(final(blocks)@)),
{
    let ghost start = block_views(blocks@);
    let ghost all = block_views(more@);
    let ghost n = more@.len();
    let mut more = turned(more);
    while more.len() > 0
        invariant
            more@.len() <= n,
            n == all.len(),
            forall|k: int|
                0 <= k < more@.len() ==> #[trigger] block_views(more@)[k] == all[n - 1 - k],
            block_views(blocks@) == merge_blocks(start, all.take(n - more@.len())),
            distinct_names(block_views(blocks@)),
        decreases more.len(),
    {
        let ghost done = n - more@.len();
        let ghost held = block_views(more@);
        match more.pop() {
            Some(b) => {
                proof {
                    assert(held[held.len() - 1] == all[done]);
                    assert((b.0@, ir_views(b.1@)) == all[done]);
                    assert(all.take(done + 1).drop_last() =~= all.take(done));
                    assert forall|k: int| 0 <= k < more@.len() implies #[trigger] block_views(
                        more@,
                    )[k] == all[n - 1 - k] by {
                        assert(block_views(more@)[k] == held[k]);
                    }
                }
                let (name, ir) = b;
                insert_into(blocks, name, ir);
            },
            None => {},
        }
    }
    assert(all.take(n as int) =~= all);
}

fn result_of(ir: Vec<Ir>) -> (r: IrResult)
    ensures
        r@ == statement(ir_views(ir@)),
{
    let r = IrResult {
        ir,
        blocks: Vec::new(),
        address: Address::Static(-1),
        var_addr: Address::Static(-1),
        register: None,
        deref: false,
        math: false,
    };
    assert(block_views(r.blocks@) =~= Seq::<BlockView>::empty());
    r
}

fn computed_result(ir: Vec<Ir>, t: i32) -> (r: IrResult)
    ensures
        r@ == computed(ir_views(ir@), t as int),
{
    let mut r = result_of(ir);
    r.address = Address::new_temp(t);
    r.math = true;
    r
}

fn one(i: Ir) -> (v: Vec<Ir>)
    ensures
        ir_views(v@) == seq![i@],
{
    let mut v: Vec<Ir> = Vec::new();
    v.push(i);
    assert(ir_views(v@) =~= seq![i@]);
    v
}

fn append_stored(operand: IrResult, reg: Register, temp_id: i32, out: &mut Vec<Ir>)
    ensures
        ir_views(final(out)@) == ir_views(old(out)@) + stored(operand@, reg, temp_id as int),
{
    let ghost before = ir_views(out@);
    let ghost value = operand@;
    let IrResult { ir, blocks: _, address, var_addr: _, register, deref: _, math: _ } = operand;
    match register {
        Some(from) => {
            push_ir(out, Ir::RegMem(from, Address::new_temp(temp_id)));
            append_ir(out, ir);
            push_ir(out, Ir::RegCopy(reg, Address::new_temp(temp_id)));
        },
        None => {
            let name = temp_text(1);
            let addr = if is_assigned_to(name.as_str(), ir.as_slice()) {
                Address::new_temp(temp_id)
            } else {
                address
            };
            append_ir(out, ir);
            push_ir(out, Ir::RegCopy(reg, addr));
        },
    }
    assert(ir_views(out@) =~= before + stored(value, reg, temp_id as int));
}

fn operand_temp_ids(lhs_computes: bool, rhs_computes: bool, temp_id: i32) -> (r: Option<
    (i32, i32),
>)
    ensures
        r is None <==> lhs_computes && rhs_computes && temp_id + 2 > i32::MAX,
        r matches Some(ids) ==> (ids.0 as int, ids.1 as int) == operand_ids(
            lhs_computes,
            rhs_computes,
            temp_id as int,
        ),
{
    if lhs_computes && rhs_computes {
        if temp_id > i32::MAX - 2 {
            None
        } else {
            Some((temp_id + 1, temp_id + 2))
        }
    } else {
        Some((1, 1))
    }
}

fn temp_error() -> (e: BlocksError)
    ensures
        Err::<IrResultView, ErrorView>(e@) == temp_out_of_range::<IrResultView>(),
        Err::<Seq<IrView>, ErrorView>(e@) == temp_out_of_range::<Seq<IrView>>(),
{
    BlocksError::with_text(ErrorKind::Other, "temporary number out of range")
}

fn operate(
    lhs_computes: bool,
    rhs_computes: bool,
    lhs: Result<IrResult, BlocksError>,
    rhs: Result<IrResult, BlocksError>,
    operator: Ir,
    temp_id: i32,
) -> (r: Result<Vec<Ir>, BlocksError>)
    requires
        !(lhs_computes && rhs_computes && temp_id + 2 > i32::MAX),
    ensures
        match r {
            Ok(ir) => operated(
                lhs_computes,
                rhs_computes,
                result_view(lhs),
                result_view(rhs),
                operator@,
                temp_id as int,
            ) == Ok::<Seq<IrView>, ErrorView>(ir_views(ir@)),
            Err(e) => operated(
                lhs_computes,
                rhs_computes,
                result_view(lhs),
                result_view(rhs),
                operator@,
                temp_id as int,
            ) == Err::<Seq<IrView>, ErrorView>(e@),
        },
{
    let mut out: Vec<Ir> = Vec::new();
    assert(ir_views(out@) =~= Seq::<IrView>::empty());
    if lhs_computes != rhs_computes {
        match rhs {
            Err(e) => Err(e),
            Ok(r) => match lhs {
                Err(e) => Err(e),
                Ok(l) => {
                    append_stored(r, Register::Int2, 1, &mut out);
                    append_stored(l, Register::Int1, 1, &mut out);
                    push_ir(&mut out, operator);
                    assert(ir_views(out@) =~= stored(r@, Register::Int2, 1) + stored(
                        l@,
                        Register::Int1,
                        1,
                    ) + seq![operator@]);
                    Ok(out)
                },
            },
        }
    } else {
        match lhs {
            Err(e) => Err(e),
            Ok(l) => match rhs {
                Err(e) => Err(e),
                Ok(r) => {
                    if rhs_computes {
                        let ghost first = stored(l@, Register::Int2, temp_id + 1);
                        append_stored(l, Register::Int2, temp_id + 1, &mut out);
                        assert(ir_views(out@) =~= first);
                        let ghost held = out@;
                        match out.pop() {
                            Some(last) => {
                                assert(ir_views(out@) =~= first.drop_last());
                                assert(last@ == first.last()) by {
                                    assert(ir_views(held)[held.len() - 1] == held[held.len()
                                        - 1]@);
                                }
                                append_stored(r, Register::Int1, temp_id + 2, &mut out);
                                push_ir(&mut out, last);
                                push_ir(&mut out, operator);
                                assert(ir_views(out@) =~= first.drop_last() + stored(
                                    r@,
                                    Register::Int1,
                                    temp_id + 2,
                                ) + seq![first.last(), operator@]);
                                Ok(out)
                            },
                            None => Err(temp_error()),
                        }
                    } else {
                        append_stored(l, Register::Int1, 1, &mut out);
                        append_stored(r, Register::Int2, 1, &mut out);
                        push_ir(&mut out, operator);
                        assert(ir_views(out@) =~= stored(l@, Register::Int1, 1) + stored(
                            r@,
                            Register::Int2,
                            1,
                        ) + seq![operator@]);
                        Ok(out)
                    }
                },
            },
        }
    }
}

fn finish_operator(
    op: BinaryOp,
    lhs_computes: bool,
    rhs_computes: bool,
    lhs: Result<IrResult, BlocksError>,
    rhs: Result<IrResult, BlocksError>,
    t: i32,
) -> (r: Result<IrResult, BlocksError>)
    requires
        !(lhs_computes && rhs_computes && t + 2 > i32::MAX),
    ensures
        result_view(r) == operator_result(
            op,
            lhs_computes,
            rhs_computes,
            result_view(lhs),
            result_view(rhs),
            t as int,
        ),
        r matches Ok(res) ==> distinct_names(res@.blocks),
{
    match operate(lhs_computes, rhs_computes, lhs, rhs, binary_instruction(op), t) {
        Err(e) => Err(e),
        Ok(ir) => {
            if comparison(op) {
                Ok(result_of(ir))
            } else {
                let ghost head = ir_views(ir@);
                let mut ir = ir;
                push_ir(&mut ir, Ir::RegMem(Register::Accum, Address::new_temp(t)));
                assert(ir_views(ir@) =~= head + seq![
                    IrView::RegMem(Register::Accum, temp_address(t as int)),
                ]);
                Ok(computed_result(ir, t))
            }
        },
    }
}

fn negative(addr: &Address) -> (r: Option<i32>)
    ensures
        match r {
            Some(i) => addr@ == AddressView::Static(i) && i < 0,
            None => !(addr@ matches AddressView::Static(i) && i < 0),
        },
{
    match addr {
        Address::Static(i) => if *i < 0 {
            Some(*i)
        } else {
            None
        },
        _ => None,
    }
}

fn address_error(i: i32) -> (e: BlocksError)
    ensures
        Err::<IrResultView, ErrorView>(e@) == invalid_address::<IrResultView>(i),
{
    BlocksError::new(ErrorKind::InvalidAddress, Token::Other(int_to_string(i)))
}

fn assign(lhs: Result<IrResult, BlocksError>, rhs: Result<IrResult, BlocksError>) -> (r: Result<
    IrResult,
    BlocksError,
>)
    ensures
        result_view(r) == assigned_result(result_view(lhs), result_view(rhs)),
        r matches Ok(res) ==> distinct_names(res@.blocks),
{
    match lhs {
        Err(e) => Err(e),
        Ok(l) => match rhs {
            Err(e) => Err(e),
            Ok(r) => {
                let ghost lv = l@;
                let ghost rv = r@;
                let name = temp_text(1);
                let rhs_stored = is_assigned_to(name.as_str(), r.ir.as_slice());
                let mut out: Vec<Ir> = Vec::new();
                assert(ir_views(out@) =~= Seq::<IrView>::empty());
                append_ir(&mut out, l.ir);
                append_ir(&mut out, r.ir);
                match r.register {
                    Some(from) => {
                        push_ir(&mut out, Ir::RegMem(from, Address::new_temp(1)));
                    },
                    None => {},
                }
                let ghost head = ir_views(out@);
                assert(head =~= lv.ir + rv.ir + (match rv.register {
                    Some(from) => seq![IrView::RegMem(from, temp_address(1))],
                    None => Seq::empty(),
                }));
                match l.register {
                    Some(to) => {
                        push_ir(&mut out, Ir::RegCopy(to, Address::new_temp(1)));
                        assert(ir_views(out@) =~= head + seq![
                            IrView::RegCopy(to, temp_address(1)),
                        ]);
                        Ok(result_of(out))
                    },
                    None => {
                        let target = if l.address.same(&Address::new_temp(0)) {
                            l.address
                        } else {
                            l.var_addr
                        };
                        let source = if rhs_stored {
                            Address::new_temp(1)
                        } else {
                            r.address
                        };
                        if let Some(i) = negative(&source) {
                            return Err(address_error(i));
                        }
                        if let Some(i) = negative(&target) {
                            return Err(address_error(i));
                        }
                        let ghost tv = target@;
                        let ghost sv = source@;
                        if l.deref || l.math {
                            push_ir(&mut out, Ir::IndirCopy(target, source));
                            assert(ir_views(out@) =~= head + seq![IrView::IndirCopy(tv, sv)]);
                        } else {
                            push_ir(&mut out, Ir::Copy(target, source));
                            assert(ir_views(out@) =~= head + seq![IrView::Copy(tv, sv)]);
                        }
                        Ok(result_of(out))
                    },
                }
            },
        },
    }
}

fn binary_parts(t: &Tree) -> (r: Option<(BinaryOp, &TokenWrapper, &TokenWrapper)>)
    ensures
        match r {
            Some((op, a, b)) => t@ == TreeView::Binary(op, Box::new(a@), Box::new(b@))
                && decreases_to!(*t => *a) && decreases_to!(*t => *b),
            None => !(t@ is Binary),
        },
{
    match t {
        Tree::Assign(a, b) => Some((BinaryOp::Assign, &**a, &**b)),
        Tree::Multiply(a, b) => Some((BinaryOp::Multiply, &**a, &**b)),
        Tree::Divide(a, b) => Some((BinaryOp::Divide, &**a, &**b)),
        Tree::Add(a, b) => Some((BinaryOp::Add, &**a, &**b)),
        Tree::Subtract(a, b) => Some((BinaryOp::Subtract, &**a, &**b)),
        Tree::Greater(a, b) => Some((BinaryOp::Greater, &**a, &**b)),
        Tree::Less(a, b) => Some((BinaryOp::Less, &**a, &**b)),
        Tree::GreaterEqual(a, b) => Some((BinaryOp::GreaterEqual, &**a, &**b)),
        Tree::LessEqual(a, b) => Some((BinaryOp::LessEqual, &**a, &**b)),
        Tree::Equals(a, b) => Some((BinaryOp::Equals, &**a, &**b)),
        Tree::And(a, b) => Some((BinaryOp::And, &**a, &**b)),
        Tree::Or(a, b) => Some((BinaryOp::Or, &**a, &**b)),
        Tree::Xor(a, b) => Some((BinaryOp::Xor, &**a, &**b)),
        _ => None,
    }
}

fn unary_parts(t: &Tree) -> (r: Option<(UnaryOp, &TokenWrapper)>)
    ensures
        match r {
            Some((op, a)) => t@ == TreeView::Unary(op, Box::new(a@)) && decreases_to!(*t => *a),
            None => !(t@ is Unary),
        },
{
    match t {
        Tree::Dereference(a) => Some((UnaryOp::Dereference, &**a)),
        Tree::Goto(a) => Some((UnaryOp::Goto, &**a)),
        Tree::IfGoto(a) => Some((UnaryOp::IfGoto, &**a)),
        Tree::Call(a) => Some((UnaryOp::Call, &**a)),
        Tree::Address(a) => Some((UnaryOp::Address, &**a)),
        Tree::Compare(a) => Some((UnaryOp::Compare, &**a)),
        Tree::Not(a) => Some((UnaryOp::Not, &**a)),
        _ => None,
    }
}

fn binary_instruction(op: BinaryOp) -> (i: Ir)
    ensures
        i@ == binary_ir(op),
{
    match op {
        BinaryOp::Assign => Ir::Return,
        BinaryOp::Multiply => Ir::Mul,
        BinaryOp::Divide => Ir::Div,
        BinaryOp::Add => Ir::Add,
        BinaryOp::Subtract => Ir::Sub,
        BinaryOp::Greater => Ir::Greater,
        BinaryOp::Less => Ir::Less,
        BinaryOp::GreaterEqual => Ir::GreaterEqual,
        BinaryOp::LessEqual => Ir::LessEqual,
        BinaryOp::Equals => Ir::Equals,
        BinaryOp::And => Ir::And,
        BinaryOp::Or => Ir::Or,
        BinaryOp::Xor => Ir::Xor,
    }
}

fn comparison(op: BinaryOp) -> (r: bool)
    ensures
        r == is_comparison(op),
{
    match op {
        BinaryOp::Greater
        | BinaryOp::Less
        | BinaryOp::GreaterEqual
        | BinaryOp::LessEqual
        | BinaryOp::Equals => true,
        _ => false,
    }
}

fn target_of(n: &TokenWrapper) -> (r: Option<Address>)
    ensures
        match r {
            Some(a) => jump_target(n@) == Some(a@),
            None => jump_target(n@) is None,
        },
{
    match n {
        TokenWrapper::Token(Token::Identifier(name)) => Some(Address::Variable(name.clone())),
        TokenWrapper::Token(Token::Number(v)) => Some(Address::Static(*v)),
        _ => None,
    }
}

fn dereference(operand: IrResult, t: i32) -> (r: IrResult)
    ensures
        r@ == dereferenced(operand@, t as int),
{
    let ghost value = operand@;
    let IrResult { ir, blocks: _, address, var_addr, register, deref, math: _ } = operand;
    let mut out: Vec<Ir> = ir;
    match register {
        Some(from) => {
            push_ir(&mut out, Ir::RegMem(from, Address::new_temp(t)));
            push_ir(&mut out, Ir::IndirCopy3(Address::new_temp(t), Address::new_temp(t)));
        },
        None => {
            if deref {
                push_ir(&mut out, Ir::IndirCopy(Address::new_temp(t), Address::new_temp(t)));
            } else {
                push_ir(&mut out, Ir::IndirCopy3(Address::new_temp(t), address));
            }
        },
    }
    let mut r = result_of(out);
    r.address = Address::new_temp(t);
    r.var_addr = var_addr;
    r.deref = true;
    assert(r@.ir =~= dereferenced(value, t as int).ir);
    r
}

fn jump(operand: IrResult, n: &TokenWrapper) -> (r: IrResult)
    ensures
        r@ == jumped(operand@, n@),
{
    let ghost value = operand@;
    let IrResult { ir, blocks: _, address, var_addr: _, register: _, deref, math } = operand;
    let addr = match n {
        TokenWrapper::Token(Token::Identifier(name)) => Address::Variable(name.clone()),
        _ => address,
    };
    let mut out: Vec<Ir> = ir;
    if deref || math {
        push_ir(&mut out, Ir::IndirBranch(addr));
    } else {
        push_ir(&mut out, Ir::Branch(addr));
    }
    let r = result_of(out);
    assert(r@.ir =~= jumped(value, n@).ir);
    r
}

fn lower_token(t: &Token, temp_id: i32) -> (r: Result<IrResult, BlocksError>)
    ensures
        result_view(r) == lower(NodeView::Token(t@), temp_id as int),
        r matches Ok(res) ==> distinct_names(res@.blocks),
{
    let id = get_temp_id(temp_id);
    match t {
        Token::Identifier(name) => {
            let mut r = result_of(Vec::new());
            r.address = Address::Variable(name.clone());
            r.var_addr = Address::Variable(name.clone());
            assert(r@.ir =~= Seq::<IrView>::empty());
            Ok(r)
        },
        Token::Number(v) => {
            let mut r = result_of(one(Ir::Write(Address::new_temp(id), Address::Static(*v))));
            r.address = Address::Static(*v);
            r.var_addr = Address::Static(*v);
            Ok(r)
        },
        Token::Register(reg) => {
            let mut r = result_of(Vec::new());
            r.address = Address::new_temp(id);
            r.var_addr = Address::new_temp(id);
            r.register = Some(*reg);
            assert(r@.ir =~= Seq::<IrView>::empty());
            Ok(r)
        },
        _ => Err(BlocksError::with_text(ErrorKind::Other, "this shouldn't happen")),
    }
}

/// An error in an item of a block is the error of the block.
pub proof fn lemma_block_error_stays(items: Seq<NodeView>, k: int)
    requires
        0 <= k <= items.len(),
        lower_block(items.take(k)) is Err,
    ensures
        lower_block(items) == lower_block(items.take(k)),
    decreases items.len() - k,
{
    if k < items.len() {
        assert(items.take(k + 1).drop_last() =~= items.take(k));
        lemma_block_error_stays(items, k + 1);
    } else {
        assert(items.take(k) =~= items);
    }
}

fn lower_node(n: &TokenWrapper, temp_id: i32) -> (r: Result<IrResult, BlocksError>)
    ensures
        result_view(r) == lower(n@, temp_id as int),
        r matches Ok(res) ==> distinct_names(res@.blocks),
    decreases n, 0int,
{
    match n {
        TokenWrapper::Token(t) => lower_token(t, temp_id),
        TokenWrapper::Tree(t) => lower_tree(t, temp_id),
    }
}

fn lower_items(items: &Vec<TokenWrapper>) -> (r: Result<(Vec<Ir>, Vec<Block>), BlocksError>)
    ensures
        match r {
            Ok((ir, blocks)) => lower_block(node_views(items@)) == Ok::<
                (Seq<IrView>, Seq<BlockView>),
                ErrorView,
            >((ir_views(ir@), block_views(blocks@))) && distinct_names(block_views(blocks@)),
            Err(e) => lower_block(node_views(items@)) == Err::<
                (Seq<IrView>, Seq<BlockView>),
                ErrorView,
            >(e@),
        },
    decreases items, 0int,
{
    let ghost views = node_views(items@);
    let mut ir: Vec<Ir> = Vec::new();
    let mut blocks: Vec<Block> = Vec::new();
    assert(ir_views(ir@) =~= Seq::<IrView>::empty());
    assert(block_views(blocks@) =~= Seq::<BlockView>::empty());
    let mut k: usize = 0;
    while k < items.len()
        invariant
            k <= items.len(),
            views == node_views(items@),
            lower_block(views.take(k as int)) == Ok::<(Seq<IrView>, Seq<BlockView>), ErrorView>(
                (ir_views(ir@), block_views(blocks@)),
            ),
            distinct_names(block_views(blocks@)),
        decreases items.len() - k,
    {
        proof {
            assert(decreases_to!(*items => items@));
            assert(decreases_to!(items@ => items@[k as int]));
            assert(views.take(k + 1).drop_last() =~= views.take(k as int));
            assert(views.take(k + 1).last() == items@[k as int]@);
        }
        match lower_node(&items[k], 0) {
            Err(e) => {
                proof {
                    assert(lower_block(views.take(k + 1)) == Err::<
                        (Seq<IrView>, Seq<BlockView>),
                        ErrorView,
                    >(e@));
                    lemma_block_error_stays(views, k + 1);
                }
                return Err(e);
            },
            Ok(r) => {
                append_ir(&mut ir, r.ir);
                merge_into(&mut blocks, r.blocks);
            },
        }
        k += 1;
    }
    assert(views.take(items@.len() as int) =~= views);
    Ok((ir, blocks))
}

fn lower_unary(op: UnaryOp, a: &TokenWrapper, temp_id: i32) -> (r: Result<IrResult, BlocksError>)
    ensures
        result_view(r) == lower(
            NodeView::Tree(TreeView::Unary(op, Box::new(a@))),
            temp_id as int,
        ),
        r matches Ok(res) ==> distinct_names(res@.blocks),
    decreases a, 1int,
{
    let id = get_temp_id(temp_id);
    match op {
        UnaryOp::Dereference => match lower_node(a, temp_id) {
            Err(e) => Err(e),
            Ok(r) => Ok(dereference(r, id)),
        },
        UnaryOp::Address => match a {
            TokenWrapper::Token(Token::Identifier(name)) => {
                let mut r = result_of(
                    one(Ir::Write(Address::new_temp(id), Address::Variable(name.clone()))),
                );
                r.address = Address::new_temp(id);
                Ok(r)
            },
            _ => Err(BlocksError::new(ErrorKind::AddressNameType, Token::Null)),
        },
        UnaryOp::Not => match lower_node(a, id) {
            Err(e) => Err(e),
            Ok(r) => {
                let ghost head = stored(r@, Register::Int1, id as int);
                let mut ir: Vec<Ir> = Vec::new();
                assert(ir_views(ir@) =~= Seq::<IrView>::empty());
                append_stored(r, Register::Int1, id, &mut ir);
                push_ir(&mut ir, Ir::Not);
                push_ir(&mut ir, Ir::RegMem(Register::Accum, Address::new_temp(id)));
                assert(ir_views(ir@) =~= head + seq![
                    IrView::Not,
                    IrView::RegMem(Register::Accum, temp_address(id as int)),
                ]);
                Ok(computed_result(ir, id))
            },
        },
        UnaryOp::Compare => match lower_node(a, 0) {
            Err(e) => Err(e),
            Ok(r) => Ok(result_of(r.ir)),
        },
        UnaryOp::Goto => match lower_node(a, 0) {
            Err(e) => Err(e),
            Ok(r) => Ok(jump(r, a)),
        },
        UnaryOp::IfGoto => match target_of(a) {
            Some(addr) => Ok(result_of(one(Ir::CondBranch(addr)))),
            None => Err(BlocksError::new(ErrorKind::IfGotoAddressType, Token::Null)),
        },
        UnaryOp::Call => match target_of(a) {
            Some(addr) => Ok(result_of(one(Ir::Call(addr)))),
            None => Err(BlocksError::new(ErrorKind::CallAddressType, Token::Null)),
        },
    }
}

fn lower_tree(t: &Tree, temp_id: i32) -> (r: Result<IrResult, BlocksError>)
    ensures
        result_view(r) == lower(NodeView::Tree(t@), temp_id as int),
        r matches Ok(res) ==> distinct_names(res@.blocks),
    decreases t, 0int,
{
    let id = get_temp_id(temp_id);
    if let Some((op, a, b)) = binary_parts(t) {
        if op == BinaryOp::Assign {
            let l = lower_node(a, -1);
            let r = lower_node(b, -2);
            return assign(l, r);
        }
        let lhs_computes = has_subtree(a);
        let rhs_computes = has_subtree(b);
        return match operand_temp_ids(lhs_computes, rhs_computes, id) {
            None => Err(temp_error()),
            Some((ia, ib)) => {
                let l = lower_node(a, ia);
                let r = lower_node(b, ib);
                finish_operator(op, lhs_computes, rhs_computes, l, r, id)
            },
        };
    }
    if let Some((op, a)) = unary_parts(t) {
        return lower_unary(op, a, temp_id);
    }
    match t {
        Tree::Block(items) => {
            proof {
                lemma_block_view(*items);
                assert(t->Block_0 == *items);
                assert(decreases_to!(*t => t->Block_0));
            }
            match lower_items(items) {
                Err(e) => Err(e),
                Ok((ir, blocks)) => {
                    let mut r = result_of(ir);
                    r.blocks = blocks;
                    Ok(r)
                },
            }
        },
        Tree::Return => Ok(result_of(one(Ir::Return))),
        Tree::Raw(words) => Ok(result_of(one(Ir::Raw(copy_words(words))))),
        Tree::Tag(name, value) => Ok(result_of(one(Ir::Tag(name.clone(), value.clone())))),
        Tree::Symbol(name, body) => match lower_node(body, 0) {
            Err(e) => Err(e),
            Ok(b) => {
                let mut r = result_of(Vec::new());
                let mut blocks: Vec<Block> = Vec::new();
                blocks.push((name.clone(), b.ir));
                r.blocks = blocks;
                assert(r@.ir =~= Seq::<IrView>::empty());
                assert(r@.blocks =~= seq![(name@, b@.ir)]);
                Ok(r)
            },
        },
        _ => Err(BlocksError::with_text(ErrorKind::Other, "this shouldn't happen")),
    }
}

/// Lowers a tree to instructions. The request `temp_id` says which
/// temporary the value of the tree goes to.
pub fn build_ir(tree: TokenWrapper, temp_id: i32) -> (r: Result<IrResult, BlocksError>)
    ensures
        result_view(r) == lower(tree@, temp_id as int),
        r matches Ok(res) ==> distinct_names(res@.blocks),
{
    lower_node(&tree, temp_id)
}

/// Lowers `tree` and appends to `result` the instructions that bring its
/// value into `register`. On failure `result` is left as it was.
pub fn register_store(
    tree: TokenWrapper,
    register: Register,
    result: &mut Vec<Ir>,
    temp_id: i32,
) -> (r: Result<(), BlocksError>)
    ensures
        match r {
            Ok(()) => store_ir(tree@, register, temp_id as int) matches Ok(ir) && ir_views(
                final(result)@,
            ) == ir_views(old(result)@) + ir,
            Err(e) => store_ir(tree@, register, temp_id as int) == Err::<Seq<IrView>, ErrorView>(
                e@,
            ) && *final(result) == *old(result),
        },
{
    match lower_node(&tree, temp_id) {
        Err(e) => Err(e),
        Ok(operand) => {
            append_stored(operand, register, temp_id, result);
            Ok(())
        },
    }
}

/// Lowers the two operands of `operator` and appends to `result` the
/// instructions that load them and apply the operator. On failure `result`
/// is left as it was.
pub fn insert_operator(
    lhs: TokenWrapper,
    rhs: TokenWrapper,
    result: &mut Vec<Ir>,
    operator: Ir,
    temp_id: i32,
) -> (r: Result<(), BlocksError>)
    ensures
        match r {
            Ok(()) => operator_ir(lhs@, rhs@, operator@, temp_id as int) matches Ok(ir)
                && ir_views(final(result)@) == ir_views(old(result)@) + ir,
            Err(e) => operator_ir(lhs@, rhs@, operator@, temp_id as int) == Err::<
                Seq<IrView>,
                ErrorView,
            >(e@) && *final(result) == *old(result),
        },
{
    let lhs_computes = has_subtree(&lhs);
    let rhs_computes = has_subtree(&rhs);
    match operand_temp_ids(lhs_computes, rhs_computes, temp_id) {
        None => Err(temp_error()),
        Some((ia, ib)) => {
            let l = lower_node(&lhs, ia);
            let r = lower_node(&rhs, ib);
            match operate(lhs_computes, rhs_computes, l, r, operator, temp_id) {
                Err(e) => Err(e),
                Ok(ir) => {
                    append_ir(result, ir);
                    Ok(())
                },
            }
        },
    }
}

} // verus!
