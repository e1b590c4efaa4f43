//! The second stage: tokens become a tree.
//!
//! The language is written operator first, and every operator takes a fixed
//! number of operands. The builder therefore reads the tokens from the last
//! to the first and keeps a stack: when it meets an operator, the operands
//! are the items on top of the stack, in source order.

use vstd::prelude::*;
use crate::error::{BlocksError, ErrorKind, ErrorView};
use crate::text::{int_text, int_to_string, number_list_spec, parse_number_list};
use crate::token::{build_tokens, lex, token_views, Token, TokenView};

verus! {

/// An item that the tree builder handles: a token or a finished tree.
#[derive(Debug, PartialEq, Eq)]
pub enum TokenWrapper {
    Token(Token),
    Tree(Tree),
}

/// A node of the tree.
#[derive(Debug, PartialEq, Eq)]
pub enum Tree {
    Block(Vec<TokenWrapper>),
    Assign(Box<TokenWrapper>, Box<TokenWrapper>),
    Dereference(Box<TokenWrapper>),
    Goto(Box<TokenWrapper>),
    IfGoto(Box<TokenWrapper>),
    Call(Box<TokenWrapper>),
    Return,
    Multiply(Box<TokenWrapper>, Box<TokenWrapper>),
    Divide(Box<TokenWrapper>, Box<TokenWrapper>),
    Add(Box<TokenWrapper>, Box<TokenWrapper>),
    Subtract(Box<TokenWrapper>, Box<TokenWrapper>),
    Address(Box<TokenWrapper>),
    Compare(Box<TokenWrapper>),
    Greater(Box<TokenWrapper>, Box<TokenWrapper>),
    Less(Box<TokenWrapper>, Box<TokenWrapper>),
    GreaterEqual(Box<TokenWrapper>, Box<TokenWrapper>),
    LessEqual(Box<TokenWrapper>, Box<TokenWrapper>),
    Equals(Box<TokenWrapper>, Box<TokenWrapper>),
    Not(Box<TokenWrapper>),
    And(Box<TokenWrapper>, Box<TokenWrapper>),
    Or(Box<TokenWrapper>, Box<TokenWrapper>),
    Xor(Box<TokenWrapper>, Box<TokenWrapper>),
    Symbol(String, Box<TokenWrapper>),
    Tag(String, String),
    Raw(Vec<i32>),
}

/// The operators with two operands.
#[derive(Clone, Copy, Debug, PartialEq, Eq, Structural)]
pub enum BinaryOp {
    Assign,
    Multiply,
    Divide,
    Add,
    Subtract,
    Greater,
    Less,
    GreaterEqual,
    LessEqual,
    Equals,
    And,
    Or,
    Xor,
}

/// The operators with one operand.
#[derive(Clone, Copy, Debug, PartialEq, Eq, Structural)]
pub enum UnaryOp {
    Dereference,
    Goto,
    IfGoto,
    Call,
    Address,
    Compare,
    Not,
}

/// The mathematical value of a [`TokenWrapper`].
pub enum NodeView {
    Token(TokenView),
    Tree(TreeView),
}

/// The mathematical value of a [`Tree`]: the operators are grouped by the
/// number of their operands.
pub enum TreeView {
    Block(Seq<NodeView>),
    Binary(BinaryOp, Box<NodeView>, Box<NodeView>),
    Unary(UnaryOp, Box<NodeView>),
    Return,
    Symbol(Seq<char>, Box<NodeView>),
    Tag(Seq<char>, Seq<char>),
    Raw(Seq<i32>),
}

/// The value of an item.
pub open spec fn node_view(n: TokenWrapper) -> NodeView
    decreases n,
{
    match n {
        TokenWrapper::Token(t) => NodeView::Token(t@),
        TokenWrapper::Tree(t) => NodeView::Tree(tree_view(t)),
    }
}

/// The value of a tree.
pub open spec fn tree_view(t: Tree) -> TreeView
    decreases t,
{
    match t {
        Tree::Block(items) => TreeView::Block(
            Seq::new(
                items@.len(),
                |i: int|
                    if 0 <= i < items@.len() {
                        node_view(items@[i])
                    } else {
                        NodeView::Token(TokenView::Null)
                    },
            ),
        ),
        Tree::Assign(a, b) => TreeView::Binary(
            BinaryOp::Assign,
            Box::new(node_view(*a)),
            Box::new(node_view(*b)),
        ),
        Tree::Multiply(a, b) => TreeView::Binary(
            BinaryOp::Multiply,
            Box::new(node_view(*a)),
            Box::new(node_view(*b)),
        ),
        Tree::Divide(a, b) => TreeView::Binary(
            BinaryOp::Divide,
            Box::new(node_view(*a)),
            Box::new(node_view(*b)),
        ),
        Tree::Add(a, b) => TreeView::Binary(
            BinaryOp::Add,
            Box::new(node_view(*a)),
            Box::new(node_view(*b)),
        ),
        Tree::Subtract(a, b) => TreeView::Binary(
            BinaryOp::Subtract,
            Box::new(node_view(*a)),
            Box::new(node_view(*b)),
        ),
        Tree::Greater(a, b) => TreeView::Binary(
            BinaryOp::Greater,
            Box::new(node_view(*a)),
            Box::new(node_view(*b)),
        ),
        Tree::Less(a, b) => TreeView::Binary(
            BinaryOp::Less,
            Box::new(node_view(*a)),
            Box::new(node_view(*b)),
        ),
        Tree::GreaterEqual(a, b) => TreeView::Binary(
            BinaryOp::GreaterEqual,
            Box::new(node_view(*a)),
            Box::new(node_view(*b)),
        ),
        Tree::LessEqual(a, b) => TreeView::Binary(
            BinaryOp::LessEqual,
            Box::new(node_view(*a)),
            Box::new(node_view(*b)),
        ),
        Tree::Equals(a, b) => TreeView::Binary(
            BinaryOp::Equals,
            Box::new(node_view(*a)),
            Box::new(node_view(*b)),
        ),
        Tree::And(a, b) => TreeView::Binary(
            BinaryOp::And,
            Box::new(node_view(*a)),
            Box::new(node_view(*b)),
        ),
        Tree::Or(a, b) => TreeView::Binary(
            BinaryOp::Or,
            Box::new(node_view(*a)),
            Box::new(node_view(*b)),
        ),
        Tree::Xor(a, b) => TreeView::Binary(
            BinaryOp::Xor,
            Box::new(node_view(*a)),
            Box::new(node_view(*b)),
        ),
        Tree::Dereference(a) => TreeView::Unary(UnaryOp::Dereference, Box::new(node_view(*a))),
        Tree::Goto(a) => TreeView::Unary(UnaryOp::Goto, Box::new(node_view(*a))),
        Tree::IfGoto(a) => TreeView::Unary(UnaryOp::IfGoto, Box::new(node_view(*a))),
        Tree::Call(a) => TreeView::Unary(UnaryOp::Call, Box::new(node_view(*a))),
        Tree::Address(a) => TreeView::Unary(UnaryOp::Address, Box::new(node_view(*a))),
        Tree::Compare(a) => TreeView::Unary(UnaryOp::Compare, Box::new(node_view(*a))),
        Tree::Not(a) => TreeView::Unary(UnaryOp::Not, Box::new(node_view(*a))),
        Tree::Return => TreeView::Return,
        Tree::Symbol(name, body) => TreeView::Symbol(name@, Box::new(node_view(*body))),
        Tree::Tag(name, value) => TreeView::Tag(name@, value@),
        Tree::Raw(words) => TreeView::Raw(words@),
    }
}

impl View for TokenWrapper {
    type V = NodeView;

    open spec fn view(&self) -> NodeView {
        node_view(*self)
    }
}

impl View for Tree {
    type V = TreeView;

    open spec fn view(&self) -> TreeView {
        tree_view(*self)
    }
}

/// The values of a sequence of items.
pub open spec fn node_views(items: Seq<TokenWrapper>) -> Seq<NodeView> {
    Seq::new(items.len(), |i: int| node_view(items[i]))
}

/// A copy of a list of machine words.
pub fn copy_words(words: &Vec<i32>) -> (r: Vec<i32>)
    ensures
        r@ == words@,
{
    let mut out: Vec<i32> = Vec::new();
    let mut i: usize = 0;
    while i < words.len()
        invariant
            i <= words.len(),
            out@ == words@.take(i as int),
        decreases words.len() - i,
    {
        out.push(words[i]);
        assert(out@ =~= words@.take(i + 1));
        i += 1;
    }
    assert(words@.take(words@.len() as int) =~= words@);
    out
}

fn copy_node(n: &TokenWrapper) -> (r: TokenWrapper)
    ensures
        r@ == n@,
    decreases n,
{
    match n {
        TokenWrapper::Token(t) => TokenWrapper::Token(t.clone()),
        TokenWrapper::Tree(t) => TokenWrapper::Tree(copy_tree(t)),
    }
}

fn copy_tree(t: &Tree) -> (r: Tree)
    ensures
        r@ == t@,
    decreases t,
{
    match t {
        Tree::Block(items) => {
            let mut out: Vec<TokenWrapper> = Vec::new();
            let mut i: usize = 0;
            while i < items.len()
                invariant
                    i <= items.len(),
                    *t == Tree::Block(*items),
                    out@.len() == i,
                    forall|j: int| 0 <= j < i ==> (#[trigger] out@[j])@ == items@[j]@,
                decreases items.len() - i,
            {
                proof {
                    assert(t->Block_0 == *items);
                    assert(decreases_to!(*t => t->Block_0));
                    assert(decreases_to!(*items => items@));
                    assert(decreases_to!(items@ => items@[i as int]));
                }
                out.push(copy_node(&items[i]));
                i += 1;
            }
            assert(node_views(out@) =~= node_views(items@));
            assert(tree_view(Tree::Block(out))->Block_0 =~= node_views(out@));
            assert(tree_view(*t)->Block_0 =~= node_views(items@));
            Tree::Block(out)
        },
        Tree::Assign(a, b) => Tree::Assign(Box::new(copy_node(a)), Box::new(copy_node(b))),
        Tree::Multiply(a, b) => Tree::Multiply(Box::new(copy_node(a)), Box::new(copy_node(b))),
        Tree::Divide(a, b) => Tree::Divide(Box::new(copy_node(a)), Box::new(copy_node(b))),
        Tree::Add(a, b) => Tree::Add(Box::new(copy_node(a)), Box::new(copy_node(b))),
        Tree::Subtract(a, b) => Tree::Subtract(Box::new(copy_node(a)), Box::new(copy_node(b))),
        Tree::Greater(a, b) => Tree::Greater(Box::new(copy_node(a)), Box::new(copy_node(b))),
        Tree::Less(a, b) => Tree::Less(Box::new(copy_node(a)), Box::new(copy_node(b))),
        Tree::GreaterEqual(a, b) => Tree::GreaterEqual(Box::new(copy_node(a)), Box::new(copy_node(b))),
        Tree::LessEqual(a, b) => Tree::LessEqual(Box::new(copy_node(a)), Box::new(copy_node(b))),
        Tree::Equals(a, b) => Tree::Equals(Box::new(copy_node(a)), Box::new(copy_node(b))),
        Tree::And(a, b) => Tree::And(Box::new(copy_node(a)), Box::new(copy_node(b))),
        Tree::Or(a, b) => Tree::Or(Box::new(copy_node(a)), Box::new(copy_node(b))),
        Tree::Xor(a, b) => Tree::Xor(Box::new(copy_node(a)), Box::new(copy_node(b))),
        Tree::Dereference(a) => Tree::Dereference(Box::new(copy_node(a))),
        Tree::Goto(a) => Tree::Goto(Box::new(copy_node(a))),
        Tree::IfGoto(a) => Tree::IfGoto(Box::new(copy_node(a))),
        Tree::Call(a) => Tree::Call(Box::new(copy_node(a))),
        Tree::Address(a) => Tree::Address(Box::new(copy_node(a))),
        Tree::Compare(a) => Tree::Compare(Box::new(copy_node(a))),
        Tree::Not(a) => Tree::Not(Box::new(copy_node(a))),
        Tree::Return => Tree::Return,
        Tree::Symbol(name, body) => Tree::Symbol(name.clone(), Box::new(copy_node(body))),
        Tree::Tag(name, value) => Tree::Tag(name.clone(), value.clone()),
        Tree::Raw(words) => Tree::Raw(copy_words(words)),
    }
}

impl Clone for TokenWrapper {
    fn clone(&self) -> (r: Self)
        ensures
            r@ == self@,
    {
        copy_node(self)
    }
}

impl Clone for Tree {
    fn clone(&self) -> (r: Self)
        ensures
            r@ == self@,
    {
        copy_tree(self)
    }
}

/// The value of a block is the values of its items.
pub proof fn lemma_block_view(items: Vec<TokenWrapper>)
    ensures
        tree_view(Tree::Block(items)) == TreeView::Block(node_views(items@)),
{
    assert(tree_view(Tree::Block(items))->Block_0 =~= node_views(items@));
}

/// The `count` last items of `s`, the last one first.
pub open spec fn top_items<T>(s: Seq<T>, count: nat) -> Seq<T> {
    Seq::new(count, |i: int| s[s.len() - 1 - i])
}

/// A last-in, first-out buffer of items.
#[derive(Debug)]
pub struct Stack {
    /// The items, the oldest first.
    pub data: Vec<TokenWrapper>,
}

impl View for Stack {
    type V = Seq<NodeView>;

    open spec fn view(&self) -> Seq<NodeView> {
        node_views(self.data@)
    }
}

impl Stack {
    /// An empty stack.
    pub fn new() -> (s: Stack)
        ensures
            s.data@.len() == 0,
            s@ == Seq::<NodeView>::empty(),
    {
        let s = Stack { data: Vec::new() };
        assert(s@ =~= Seq::<NodeView>::empty());
        s
    }

    /// Puts `item` on top.
    pub fn push(&mut self, item: TokenWrapper)
        ensures
            final(self).data@ == old(self).data@.push(item),
            final(self)@ == old(self)@.push(item@),
    {
        self.data.push(item);
        assert(self@ =~= old(self)@.push(item@));
    }

    /// Takes the `count` top items off, the topmost first. Where the stack
    /// holds fewer, it is emptied and nothing is returned.
    pub fn pop(&mut self, count: usize) -> (r: Option<Vec<TokenWrapper>>)
        ensures
            r is Some <==> count <= old(self).data@.len(),
            r matches Some(items) ==> {
                &&& items@ == top_items(old(self).data@, count as nat)
                &&& node_views(items@) == top_items(old(self)@, count as nat)
                &&& final(self).data@ == old(self).data@.take(old(self).data@.len() - count)
                &&& final(self)@ == old(self)@.take(old(self)@.len() - count)
            },
            r is None ==> final(self).data@.len() == 0,
    {
        let ghost before = self.data@;
        let mut result: Vec<TokenWrapper> = Vec::new();
        let mut i: usize = 0;
        while i < count
            invariant
                i <= count,
                i <= before.len(),
                before == old(self).data@,
                self.data@ == before.take(before.len() - i),
                result@ == top_items(before, i as nat),
            decreases count - i,
        {
            match self.data.pop() {
                Some(v) => {
                    result.push(v);
                },
                None => {
                    return None;
                },
            }
            i += 1;
            assert(self.data@ =~= before.take(before.len() - i));
            assert(result@ =~= top_items(before, i as nat));
        }
        assert(node_views(result@) =~= top_items(old(self)@, count as nat));
        assert(self@ =~= old(self)@.take(old(self)@.len() - count));
        Some(result)
    }
}

/// How many items an operator makes into one node, itself included. A token
/// that is no operator counts for none.
pub open spec fn arity(t: TokenView) -> nat {
    match t {
        TokenView::Assign
        | TokenView::Symbol
        | TokenView::Tag
        | TokenView::Equals
        | TokenView::Multiply
        | TokenView::Divide
        | TokenView::Add
        | TokenView::Subtract
        | TokenView::And
        | TokenView::Or
        | TokenView::Xor
        | TokenView::Greater
        | TokenView::Less
        | TokenView::GreaterEqual
        | TokenView::LessEqual => 3,
        TokenView::Goto
        | TokenView::IfGoto
        | TokenView::Call
        | TokenView::Dereference
        | TokenView::Address
        | TokenView::Not
        | TokenView::Compare
        | TokenView::Raw => 2,
        TokenView::Return => 1,
        _ => 0,
    }
}

/// The number of items that `operator` makes into one node, itself included.
pub fn get_input_count(operator: &Token) -> (n: usize)
    ensures
        n == arity(operator@),
{
    match operator {
        Token::Assign
        | Token::Symbol
        | Token::Tag
        | Token::Equals
        | Token::Multiply
        | Token::Divide
        | Token::Add
        | Token::Subtract
        | Token::And
        | Token::Or
        | Token::Xor
        | Token::Greater
        | Token::Less
        | Token::GreaterEqual
        | Token::LessEqual => 3,
        Token::Goto
        | Token::IfGoto
        | Token::Call
        | Token::Dereference
        | Token::Address
        | Token::Not
        | Token::Compare
        | Token::Raw => 2,
        Token::Return => 1,
        _ => 0,
    }
}

/// Whether `a` counts as `b` in a list of tokens: any identifier counts as
/// any other, and every other token as itself alone.
pub open spec fn token_matches(a: TokenView, b: TokenView) -> bool {
    (a is Identifier && b is Identifier) || a == b
}

/// Whether `elem` counts as one of the tokens of `slice`.
pub fn is_element_token(elem: &Token, slice: &[Token]) -> (r: bool)
    ensures
        r == exists|i: int| 0 <= i < slice@.len() && token_matches(elem@, (#[trigger] slice@[i])@),
{
    let mut found = false;
    let mut i: usize = 0;
    while i < slice.len()
        invariant
            i <= slice@.len(),
            found == exists|j: int| 0 <= j < i && token_matches(elem@, (#[trigger] slice@[j])@),
        decreases slice@.len() - i,
    {
        let both_identifiers = match (elem, &slice[i]) {
            (Token::Identifier(_), Token::Identifier(_)) => true,
            _ => false,
        };
        if both_identifiers || elem.same(&slice[i]) {
            found = true;
        }
        i += 1;
    }
    found
}

/// The tokens that the tree builder passes over.
pub open spec fn is_ignored(t: TokenView) -> bool {
    t == TokenView::AssignSymbol || t == TokenView::LineEnd || t == TokenView::Null
}

fn ignored(token: &Token) -> (r: bool)
    ensures
        r == is_ignored(token@),
{
    let list = vec![Token::AssignSymbol, Token::LineEnd, Token::Null];
    let slice = list.as_slice();
    let r = is_element_token(token, slice);
    proof {
        let s = slice@;
        if is_ignored(token@) {
            let k: int = if token@ == TokenView::AssignSymbol {
                0
            } else if token@ == TokenView::LineEnd {
                1
            } else {
                2
            };
            assert(token_matches(token@, s[k]@));
        }
    }
    r
}

/// The operator with two operands that a token stands for.
pub open spec fn binary_of(t: TokenView) -> Option<BinaryOp> {
    match t {
        TokenView::Assign => Some(BinaryOp::Assign),
        TokenView::Multiply => Some(BinaryOp::Multiply),
        TokenView::Divide => Some(BinaryOp::Divide),
        TokenView::Add => Some(BinaryOp::Add),
        TokenView::Subtract => Some(BinaryOp::Subtract),
        TokenView::Greater => Some(BinaryOp::Greater),
        TokenView::Less => Some(BinaryOp::Less),
        TokenView::GreaterEqual => Some(BinaryOp::GreaterEqual),
        TokenView::LessEqual => Some(BinaryOp::LessEqual),
        TokenView::Equals => Some(BinaryOp::Equals),
        TokenView::And => Some(BinaryOp::And),
        TokenView::Or => Some(BinaryOp::Or),
        TokenView::Xor => Some(BinaryOp::Xor),
        _ => None,
    }
}

/// The operator with one operand that a token stands for.
pub open spec fn unary_of(t: TokenView) -> Option<UnaryOp> {
    match t {
        TokenView::Dereference => Some(UnaryOp::Dereference),
        TokenView::Goto => Some(UnaryOp::Goto),
        TokenView::IfGoto => Some(UnaryOp::IfGoto),
        TokenView::Call => Some(UnaryOp::Call),
        TokenView::Address => Some(UnaryOp::Address),
        TokenView::Compare => Some(UnaryOp::Compare),
        TokenView::Not => Some(UnaryOp::Not),
        _ => None,
    }
}

fn binary_op(token: &Token) -> (r: Option<BinaryOp>)
    ensures
        r == binary_of(token@),
{
    match token {
        Token::Assign => Some(BinaryOp::Assign),
        Token::Multiply => Some(BinaryOp::Multiply),
        Token::Divide => Some(BinaryOp::Divide),
        Token::Add => Some(BinaryOp::Add),
        Token::Subtract => Some(BinaryOp::Subtract),
        Token::Greater => Some(BinaryOp::Greater),
        Token::Less => Some(BinaryOp::Less),
        Token::GreaterEqual => Some(BinaryOp::GreaterEqual),
        Token::LessEqual => Some(BinaryOp::LessEqual),
        Token::Equals => Some(BinaryOp::Equals),
        Token::And => Some(BinaryOp::And),
        Token::Or => Some(BinaryOp::Or),
        Token::Xor => Some(BinaryOp::Xor),
        _ => None,
    }
}

fn unary_op(token: &Token) -> (r: Option<UnaryOp>)
    ensures
        r == unary_of(token@),
{
    match token {
        Token::Dereference => Some(UnaryOp::Dereference),
        Token::Goto => Some(UnaryOp::Goto),
        Token::IfGoto => Some(UnaryOp::IfGoto),
        Token::Call => Some(UnaryOp::Call),
        Token::Address => Some(UnaryOp::Address),
        Token::Compare => Some(UnaryOp::Compare),
        Token::Not => Some(UnaryOp::Not),
        _ => None,
    }
}

fn binary_tree(op: BinaryOp, a: TokenWrapper, b: TokenWrapper) -> (t: Tree)
    ensures
        t@ == TreeView::Binary(op, Box::new(a@), Box::new(b@)),
{
    match op {
        BinaryOp::Assign => Tree::Assign(Box::new(a), Box::new(b)),
        BinaryOp::Multiply => Tree::Multiply(Box::new(a), Box::new(b)),
        BinaryOp::Divide => Tree::Divide(Box::new(a), Box::new(b)),
        BinaryOp::Add => Tree::Add(Box::new(a), Box::new(b)),
        BinaryOp::Subtract => Tree::Subtract(Box::new(a), Box::new(b)),
        BinaryOp::Greater => Tree::Greater(Box::new(a), Box::new(b)),
        BinaryOp::Less => Tree::Less(Box::new(a), Box::new(b)),
        BinaryOp::GreaterEqual => Tree::GreaterEqual(Box::new(a), Box::new(b)),
        BinaryOp::LessEqual => Tree::LessEqual(Box::new(a), Box::new(b)),
        BinaryOp::Equals => Tree::Equals(Box::new(a), Box::new(b)),
        BinaryOp::And => Tree::And(Box::new(a), Box::new(b)),
        BinaryOp::Or => Tree::Or(Box::new(a), Box::new(b)),
        BinaryOp::Xor => Tree::Xor(Box::new(a), Box::new(b)),
    }
}

fn unary_tree(op: UnaryOp, a: TokenWrapper) -> (t: Tree)
    ensures
        t@ == TreeView::Unary(op, Box::new(a@)),
{
    match op {
        UnaryOp::Dereference => Tree::Dereference(Box::new(a)),
        UnaryOp::Goto => Tree::Goto(Box::new(a)),
        UnaryOp::IfGoto => Tree::IfGoto(Box::new(a)),
        UnaryOp::Call => Tree::Call(Box::new(a)),
        UnaryOp::Address => Tree::Address(Box::new(a)),
        UnaryOp::Compare => Tree::Compare(Box::new(a)),
        UnaryOp::Not => Tree::Not(Box::new(a)),
    }
}

/// The text that an operand of a tag gives: an identifier as it is, a number
/// in decimal.
pub open spec fn tag_text(n: NodeView) -> Option<Seq<char>> {
    match n {
        NodeView::Token(TokenView::Identifier(s)) => Some(s),
        NodeView::Token(TokenView::Number(v)) => Some(int_text(v as int)),
        _ => None,
    }
}

/// The token that an error about the item `n` carries: the item itself where
/// it is a token, and `Null` where it is a tree.
pub open spec fn token_at_fault(n: NodeView) -> TokenView {
    match n {
        NodeView::Token(t) => t,
        NodeView::Tree(_) => TokenView::Null,
    }
}

/// The error of the given kind about the given token.
pub open spec fn failure<T>(kind: ErrorKind, extra: TokenView) -> Result<T, ErrorView> {
    Err(ErrorView { kind, extra })
}

/// The node that the operator `t` makes of its operands, which are given in
/// source order.
pub open spec fn build_node(t: TokenView, args: Seq<NodeView>) -> Result<TreeView, ErrorView> {
    if binary_of(t) is Some {
        Ok(TreeView::Binary(binary_of(t).unwrap(), Box::new(args[0]), Box::new(args[1])))
    } else if unary_of(t) is Some {
        Ok(TreeView::Unary(unary_of(t).unwrap(), Box::new(args[0])))
    } else if t == TokenView::Return {
        Ok(TreeView::Return)
    } else if t == TokenView::Raw {
        match args[0] {
            NodeView::Token(TokenView::Identifier(s)) => match number_list_spec(s) {
                Some(words) => Ok(TreeView::Raw(words)),
                None => failure(ErrorKind::InvalidRaw, TokenView::Identifier(s)),
            },
            _ => failure(ErrorKind::InvalidRaw, TokenView::Null),
        }
    } else if t == TokenView::Tag {
        if args[0] is Tree {
            failure(ErrorKind::TagNameType, TokenView::Null)
        } else if args[1] is Tree {
            failure(ErrorKind::TagValueType, TokenView::Null)
        } else if tag_text(args[0]) is None {
            failure(ErrorKind::TagNameType, token_at_fault(args[0]))
        } else if tag_text(args[1]) is None {
            failure(ErrorKind::TagValueType, token_at_fault(args[1]))
        } else {
            Ok(TreeView::Tag(tag_text(args[0]).unwrap(), tag_text(args[1]).unwrap()))
        }
    } else if t == TokenView::Symbol {
        match args[0] {
            NodeView::Token(TokenView::Identifier(name)) => Ok(
                TreeView::Symbol(name, Box::new(args[1])),
            ),
            _ => failure(ErrorKind::SymbolNameType, token_at_fault(args[0])),
        }
    } else {
        failure(ErrorKind::Other, t)
    }
}

/// What the tree builder holds between two tokens.
pub struct ParseState {
    /// The items waiting for an operator, the latest last.
    pub stack: Seq<NodeView>,
    /// The items of the block being read, the latest last.
    pub block_data: Seq<NodeView>,
    /// Whether a block is being read: its closing brace has been met and its
    /// opening brace has not.
    pub block: bool,
}

/// The state before the first token.
pub open spec fn parse_start() -> ParseState {
    ParseState { stack: Seq::empty(), block_data: Seq::empty(), block: false }
}

/// The items that operators take their operands from.
pub open spec fn active(s: ParseState) -> Seq<NodeView> {
    if s.block {
        s.block_data
    } else {
        s.stack
    }
}

/// The state `s` with other items to take operands from.
pub open spec fn with_active(s: ParseState, items: Seq<NodeView>) -> ParseState {
    if s.block {
        ParseState { block_data: items, ..s }
    } else {
        ParseState { stack: items, ..s }
    }
}

/// The state after one more token, or the error that the token causes.
pub open spec fn parse_step(s: ParseState, t: TokenView) -> Result<ParseState, ErrorView> {
    if is_ignored(t) {
        Ok(s)
    } else if t == TokenView::OpenBrace {
        if s.block {
            Ok(
                ParseState {
                    stack: s.stack.push(NodeView::Tree(TreeView::Block(s.block_data.reverse()))),
                    block_data: Seq::empty(),
                    block: false,
                },
            )
        } else {
            failure(ErrorKind::UnmatchedToken, t)
        }
    } else if t == TokenView::CloseBrace {
        if s.block {
            failure(ErrorKind::UnmatchedToken, t)
        } else {
            Ok(ParseState { block: true, ..s })
        }
    } else if arity(t) == 0 {
        Ok(with_active(s, active(s).push(NodeView::Token(t))))
    } else if arity(t) > active(s).len() + 1 {
        failure(ErrorKind::NotEnoughArgs, t)
    } else {
        let operands = (arity(t) - 1) as nat;
        match build_node(t, top_items(active(s), operands)) {
            Ok(tree) => Ok(
                with_active(
                    s,
                    active(s).take(active(s).len() - operands).push(NodeView::Tree(tree)),
                ),
            ),
            Err(e) => Err(e),
        }
    }
}

/// The state after the tokens from position `from` to the end have been
/// read, the last one first.
pub open spec fn parse_suffix(tokens: Seq<TokenView>, from: int) -> Result<ParseState, ErrorView>
    decreases tokens.len() - from,
{
    if from >= tokens.len() {
        Ok(parse_start())
    } else {
        match parse_suffix(tokens, from + 1) {
            Ok(s) => parse_step(s, tokens[from]),
            Err(e) => Err(e),
        }
    }
}

/// The tree of a sequence of tokens: a block of the statements that are left
/// on the stack, in source order.
pub open spec fn parse(tokens: Seq<TokenView>) -> Result<TreeView, ErrorView> {
    match parse_suffix(tokens, 0) {
        Ok(s) => Ok(TreeView::Block(s.stack.reverse())),
        Err(e) => Err(e),
    }
}

/// An error stays: once a token has failed, the tokens before it change
/// nothing.
pub proof fn lemma_error_stays(tokens: Seq<TokenView>, from: int, to: int)
    requires
        0 <= to <= from,
        parse_suffix(tokens, from) is Err,
    ensures
        parse_suffix(tokens, to) == parse_suffix(tokens, from),
    decreases from - to,
{
    if to < from {
        lemma_error_stays(tokens, from, to + 1);
    }
}

fn take_last(items: &mut Vec<TokenWrapper>) -> (item: TokenWrapper)
    requires
        old(items)@.len() > 0,
    ensures
        item == old(items)@.last(),
        final(items)@ == old(items)@.drop_last(),
{
    match items.pop() {
        Some(item) => item,
        None => TokenWrapper::Token(Token::Null),
    }
}

fn tag_word(token: &Token) -> (r: Option<String>)
    ensures
        match r {
            Some(s) => tag_text(NodeView::Token(token@)) == Some(s@),
            None => tag_text(NodeView::Token(token@)) is None,
        },
{
    match token {
        Token::Identifier(s) => Some(s.clone()),
        Token::Number(n) => Some(int_to_string(*n)),
        _ => None,
    }
}

/// Makes the node of the operator `token` from its operands `args`, which
/// are in source order.
fn make_node(token: Token, args: Vec<TokenWrapper>) -> (r: Result<Tree, BlocksError>)
    requires
        arity(token@) > 0,
        args@.len() + 1 == arity(token@),
    ensures
        match r {
            Ok(tree) => build_node(token@, node_views(args@)) == Ok::<TreeView, ErrorView>(tree@),
            Err(e) => build_node(token@, node_views(args@)) == Err::<TreeView, ErrorView>(e@),
        },
{
    let mut args = args;
    let ghost views = node_views(args@);
    if let Some(op) = binary_op(&token) {
        let b = take_last(&mut args);
        let a = take_last(&mut args);
        assert(a@ == views[0] && b@ == views[1]);
        return Ok(binary_tree(op, a, b));
    }
    if let Some(op) = unary_op(&token) {
        let a = take_last(&mut args);
        assert(a@ == views[0]);
        return Ok(unary_tree(op, a));
    }
    match token {
        Token::Return => Ok(Tree::Return),
        Token::Raw => {
            let a = take_last(&mut args);
            assert(a@ == views[0]);
            match a {
                TokenWrapper::Token(Token::Identifier(s)) => match parse_number_list(s.as_str()) {
                    Some(words) => Ok(Tree::Raw(words)),
                    None => Err(BlocksError::new(ErrorKind::InvalidRaw, Token::Identifier(s))),
                },
                _ => Err(BlocksError::new(ErrorKind::InvalidRaw, Token::Null)),
            }
        },
        Token::Tag => {
            let b = take_last(&mut args);
            let a = take_last(&mut args);
            assert(a@ == views[0] && b@ == views[1]);
            match (a, b) {
                (TokenWrapper::Tree(_), _) => Err(
                    BlocksError::new(ErrorKind::TagNameType, Token::Null),
                ),
                (_, TokenWrapper::Tree(_)) => Err(
                    BlocksError::new(ErrorKind::TagValueType, Token::Null),
                ),
                (TokenWrapper::Token(name), TokenWrapper::Token(value)) => {
                    match tag_word(&name) {
                        None => Err(BlocksError::new(ErrorKind::TagNameType, name)),
                        Some(n) => match tag_word(&value) {
                            None => Err(BlocksError::new(ErrorKind::TagValueType, value)),
                            Some(v) => Ok(Tree::Tag(n, v)),
                        },
                    }
                },
            }
        },
        Token::Symbol => {
            let body = take_last(&mut args);
            let a = take_last(&mut args);
            assert(a@ == views[0] && body@ == views[1]);
            match a {
                TokenWrapper::Token(Token::Identifier(name)) => Ok(
                    Tree::Symbol(name, Box::new(body)),
                ),
                TokenWrapper::Token(other) => Err(
                    BlocksError::new(ErrorKind::SymbolNameType, other),
                ),
                TokenWrapper::Tree(_) => Err(
                    BlocksError::new(ErrorKind::SymbolNameType, Token::Null),
                ),
            }
        },
        other => Err(BlocksError::new(ErrorKind::Other, other)),
    }
}

/// Takes all items off `stack` and returns them, the topmost first.
fn drain_reversed(stack: &mut Stack) -> (items: Vec<TokenWrapper>)
    ensures
        final(stack).data@.len() == 0,
        node_views(items@) == old(stack)@.reverse(),
{
    let ghost before = stack.data@;
    let mut items: Vec<TokenWrapper> = Vec::new();
    while stack.data.len() > 0
        invariant
            before == old(stack).data@,
            items@.len() + stack.data@.len() == before.len(),
            stack.data@ == before.take(before.len() - items@.len()),
            items@ == top_items(before, items@.len()),
        decreases stack.data@.len(),
    {
        let item = take_last(&mut stack.data);
        items.push(item);
        assert(stack.data@ =~= before.take(before.len() - items@.len()));
        assert(items@ =~= top_items(before, items@.len()));
    }
    assert(node_views(items@) =~= old(stack)@.reverse());
    items
}

/// The tree builder's state while it runs.
struct Builder {
    stack: Stack,
    block_data: Stack,
    block: bool,
}

impl View for Builder {
    type V = ParseState;

    closed spec fn view(&self) -> ParseState {
        ParseState { stack: self.stack@, block_data: self.block_data@, block: self.block }
    }
}

impl Builder {
    fn new() -> (b: Builder)
        ensures
            b@ == parse_start(),
    {
        Builder { stack: Stack::new(), block_data: Stack::new(), block: false }
    }

    fn push_active(&mut self, item: TokenWrapper)
        ensures
            final(self)@ == with_active(old(self)@, active(old(self)@).push(item@)),
    {
        if self.block {
            self.block_data.push(item);
        } else {
            self.stack.push(item);
        }
    }

    fn pop_active(&mut self, count: usize) -> (r: Option<Vec<TokenWrapper>>)
        ensures
            r is Some <==> count <= active(old(self)@).len(),
            r matches Some(items) ==> {
                &&& items@.len() == count
                &&& node_views(items@) == top_items(active(old(self)@), count as nat)
                &&& final(self)@ == with_active(
                    old(self)@,
                    active(old(self)@).take(active(old(self)@).len() - count),
                )
            },
    {
        if self.block {
            self.block_data.pop(count)
        } else {
            self.stack.pop(count)
        }
    }

    fn step(&mut self, token: Token) -> (r: Result<(), BlocksError>)
        ensures
            match r {
                Ok(()) => parse_step(old(self)@, token@) == Ok::<ParseState, ErrorView>(
                    final(self)@,
                ),
                Err(e) => parse_step(old(self)@, token@) == Err::<ParseState, ErrorView>(e@),
            },
    {
        if ignored(&token) {
            return Ok(());
        }
        match token {
            Token::OpenBrace => {
                if !self.block {
                    return Err(BlocksError::new(ErrorKind::UnmatchedToken, token));
                }
                let items = drain_reversed(&mut self.block_data);
                proof {
                    lemma_block_view(items);
                    assert(self.block_data@ =~= Seq::<NodeView>::empty());
                }
                self.stack.push(TokenWrapper::Tree(Tree::Block(items)));
                self.block = false;
                Ok(())
            },
            Token::CloseBrace => {
                if self.block {
                    return Err(BlocksError::new(ErrorKind::UnmatchedToken, token));
                }
                self.block = true;
                Ok(())
            },
            other => {
                let inputs = get_input_count(&other);
                let ghost start = active(self@);
                self.push_active(TokenWrapper::Token(other.clone()));
                if inputs == 0 {
                    return Ok(());
                }
                match self.pop_active(inputs) {
                    None => Err(BlocksError::new(ErrorKind::NotEnoughArgs, other)),
                    Some(items) => {
                        let mut items = items;
                        let ghost popped = items@;
                        items.remove(0);
                        proof {
                            let operands = (inputs - 1) as nat;
                            let pushed = start.push(NodeView::Token(other@));
                            assert(node_views(popped) == top_items(pushed, inputs as nat));
                            assert forall|k: int| 0 <= k < operands implies node_views(items@)[k]
                                == top_items(start, operands)[k] by {
                                assert(items@[k] == popped[k + 1]);
                                assert(node_views(popped)[k + 1] == pushed[pushed.len() - 1 - (k
                                    + 1)]);
                            }
                            assert(node_views(items@) =~= top_items(start, operands));
                            assert(start.push(NodeView::Token(other@)).take(
                                start.len() + 1 - inputs,
                            ) =~= start.take(start.len() - operands));
                        }
                        match make_node(other, items) {
                            Ok(tree) => {
                                self.push_active(TokenWrapper::Tree(tree));
                                Ok(())
                            },
                            Err(e) => Err(e),
                        }
                    },
                }
            },
        }
    }
}

/// Organizes tokens into a tree: a block whose items are the statements, in
/// source order. Fails with the error of the first token, counted from the
/// end, that cannot be placed.
pub fn build_tree(tokens: Vec<Token>) -> (r: Result<Tree, BlocksError>)
    ensures
        match r {
            Ok(tree) => parse(token_views(tokens@)) == Ok::<TreeView, ErrorView>(tree@),
            Err(e) => parse(token_views(tokens@)) == Err::<TreeView, ErrorView>(e@),
        },
{
    let mut builder = Builder::new();
    let mut i: usize = tokens.len();
    while i > 0
        invariant
            i <= tokens.len(),
            parse_suffix(token_views(tokens@), i as int) == Ok::<ParseState, ErrorView>(builder@),
        decreases i,
    {
        i -= 1;
        match builder.step(tokens[i].clone()) {
            Ok(()) => {},
            Err(e) => {
                proof {
                    lemma_error_stays(token_views(tokens@), i as int, 0);
                }
                return Err(e);
            },
        }
    }
    let items = drain_reversed(&mut builder.stack);
    proof {
        lemma_block_view(items);
    }
    Ok(Tree::Block(items))
}

/// Builds the tree of a source text.
pub fn build_token_tree(prog: String) -> (r: Result<Tree, BlocksError>)
    ensures
        match r {
            Ok(tree) => parse(lex(prog@)) == Ok::<TreeView, ErrorView>(tree@),
            Err(e) => parse(lex(prog@)) == Err::<TreeView, ErrorView>(e@),
        },
{
    build_tree(build_tokens(prog))
}

/// Whether a node computes with the two operand registers: the operators of
/// arithmetic, logic and comparison do.
pub open spec fn uses_operand_registers(n: NodeView) -> bool {
    match n {
        NodeView::Tree(TreeView::Binary(op, _, _)) => op != BinaryOp::Assign,
        NodeView::Tree(TreeView::Unary(op, _)) => op == UnaryOp::Not,
        _ => false,
    }
}

/// Whether `tree` is an operator node that computes with the two operand
/// registers.
pub fn has_subtree(tree: &TokenWrapper) -> (r: bool)
    ensures
        r == uses_operand_registers(tree@),
{
    match tree {
        TokenWrapper::Tree(t) => match t {
            Tree::Less(_, _)
            | Tree::Greater(_, _)
            | Tree::LessEqual(_, _)
            | Tree::GreaterEqual(_, _)
            | Tree::Equals(_, _)
            | Tree::Add(_, _)
            | Tree::Subtract(_, _)
            | Tree::Multiply(_, _)
            | Tree::Divide(_, _)
            | Tree::Xor(_, _)
            | Tree::And(_, _)
            | Tree::Or(_, _)
            | Tree::Not(_) => true,
            _ => false,
        },
        TokenWrapper::Token(_) => false,
    }
}

} // verus!
