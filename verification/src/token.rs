//! The first stage: source text becomes a flat sequence of tokens.
//!
//! The lexer never fails. Text that makes no sense comes out as tokens that
//! the later stages reject.

use vstd::prelude::*;
use crate::text::{is_space, is_whitespace, parse_int, parse_int_spec, same_text};
use crate::utils::Register;

verus! {

/// A token of the source language.
#[derive(Debug, PartialEq, Eq)]
pub enum Token {
    Assign,
    AssignSymbol,
    Symbol,
    Goto,
    IfGoto,
    Call,
    Return,
    Identifier(String),
    Tag,
    Dereference,
    Address,
    Equals,
    Multiply,
    Divide,
    Add,
    Subtract,
    Not,
    Compare,
    And,
    Or,
    Xor,
    Greater,
    Less,
    GreaterEqual,
    LessEqual,
    OpenBrace,
    CloseBrace,
    LineEnd,
    Raw,
    Number(i32),
    Register(Register),
    Other(String),
    Null,
}

/// The mathematical value of a [`Token`].
pub enum TokenView {
    Assign,
    AssignSymbol,
    Symbol,
    Goto,
    IfGoto,
    Call,
    Return,
    Identifier(Seq<char>),
    Tag,
    Dereference,
    Address,
    Equals,
    Multiply,
    Divide,
    Add,
    Subtract,
    Not,
    Compare,
    And,
    Or,
    Xor,
    Greater,
    Less,
    GreaterEqual,
    LessEqual,
    OpenBrace,
    CloseBrace,
    LineEnd,
    Raw,
    Number(i32),
    Register(Register),
    Other(Seq<char>),
    Null,
}

impl View for Token {
    type V = TokenView;

    open spec fn view(&self) -> TokenView {
        match self {
            Token::Assign => TokenView::Assign,
            Token::AssignSymbol => TokenView::AssignSymbol,
            Token::Symbol => TokenView::Symbol,
            Token::Goto => TokenView::Goto,
            Token::IfGoto => TokenView::IfGoto,
            Token::Call => TokenView::Call,
            Token::Return => TokenView::Return,
            Token::Identifier(s) => TokenView::Identifier(s@),
            Token::Tag => TokenView::Tag,
            Token::Dereference => TokenView::Dereference,
            Token::Address => TokenView::Address,
            Token::Equals => TokenView::Equals,
            Token::Multiply => TokenView::Multiply,
            Token::Divide => TokenView::Divide,
            Token::Add => TokenView::Add,
            Token::Subtract => TokenView::Subtract,
            Token::Not => TokenView::Not,
            Token::Compare => TokenView::Compare,
            Token::And => TokenView::And,
            Token::Or => TokenView::Or,
            Token::Xor => TokenView::Xor,
            Token::Greater => TokenView::Greater,
            Token::Less => TokenView::Less,
            Token::GreaterEqual => TokenView::GreaterEqual,
            Token::LessEqual => TokenView::LessEqual,
            Token::OpenBrace => TokenView::OpenBrace,
            Token::CloseBrace => TokenView::CloseBrace,
            Token::LineEnd => TokenView::LineEnd,
            Token::Raw => TokenView::Raw,
            Token::Number(n) => TokenView::Number(*n),
            Token::Register(r) => TokenView::Register(*r),
            Token::Other(s) => TokenView::Other(s@),
            Token::Null => TokenView::Null,
        }
    }
}

impl Clone for Token {
    fn clone(&self) -> (r: Self)
        ensures
            r@ == self@,
    {
        match self {
            Token::Assign => Token::Assign,
            Token::AssignSymbol => Token::AssignSymbol,
            Token::Symbol => Token::Symbol,
            Token::Goto => Token::Goto,
            Token::IfGoto => Token::IfGoto,
            Token::Call => Token::Call,
            Token::Return => Token::Return,
            Token::Identifier(s) => Token::Identifier(s.clone()),
            Token::Tag => Token::Tag,
            Token::Dereference => Token::Dereference,
            Token::Address => Token::Address,
            Token::Equals => Token::Equals,
            Token::Multiply => Token::Multiply,
            Token::Divide => Token::Divide,
            Token::Add => Token::Add,
            Token::Subtract => Token::Subtract,
            Token::Not => Token::Not,
            Token::Compare => Token::Compare,
            Token::And => Token::And,
            Token::Or => Token::Or,
            Token::Xor => Token::Xor,
            Token::Greater => Token::Greater,
            Token::Less => Token::Less,
            Token::GreaterEqual => Token::GreaterEqual,
            Token::LessEqual => Token::LessEqual,
            Token::OpenBrace => Token::OpenBrace,
            Token::CloseBrace => Token::CloseBrace,
            Token::LineEnd => Token::LineEnd,
            Token::Raw => Token::Raw,
            Token::Number(n) => Token::Number(*n),
            Token::Register(r) => Token::Register(*r),
            Token::Other(s) => Token::Other(s.clone()),
            Token::Null => Token::Null,
        }
    }
}

impl Token {
    /// Whether two tokens are the same.
    pub fn same(&self, other: &Token) -> (r: bool)
        ensures
            r == (self@ == other@),
    {
        match (self, other) {
            (Token::Identifier(a), Token::Identifier(b)) => *a == *b,
            (Token::Other(a), Token::Other(b)) => *a == *b,
            (Token::Number(a), Token::Number(b)) => *a == *b,
            (Token::Register(a), Token::Register(b)) => *a == *b,
            (Token::Assign, Token::Assign) => true,
            (Token::AssignSymbol, Token::AssignSymbol) => true,
            (Token::Symbol, Token::Symbol) => true,
            (Token::Goto, Token::Goto) => true,
            (Token::IfGoto, Token::IfGoto) => true,
            (Token::Call, Token::Call) => true,
            (Token::Return, Token::Return) => true,
            (Token::Tag, Token::Tag) => true,
            (Token::Dereference, Token::Dereference) => true,
            (Token::Address, Token::Address) => true,
            (Token::Equals, Token::Equals) => true,
            (Token::Multiply, Token::Multiply) => true,
            (Token::Divide, Token::Divide) => true,
            (Token::Add, Token::Add) => true,
            (Token::Subtract, Token::Subtract) => true,
            (Token::Not, Token::Not) => true,
            (Token::Compare, Token::Compare) => true,
            (Token::And, Token::And) => true,
            (Token::Or, Token::Or) => true,
            (Token::Xor, Token::Xor) => true,
            (Token::Greater, Token::Greater) => true,
            (Token::Less, Token::Less) => true,
            (Token::GreaterEqual, Token::GreaterEqual) => true,
            (Token::LessEqual, Token::LessEqual) => true,
            (Token::OpenBrace, Token::OpenBrace) => true,
            (Token::CloseBrace, Token::CloseBrace) => true,
            (Token::LineEnd, Token::LineEnd) => true,
            (Token::Raw, Token::Raw) => true,
            (Token::Null, Token::Null) => true,
            _ => false,
        }
    }
}

/// The values of a sequence of tokens.
pub open spec fn token_views(tokens: Seq<Token>) -> Seq<TokenView> {
    tokens.map_values(|t: Token| t@)
}

/// What the lexer remembers between two characters.
pub struct LexState {
    /// The tokens found so far.
    pub tokens: Seq<TokenView>,
    /// The last operator character seen; none after a comment.
    pub previous_chr: char,
    /// The word that ended last.
    pub previous_word: Seq<char>,
    /// The word being read.
    pub word: Seq<char>,
    /// Whether the text is inside a pair of backticks.
    pub raw: bool,
    /// Whether the text is inside a comment.
    pub comment: bool,
    /// Whether the last character outside comments and backticks was whitespace.
    pub previous_whitespace: bool,
}

/// The state before the first character: a single `Null` token.
pub open spec fn lex_start() -> LexState {
    LexState {
        tokens: seq![TokenView::Null],
        previous_chr: '\0',
        previous_word: Seq::empty(),
        word: Seq::empty(),
        raw: false,
        comment: false,
        previous_whitespace: false,
    }
}

/// The token of an operator character that does not depend on what came
/// before it.
pub open spec fn plain_operator(c: char) -> Option<TokenView> {
    if c == ';' {
        Some(TokenView::LineEnd)
    } else if c == '#' {
        Some(TokenView::Dereference)
    } else if c == '@' {
        Some(TokenView::Address)
    } else if c == '*' {
        Some(TokenView::Multiply)
    } else if c == '+' {
        Some(TokenView::Add)
    } else if c == '~' {
        Some(TokenView::Subtract)
    } else if c == '!' {
        Some(TokenView::Not)
    } else if c == '&' {
        Some(TokenView::And)
    } else if c == '|' {
        Some(TokenView::Or)
    } else if c == '^' {
        Some(TokenView::Xor)
    } else if c == '>' {
        Some(TokenView::Greater)
    } else if c == '<' {
        Some(TokenView::Less)
    } else if c == '{' {
        Some(TokenView::OpenBrace)
    } else if c == '}' {
        Some(TokenView::CloseBrace)
    } else if c == '?' {
        Some(TokenView::Tag)
    } else {
        None
    }
}

/// Whether `c` ends a word and stands for an operator.
pub open spec fn is_operator_char(c: char) -> bool {
    c == '=' || c == '/' || plain_operator(c) is Some
}

/// Whether `c` is an operator character after which a word is an operand.
pub open spec fn is_lead_char(c: char) -> bool {
    c == '>' || c == '<' || c == '!' || c == '&' || c == '|' || c == '^' || c == '+' || c == '~'
        || c == '*' || c == '/' || c == '#' || c == '@' || c == '=' || c == '?'
}

/// Whether `w` is a word after which the next word is an operand.
pub open spec fn is_lead_word(w: Seq<char>) -> bool {
    w == "set"@ || w == "cmp"@ || w == ">="@ || w == "<="@ || w == "symbol"@ || w == "goto"@ || w
        == "ifgoto"@ || w == "call"@ || w == "raw"@
}

/// The token of a reserved word.
pub open spec fn keyword_token(w: Seq<char>) -> Option<TokenView> {
    if w == "=="@ {
        Some(TokenView::Equals)
    } else if w == ">="@ {
        Some(TokenView::GreaterEqual)
    } else if w == "<="@ {
        Some(TokenView::LessEqual)
    } else if w == "set"@ {
        Some(TokenView::Assign)
    } else if w == "cmp"@ {
        Some(TokenView::Compare)
    } else if w == "symbol"@ {
        Some(TokenView::Symbol)
    } else if w == "goto"@ {
        Some(TokenView::Goto)
    } else if w == "ifgoto"@ {
        Some(TokenView::IfGoto)
    } else if w == "call"@ {
        Some(TokenView::Call)
    } else if w == "return"@ {
        Some(TokenView::Return)
    } else if w == "raw"@ {
        Some(TokenView::Raw)
    } else {
        None
    }
}

/// Whether the word of `s`, if it is not empty, is to be taken as an operand
/// without looking at what it says: it follows a leading word, or a leading
/// operator that no comment has used up.
pub open spec fn word_is_operand(s: LexState) -> bool {
    is_lead_word(s.previous_word) || follows_operator(s)
}

/// Whether the word of `s` follows a leading operator character, where the
/// word before it did not ask for an operand.
pub open spec fn follows_operator(s: LexState) -> bool {
    !is_lead_word(s.previous_word) && is_lead_char(s.previous_chr)
}

/// The tokens of `s` once its word has ended.
pub open spec fn tokens_after_word(s: LexState) -> Seq<TokenView> {
    let with_word = if s.word.len() > 0 {
        s.tokens.push(TokenView::Identifier(s.word))
    } else {
        s.tokens
    };
    if word_is_operand(s) {
        with_word
    } else {
        match keyword_token(s.word) {
            Some(k) => s.tokens.push(k),
            None => if s.tokens.len() > 0 && !(s.tokens.last() is Identifier) {
                with_word
            } else {
                s.tokens
            },
        }
    }
}

/// The state after the word of `s` has ended and `token` has been read;
/// `Null` stands for no token.
pub open spec fn end_word(s: LexState, token: TokenView) -> LexState {
    let tokens = tokens_after_word(s);
    LexState {
        tokens: if token == TokenView::Null {
            tokens
        } else {
            tokens.push(token)
        },
        previous_word: s.word,
        word: Seq::empty(),
        ..s
    }
}

/// Whether `c` directly follows a token with which it forms one token or a
/// comment start: `=` after `>`, `<` or `=`, and `/` after `/`.
pub open spec fn joins_previous(s: LexState, c: char) -> bool {
    &&& !s.previous_whitespace
    &&& s.tokens.len() > 0
    &&& {
        ||| c == '=' && (s.tokens.last() == TokenView::Greater || s.tokens.last() == TokenView::Less
            || s.tokens.last() == TokenView::AssignSymbol)
        ||| c == '/' && s.tokens.last() == TokenView::Divide
    }
}

/// The token that the operator character `c` stands for in state `s`; `Null`
/// where it starts a comment.
pub open spec fn operator_token(s: LexState, c: char) -> TokenView {
    if c == '=' {
        if joins_previous(s, c) {
            if s.tokens.last() == TokenView::Greater {
                TokenView::GreaterEqual
            } else if s.tokens.last() == TokenView::Less {
                TokenView::LessEqual
            } else {
                TokenView::Equals
            }
        } else {
            TokenView::AssignSymbol
        }
    } else if c == '/' {
        if joins_previous(s, c) {
            TokenView::Null
        } else {
            TokenView::Divide
        }
    } else {
        match plain_operator(c) {
            Some(t) => t,
            None => TokenView::Null,
        }
    }
}

/// Whether `c` is passed over in state `s`: it is inside backticks or a
/// comment, or it is a backtick outside a comment.
pub open spec fn is_skipped(s: LexState, c: char) -> bool {
    s.raw || (s.comment && c != '\n') || (!s.comment && c == '`')
}

/// The state after reading one character.
pub open spec fn lex_step(s: LexState, c: char) -> LexState {
    if is_skipped(s, c) {
        LexState {
            word: if s.raw && c != '`' {
                s.word.push(c)
            } else {
                s.word
            },
            comment: s.comment && c != '\n',
            raw: if !s.comment && c == '`' {
                !s.raw
            } else {
                s.raw
            },
            ..s
        }
    } else if is_space(c) {
        LexState { comment: false, previous_whitespace: true, ..end_word(s, TokenView::Null) }
    } else if is_operator_char(c) {
        let joined = if joins_previous(s, c) {
            LexState { tokens: s.tokens.drop_last(), ..s }
        } else {
            s
        };
        LexState {
            comment: c == '/' && joins_previous(s, c),
            previous_chr: if c == '/' && joins_previous(s, c) {
                '\0'
            } else {
                c
            },
            previous_whitespace: false,
            ..end_word(joined, operator_token(s, c))
        }
    } else {
        LexState { word: s.word.push(c), comment: false, previous_whitespace: false, ..s }
    }
}

/// The state after reading all of `src`.
pub open spec fn lex_run(src: Seq<char>) -> LexState
    decreases src.len(),
{
    if src.len() == 0 {
        lex_start()
    } else {
        lex_step(lex_run(src.drop_last()), src.last())
    }
}

/// The register that a name stands for.
pub open spec fn register_named(w: Seq<char>) -> Option<Register> {
    if w == "$int1"@ {
        Some(Register::Int1)
    } else if w == "$int2"@ {
        Some(Register::Int2)
    } else if w == "$int3"@ {
        Some(Register::Int3)
    } else if w == "$int4"@ {
        Some(Register::Int4)
    } else if w == "$flag"@ {
        Some(Register::Flag)
    } else if w == "$accum"@ {
        Some(Register::Accum)
    } else if w == "$error"@ {
        Some(Register::Error)
    } else if w == "$flowsegment"@ {
        Some(Register::FlowSegment)
    } else if w == "$datasegment"@ {
        Some(Register::DataSegment)
    } else if w == "$segment"@ {
        Some(Register::DataSegment)
    } else if w == "$pcounter"@ {
        Some(Register::PCounter)
    } else {
        None
    }
}

/// What a token is once identifiers that are numbers or register names have
/// been recognized.
pub open spec fn resolve(t: TokenView) -> TokenView {
    match t {
        TokenView::Identifier(w) => match parse_int_spec(w) {
            Some(n) => TokenView::Number(n),
            None => match register_named(w) {
                Some(r) => TokenView::Register(r),
                None => t,
            },
        },
        _ => t,
    }
}

/// The tokens of a source text: a `Null`, the tokens read, and, unless the
/// text is empty, a closing `Null`.
pub open spec fn lex(src: Seq<char>) -> Seq<TokenView> {
    let read = lex_run(src).tokens;
    let all = if src.len() > 0 {
        read.push(TokenView::Null)
    } else {
        read
    };
    all.map_values(|t: TokenView| resolve(t))
}

/// Reading a character keeps the opening `Null` in place.
pub proof fn lemma_step_keeps_first(s: LexState, c: char)
    requires
        s.tokens.len() > 0,
        s.tokens[0] == TokenView::Null,
    ensures
        lex_step(s, c).tokens.len() > 0,
        lex_step(s, c).tokens[0] == TokenView::Null,
{
}

/// The tokens read from any text start with `Null`.
pub proof fn lemma_run_starts_with_null(src: Seq<char>)
    ensures
        lex_run(src).tokens.len() > 0,
        lex_run(src).tokens[0] == TokenView::Null,
    decreases src.len(),
{
    if src.len() > 0 {
        lemma_run_starts_with_null(src.drop_last());
        lemma_step_keeps_first(lex_run(src.drop_last()), src.last());
    }
}

/// One if a word is being read, zero if none is.
pub open spec fn pending_word(s: LexState) -> nat {
    if s.word.len() > 0 {
        1
    } else {
        0
    }
}

/// A reserved word is not empty.
pub proof fn lemma_keyword_not_empty(w: Seq<char>)
    requires
        keyword_token(w) is Some,
    ensures
        w.len() > 0,
{
    reveal_strlit("==");
    reveal_strlit(">=");
    reveal_strlit("<=");
    reveal_strlit("set");
    reveal_strlit("cmp");
    reveal_strlit("symbol");
    reveal_strlit("goto");
    reveal_strlit("ifgoto");
    reveal_strlit("call");
    reveal_strlit("return");
    reveal_strlit("raw");
}

/// Reading a character adds at most one to the tokens and the word being
/// read, counted together.
pub proof fn lemma_step_adds_one(s: LexState, c: char)
    ensures
        lex_step(s, c).tokens.len() + pending_word(lex_step(s, c)) <= s.tokens.len()
            + pending_word(s) + 1,
{
    if keyword_token(s.word) is Some {
        lemma_keyword_not_empty(s.word);
    }
}

/// After a text has been read there are no more tokens than characters and
/// one, the word being read counted as a token.
pub proof fn lemma_run_bounded(src: Seq<char>)
    ensures
        lex_run(src).tokens.len() + pending_word(lex_run(src)) <= src.len() + 1,
    decreases src.len(),
{
    if src.len() > 0 {
        lemma_run_bounded(src.drop_last());
        lemma_step_adds_one(lex_run(src.drop_last()), src.last());
    }
}

/// A text has at most two tokens more than it has characters: the opening
/// and the closing `Null`.
pub proof fn lemma_lex_bounded(src: Seq<char>)
    ensures
        lex(src).len() <= src.len() + 2,
{
    lemma_run_bounded(src);
}

/// The lexer is total and its result is bracketed: whatever the text, the
/// tokens start with `Null` and end with `Null`.
pub proof fn lemma_lex_bracketed(src: Seq<char>)
    ensures
        lex(src).len() > 0,
        lex(src).first() == TokenView::Null,
        lex(src).last() == TokenView::Null,
{
    lemma_run_starts_with_null(src);
}


fn plain_operator_token(c: char) -> (r: Option<Token>)
    ensures
        match r {
            Some(t) => plain_operator(c) == Some(t@),
            None => plain_operator(c) is None,
        },
{
    if c == ';' {
        Some(Token::LineEnd)
    } else if c == '#' {
        Some(Token::Dereference)
    } else if c == '@' {
        Some(Token::Address)
    } else if c == '*' {
        Some(Token::Multiply)
    } else if c == '+' {
        Some(Token::Add)
    } else if c == '~' {
        Some(Token::Subtract)
    } else if c == '!' {
        Some(Token::Not)
    } else if c == '&' {
        Some(Token::And)
    } else if c == '|' {
        Some(Token::Or)
    } else if c == '^' {
        Some(Token::Xor)
    } else if c == '>' {
        Some(Token::Greater)
    } else if c == '<' {
        Some(Token::Less)
    } else if c == '{' {
        Some(Token::OpenBrace)
    } else if c == '}' {
        Some(Token::CloseBrace)
    } else if c == '?' {
        Some(Token::Tag)
    } else {
        None
    }
}

fn lead_char(c: char) -> (r: bool)
    ensures
        r == is_lead_char(c),
{
    c == '>' || c == '<' || c == '!' || c == '&' || c == '|' || c == '^' || c == '+' || c == '~'
        || c == '*' || c == '/' || c == '#' || c == '@' || c == '=' || c == '?'
}

fn lead_word(w: &String) -> (r: bool)
    ensures
        r == is_lead_word(w@),
{
    same_text(w, "set") || same_text(w, "cmp") || same_text(w, ">=") || same_text(w, "<=")
        || same_text(w, "symbol") || same_text(w, "goto") || same_text(w, "ifgoto") || same_text(
        w,
        "call",
    ) || same_text(w, "raw")
}

fn keyword(w: &String) -> (r: Option<Token>)
    ensures
        match r {
            Some(t) => keyword_token(w@) == Some(t@),
            None => keyword_token(w@) is None,
        },
{
    if same_text(w, "==") {
        Some(Token::Equals)
    } else if same_text(w, ">=") {
        Some(Token::GreaterEqual)
    } else if same_text(w, "<=") {
        Some(Token::LessEqual)
    } else if same_text(w, "set") {
        Some(Token::Assign)
    } else if same_text(w, "cmp") {
        Some(Token::Compare)
    } else if same_text(w, "symbol") {
        Some(Token::Symbol)
    } else if same_text(w, "goto") {
        Some(Token::Goto)
    } else if same_text(w, "ifgoto") {
        Some(Token::IfGoto)
    } else if same_text(w, "call") {
        Some(Token::Call)
    } else if same_text(w, "return") {
        Some(Token::Return)
    } else if same_text(w, "raw") {
        Some(Token::Raw)
    } else {
        None
    }
}

fn register_by_name(w: &String) -> (r: Option<Register>)
    ensures
        r == register_named(w@),
{
    if same_text(w, "$int1") {
        Some(Register::Int1)
    } else if same_text(w, "$int2") {
        Some(Register::Int2)
    } else if same_text(w, "$int3") {
        Some(Register::Int3)
    } else if same_text(w, "$int4") {
        Some(Register::Int4)
    } else if same_text(w, "$flag") {
        Some(Register::Flag)
    } else if same_text(w, "$accum") {
        Some(Register::Accum)
    } else if same_text(w, "$error") {
        Some(Register::Error)
    } else if same_text(w, "$flowsegment") {
        Some(Register::FlowSegment)
    } else if same_text(w, "$datasegment") {
        Some(Register::DataSegment)
    } else if same_text(w, "$segment") {
        Some(Register::DataSegment)
    } else if same_text(w, "$pcounter") {
        Some(Register::PCounter)
    } else {
        None
    }
}

fn resolve_token(t: Token) -> (r: Token)
    ensures
        r@ == resolve(t@),
{
    match t {
        Token::Identifier(w) => match parse_int(w.as_str()) {
            Some(n) => Token::Number(n),
            None => match register_by_name(&w) {
                Some(r) => Token::Register(r),
                None => Token::Identifier(w),
            },
        },
        other => other,
    }
}

/// The lexer's state while it runs.
struct Lexer {
    tokens: Vec<Token>,
    previous_chr: char,
    previous_word: String,
    word: String,
    raw: bool,
    comment: bool,
    previous_whitespace: bool,
}

impl View for Lexer {
    type V = LexState;

    closed spec fn view(&self) -> LexState {
        LexState {
            tokens: token_views(self.tokens@),
            previous_chr: self.previous_chr,
            previous_word: self.previous_word@,
            word: self.word@,
            raw: self.raw,
            comment: self.comment,
            previous_whitespace: self.previous_whitespace,
        }
    }
}

impl Lexer {
    fn new() -> (lexer: Lexer)
        ensures
            lexer@ == lex_start(),
    {
        let mut tokens: Vec<Token> = Vec::new();
        tokens.push(Token::Null);
        assert(token_views(tokens@) =~= seq![TokenView::Null]);
        Lexer {
            tokens,
            previous_chr: '\0',
            previous_word: String::new(),
            word: String::new(),
            raw: false,
            comment: false,
            previous_whitespace: false,
        }
    }

    fn push_token(&mut self, token: Token)
        ensures
            final(self)@ == (LexState { tokens: old(self)@.tokens.push(token@), ..old(self)@ }),
    {
        self.tokens.push(token);
        assert(token_views(self.tokens@) =~= token_views(old(self).tokens@).push(token@));
    }

    fn push_word(&mut self)
        ensures
            final(self)@ == (LexState {
                tokens: if old(self)@.word.len() > 0 {
                    old(self)@.tokens.push(TokenView::Identifier(old(self)@.word))
                } else {
                    old(self)@.tokens
                },
                ..old(self)@
            }),
    {
        if !self.word.as_str().is_empty() {
            let w = self.word.clone();
            self.push_token(Token::Identifier(w));
        }
    }

    fn last_is_identifier(&self) -> (r: bool)
        requires
            self.tokens@.len() > 0,
        ensures
            r == (self@.tokens.last() is Identifier),
    {
        match &self.tokens[self.tokens.len() - 1] {
            Token::Identifier(_) => true,
            _ => false,
        }
    }

    fn end_word(&mut self, token: Token)
        ensures
            final(self)@ == end_word(old(self)@, token@),
    {
        if lead_word(&self.previous_word) {
            self.push_word();
        } else if lead_char(self.previous_chr) {
            self.push_word();
        } else {
            match keyword(&self.word) {
                Some(k) => {
                    self.push_token(k);
                },
                None => {
                    if self.tokens.len() > 0 && !self.last_is_identifier() {
                        self.push_word();
                    }
                },
            }
        }
        let mut word = String::new();
        std::mem::swap(&mut word, &mut self.word);
        self.previous_word = word;
        match token {
            Token::Null => {},
            other => {
                self.push_token(other);
            },
        }
    }

    fn joins(&self, c: char) -> (r: bool)
        ensures
            r == joins_previous(self@, c),
    {
        if self.previous_whitespace || self.tokens.len() == 0 {
            return false;
        }
        match &self.tokens[self.tokens.len() - 1] {
            Token::Greater | Token::Less | Token::AssignSymbol => c == '=',
            Token::Divide => c == '/',
            _ => false,
        }
    }

    fn operator(&self, c: char, joins: bool) -> (r: Option<Token>)
        requires
            joins == joins_previous(self@, c),
        ensures
            r is Some == is_operator_char(c),
            r matches Some(t) ==> t@ == operator_token(self@, c),
    {
        if c == '=' {
            if joins {
                match &self.tokens[self.tokens.len() - 1] {
                    Token::Greater => Some(Token::GreaterEqual),
                    Token::Less => Some(Token::LessEqual),
                    _ => Some(Token::Equals),
                }
            } else {
                Some(Token::AssignSymbol)
            }
        } else if c == '/' {
            if joins {
                Some(Token::Null)
            } else {
                Some(Token::Divide)
            }
        } else {
            plain_operator_token(c)
        }
    }

    fn step(&mut self, c: char)
        ensures
            final(self)@ == lex_step(old(self)@, c),
    {
        if self.raw || (self.comment && c != '\n') || (!self.comment && c == '`') {
            if self.raw && c != '`' {
                self.word.push(c);
            }
            if !self.comment && c == '`' {
                self.raw = !self.raw;
            }
            self.comment = self.comment && c != '\n';
        } else if is_whitespace(c) {
            self.end_word(Token::Null);
            self.comment = false;
            self.previous_whitespace = true;
        } else {
            let joins = self.joins(c);
            match self.operator(c, joins) {
                Some(token) => {
                    if joins {
                        self.tokens.pop();
                        assert(token_views(self.tokens@) =~= token_views(
                            old(self).tokens@,
                        ).drop_last());
                    }
                    self.end_word(token);
                    self.comment = c == '/' && joins;
                    self.previous_chr = if c == '/' && joins {
                        '\0'
                    } else {
                        c
                    };
                    self.previous_whitespace = false;
                },
                None => {
                    self.word.push(c);
                    self.comment = false;
                    self.previous_whitespace = false;
                },
            }
        }
    }
}

/// Turns a source text into tokens. The result starts with `Null` and ends
/// with `Null`, whatever the text holds, and has at most two tokens more
/// than the text has characters.
pub fn build_tokens(prog: String) -> (tokens: Vec<Token>)
    ensures
        token_views(tokens@) == lex(prog@),
        tokens@.len() > 0,
        tokens@.len() <= prog@.len() + 2,
        tokens@.first()@ == TokenView::Null,
        tokens@.last()@ == TokenView::Null,
{
    let text: &str = prog.as_str();
    let mut lexer = Lexer::new();
    let mut any = false;
    for c in it: text.chars()
        invariant
            it.seq() == text@,
            text@ == prog@,
            any == (it.index() > 0),
            lexer@ == lex_run(prog@.take(it.index() as int)),
    {
        assert(prog@.take(it.index() + 1).drop_last() =~= prog@.take(it.index() as int));
        lexer.step(c);
        any = true;
    }
    assert(prog@.take(prog@.len() as int) =~= prog@);
    let mut read = lexer.tokens;
    if any {
        read.push(Token::Null);
        assert(token_views(read@) =~= lex_run(prog@).tokens.push(TokenView::Null));
    }
    let mut tokens: Vec<Token> = Vec::new();
    let mut i: usize = 0;
    while i < read.len()
        invariant
            i <= read.len(),
            tokens@.len() == i,
            forall|j: int| 0 <= j < i ==> (#[trigger] tokens@[j])@ == resolve(read@[j]@),
        decreases read.len() - i,
    {
        tokens.push(resolve_token(read[i].clone()));
        i += 1;
    }
    proof {
        assert(token_views(tokens@) =~= lex(prog@));
        lemma_lex_bracketed(prog@);
        lemma_lex_bounded(prog@);
        assert(token_views(tokens@).first() == tokens@.first()@);
        assert(token_views(tokens@).last() == tokens@.last()@);
    }
    tokens
}

} // verus!
