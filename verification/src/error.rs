//! Errors of the compiler: a kind, and the token that was at fault.

use vstd::prelude::*;
use crate::text::{int_text, push_int, push_text};
use crate::token::{Token, TokenView};
use crate::utils::Register;

verus! {

/// What went wrong. The order of the kinds fixes their codes.
#[derive(Clone, Copy, Debug, PartialEq, Eq, Structural)]
pub enum ErrorKind {
    UnexpectedToken,
    NotEnoughArgs,
    SymbolNameType,
    TagNameType,
    TagValueType,
    UndeclaredVar,
    InvalidRaw,
    UnmatchedToken,
    AddressNameType,
    InvalidAddress,
    CallAddressType,
    IfGotoAddressType,
    UnknownTag,
    TagError,
    Other,
}

/// The code of an error kind: its place in the list of kinds.
pub open spec fn kind_code(kind: ErrorKind) -> int {
    match kind {
        ErrorKind::UnexpectedToken => 0,
        ErrorKind::NotEnoughArgs => 1,
        ErrorKind::SymbolNameType => 2,
        ErrorKind::TagNameType => 3,
        ErrorKind::TagValueType => 4,
        ErrorKind::UndeclaredVar => 5,
        ErrorKind::InvalidRaw => 6,
        ErrorKind::UnmatchedToken => 7,
        ErrorKind::AddressNameType => 8,
        ErrorKind::InvalidAddress => 9,
        ErrorKind::CallAddressType => 10,
        ErrorKind::IfGotoAddressType => 11,
        ErrorKind::UnknownTag => 12,
        ErrorKind::TagError => 13,
        ErrorKind::Other => 14,
    }
}

/// The fixed part of the message of an error kind.
pub open spec fn kind_message(kind: ErrorKind) -> Seq<char> {
    match kind {
        ErrorKind::UnexpectedToken => "Unexpected token: "@,
        ErrorKind::NotEnoughArgs => "Not enough arguments to keyword or operator: "@,
        ErrorKind::SymbolNameType => "Symbol name must be a string"@,
        ErrorKind::TagNameType => "Tag name must be a string"@,
        ErrorKind::TagValueType => "Tag value must be a string or number"@,
        ErrorKind::UndeclaredVar => "Use of undeclared variable: "@,
        ErrorKind::InvalidRaw => "Invalid inline machine code: "@,
        ErrorKind::UnmatchedToken => "Unmatched token: "@,
        ErrorKind::AddressNameType => "Argument to address operator must be an identifier"@,
        ErrorKind::InvalidAddress => "Invalid write address: "@,
        ErrorKind::CallAddressType => "Call address must be an identifier"@,
        ErrorKind::IfGotoAddressType => "IfGoto address must be an identifier"@,
        ErrorKind::UnknownTag => "Unknown tag: "@,
        ErrorKind::TagError => "Tag error: "@,
        ErrorKind::Other => "Unknown error at token: "@,
    }
}

/// Whether the message of an error kind ends with the offending text.
pub open spec fn kind_shows_token(kind: ErrorKind) -> bool {
    match kind {
        ErrorKind::SymbolNameType
        | ErrorKind::TagNameType
        | ErrorKind::TagValueType
        | ErrorKind::AddressNameType
        | ErrorKind::CallAddressType
        | ErrorKind::IfGotoAddressType => false,
        _ => true,
    }
}

impl ErrorKind {
    /// The code of this kind.
    pub fn code(self) -> (n: i32)
        ensures
            n == kind_code(self),
    {
        match self {
            ErrorKind::UnexpectedToken => 0,
            ErrorKind::NotEnoughArgs => 1,
            ErrorKind::SymbolNameType => 2,
            ErrorKind::TagNameType => 3,
            ErrorKind::TagValueType => 4,
            ErrorKind::UndeclaredVar => 5,
            ErrorKind::InvalidRaw => 6,
            ErrorKind::UnmatchedToken => 7,
            ErrorKind::AddressNameType => 8,
            ErrorKind::InvalidAddress => 9,
            ErrorKind::CallAddressType => 10,
            ErrorKind::IfGotoAddressType => 11,
            ErrorKind::UnknownTag => 12,
            ErrorKind::TagError => 13,
            ErrorKind::Other => 14,
        }
    }

    fn message(self) -> (s: String)
        ensures
            s@ == kind_message(self),
    {
        match self {
            ErrorKind::UnexpectedToken => String::from_str("Unexpected token: "),
            ErrorKind::NotEnoughArgs => String::from_str(
                "Not enough arguments to keyword or operator: ",
            ),
            ErrorKind::SymbolNameType => String::from_str("Symbol name must be a string"),
            ErrorKind::TagNameType => String::from_str("Tag name must be a string"),
            ErrorKind::TagValueType => String::from_str("Tag value must be a string or number"),
            ErrorKind::UndeclaredVar => String::from_str("Use of undeclared variable: "),
            ErrorKind::InvalidRaw => String::from_str("Invalid inline machine code: "),
            ErrorKind::UnmatchedToken => String::from_str("Unmatched token: "),
            ErrorKind::AddressNameType => String::from_str(
                "Argument to address operator must be an identifier",
            ),
            ErrorKind::InvalidAddress => String::from_str("Invalid write address: "),
            ErrorKind::CallAddressType => String::from_str("Call address must be an identifier"),
            ErrorKind::IfGotoAddressType => String::from_str(
                "IfGoto address must be an identifier",
            ),
            ErrorKind::UnknownTag => String::from_str("Unknown tag: "),
            ErrorKind::TagError => String::from_str("Tag error: "),
            ErrorKind::Other => String::from_str("Unknown error at token: "),
        }
    }

    fn shows_token(self) -> (r: bool)
        ensures
            r == kind_shows_token(self),
    {
        match self {
            ErrorKind::SymbolNameType
            | ErrorKind::TagNameType
            | ErrorKind::TagValueType
            | ErrorKind::AddressNameType
            | ErrorKind::CallAddressType
            | ErrorKind::IfGotoAddressType => false,
            _ => true,
        }
    }
}

/// The text of a string as `Debug` formatting writes it: between double
/// quotes, with escapes.
pub uninterp spec fn quoted_text(s: Seq<char>) -> Seq<char>;

/// Formats a string with `Debug` (`<str as core::fmt::Debug>::fmt`, through
/// `format!`). What comes out depends on the characters of the string alone;
/// the contract gives it the name [`quoted_text`] and says nothing more of it.
#[verifier::external_body]
fn quoted(s: &str) -> (r: String)
    ensures
        r@ == quoted_text(s@),
{
    format!("{:?}", s)
}

/// The name of a register.
pub open spec fn register_name(r: Register) -> Seq<char> {
    match r {
        Register::Int1 => "Int1"@,
        Register::Int2 => "Int2"@,
        Register::Int3 => "Int3"@,
        Register::Int4 => "Int4"@,
        Register::Flag => "Flag"@,
        Register::Accum => "Accum"@,
        Register::Error => "Error"@,
        Register::FlowSegment => "FlowSegment"@,
        Register::DataSegment => "DataSegment"@,
        Register::PCounter => "PCounter"@,
    }
}

/// How a token is written out: the name of its kind, followed in brackets by
/// what it carries.
pub open spec fn token_text(t: TokenView) -> Seq<char> {
    match t {
        TokenView::Assign => "Assign"@,
        TokenView::AssignSymbol => "AssignSymbol"@,
        TokenView::Symbol => "Symbol"@,
        TokenView::Goto => "Goto"@,
        TokenView::IfGoto => "IfGoto"@,
        TokenView::Call => "Call"@,
        TokenView::Return => "Return"@,
        TokenView::Identifier(s) => "Identifier("@ + quoted_text(s) + ")"@,
        TokenView::Tag => "Tag"@,
        TokenView::Dereference => "Dereference"@,
        TokenView::Address => "Address"@,
        TokenView::Equals => "Equals"@,
        TokenView::Multiply => "Multiply"@,
        TokenView::Divide => "Divide"@,
        TokenView::Add => "Add"@,
        TokenView::Subtract => "Subtract"@,
        TokenView::Not => "Not"@,
        TokenView::Compare => "Compare"@,
        TokenView::And => "And"@,
        TokenView::Or => "Or"@,
        TokenView::Xor => "Xor"@,
        TokenView::Greater => "Greater"@,
        TokenView::Less => "Less"@,
        TokenView::GreaterEqual => "GreaterEqual"@,
        TokenView::LessEqual => "LessEqual"@,
        TokenView::OpenBrace => "OpenBrace"@,
        TokenView::CloseBrace => "CloseBrace"@,
        TokenView::LineEnd => "LineEnd"@,
        TokenView::Raw => "Raw"@,
        TokenView::Number(n) => "Number("@ + int_text(n as int) + ")"@,
        TokenView::Register(r) => "Register("@ + register_name(r) + ")"@,
        TokenView::Other(s) => "Other("@ + quoted_text(s) + ")"@,
        TokenView::Null => "Null"@,
    }
}

/// The offending text of an error: what an `Other` token carries, as it is,
/// and any other token written out.
pub open spec fn offending_text(t: TokenView) -> Seq<char> {
    match t {
        TokenView::Other(s) => s,
        _ => token_text(t),
    }
}

fn register_label(r: Register) -> (s: &'static str)
    ensures
        s@ == register_name(r),
{
    match r {
        Register::Int1 => "Int1",
        Register::Int2 => "Int2",
        Register::Int3 => "Int3",
        Register::Int4 => "Int4",
        Register::Flag => "Flag",
        Register::Accum => "Accum",
        Register::Error => "Error",
        Register::FlowSegment => "FlowSegment",
        Register::DataSegment => "DataSegment",
        Register::PCounter => "PCounter",
    }
}

/// The text `head`, then `inner`, then a closing bracket.
pub fn bracketed(head: &str, inner: &str) -> (s: String)
    ensures
        s@ == head@ + inner@ + ")"@,
{
    let mut s = String::from_str(head);
    push_text(&mut s, inner);
    push_text(&mut s, ")");
    s
}

fn write_token(t: &Token) -> (s: String)
    ensures
        s@ == token_text(t@),
{
    match t {
        Token::Assign => String::from_str("Assign"),
        Token::AssignSymbol => String::from_str("AssignSymbol"),
        Token::Symbol => String::from_str("Symbol"),
        Token::Goto => String::from_str("Goto"),
        Token::IfGoto => String::from_str("IfGoto"),
        Token::Call => String::from_str("Call"),
        Token::Return => String::from_str("Return"),
        Token::Identifier(w) => {
            let q = quoted(w.as_str());
            bracketed("Identifier(", q.as_str())
        },
        Token::Tag => String::from_str("Tag"),
        Token::Dereference => String::from_str("Dereference"),
        Token::Address => String::from_str("Address"),
        Token::Equals => String::from_str("Equals"),
        Token::Multiply => String::from_str("Multiply"),
        Token::Divide => String::from_str("Divide"),
        Token::Add => String::from_str("Add"),
        Token::Subtract => String::from_str("Subtract"),
        Token::Not => String::from_str("Not"),
        Token::Compare => String::from_str("Compare"),
        Token::And => String::from_str("And"),
        Token::Or => String::from_str("Or"),
        Token::Xor => String::from_str("Xor"),
        Token::Greater => String::from_str("Greater"),
        Token::Less => String::from_str("Less"),
        Token::GreaterEqual => String::from_str("GreaterEqual"),
        Token::LessEqual => String::from_str("LessEqual"),
        Token::OpenBrace => String::from_str("OpenBrace"),
        Token::CloseBrace => String::from_str("CloseBrace"),
        Token::LineEnd => String::from_str("LineEnd"),
        Token::Raw => String::from_str("Raw"),
        Token::Number(n) => {
            let mut s = String::from_str("Number(");
            push_int(&mut s, *n);
            push_text(&mut s, ")");
            s
        },
        Token::Register(r) => bracketed("Register(", register_label(*r)),
        Token::Other(w) => {
            let q = quoted(w.as_str());
            bracketed("Other(", q.as_str())
        },
        Token::Null => String::from_str("Null"),
    }
}

/// An error of the compiler.
#[derive(Debug, PartialEq, Eq)]
pub struct BlocksError {
    /// What went wrong.
    pub kind: ErrorKind,
    /// The token at fault; an `Other` token carries text instead.
    pub extra: Token,
}

/// The mathematical value of a [`BlocksError`].
pub struct ErrorView {
    pub kind: ErrorKind,
    pub extra: TokenView,
}

impl View for BlocksError {
    type V = ErrorView;

    open spec fn view(&self) -> ErrorView {
        ErrorView { kind: self.kind, extra: self.extra@ }
    }
}

impl Clone for BlocksError {
    fn clone(&self) -> (r: Self)
        ensures
            r@ == self@,
    {
        BlocksError { kind: self.kind, extra: self.extra.clone() }
    }
}

/// The message of an error: a line with its code, then the text of its kind,
/// which for most kinds ends with the offending text.
pub open spec fn error_text(e: ErrorView) -> Seq<char> {
    "Error (code "@ + int_text(kind_code(e.kind)) + "):\n"@ + kind_message(e.kind) + (
    if kind_shows_token(e.kind) {
        offending_text(e.extra)
    } else {
        Seq::empty()
    })
}

impl BlocksError {
    /// An error of the given kind about the given token.
    pub fn new(kind: ErrorKind, extra: Token) -> (e: BlocksError)
        ensures
            e.kind == kind,
            e.extra == extra,
            e@ == (ErrorView { kind, extra: extra@ }),
    {
        BlocksError { kind, extra }
    }

    /// An error of the given kind that carries a text.
    pub fn with_text(kind: ErrorKind, text: &str) -> (e: BlocksError)
        ensures
            e@ == (ErrorView { kind, extra: TokenView::Other(text@) }),
    {
        BlocksError { kind, extra: Token::Other(String::from_str(text)) }
    }

    /// The message to show for this error.
    pub fn to_string(&self) -> (s: String)
        ensures
            s@ == error_text(self@),
    {
        let mut s = String::from_str("Error (code ");
        push_int(&mut s, self.kind.code());
        push_text(&mut s, "):\n");
        let m = self.kind.message();
        push_text(&mut s, m.as_str());
        if self.kind.shows_token() {
            match &self.extra {
                Token::Other(text) => {
                    push_text(&mut s, text.as_str());
                },
                other => {
                    let t = write_token(other);
                    push_text(&mut s, t.as_str());
                },
            }
        } else {
            assert(s@ + Seq::<char>::empty() =~= s@);
        }
        s
    }
}

} // verus!
