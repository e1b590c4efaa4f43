//! Registers and addresses of the target machine, and small helpers shared by
//! the stages of the compiler.

use vstd::prelude::*;
use vstd::std_specs::cmp::PartialEqSpec;
use crate::text::{int_text, push_int, push_text};

verus! {

/// The registers of the target machine, in the order of their numbers.
#[derive(Clone, Copy, Debug, PartialEq, Eq, Structural)]
pub enum Register {
    Int1,
    Int2,
    Int3,
    Int4,
    Flag,
    Accum,
    Error,
    FlowSegment,
    DataSegment,
    PCounter,
}

/// The number by which the target machine knows a register.
pub open spec fn register_id(r: Register) -> int {
    match r {
        Register::Int1 => 0,
        Register::Int2 => 1,
        Register::Int3 => 2,
        Register::Int4 => 3,
        Register::Flag => 4,
        Register::Accum => 5,
        Register::Error => 6,
        Register::FlowSegment => 7,
        Register::DataSegment => 8,
        Register::PCounter => 9,
    }
}

impl Register {
    /// The register's number, as it appears in emitted code.
    pub fn id(self) -> (n: i32)
        ensures
            n == register_id(self),
    {
        match self {
            Register::Int1 => 0,
            Register::Int2 => 1,
            Register::Int3 => 2,
            Register::Int4 => 3,
            Register::Flag => 4,
            Register::Accum => 5,
            Register::Error => 6,
            Register::FlowSegment => 7,
            Register::DataSegment => 8,
            Register::PCounter => 9,
        }
    }
}

/// A location: either a resolved number or the name of a variable that the
/// layout will place. `Static(-1)` stands for "no address yet".
#[derive(Debug, PartialEq, Eq)]
pub enum Address {
    Static(i32),
    Variable(String),
}

/// The mathematical value of an [`Address`].
pub enum AddressView {
    Static(i32),
    Variable(Seq<char>),
}

impl View for Address {
    type V = AddressView;

    open spec fn view(&self) -> AddressView {
        match self {
            Address::Static(n) => AddressView::Static(*n),
            Address::Variable(name) => AddressView::Variable(name@),
        }
    }
}

impl Clone for Address {
    fn clone(&self) -> (r: Self)
        ensures
            r@ == self@,
    {
        match self {
            Address::Static(n) => Address::Static(*n),
            Address::Variable(name) => Address::Variable(name.clone()),
        }
    }
}

/// The name of the temporary with the given number.
pub open spec fn temp_name(id: int) -> Seq<char> {
    "__temp_"@ + int_text(id) + "__"@
}

/// The address of the temporary with the given number.
pub open spec fn temp_address(id: int) -> AddressView {
    AddressView::Variable(temp_name(id))
}

/// The name of the temporary numbered `id`.
pub fn temp_text(id: i32) -> (name: String)
    ensures
        name@ == temp_name(id as int),
{
    let mut name = String::from_str("__temp_");
    push_int(&mut name, id);
    push_text(&mut name, "__");
    name
}

impl Address {
    /// The address of the variable called `ident`.
    pub fn new_var(ident: &str) -> (a: Address)
        ensures
            a@ == AddressView::Variable(ident@),
    {
        Address::Variable(String::from_str(ident))
    }

    /// The address of the temporary numbered `id`.
    pub fn new_temp(id: i32) -> (a: Address)
        ensures
            a@ == temp_address(id as int),
    {
        Address::Variable(temp_text(id))
    }

    /// Whether two addresses are the same.
    pub fn same(&self, other: &Address) -> (r: bool)
        ensures
            r == (self@ == other@),
    {
        match (self, other) {
            (Address::Static(a), Address::Static(b)) => *a == *b,
            (Address::Variable(a), Address::Variable(b)) => *a == *b,
            _ => false,
        }
    }
}

/// The temporary number that a request stands for: `-1` asks for the slot of
/// an assignment's left side, `-2` for that of its right side, and any other
/// number is taken as it is.
pub open spec fn temp_id_spec(id: int) -> int {
    if id == -1 {
        0
    } else if id == -2 {
        1
    } else {
        id
    }
}

/// Resolves a temporary request to the number of a temporary.
pub fn get_temp_id(id: i32) -> (r: i32)
    ensures
        r == temp_id_spec(id as int),
{
    if id == -1 {
        0
    } else if id == -2 {
        1
    } else {
        id
    }
}

/// Whether `elem` equals some item of `slice`.
pub fn is_element<A: PartialEq<B>, B: Eq>(elem: &A, slice: &[B]) -> (r: bool)
    ensures
        A::obeys_eq_spec() ==> r == exists|i: int| 0 <= i < slice@.len() && elem.eq_spec(&slice@[i]),
{
    let mut found = false;
    let mut i: usize = 0;
    while i < slice.len()
        invariant
            i <= slice@.len(),
            A::obeys_eq_spec() ==> found == exists|j: int| 0 <= j < i && elem.eq_spec(&slice@[j]),
        decreases slice@.len() - i,
    {
        if *elem == slice[i] {
            found = true;
        }
        i += 1;
    }
    found
}

/// The temporaries of the two sides of an assignment have different names.
pub proof fn lemma_assignment_temps_differ()
    ensures
        temp_name(0) != temp_name(1),
        temp_name(temp_id_spec(-1)) != temp_name(temp_id_spec(-2)),
{
    reveal_strlit("__temp_");
    reveal_strlit("__");
    reveal_with_fuel(crate::text::nat_text, 2);
    assert(temp_name(0)[7] == '0');
    assert(temp_name(1)[7] == '1');
}

} // verus!
