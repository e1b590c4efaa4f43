//! Passes over the intermediate representation.
//!
//! Both passes leave the instructions as they are: the compiler emits what
//! the lowering produced. They mark the place where an optimizer steps in.

use vstd::prelude::*;
use crate::ir::{ir_views, Ir, IrView};

verus! {

/// The instructions after the optional optimizations: unchanged.
pub open spec fn optimized(ir: Seq<IrView>) -> Seq<IrView> {
    ir
}

/// The instructions after dead code has been removed: unchanged.
pub open spec fn without_dead_code(ir: Seq<IrView>) -> Seq<IrView> {
    ir
}

/// Applies the optional optimizations, of which there are none.
pub fn opt_0(ir: &mut Vec<Ir>)
    ensures
        *final(ir) == *old(ir),
        ir_views(final(ir)@) == optimized(ir_views(old(ir)@)),
{
}

/// Removes what the lowering produced in vain. Nothing is removed.
pub fn remove_dead_code(ir: &mut Vec<Ir>)
    ensures
        *final(ir) == *old(ir),
        ir_views(final(ir)@) == without_dead_code(ir_views(old(ir)@)),
{
}

/// Removing dead code a second time changes nothing.
pub proof fn lemma_dead_code_removal_idempotent(ir: Seq<IrView>)
    ensures
        without_dead_code(without_dead_code(ir)) == without_dead_code(ir),
{
}

} // verus!
