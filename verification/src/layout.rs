//! What holds of every emitted program: how long it is, where its symbols
//! stand, and which names have a place.

use vstd::prelude::*;
use crate::compile::{
    after_placing, body_emitted, cleanup_words, compiled, copy_step, data_size, emit, emit_step,
    empty_layout, extends, laid_out, layout_end, lemma_block_names, lemma_emit_effects,
    lemma_step_effects, lowered, mentions, operation_code, place_blocks, placed, program,
    setup_words, state_of, write_step, zeros, EmitState, Layout, SETUP_SIZE,
};
use crate::compile_utils::code_size;
use crate::error::ErrorKind;
use crate::ir::{distinct_names, BlockView, IrResultView, IrView};
use crate::optimizer::without_dead_code;
use crate::token::TokenView;
use crate::utils::{lemma_assignment_temps_differ, register_id, temp_name, AddressView};

verus! {

/// The number of machine words that the bodies of `blocks` are emitted as.
pub open spec fn blocks_size(blocks: Seq<BlockView>) -> nat
    decreases blocks.len(),
{
    if blocks.len() == 0 {
        0
    } else {
        blocks_size(blocks.drop_last()) + code_size(blocks.last().1)
    }
}

/// Where the body of the symbol at position `k` starts, counted in words
/// from the start of the symbol section.
pub open spec fn body_start(blocks: Seq<BlockView>, k: int) -> int {
    blocks_size(blocks.take(k)) as int
}

/// The layout after the symbols `blocks` have been placed, where that
/// succeeds.
pub open spec fn blocks_placed(blocks: Seq<BlockView>, s: Layout) -> Layout {
    place_blocks(blocks, s)->Ok_0
}

/// The layout of a lowered program, where laying it out succeeds.
pub open spec fn final_layout(r: IrResultView, start: Layout) -> Layout {
    laid_out(r, start)->Ok_0
}

/// Where the symbols before position `k` can be placed, those before any
/// earlier position can be placed too.
pub proof fn lemma_prefix_placed(blocks: Seq<BlockView>, s: Layout, k: int)
    requires
        place_blocks(blocks, s) is Ok,
        0 <= k <= blocks.len(),
    ensures
        place_blocks(blocks.take(k), s) is Ok,
    decreases blocks.len(),
{
    if k < blocks.len() {
        lemma_prefix_placed(blocks.drop_last(), s, k);
        assert(blocks.drop_last().take(k) =~= blocks.take(k));
    } else {
        assert(blocks.take(k) =~= blocks);
    }
}

/// What placing symbols does: the symbol section grows by the size of the
/// bodies, and so does the next free place in it; what was emitted before
/// stays; every name that was recorded stays recorded, and every symbol is
/// recorded; the names stay finite in number.
pub proof fn lemma_blocks_effects(blocks: Seq<BlockView>, s: Layout)
    requires
        place_blocks(blocks, s) is Ok,
    ensures
        blocks_placed(blocks, s).words.len() == s.words.len() + blocks_size(blocks),
        blocks_placed(blocks, s).symbol_addr == s.symbol_addr + blocks_size(blocks),
        blocks_placed(blocks, s).words.take(s.words.len() as int) == s.words,
        forall|name: Seq<char>| #[trigger]
            s.vars.contains_key(name) ==> blocks_placed(blocks, s).vars.contains_key(name),
        forall|k: int|
            0 <= k < blocks.len() ==> blocks_placed(blocks, s).vars.contains_key(
                (#[trigger] blocks[k]).0,
            ),
        s.vars.dom().finite() ==> blocks_placed(blocks, s).vars.dom().finite(),
    decreases blocks.len(),
{
    if blocks.len() > 0 {
        let before = blocks_placed(blocks.drop_last(), s);
        let after = blocks_placed(blocks, s);
        lemma_blocks_effects(blocks.drop_last(), s);
        lemma_block_names(before, blocks.last());
        assert(after.words.take(s.words.len() as int) =~= s.words) by {
            assert(before.words.take(s.words.len() as int) == s.words);
        }
        assert forall|name: Seq<char>| #[trigger] s.vars.contains_key(name) implies after.vars.contains_key(
            name,
        ) by {
            assert(before.vars.contains_key(name));
        }
        assert forall|k: int| 0 <= k < blocks.len() implies after.vars.contains_key(
            (#[trigger] blocks[k]).0,
        ) by {
            if k < blocks.len() - 1 {
                assert(blocks.drop_last()[k] == blocks[k]);
                assert(before.vars.contains_key(blocks[k].0));
            }
        }
    } else {
        assert(s.words.take(s.words.len() as int) =~= s.words);
    }
}

/// Every symbol stands where its name says: the name of the symbol at
/// position `k` is recorded at the place that the symbol section had
/// reached when the symbols before it had been placed, and the words of its
/// body start there.
pub proof fn lemma_symbol_placed(blocks: Seq<BlockView>, s: Layout, k: int)
    requires
        place_blocks(blocks, s) is Ok,
        distinct_names(blocks),
        0 <= k < blocks.len(),
    ensures
        place_blocks(blocks.take(k), s) is Ok,
        body_emitted(blocks_placed(blocks.take(k), s), blocks[k]) is Ok,
        blocks_placed(blocks, s).vars.contains_key(blocks[k].0),
        blocks_placed(blocks, s).vars[blocks[k].0] == s.symbol_addr + blocks_size(blocks.take(k)),
        blocks_placed(blocks, s).words.subrange(
            s.words.len() + body_start(blocks, k),
            s.words.len() + body_start(blocks, k) + code_size(blocks[k].1),
        ) == body_emitted(blocks_placed(blocks.take(k), s), blocks[k])->Ok_0.words,
    decreases blocks.len(),
{
    let before = blocks_placed(blocks.drop_last(), s);
    let after = blocks_placed(blocks, s);
    lemma_blocks_effects(blocks.drop_last(), s);
    lemma_block_names(before, blocks.last());
    if k == blocks.len() - 1 {
        assert(blocks.take(k) =~= blocks.drop_last());
        let body = body_emitted(before, blocks[k])->Ok_0;
        lemma_emit_effects(
            blocks[k].1,
            EmitState {
                words: Seq::empty(),
                vars: before.vars.insert(blocks[k].0, before.symbol_addr),
                var_addr: before.var_addr,
            },
        );
        assert(after.words.subrange(
            s.words.len() + body_start(blocks, k),
            s.words.len() + body_start(blocks, k) + code_size(blocks[k].1),
        ) =~= body.words);
    } else {
        let rest = blocks.drop_last();
        assert(rest.take(k) =~= blocks.take(k));
        assert(rest[k] == blocks[k]);
        assert(distinct_names(rest)) by {
            assert forall|i: int, j: int| 0 <= i < j < rest.len() implies (#[trigger] rest[i]).0
                != (#[trigger] rest[j]).0 by {
                assert(blocks[i].0 != blocks[j].0);
            }
        }
        lemma_symbol_placed(rest, s, k);
        lemma_prefix_sizes(rest, k);
        assert(blocks[k].0 != blocks.last().0);
        let from = s.words.len() + blocks_size(blocks.take(k));
        let to = from + code_size(blocks[k].1);
        assert(to <= before.words.len()) by {
            lemma_prefix_sizes(rest, k + 1);
            assert(rest.take(k + 1).drop_last() =~= rest.take(k));
        }
        assert(after.words.subrange(from as int, to as int) =~= before.words.subrange(
            from as int,
            to as int,
        ));
    }
}

/// The bodies of the first symbols are no larger than the bodies of all.
pub proof fn lemma_prefix_sizes(blocks: Seq<BlockView>, k: int)
    requires
        0 <= k <= blocks.len(),
    ensures
        blocks_size(blocks.take(k)) <= blocks_size(blocks),
    decreases blocks.len() - k,
{
    if k < blocks.len() {
        assert(blocks.take(k + 1).drop_last() =~= blocks.take(k));
        lemma_prefix_sizes(blocks, k + 1);
    } else {
        assert(blocks.take(k) =~= blocks);
    }
}

/// The words of a layout are the symbol section followed by the main code:
/// as many words as the bodies of the symbols and the main instructions
/// count for.
pub proof fn lemma_layout_length(r: IrResultView, start: Layout)
    requires
        laid_out(r, start) is Ok,
    ensures
        final_layout(r, start).words.len() == start.words.len() + blocks_size(r.blocks)
            + code_size(r.ir),
        final_layout(r, start).symbol_addr == start.symbol_addr + blocks_size(r.blocks),
{
    let placed = blocks_placed(r.blocks, start);
    lemma_blocks_effects(r.blocks, start);
    lemma_emit_effects(r.ir, state_of(placed.words, placed.vars, placed.var_addr));
}

/// Every variable that an instruction of a laid-out program names, in the
/// main code or in the body of a symbol, has a place.
pub proof fn lemma_variables_placed(r: IrResultView, start: Layout)
    requires
        laid_out(r, start) is Ok,
    ensures
        forall|k: int, name: Seq<char>|
            0 <= k < r.ir.len() && mentions(#[trigger] r.ir[k], name) ==> #[trigger] final_layout(
                r,
                start,
            ).vars.contains_key(name),
        forall|b: int, k: int, name: Seq<char>|
            0 <= b < r.blocks.len() && 0 <= k < r.blocks[b].1.len() && mentions(
                #[trigger] r.blocks[b].1[k],
                name,
            ) ==> #[trigger] final_layout(r, start).vars.contains_key(name),
        forall|b: int|
            0 <= b < r.blocks.len() ==> final_layout(r, start).vars.contains_key(
                (#[trigger] r.blocks[b]).0,
            ),
{
    let placed = blocks_placed(r.blocks, start);
    let last = final_layout(r, start);
    lemma_blocks_effects(r.blocks, start);
    lemma_emit_effects(r.ir, state_of(placed.words, placed.vars, placed.var_addr));
    assert forall|b: int, k: int, name: Seq<char>|
        0 <= b < r.blocks.len() && 0 <= k < r.blocks[b].1.len() && mentions(
            #[trigger] r.blocks[b].1[k],
            name,
        ) implies #[trigger] last.vars.contains_key(name) by {
        lemma_body_variables_placed(r.blocks, start, b, k, name);
        assert(placed.vars.contains_key(name));
    }
    assert forall|b: int| 0 <= b < r.blocks.len() implies last.vars.contains_key(
        (#[trigger] r.blocks[b]).0,
    ) by {
        assert(placed.vars.contains_key(r.blocks[b].0));
    }
}

/// A variable that the body of a symbol names has a place once the symbols
/// are placed.
pub proof fn lemma_body_variables_placed(
    blocks: Seq<BlockView>,
    s: Layout,
    b: int,
    k: int,
    name: Seq<char>,
)
    requires
        place_blocks(blocks, s) is Ok,
        0 <= b < blocks.len(),
        0 <= k < blocks[b].1.len(),
        mentions(blocks[b].1[k], name),
    ensures
        blocks_placed(blocks, s).vars.contains_key(name),
    decreases blocks.len(),
{
    let before = blocks_placed(blocks.drop_last(), s);
    lemma_block_names(before, blocks.last());
    if b == blocks.len() - 1 {
        lemma_emit_effects(
            blocks[b].1,
            EmitState {
                words: Seq::empty(),
                vars: before.vars.insert(blocks[b].0, before.symbol_addr),
                var_addr: before.var_addr,
            },
        );
    } else {
        assert(blocks.drop_last()[b] == blocks[b]);
        lemma_body_variables_placed(blocks.drop_last(), s, b, k, name);
    }
}

/// An instruction fails with `UndeclaredVar` only for a variable that it
/// names and that has no place.
pub proof fn lemma_undeclared_is_named(s: EmitState, i: IrView)
    requires
        emit_step(s, i) matches Err(e) && e.kind == ErrorKind::UndeclaredVar,
    ensures
        emit_step(s, i)->Err_0.extra matches TokenView::Other(name) && mentions(i, name)
            && !s.vars.contains_key(name),
{
}

/// A list of instructions fails with `UndeclaredVar` only for a variable
/// that one of its instructions names.
pub proof fn lemma_undeclared_is_in_list(ir: Seq<IrView>, s: EmitState)
    requires
        emit(ir, s) matches Err(e) && e.kind == ErrorKind::UndeclaredVar,
    ensures
        emit(ir, s)->Err_0.extra matches TokenView::Other(name) && exists|k: int|
            0 <= k < ir.len() && mentions(#[trigger] ir[k], name),
    decreases ir.len(),
{
    if ir.len() > 0 {
        match emit(ir.drop_last(), s) {
            Err(_) => {
                lemma_undeclared_is_in_list(ir.drop_last(), s);
                let name = emit(ir, s)->Err_0.extra->Other_0;
                let k = choose|k: int|
                    0 <= k < ir.drop_last().len() && mentions(#[trigger] ir.drop_last()[k], name);
                assert(mentions(ir[k], name));
            },
            Ok(before) => {
                lemma_undeclared_is_named(before, ir.last());
                let name = emit(ir, s)->Err_0.extra->Other_0;
                assert(mentions(ir[ir.len() - 1], name));
            },
        }
    }
}

/// The symbols of a laid-out program stand where their names say: the name
/// of the symbol at position `k` is recorded at the place that the symbol
/// section had reached before it, and the words of its body start there,
/// counted from the start of the symbol section.
pub proof fn lemma_symbol_offsets(r: IrResultView, start: Layout, k: int)
    requires
        laid_out(r, start) is Ok,
        distinct_names(r.blocks),
        0 <= k < r.blocks.len(),
    ensures
        place_blocks(r.blocks.take(k), start) is Ok,
        body_emitted(blocks_placed(r.blocks.take(k), start), r.blocks[k]) is Ok,
        final_layout(r, start).vars.contains_key(r.blocks[k].0),
        final_layout(r, start).vars[r.blocks[k].0] == start.symbol_addr + blocks_size(
            r.blocks.take(k),
        ),
        final_layout(r, start).words.subrange(
            start.words.len() + body_start(r.blocks, k),
            start.words.len() + body_start(r.blocks, k) + code_size(r.blocks[k].1),
        ) == body_emitted(blocks_placed(r.blocks.take(k), start), r.blocks[k])->Ok_0.words,
{
    let placed = blocks_placed(r.blocks, start);
    let last = final_layout(r, start);
    lemma_symbol_placed(r.blocks, start, k);
    lemma_blocks_effects(r.blocks, start);
    lemma_emit_effects(r.ir, state_of(placed.words, placed.vars, placed.var_addr));
    lemma_prefix_sizes(r.blocks, k + 1);
    assert(r.blocks.take(k + 1).drop_last() =~= r.blocks.take(k));
    let from = start.words.len() + blocks_size(r.blocks.take(k));
    let to = from + code_size(r.blocks[k].1);
    assert(last.words.subrange(from as int, to as int) =~= placed.words.subrange(
        from as int,
        to as int,
    )) by {
        assert(last.words.take(placed.words.len() as int) == placed.words);
    }
}

/// The length of a program: the setup sequence, one word for every
/// variable, the words of the symbols, the words of the main code, and the
/// cleanup sequence.
pub proof fn lemma_program_length(src: Seq<char>)
    requires
        compiled(src) is Ok,
    ensures
        compiled(src)->Ok_0.len() == SETUP_SIZE + data_size(
            final_layout(lowered(src)->Ok_0, empty_layout()),
            lowered(src)->Ok_0.blocks.len(),
        ) + blocks_size(lowered(src)->Ok_0.blocks) + code_size(lowered(src)->Ok_0.ir)
            + cleanup_words().len(),
        cleanup_words().len() == 7,
{
    let r = lowered(src)->Ok_0;
    lemma_layout_length(r, empty_layout());
}

/// The parts of a program, in order: the setup sequence with the sizes of
/// the data section and the symbol section, the data section of zeros, the
/// emitted words, and the cleanup sequence.
pub proof fn lemma_program_parts(layout: Layout, symbols: nat)
    requires
        program(layout, symbols) is Ok,
    ensures
        ({
            let out = program(layout, symbols)->Ok_0;
            let data = data_size(layout, symbols);
            &&& 0 <= data <= i32::MAX
            &&& out.len() == SETUP_SIZE + data + layout.words.len() + 7
            &&& out.subrange(0, SETUP_SIZE as int) == setup_words(data as i32, layout.symbol_addr)
            &&& out.subrange(SETUP_SIZE as int, SETUP_SIZE + data) == zeros(data as nat)
            &&& out.subrange(SETUP_SIZE + data, SETUP_SIZE + data + layout.words.len())
                == layout.words
            &&& out.subrange(SETUP_SIZE + data + layout.words.len(), out.len() as int)
                == cleanup_words()
        }),
{
    let out = program(layout, symbols)->Ok_0;
    let data = data_size(layout, symbols);
    assert(out.subrange(0, SETUP_SIZE as int) =~= setup_words(data as i32, layout.symbol_addr));
    assert(out.subrange(SETUP_SIZE as int, SETUP_SIZE + data) =~= zeros(data as nat));
    assert(out.subrange(SETUP_SIZE + data, SETUP_SIZE + data + layout.words.len())
        =~= layout.words);
    assert(out.subrange(SETUP_SIZE + data + layout.words.len(), out.len() as int)
        =~= cleanup_words());
}

/// In a program, the body of the symbol at position `k` starts at the
/// address recorded under its name, counted from the end of the data
/// section.
pub proof fn lemma_symbol_in_program(src: Seq<char>, k: int)
    requires
        compiled(src) is Ok,
        distinct_names(lowered(src)->Ok_0.blocks),
        0 <= k < lowered(src)->Ok_0.blocks.len(),
    ensures
        ({
            let r = lowered(src)->Ok_0;
            let layout = final_layout(r, empty_layout());
            let data = data_size(layout, r.blocks.len());
            let at = layout.vars[r.blocks[k].0];
            &&& layout.vars.contains_key(r.blocks[k].0)
            &&& at == blocks_size(r.blocks.take(k))
            &&& body_emitted(blocks_placed(r.blocks.take(k), empty_layout()), r.blocks[k]) is Ok
            &&& compiled(src)->Ok_0.subrange(
                SETUP_SIZE + data + at,
                SETUP_SIZE + data + at + code_size(r.blocks[k].1),
            ) == body_emitted(
                blocks_placed(r.blocks.take(k), empty_layout()),
                r.blocks[k],
            )->Ok_0.words
        }),
{
    let r = lowered(src)->Ok_0;
    let layout = final_layout(r, empty_layout());
    let data = data_size(layout, r.blocks.len());
    lemma_symbol_offsets(r, empty_layout(), k);
    lemma_program_parts(layout, r.blocks.len());
    lemma_layout_length(r, empty_layout());
    lemma_prefix_sizes(r.blocks, k + 1);
    assert(r.blocks.take(k + 1).drop_last() =~= r.blocks.take(k));
    let at = layout.vars[r.blocks[k].0];
    let out = compiled(src)->Ok_0;
    assert(out.subrange(SETUP_SIZE + data + at, SETUP_SIZE + data + at + code_size(r.blocks[k].1))
        =~= layout.words.subrange(at as int, at + code_size(r.blocks[k].1))) by {
        assert(out.subrange(SETUP_SIZE + data, SETUP_SIZE + data + layout.words.len())
            == layout.words);
    }
}

/// Whether the variables of `vars`, that is its names outside `symbols`,
/// stand at different places, all of them before `cursor`.
pub open spec fn slots_distinct(
    vars: Map<Seq<char>, i32>,
    symbols: Set<Seq<char>>,
    cursor: i32,
) -> bool {
    &&& forall|a: Seq<char>| #[trigger]
        vars.contains_key(a) && !symbols.contains(a) ==> vars[a] < cursor
    &&& forall|a: Seq<char>, b: Seq<char>|
        #![trigger vars.contains_key(a), vars.contains_key(b)]
        vars.contains_key(a) && vars.contains_key(b) && !symbols.contains(a) && !symbols.contains(
            b,
        ) && a != b ==> vars[a] != vars[b]
}

/// Whether no instruction of `ir` is a tag.
pub open spec fn tag_free(ir: Seq<IrView>) -> bool {
    forall|k: int| 0 <= k < ir.len() ==> !((#[trigger] ir[k]) is Tag)
}

/// An instruction that is no tag keeps the variables at different places.
pub proof fn lemma_step_keeps_slots(s: EmitState, i: IrView, symbols: Set<Seq<char>>)
    requires
        emit_step(s, i) is Ok,
        !(i is Tag),
        slots_distinct(s.vars, symbols, s.var_addr),
    ensures
        slots_distinct(emit_step(s, i)->Ok_0.vars, symbols, emit_step(s, i)->Ok_0.var_addr),
{
}

/// Instructions without tags keep the variables at different places.
pub proof fn lemma_emit_keeps_slots(ir: Seq<IrView>, s: EmitState, symbols: Set<Seq<char>>)
    requires
        emit(ir, s) is Ok,
        tag_free(ir),
        slots_distinct(s.vars, symbols, s.var_addr),
    ensures
        slots_distinct(emit(ir, s)->Ok_0.vars, symbols, emit(ir, s)->Ok_0.var_addr),
    decreases ir.len(),
{
    if ir.len() > 0 {
        assert(tag_free(ir.drop_last())) by {
            assert forall|k: int| 0 <= k < ir.drop_last().len() implies !((
            #[trigger] ir.drop_last()[k]) is Tag) by {
                assert(ir.drop_last()[k] == ir[k]);
            }
        }
        lemma_emit_keeps_slots(ir.drop_last(), s, symbols);
        lemma_step_keeps_slots(emit(ir.drop_last(), s)->Ok_0, ir.last(), symbols);
    }
}

/// Whether no body of `blocks` holds a tag.
pub open spec fn bodies_tag_free(blocks: Seq<BlockView>) -> bool {
    forall|k: int| 0 <= k < blocks.len() ==> tag_free((#[trigger] blocks[k]).1)
}

/// Whether `symbols` holds the name of every symbol of `blocks`.
pub open spec fn names_within(blocks: Seq<BlockView>, symbols: Set<Seq<char>>) -> bool {
    forall|k: int| 0 <= k < blocks.len() ==> symbols.contains((#[trigger] blocks[k]).0)
}

/// Placing symbols whose bodies hold no tag keeps the variables at
/// different places.
pub proof fn lemma_blocks_keep_slots(blocks: Seq<BlockView>, s: Layout, symbols: Set<Seq<char>>)
    requires
        place_blocks(blocks, s) is Ok,
        bodies_tag_free(blocks),
        names_within(blocks, symbols),
        slots_distinct(s.vars, symbols, s.var_addr),
    ensures
        slots_distinct(
            blocks_placed(blocks, s).vars,
            symbols,
            blocks_placed(blocks, s).var_addr,
        ),
    decreases blocks.len(),
{
    if blocks.len() > 0 {
        let rest = blocks.drop_last();
        assert(bodies_tag_free(rest) && names_within(rest, symbols)) by {
            assert forall|k: int| 0 <= k < rest.len() implies tag_free((#[trigger] rest[k]).1)
                && symbols.contains(rest[k].0) by {
                assert(rest[k] == blocks[k]);
            }
        }
        lemma_blocks_keep_slots(rest, s, symbols);
        let before = blocks_placed(rest, s);
        let block = blocks.last();
        assert(symbols.contains(block.0) && tag_free(block.1)) by {
            assert(block == blocks[blocks.len() - 1]);
        }
        let first = EmitState {
            words: Seq::empty(),
            vars: before.vars.insert(block.0, before.symbol_addr),
            var_addr: before.var_addr,
        };
        assert(slots_distinct(first.vars, symbols, first.var_addr));
        lemma_emit_keeps_slots(block.1, first, symbols);
    }
}

/// In a program without tags the variables stand at different places:
/// where they did so before the program was laid out, they do so after.
pub proof fn lemma_layout_keeps_slots(r: IrResultView, start: Layout, symbols: Set<Seq<char>>)
    requires
        laid_out(r, start) is Ok,
        tag_free(r.ir),
        bodies_tag_free(r.blocks),
        names_within(r.blocks, symbols),
        slots_distinct(start.vars, symbols, start.var_addr),
    ensures
        slots_distinct(
            final_layout(r, start).vars,
            symbols,
            final_layout(r, start).var_addr,
        ),
{
    lemma_blocks_keep_slots(r.blocks, start, symbols);
    let placed = blocks_placed(r.blocks, start);
    lemma_emit_keeps_slots(r.ir, state_of(placed.words, placed.vars, placed.var_addr), symbols);
}

/// The names of the symbols of `blocks`.
pub open spec fn symbol_names(blocks: Seq<BlockView>) -> Set<Seq<char>> {
    Set::new(|name: Seq<char>| exists|k: int| 0 <= k < blocks.len() && (#[trigger] blocks[k]).0 == name)
}

/// The temporaries of the two sides of an assignment never share a place:
/// in a program without tags, laid out from nothing, in which both are
/// variables and no symbol has the name of one, they stand at different
/// addresses.
pub proof fn lemma_temps_disjoint(r: IrResultView)
    requires
        laid_out(r, empty_layout()) is Ok,
        tag_free(r.ir),
        bodies_tag_free(r.blocks),
        final_layout(r, empty_layout()).vars.contains_key(temp_name(0)),
        final_layout(r, empty_layout()).vars.contains_key(temp_name(1)),
        !symbol_names(r.blocks).contains(temp_name(0)),
        !symbol_names(r.blocks).contains(temp_name(1)),
    ensures
        final_layout(r, empty_layout()).vars[temp_name(0)] != final_layout(
            r,
            empty_layout(),
        ).vars[temp_name(1)],
{
    lemma_assignment_temps_differ();
    lemma_layout_keeps_slots(r, empty_layout(), symbol_names(r.blocks));
}

/// Emitting an instruction a second time, when every name it placed is
/// known, gives the same words again and places nothing.
pub proof fn lemma_step_again(s: EmitState, i: IrView, t: EmitState)
    requires
        emit_step(s, i) is Ok,
        extends(emit_step(s, i)->Ok_0.vars, t.vars),
    ensures
        emit_step(t, i) is Ok,
        emit_step(t, i)->Ok_0.vars == t.vars,
        emit_step(t, i)->Ok_0.words == t.words + emit_step(s, i)->Ok_0.words.skip(
            s.words.len() as int,
        ),
{
    let s1 = emit_step(s, i)->Ok_0;
    match i {
        IrView::Write(a, d) => {
            lemma_write_again(s, 0, a, d, t);
        },
        IrView::IndirWrite(a, d) => {
            lemma_write_again(s, 2, a, d, t);
        },
        IrView::Copy(a, b) => {
            lemma_copy_again(s, 1, a, b, t);
        },
        IrView::IndirCopy(a, b) => {
            lemma_copy_again(s, 3, a, b, t);
        },
        IrView::IndirCopy3(a, b) => {
            lemma_copy_again(s, 5, a, b, t);
        },
        IrView::RegWrite(_, a) | IrView::RegCopy(_, a) | IrView::RegMem(_, a) => {
            lemma_place_again(a, s, s1.vars, t);
            assert(emit_step(t, i)->Ok_0.words =~= t.words + s1.words.skip(s.words.len() as int));
        },
        IrView::Branch(a) | IrView::CondBranch(a) | IrView::IndirBranch(a) | IrView::Call(a) => {
            assert(emit_step(t, i)->Ok_0.words =~= t.words + s1.words.skip(s.words.len() as int));
        },
        _ => {
            assert(emit_step(t, i)->Ok_0.words =~= t.words + s1.words.skip(s.words.len() as int));
        },
    }
}

proof fn lemma_write_again(s: EmitState, code: i32, a: AddressView, d: AddressView, t: EmitState)
    requires
        write_step(s, code, a, d) is Ok,
        extends(write_step(s, code, a, d)->Ok_0.vars, t.vars),
    ensures
        write_step(t, code, a, d) is Ok,
        write_step(t, code, a, d)->Ok_0.vars == t.vars,
        write_step(t, code, a, d)->Ok_0.words == t.words + write_step(
            s,
            code,
            a,
            d,
        )->Ok_0.words.skip(s.words.len() as int),
{
    let s1 = write_step(s, code, a, d)->Ok_0;
    let sa = after_placing(a, s);
    lemma_place_again(d, sa, s1.vars, t);
    lemma_place_again(a, s, sa.vars, sa);
    assert(extends(sa.vars, s1.vars));
    lemma_place_again(a, s, s1.vars, t);
    assert(write_step(t, code, a, d)->Ok_0.words =~= t.words + s1.words.skip(s.words.len() as int));
}

proof fn lemma_copy_again(s: EmitState, code: i32, a: AddressView, b: AddressView, t: EmitState)
    requires
        copy_step(s, code, a, b) is Ok,
        extends(copy_step(s, code, a, b)->Ok_0.vars, t.vars),
    ensures
        copy_step(t, code, a, b) is Ok,
        copy_step(t, code, a, b)->Ok_0.vars == t.vars,
        copy_step(t, code, a, b)->Ok_0.words == t.words + copy_step(
            s,
            code,
            a,
            b,
        )->Ok_0.words.skip(s.words.len() as int),
{
    let s1 = copy_step(s, code, a, b)->Ok_0;
    lemma_place_again(a, s, s1.vars, t);
    assert(copy_step(t, code, a, b)->Ok_0.words =~= t.words + s1.words.skip(s.words.len() as int));
}

/// An address that has been given a place resolves to that place when the
/// names recorded then are known.
proof fn lemma_place_again(a: AddressView, s: EmitState, known: Map<Seq<char>, i32>, t: EmitState)
    requires
        placed(a, s) is Ok,
        extends(after_placing(a, s).vars, known),
        extends(known, t.vars),
    ensures
        placed(a, t) == placed(a, s),
        after_placing(a, t) == t,
        extends(s.vars, after_placing(a, s).vars),
{
    match a {
        AddressView::Variable(name) => {
            assert(after_placing(a, s).vars.contains_key(name));
            assert(known.contains_key(name));
            assert(t.vars.contains_key(name));
        },
        _ => {},
    }
    assert(after_placing(a, t).vars =~= t.vars);
}

/// Emitting a list of instructions a second time, when every name it
/// placed is known, gives the same words again and places nothing.
pub proof fn lemma_emit_again(ir: Seq<IrView>, s: EmitState, t: EmitState)
    requires
        emit(ir, s) is Ok,
        extends(emit(ir, s)->Ok_0.vars, t.vars),
    ensures
        emit(ir, t) is Ok,
        emit(ir, t)->Ok_0.vars == t.vars,
        emit(ir, t)->Ok_0.words == t.words + emit(ir, s)->Ok_0.words.skip(s.words.len() as int),
    decreases ir.len(),
{
    let s1 = emit(ir, s)->Ok_0;
    if ir.len() > 0 {
        let s0 = emit(ir.drop_last(), s)->Ok_0;
        lemma_step_effects(s0, ir.last());
        lemma_emit_effects(ir.drop_last(), s);
        assert(extends(s0.vars, t.vars)) by {
            assert forall|name: Seq<char>| #[trigger] s0.vars.contains_key(name) implies t.vars.contains_key(
                name,
            ) && t.vars[name] == s0.vars[name] by {
                assert(s1.vars.contains_key(name));
            }
        }
        lemma_emit_again(ir.drop_last(), s, t);
        let t0 = emit(ir.drop_last(), t)->Ok_0;
        lemma_step_again(s0, ir.last(), t0);
        assert(emit(ir, t)->Ok_0.words =~= t.words + s1.words.skip(s.words.len() as int)) by {
            assert(s1.words.take(s0.words.len() as int) == s0.words);
            assert(s0.words.take(s.words.len() as int) == s.words);
        }
    } else {
        assert(t.words + s.words.skip(s.words.len() as int) =~= t.words);
    }
}

/// Removing dead code and emitting is stable: done again on instructions
/// that have been emitted, with the names that the first time recorded, it
/// gives the same words and records nothing new.
pub proof fn lemma_emission_repeats(ir: Seq<IrView>, s: EmitState)
    requires
        emit(ir, s) is Ok,
    ensures
        without_dead_code(without_dead_code(ir)) == without_dead_code(ir),
        emit(
            without_dead_code(ir),
            state_of(s.words, emit(ir, s)->Ok_0.vars, emit(ir, s)->Ok_0.var_addr),
        ) is Ok,
        emit(
            without_dead_code(ir),
            state_of(s.words, emit(ir, s)->Ok_0.vars, emit(ir, s)->Ok_0.var_addr),
        )->Ok_0.words == emit(ir, s)->Ok_0.words,
        emit(
            without_dead_code(ir),
            state_of(s.words, emit(ir, s)->Ok_0.vars, emit(ir, s)->Ok_0.var_addr),
        )->Ok_0.vars == emit(ir, s)->Ok_0.vars,
{
    let s1 = emit(ir, s)->Ok_0;
    let t = state_of(s.words, s1.vars, s1.var_addr);
    lemma_emit_effects(ir, s);
    lemma_emit_again(ir, s, t);
    assert(s.words + s1.words.skip(s.words.len() as int) =~= s1.words) by {
        assert(s1.words.take(s.words.len() as int) == s.words);
    }
}

/// The number that an address is emitted as, given the place of every name.
pub open spec fn value_of(a: AddressView, vars: Map<Seq<char>, i32>) -> i32 {
    match a {
        AddressView::Static(n) => n,
        AddressView::Variable(name) => vars[name],
    }
}

/// The machine words of an instruction, given the place of every name.
pub open spec fn encoded(i: IrView, vars: Map<Seq<char>, i32>) -> Seq<i32> {
    match i {
        IrView::Write(a, d) => seq![0, value_of(a, vars), value_of(d, vars)],
        IrView::Copy(a, b) => seq![1, value_of(a, vars), value_of(b, vars)],
        IrView::IndirWrite(a, d) => seq![2, value_of(a, vars), value_of(d, vars)],
        IrView::IndirCopy(a, b) => seq![3, value_of(a, vars), value_of(b, vars)],
        IrView::IndirCopy3(a, b) => seq![5, value_of(a, vars), value_of(b, vars)],
        IrView::RegWrite(r, d) => seq![10, register_id(r) as i32, value_of(d, vars)],
        IrView::RegCopy(r, a) => seq![11, register_id(r) as i32, value_of(a, vars)],
        IrView::RegMem(r, a) => seq![13, value_of(a, vars), register_id(r) as i32],
        IrView::Not => seq![27, 0],
        IrView::Branch(a) => seq![29, value_of(a, vars)],
        IrView::CondBranch(a) => seq![30, value_of(a, vars)],
        IrView::IndirBranch(a) => seq![32, value_of(a, vars)],
        IrView::Call(a) => seq![33, value_of(a, vars)],
        IrView::Return => seq![35],
        IrView::Raw(words) => words,
        IrView::Tag(_, _) => Seq::empty(),
        _ => seq![operation_code(i), 0, 1],
    }
}

/// The machine words of a list of instructions, given the place of every
/// name.
pub open spec fn encoded_list(ir: Seq<IrView>, vars: Map<Seq<char>, i32>) -> Seq<i32>
    decreases ir.len(),
{
    if ir.len() == 0 {
        Seq::empty()
    } else {
        encoded_list(ir.drop_last(), vars) + encoded(ir.last(), vars)
    }
}

/// The machine words of the bodies of symbols, given the place of every
/// name.
pub open spec fn encoded_blocks(blocks: Seq<BlockView>, vars: Map<Seq<char>, i32>) -> Seq<i32>
    decreases blocks.len(),
{
    if blocks.len() == 0 {
        Seq::empty()
    } else {
        encoded_blocks(blocks.drop_last(), vars) + encoded_list(blocks.last().1, vars)
    }
}

/// Whether `vars` holds every variable that an instruction of `ir` names.
pub open spec fn names_known(ir: Seq<IrView>, vars: Map<Seq<char>, i32>) -> bool {
    forall|k: int, name: Seq<char>|
        0 <= k < ir.len() && mentions(#[trigger] ir[k], name) ==> #[trigger] vars.contains_key(name)
}

/// The words that an instruction emits are its words under the names as
/// they are after it.
pub proof fn lemma_step_encoded(s: EmitState, i: IrView)
    requires
        emit_step(s, i) is Ok,
    ensures
        emit_step(s, i)->Ok_0.words == s.words + encoded(i, emit_step(s, i)->Ok_0.vars),
{
    let after = emit_step(s, i)->Ok_0;
    match i {
        IrView::Write(a, d) | IrView::IndirWrite(a, d) => {
            let sa = after_placing(a, s);
            lemma_placed_value(a, s, after.vars);
            lemma_placed_value(d, sa, after.vars);
        },
        IrView::Copy(a, b) | IrView::IndirCopy(a, b) | IrView::IndirCopy3(a, b) => {
            lemma_placed_value(a, s, after.vars);
        },
        IrView::RegWrite(_, a) | IrView::RegCopy(_, a) | IrView::RegMem(_, a) => {
            lemma_placed_value(a, s, after.vars);
        },
        _ => {},
    }
    assert(after.words =~= s.words + encoded(i, after.vars));
}

/// The place that an address is given is the address it has under every
/// table that holds the names recorded then.
proof fn lemma_placed_value(a: AddressView, s: EmitState, later: Map<Seq<char>, i32>)
    requires
        placed(a, s) is Ok,
        extends(after_placing(a, s).vars, later),
    ensures
        value_of(a, later) == placed(a, s)->Ok_0,
        extends(s.vars, after_placing(a, s).vars),
{
    match a {
        AddressView::Variable(name) => {
            assert(after_placing(a, s).vars.contains_key(name));
        },
        _ => {},
    }
}

/// The words of an instruction whose names are known stay the same when
/// more names become known.
pub proof fn lemma_encoded_stable(i: IrView, v1: Map<Seq<char>, i32>, v2: Map<Seq<char>, i32>)
    requires
        extends(v1, v2),
        forall|name: Seq<char>| mentions(i, name) ==> #[trigger] v1.contains_key(name),
    ensures
        encoded(i, v1) == encoded(i, v2),
{
    assert forall|a: AddressView|
        (a matches AddressView::Variable(name) ==> mentions(i, name)) implies value_of(a, v1)
        == value_of(a, v2) by {
        match a {
            AddressView::Variable(name) => {
                assert(v1.contains_key(name));
            },
            _ => {},
        }
    }
    match i {
        IrView::Write(a, b)
        | IrView::Copy(a, b)
        | IrView::IndirWrite(a, b)
        | IrView::IndirCopy(a, b)
        | IrView::IndirCopy3(a, b) => {
            assert(value_of(a, v1) == value_of(a, v2));
            assert(value_of(b, v1) == value_of(b, v2));
        },
        IrView::RegWrite(_, a) | IrView::RegCopy(_, a) | IrView::RegMem(_, a) => {
            assert(value_of(a, v1) == value_of(a, v2));
        },
        IrView::Branch(a) | IrView::CondBranch(a) | IrView::IndirBranch(a) | IrView::Call(a) => {
            assert(value_of(a, v1) == value_of(a, v2));
        },
        _ => {},
    }
}

/// The words of instructions whose names are known stay the same when more
/// names become known.
pub proof fn lemma_list_encoded_stable(
    ir: Seq<IrView>,
    v1: Map<Seq<char>, i32>,
    v2: Map<Seq<char>, i32>,
)
    requires
        extends(v1, v2),
        names_known(ir, v1),
    ensures
        encoded_list(ir, v1) == encoded_list(ir, v2),
    decreases ir.len(),
{
    if ir.len() > 0 {
        assert(names_known(ir.drop_last(), v1)) by {
            assert forall|k: int, name: Seq<char>|
                0 <= k < ir.drop_last().len() && mentions(
                    #[trigger] ir.drop_last()[k],
                    name,
                ) implies #[trigger] v1.contains_key(name) by {
                assert(mentions(ir[k], name));
            }
        }
        lemma_list_encoded_stable(ir.drop_last(), v1, v2);
        assert forall|name: Seq<char>| mentions(ir.last(), name) implies #[trigger] v1.contains_key(
            name,
        ) by {
            assert(mentions(ir[ir.len() - 1], name));
        }
        lemma_encoded_stable(ir.last(), v1, v2);
    }
}

/// Every variable is emitted as the address that it has in the end: the
/// words that a list of instructions emits are its words under the names
/// as they are after it.
pub proof fn lemma_emit_encoded(ir: Seq<IrView>, s: EmitState)
    requires
        emit(ir, s) is Ok,
    ensures
        emit(ir, s)->Ok_0.words == s.words + encoded_list(ir, emit(ir, s)->Ok_0.vars),
    decreases ir.len(),
{
    let s1 = emit(ir, s)->Ok_0;
    if ir.len() > 0 {
        let s0 = emit(ir.drop_last(), s)->Ok_0;
        lemma_emit_encoded(ir.drop_last(), s);
        lemma_emit_effects(ir.drop_last(), s);
        lemma_step_effects(s0, ir.last());
        lemma_step_encoded(s0, ir.last());
        assert(names_known(ir.drop_last(), s0.vars));
        lemma_list_encoded_stable(ir.drop_last(), s0.vars, s1.vars);
        assert(s1.words =~= s.words + encoded_list(ir, s1.vars));
    } else {
        assert(s.words + encoded_list(ir, s.vars) =~= s.words);
    }
}

/// Whether every symbol of `blocks` is new when it is placed: its name has
/// no place before, neither from the start nor as a variable of an earlier
/// body.
pub open spec fn names_fresh(blocks: Seq<BlockView>, s: Layout) -> bool {
    forall|k: int|
        0 <= k < blocks.len() ==> !blocks_placed(blocks.take(k), s).vars.contains_key(
            (#[trigger] blocks[k]).0,
        )
}

/// Whether `vars` holds every variable that a body of `blocks` names.
pub open spec fn bodies_known(blocks: Seq<BlockView>, vars: Map<Seq<char>, i32>) -> bool {
    forall|b: int| 0 <= b < blocks.len() ==> names_known((#[trigger] blocks[b]).1, vars)
}

/// The words of bodies whose names are known stay the same when more names
/// become known.
pub proof fn lemma_blocks_encoded_stable(
    blocks: Seq<BlockView>,
    v1: Map<Seq<char>, i32>,
    v2: Map<Seq<char>, i32>,
)
    requires
        extends(v1, v2),
        bodies_known(blocks, v1),
    ensures
        encoded_blocks(blocks, v1) == encoded_blocks(blocks, v2),
    decreases blocks.len(),
{
    if blocks.len() > 0 {
        assert(bodies_known(blocks.drop_last(), v1)) by {
            assert forall|b: int| 0 <= b < blocks.drop_last().len() implies names_known(
                (#[trigger] blocks.drop_last()[b]).1,
                v1,
            ) by {
                assert(blocks.drop_last()[b] == blocks[b]);
            }
        }
        lemma_blocks_encoded_stable(blocks.drop_last(), v1, v2);
        assert(names_known(blocks.last().1, v1)) by {
            assert(blocks.last() == blocks[blocks.len() - 1]);
        }
        lemma_list_encoded_stable(blocks.last().1, v1, v2);
    }
}

/// Where every symbol is new when it is placed, the symbol section is the
/// words of the bodies under the names as they are after it, and every
/// name that had a place keeps it.
pub proof fn lemma_blocks_encoded(blocks: Seq<BlockView>, s: Layout)
    requires
        place_blocks(blocks, s) is Ok,
        names_fresh(blocks, s),
    ensures
        blocks_placed(blocks, s).words == s.words + encoded_blocks(
            blocks,
            blocks_placed(blocks, s).vars,
        ),
        extends(s.vars, blocks_placed(blocks, s).vars),
        bodies_known(blocks, blocks_placed(blocks, s).vars),
    decreases blocks.len(),
{
    let after = blocks_placed(blocks, s);
    if blocks.len() > 0 {
        let rest = blocks.drop_last();
        let before = blocks_placed(rest, s);
        let block = blocks.last();
        assert(names_fresh(rest, s)) by {
            assert forall|k: int| 0 <= k < rest.len() implies !blocks_placed(
                rest.take(k),
                s,
            ).vars.contains_key((#[trigger] rest[k]).0) by {
                assert(rest.take(k) =~= blocks.take(k));
                assert(rest[k] == blocks[k]);
            }
        }
        lemma_blocks_encoded(rest, s);
        assert(!before.vars.contains_key(block.0)) by {
            assert(blocks.take(blocks.len() - 1) =~= rest);
            assert(block == blocks[blocks.len() - 1]);
        }
        let first = EmitState {
            words: Seq::empty(),
            vars: before.vars.insert(block.0, before.symbol_addr),
            var_addr: before.var_addr,
        };
        lemma_emit_encoded(block.1, first);
        lemma_emit_effects(block.1, first);
        assert(extends(before.vars, after.vars)) by {
            assert forall|name: Seq<char>| #[trigger]
                before.vars.contains_key(name) implies after.vars.contains_key(name)
                && after.vars[name] == before.vars[name] by {
                assert(first.vars.contains_key(name));
            }
        }
        assert(extends(s.vars, after.vars)) by {
            assert forall|name: Seq<char>| #[trigger] s.vars.contains_key(name) implies after.vars.contains_key(
                name,
            ) && after.vars[name] == s.vars[name] by {
                assert(before.vars.contains_key(name));
            }
        }
        lemma_blocks_encoded_stable(rest, before.vars, after.vars);
        assert(bodies_known(blocks, after.vars)) by {
            assert forall|b: int| 0 <= b < blocks.len() implies names_known(
                (#[trigger] blocks[b]).1,
                after.vars,
            ) by {
                if b < blocks.len() - 1 {
                    assert(rest[b] == blocks[b]);
                    assert(names_known(rest[b].1, before.vars));
                    assert forall|k: int, name: Seq<char>|
                        0 <= k < blocks[b].1.len() && mentions(
                            #[trigger] blocks[b].1[k],
                            name,
                        ) implies #[trigger] after.vars.contains_key(name) by {
                        assert(before.vars.contains_key(name));
                    }
                }
            }
        }
        assert(after.words =~= s.words + encoded_blocks(blocks, after.vars));
    } else {
        assert(s.words + encoded_blocks(blocks, s.vars) =~= s.words);
    }
}

/// Every variable is emitted as the address that it has in the end: where
/// every symbol is new when it is placed, the words of a laid-out program
/// are the words of its bodies and of its main code under the final names.
pub proof fn lemma_layout_encoded(r: IrResultView, start: Layout)
    requires
        laid_out(r, start) is Ok,
        names_fresh(r.blocks, start),
    ensures
        final_layout(r, start).words == start.words + encoded_blocks(
            r.blocks,
            final_layout(r, start).vars,
        ) + encoded_list(r.ir, final_layout(r, start).vars),
{
    let placed = blocks_placed(r.blocks, start);
    let last = final_layout(r, start);
    let from = state_of(placed.words, placed.vars, placed.var_addr);
    lemma_blocks_encoded(r.blocks, start);
    lemma_emit_encoded(r.ir, from);
    lemma_emit_effects(r.ir, from);
    lemma_blocks_encoded_stable(r.blocks, placed.vars, last.vars);
    assert(last.words =~= start.words + encoded_blocks(r.blocks, last.vars) + encoded_list(
        r.ir,
        last.vars,
    ));
}

/// Removing dead code changes neither the layout of a program nor where
/// laying it out ends, whether that succeeds or fails.
pub proof fn lemma_dead_code_keeps_layout(r: IrResultView, start: Layout)
    ensures
        laid_out(IrResultView { ir: without_dead_code(r.ir), ..r }, start) == laid_out(r, start),
        layout_end(IrResultView { ir: without_dead_code(r.ir), ..r }, start) == layout_end(
            r,
            start,
        ),
        laid_out(
            IrResultView { ir: without_dead_code(without_dead_code(r.ir)), ..r },
            start,
        ) == laid_out(r, start),
        layout_end(
            IrResultView { ir: without_dead_code(without_dead_code(r.ir)), ..r },
            start,
        ) == layout_end(r, start),
{
    assert((IrResultView { ir: without_dead_code(r.ir), ..r }) == r);
}

} // verus!
