//! The structural laws of block decomposition, proved once for every
//! decomposition the library produces.

use vstd::prelude::*;
use vstd::multiset::Multiset;
use crate::instruction::{Instruction, LineRow, ProgramLanguage, ColumnType,
    spec_instruction_from_line_row, spec_is_prologue_complete};
use crate::block::{Block, FunctionDie, spec_first_halt_at_or_after};
use crate::sequence::{
    spec_sequence_instructions, spec_materialize, spec_valid_decomposition, spec_blocks_sorted,
    spec_flatten_blocks, spec_is_subrange_at, spec_block_starts_at, spec_steps_to_resolvable,
    lemma_materialize_shape, lemma_flatten_remove,
};
use crate::breakpoint::{spec_sequence_halt_at_or_after, spec_halt_for_unit};
use crate::breakpoint::{UnitInfo, VerifiedBreakpoint};

verus! {

/// Rows with monotonically non-decreasing addresses, lying in the
/// sequence's range until the end marker.
pub open spec fn spec_rows_well_formed(rows: Seq<LineRow>, start: u64, end: u64) -> bool {
    (forall|i: int, j: int| 0 <= i < j < rows.len()
        ==> (#[trigger] rows[i]).address <= (#[trigger] rows[j]).address)
    && (forall|i: int| 0 <= i < rows.len() && !(#[trigger] rows[i]).end_sequence
        ==> start <= rows[i].address < end)
}

/// Rows with strictly increasing addresses.
pub open spec fn spec_rows_strict(rows: Seq<LineRow>) -> bool {
    forall|i: int, j: int| 0 <= i < j < rows.len()
        ==> (#[trigger] rows[i]).address < (#[trigger] rows[j]).address
}

/// Within every block of a valid decomposition of well-formed rows, the
/// instruction addresses are monotonically non-decreasing, and every
/// instruction's address lies in the sequence's address range.
pub proof fn lemma_block_addresses_in_range(
    blocks: Seq<Block>,
    rows: Seq<LineRow>,
    language: ProgramLanguage,
    dies: Seq<FunctionDie>,
    start: u64,
    end: u64,
)
    requires
        spec_valid_decomposition(blocks, spec_sequence_instructions(rows, language), dies),
        spec_rows_well_formed(rows, start, end),
    ensures
        forall|k: int, i: int, j: int| 0 <= k < blocks.len()
            && 0 <= i <= j < (#[trigger] blocks[k]).instructions@.len()
            ==> (#[trigger] blocks[k].instructions@[i]).address
                <= (#[trigger] blocks[k].instructions@[j]).address,
        forall|k: int, i: int| 0 <= k < blocks.len()
            && 0 <= i < (#[trigger] blocks[k]).instructions@.len()
            ==> start <= (#[trigger] blocks[k].instructions@[i]).address < end,
{
    let m = spec_sequence_instructions(rows, language);
    lemma_materialize_shape(rows, language, false, None);
    assert forall|k: int, i: int, j: int| 0 <= k < blocks.len()
        && 0 <= i <= j < (#[trigger] blocks[k]).instructions@.len()
        implies (#[trigger] blocks[k].instructions@[i]).address
            <= (#[trigger] blocks[k].instructions@[j]).address by {
        let a = choose|a: int| spec_is_subrange_at(blocks[k].instructions@, m, a);
        assert(blocks[k].instructions@[i] == m[a + i]);
        assert(blocks[k].instructions@[j] == m[a + j]);
        assert(m[a + i].address == rows[a + i].address);
        assert(m[a + j].address == rows[a + j].address);
    }
    assert forall|k: int, i: int| 0 <= k < blocks.len()
        && 0 <= i < (#[trigger] blocks[k]).instructions@.len()
        implies start <= (#[trigger] blocks[k].instructions@[i]).address < end by {
        let a = choose|a: int| spec_is_subrange_at(blocks[k].instructions@, m, a);
        assert(blocks[k].instructions@[i] == m[a + i]);
        assert(m[a + i].address == rows[a + i].address && !rows[a + i].end_sequence);
    }
}

/// Every `steps_to` edge of a valid decomposition names the starting
/// address of some block of the same sequence.
pub proof fn lemma_steps_to_targets(
    blocks: Seq<Block>,
    instrs: Seq<Instruction>,
    dies: Seq<FunctionDie>,
)
    requires
        spec_valid_decomposition(blocks, instrs, dies),
    ensures
        forall|k: int| 0 <= k < blocks.len() && (#[trigger] blocks[k]).steps_to is Some
            ==> exists|j: int| 0 <= j < blocks.len()
                && (#[trigger] blocks[j]).instructions@.first().address
                    == blocks[k].steps_to->Some_0,
{
    assert forall|k: int| 0 <= k < blocks.len() && (#[trigger] blocks[k]).steps_to is Some
        implies exists|j: int| 0 <= j < blocks.len()
            && (#[trigger] blocks[j]).instructions@.first().address
                == blocks[k].steps_to->Some_0 by {
        assert(spec_steps_to_resolvable(blocks, k));
        let j = choose|j: int| #[trigger] spec_block_starts_at(blocks, j,
            blocks[k].steps_to->Some_0);
        assert(blocks[j].instructions@.first().address == blocks[k].steps_to->Some_0);
    }
}

/// The (address, file, line, column) tuple of an instruction.
pub open spec fn spec_instruction_tuple(i: Instruction) -> (u64, u64, Option<u64>, ColumnType) {
    (i.address, i.file_index, i.line, i.column)
}

/// The (address, file, line, column) tuple of a row.
pub open spec fn spec_row_tuple(r: LineRow) -> (u64, u64, Option<u64>, ColumnType) {
    (r.address, r.file_index, r.line, r.column)
}

/// Materialized instructions keep their rows' lines, where every row
/// carries a line of its own.
proof fn lemma_materialize_lines(
    rows: Seq<LineRow>,
    language: ProgramLanguage,
    prologue_completed: bool,
    previous_row: Option<LineRow>,
)
    requires
        forall|i: int| 0 <= i < rows.len() && !(#[trigger] rows[i]).end_sequence
            ==> rows[i].line is Some,
    ensures
        ({
            let m = spec_materialize(rows, language, prologue_completed, previous_row);
            forall|i: int| 0 <= i < m.len() ==> (#[trigger] m[i]).line == rows[i].line
        }),
    decreases rows.len(),
{
    lemma_materialize_shape(rows, language, prologue_completed, previous_row);
    if rows.len() != 0 {
        let row = rows.first();
        let completed = prologue_completed
            || spec_is_prologue_complete(row, language, previous_row);
        if !row.end_sequence {
            lemma_materialize_lines(rows.drop_first(), language, completed, Some(row));
            let m = spec_materialize(rows, language, prologue_completed, previous_row);
            let m2 = spec_materialize(rows.drop_first(), language, completed, Some(row));
            assert forall|i: int| 0 <= i < m.len()
                implies (#[trigger] m[i]).line == rows[i].line by {
                if i == 0 {
                    assert(rows[0].line is Some);
                    assert(m[0] == spec_instruction_from_line_row(completed, row,
                        previous_row));
                } else {
                    assert(m[i] == m2[i - 1]);
                    assert(rows.drop_first()[i - 1] == rows[i]);
                }
            }
        }
    }
}

/// Round trip: flattening the blocks of a valid decomposition yields the
/// same multiset of instructions as materializing the rows, and each
/// materialized instruction carries its row's (address, file, line, column)
/// tuple — so the blocks carry exactly the rows' tuples, minus the
/// end-sequence marker. The rows must each carry a line of their own,
/// since a row without one inherits the previous row's line.
pub proof fn lemma_round_trip(
    blocks: Seq<Block>,
    rows: Seq<LineRow>,
    language: ProgramLanguage,
    dies: Seq<FunctionDie>,
)
    requires
        spec_valid_decomposition(blocks, spec_sequence_instructions(rows, language), dies),
        forall|i: int| 0 <= i < rows.len() && !(#[trigger] rows[i]).end_sequence
            ==> rows[i].line is Some,
        forall|i: int| 0 <= i < rows.len() - 1 ==> !(#[trigger] rows[i]).end_sequence,
        rows.len() > 0 ==> rows.last().end_sequence,
    ensures
        ({
            let m = spec_sequence_instructions(rows, language);
            spec_flatten_blocks(blocks).to_multiset() == m.to_multiset()
            && (rows.len() > 0 ==> m.len() == rows.len() - 1)
            && (rows.len() == 0 ==> m.len() == 0)
            && forall|i: int| 0 <= i < m.len()
                ==> spec_instruction_tuple(#[trigger] m[i]) == spec_row_tuple(rows[i])
        }),
{
    let m = spec_sequence_instructions(rows, language);
    lemma_materialize_shape(rows, language, false, None);
    lemma_materialize_lines(rows, language, false, None);
    if rows.len() > 0 {
        if m.len() < rows.len() - 1 {
            assert(!rows[m.len() as int].end_sequence);
            assert(rows[m.len() as int].end_sequence);
        }
        if m.len() == rows.len() {
            assert(m[rows.len() - 1].address == rows[rows.len() - 1].address);
            assert(!rows[rows.len() - 1].end_sequence);
            assert(rows.last() == rows[rows.len() - 1]);
        }
    }
}

/// An element of a flattened block list sits in one of the blocks.
proof fn lemma_flatten_member(blocks: Seq<Block>, x: Instruction)
    requires
        spec_flatten_blocks(blocks).contains(x),
    ensures
        exists|k: int| 0 <= k < blocks.len()
            && (#[trigger] blocks[k]).instructions@.contains(x),
    decreases blocks.len(),
{
    if blocks.len() != 0 {
        let flat = spec_flatten_blocks(blocks);
        let head = blocks.first().instructions@;
        let rest = spec_flatten_blocks(blocks.drop_first());
        let p = choose|p: int| 0 <= p < flat.len() && flat[p] == x;
        if p < head.len() {
            assert(head[p] == x);
            assert(blocks[0].instructions@.contains(x));
        } else {
            assert(rest[p - head.len()] == x);
            assert(rest.contains(x));
            lemma_flatten_member(blocks.drop_first(), x);
            let k0 = choose|k: int| 0 <= k < blocks.drop_first().len()
                && (#[trigger] blocks.drop_first()[k]).instructions@.contains(x);
            assert(blocks[k0 + 1].instructions@.contains(x));
        }
    }
}

/// Strictly increasing rows materialize into pairwise distinct
/// instructions, each counted once.
proof fn lemma_materialized_distinct(rows: Seq<LineRow>, language: ProgramLanguage)
    requires
        spec_rows_strict(rows),
    ensures
        ({
            let m = spec_sequence_instructions(rows, language);
            m.no_duplicates()
            && (forall|i: int, j: int| 0 <= i < j < m.len()
                ==> (#[trigger] m[i]).address < (#[trigger] m[j]).address)
            && (forall|x: Instruction| #[trigger] m.to_multiset().count(x) <= 1)
        }),
{
    broadcast use vstd::seq_lib::group_to_multiset_ensures;

    let m = spec_sequence_instructions(rows, language);
    lemma_materialize_shape(rows, language, false, None);
    assert forall|i: int, j: int| 0 <= i < j < m.len()
        implies (#[trigger] m[i]).address < (#[trigger] m[j]).address by {
        assert(m[i].address == rows[i].address && m[j].address == rows[j].address);
    }
    assert(m.no_duplicates());
    m.lemma_multiset_has_no_duplicates();
    assert forall|x: Instruction| #[trigger] m.to_multiset().count(x) <= 1 by {
        if m.to_multiset().count(x) > 0 {
            assert(m.to_multiset().contains(x));
        }
    }
}

/// Two distinct blocks of a valid decomposition of strictly increasing
/// rows occupy disjoint index ranges of the instruction list.
proof fn lemma_blocks_disjoint(
    blocks: Seq<Block>,
    m: Seq<Instruction>,
    dies: Seq<FunctionDie>,
    i: int,
    j: int,
    ai: int,
    aj: int,
)
    requires
        spec_valid_decomposition(blocks, m, dies),
        forall|x: Instruction| #[trigger] m.to_multiset().count(x) <= 1,
        0 <= i < j < blocks.len(),
        spec_is_subrange_at(blocks[i].instructions@, m, ai),
        spec_is_subrange_at(blocks[j].instructions@, m, aj),
    ensures
        ai + blocks[i].instructions@.len() <= aj || aj + blocks[j].instructions@.len() <= ai,
{
    broadcast use vstd::seq_lib::group_to_multiset_ensures;

    let li = blocks[i].instructions@.len() as int;
    let lj = blocks[j].instructions@.len() as int;
    if !(ai + li <= aj || aj + lj <= ai) {
        // The index ranges overlap at some t; that instruction would be
        // counted twice in the flattened blocks but once in the list.
        let t = if ai <= aj { aj } else { ai };
        assert(ai <= t < ai + li && aj <= t < aj + lj);
        let x = m[t];
        assert(blocks[i].instructions@[t - ai] == x);
        assert(blocks[j].instructions@[t - aj] == x);
        assert(blocks[i].instructions@.contains(x));
        assert(blocks[j].instructions@.contains(x));
        lemma_flatten_remove(blocks, i);
        let removed = blocks.remove(i);
        assert(removed[j - 1] == blocks[j]);
        lemma_flatten_remove(removed, j - 1);
        assert(blocks[i].instructions@.to_multiset().count(x) > 0);
        assert(blocks[j].instructions@.to_multiset().count(x) > 0);
        assert(spec_flatten_blocks(blocks).to_multiset().count(x) >= 2);
        assert(m.to_multiset().count(x) <= 1);
    }
}

/// Of a valid, sorted decomposition of strictly increasing rows, the
/// blocks' starting addresses are strictly increasing, and no two blocks'
/// address ranges overlap: each block ends strictly before the next one
/// starts.
pub proof fn lemma_blocks_strictly_sorted(
    blocks: Seq<Block>,
    rows: Seq<LineRow>,
    language: ProgramLanguage,
    dies: Seq<FunctionDie>,
)
    requires
        spec_valid_decomposition(blocks, spec_sequence_instructions(rows, language), dies),
        spec_blocks_sorted(blocks),
        spec_rows_strict(rows),
    ensures
        forall|i: int, j: int| 0 <= i < j < blocks.len()
            ==> (#[trigger] blocks[i]).instructions@.first().address
                < (#[trigger] blocks[j]).instructions@.first().address,
        forall|i: int, j: int| 0 <= i < j < blocks.len()
            ==> (#[trigger] blocks[i]).instructions@.last().address
                < (#[trigger] blocks[j]).instructions@.first().address,
{
    let m = spec_sequence_instructions(rows, language);
    lemma_materialized_distinct(rows, language);
    assert forall|i: int, j: int| 0 <= i < j < blocks.len()
        implies (#[trigger] blocks[i]).instructions@.first().address
                < (#[trigger] blocks[j]).instructions@.first().address
            && (#[trigger] blocks[i]).instructions@.last().address
                < (#[trigger] blocks[j]).instructions@.first().address by {
        let ai = choose|a: int| spec_is_subrange_at(blocks[i].instructions@, m, a);
        let aj = choose|a: int| spec_is_subrange_at(blocks[j].instructions@, m, a);
        let li = blocks[i].instructions@.len() as int;
        let lj = blocks[j].instructions@.len() as int;
        lemma_blocks_disjoint(blocks, m, dies, i, j, ai, aj);
        assert(blocks[i].instructions@.first() == m[ai]);
        assert(blocks[j].instructions@.first() == m[aj]);
        assert(blocks[i].instructions@.last() == m[ai + li - 1]);
        if aj + lj <= ai {
            assert(m[aj].address < m[ai].address);
            assert(blocks[i].instructions@.first().address
                <= blocks[j].instructions@.first().address);
            assert(false);
        }
        assert(ai + li <= aj);
        assert(m[ai].address < m[aj].address);
        assert(m[ai + li - 1].address < m[aj].address);
    }
}

/// The first-halt search of one list returns the instruction at `p` when
/// everything before `p` lies below the requested address and `p` is a
/// halt point exactly at it.
proof fn lemma_first_halt_exact(instrs: Seq<Instruction>, address: u64, p: int)
    requires
        0 <= p < instrs.len(),
        instrs[p].address == address,
        instrs[p].role.spec_is_halt_location(),
        forall|q: int| 0 <= q < p ==> (#[trigger] instrs[q]).address < address,
    ensures
        spec_first_halt_at_or_after(instrs, address) matches Some(found)
            && found.address == address,
    decreases instrs.len(),
{
    if p == 0 {
    } else {
        assert(instrs.first().address < address);
        lemma_first_halt_exact(instrs.drop_first(), address, p - 1);
        assert forall|q: int| 0 <= q < p - 1
            implies (#[trigger] instrs.drop_first()[q]).address < address by {
            assert(instrs.drop_first()[q] == instrs[q + 1]);
        }
    }
}

/// The block search returns the result of block `t` when every earlier
/// block finds nothing.
proof fn lemma_sequence_halt_at_block(
    blocks: Seq<Block>,
    address: u64,
    t: int,
)
    requires
        0 <= t < blocks.len(),
        forall|k: int| 0 <= k < t
            ==> spec_first_halt_at_or_after((#[trigger] blocks[k]).instructions@, address)
                is None,
        spec_first_halt_at_or_after(blocks[t].instructions@, address) is Some,
    ensures
        spec_sequence_halt_at_or_after(blocks, address)
            == spec_first_halt_at_or_after(blocks[t].instructions@, address),
    decreases blocks.len(),
{
    if t > 0 {
        lemma_sequence_halt_at_block(blocks.drop_first(), address, t - 1);
        assert forall|k: int| 0 <= k < t - 1
            implies spec_first_halt_at_or_after(
                (#[trigger] blocks.drop_first()[k]).instructions@, address) is None by {
            assert(blocks.drop_first()[k] == blocks[k + 1]);
        }
        assert(blocks.drop_first()[t - 1] == blocks[t]);
    }
}

/// Where the search of one list finds nothing at or past an address, every
/// element lies below it or is no halt point; conversely a list whose
/// elements all lie below the address finds nothing.
proof fn lemma_first_halt_none_below(instrs: Seq<Instruction>, address: u64)
    requires
        forall|i: int| 0 <= i < instrs.len()
            ==> (#[trigger] instrs[i]).address < address,
    ensures
        spec_first_halt_at_or_after(instrs, address) is None,
    decreases instrs.len(),
{
    if instrs.len() != 0 {
        assert forall|i: int| 0 <= i < instrs.drop_first().len()
            implies (#[trigger] instrs.drop_first()[i]).address < address by {
            assert(instrs.drop_first()[i] == instrs[i + 1]);
        }
        lemma_first_halt_none_below(instrs.drop_first(), address);
    }
}

/// Resolving a breakpoint for the address of a halt-point instruction
/// yields that address itself: on a valid, sorted decomposition of
/// strictly increasing rows, the block search for a halt point at or past
/// `address` returns the halt point sitting exactly there.
#[verifier::rlimit(100)]
pub proof fn lemma_halt_point_resolves_to_itself(
    blocks: Seq<Block>,
    rows: Seq<LineRow>,
    language: ProgramLanguage,
    dies: Seq<FunctionDie>,
    address: u64,
)
    requires
        spec_valid_decomposition(blocks, spec_sequence_instructions(rows, language), dies),
        spec_blocks_sorted(blocks),
        spec_rows_strict(rows),
        exists|i: int| 0 <= i < spec_sequence_instructions(rows, language).len()
            && (#[trigger] spec_sequence_instructions(rows, language)[i]).address == address
            && spec_sequence_instructions(rows, language)[i].role.spec_is_halt_location(),
    ensures
        spec_sequence_halt_at_or_after(blocks, address) matches Some(found)
            && found.address == address,
{
    broadcast use vstd::seq_lib::group_to_multiset_ensures;

    let m = spec_sequence_instructions(rows, language);
    lemma_materialized_distinct(rows, language);
    lemma_blocks_strictly_sorted(blocks, rows, language, dies);
    let i0 = choose|i: int| 0 <= i < m.len() && (#[trigger] m[i]).address == address
        && m[i].role.spec_is_halt_location();
    let h = m[i0];
    assert(m.contains(h));
    assert(m.to_multiset().count(h) > 0);
    assert(spec_flatten_blocks(blocks).to_multiset().count(h) > 0);
    assert(spec_flatten_blocks(blocks).contains(h));
    lemma_flatten_member(blocks, h);
    let t = choose|k: int| 0 <= k < blocks.len()
        && (#[trigger] blocks[k]).instructions@.contains(h);
    let p = choose|p: int| 0 <= p < blocks[t].instructions@.len()
        && blocks[t].instructions@[p] == h;
    // Within block t everything before p lies below the address.
    let at = choose|a: int| spec_is_subrange_at(blocks[t].instructions@, m, a);
    assert forall|q: int| 0 <= q < p
        implies (#[trigger] blocks[t].instructions@[q]).address < address by {
        assert(blocks[t].instructions@[q] == m[at + q]);
        assert(blocks[t].instructions@[p] == m[at + p]);
        assert(m[at + q].address < m[at + p].address);
    }
    lemma_first_halt_exact(blocks[t].instructions@, address, p);
    // Every earlier block ends strictly before block t's start, which is
    // at or below the halt point's address.
    assert forall|k: int| 0 <= k < t
        implies spec_first_halt_at_or_after((#[trigger] blocks[k]).instructions@, address)
            is None by {
        assert(blocks[k].instructions@.last().address
            < blocks[t].instructions@.first().address);
        assert(blocks[t].instructions@.first() == m[at]);
        assert(blocks[t].instructions@[p] == m[at + p]);
        if p > 0 {
            assert(m[at].address < m[at + p].address);
        }
        assert(blocks[t].instructions@.first().address <= address);
        let ak = choose|a: int| spec_is_subrange_at(blocks[k].instructions@, m, a);
        assert forall|q: int| 0 <= q < blocks[k].instructions@.len()
            implies (#[trigger] blocks[k].instructions@[q]).address < address by {
            assert(blocks[k].instructions@[q] == m[ak + q]);
            assert(blocks[k].instructions@.last()
                == m[ak + blocks[k].instructions@.len() - 1]);
            if q < blocks[k].instructions@.len() - 1 {
                assert(m[ak + q].address
                    < m[ak + blocks[k].instructions@.len() - 1].address);
            }
            assert(blocks[k].instructions@[q].address
                <= blocks[k].instructions@.last().address);
        }
        lemma_first_halt_none_below(blocks[k].instructions@, address);
    }
    lemma_sequence_halt_at_block(blocks, address, t);
}


/// Any breakpoint the resolver can return for the address of an existing
/// halt point sits exactly at that address, provided the covering
/// sequence's rows are strictly increasing: the halt search of every valid
/// sorted decomposition lands on the halt point itself.
pub proof fn lemma_for_address_exact(
    unit: UnitInfo,
    si: int,
    address: u64,
    vb: VerifiedBreakpoint,
)
    requires
        0 <= si < unit.line_sequences@.len(),
        spec_halt_for_unit(unit, si, address, vb),
        spec_rows_strict(unit.line_sequences@[si].rows@),
        exists|i: int| 0 <= i < spec_sequence_instructions(unit.line_sequences@[si].rows@,
                unit.language).len()
            && (#[trigger] spec_sequence_instructions(unit.line_sequences@[si].rows@,
                unit.language)[i]).address == address
            && spec_sequence_instructions(unit.line_sequences@[si].rows@,
                unit.language)[i].role.spec_is_halt_location(),
    ensures
        vb.address == address,
{
    let rows = unit.line_sequences@[si].rows@;
    let blocks = choose|blocks: Seq<Block>|
        #[trigger] spec_valid_decomposition(blocks,
            spec_sequence_instructions(rows, unit.language), unit.function_dies@)
        && spec_blocks_sorted(blocks)
        && spec_sequence_halt_at_or_after(blocks, address) is Some
        && vb.address == spec_sequence_halt_at_or_after(blocks, address)->Some_0.address
        && crate::breakpoint::spec_resolves_location(unit.file_names@,
            spec_sequence_halt_at_or_after(blocks, address)->Some_0, vb.source_location);
    lemma_halt_point_resolves_to_itself(blocks, rows, unit.language, unit.function_dies@,
        address);
}

} // verus!
